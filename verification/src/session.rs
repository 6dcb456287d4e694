//! What the session manager reports about a terminal session.

use vstd::prelude::*;
use crate::text::{
    decimal, push_decimal, push_str, split_on, trim, index_of, split_chars, trim_chars, find_char,
    string_from_chars,
};

verus! {

/// A session's identity and liveness: what launching, killing, listing and
/// pinging a session report.
#[derive(Debug, Clone)]
pub struct SessionInfo {
    pub id: String,
    pub name: String,
    pub command: String,
    pub cols: u16,
    pub rows: u16,
    pub alive: bool,
    pub pid: Option<u32>,
}

/// The report for a session: its label, or the empty string when it has
/// none, and the rest as given.
pub fn session_info(
    id: &str,
    name: Option<&str>,
    command: &str,
    cols: u16,
    rows: u16,
    alive: bool,
    pid: Option<u32>,
) -> (info: SessionInfo)
    ensures
        info.id@ == id@,
        info.name@ == match name {
            Some(n) => n@,
            None => Seq::<char>::empty(),
        },
        info.command@ == command@,
        info.cols == cols,
        info.rows == rows,
        info.alive == alive,
        info.pid == pid,
{
    let mut i = String::new();
    push_str(&mut i, id);
    let mut n = String::new();
    match name {
        Some(s) => push_str(&mut n, s),
        None => {},
    }
    let mut c = String::new();
    push_str(&mut c, command);
    SessionInfo { id: i, name: n, command: c, cols, rows, alive, pid }
}

/// The id of the `seq`-th session launched by process `pid`:
/// `kou-<pid>-<seq>`.
pub fn session_id(pid: u32, seq: u64) -> (s: String)
    ensures
        s@ == "kou-"@ + decimal(pid as nat) + seq!['-'] + decimal(seq as nat),
{
    let mut s = String::new();
    push_str(&mut s, "kou-");
    push_decimal(&mut s, pid as u64);
    s.push('-');
    push_decimal(&mut s, seq);
    s
}

/// `s` with every line feed turned into a comma, so that splitting at
/// commas splits at both.
pub open spec fn lf_as_comma(s: Seq<char>) -> Seq<char> {
    s.map_values(|c: char| if c == '\n' { ',' } else { c })
}

/// The `KEY=VALUE` pair one entry gives: the entry trimmed, the key before
/// its first `=` trimmed, the value after it as it stands; nothing for an
/// empty entry or one without `=`.
pub open spec fn env_pair(entry: Seq<char>) -> Option<(Seq<char>, Seq<char>)> {
    let t = trim(entry);
    if t.len() == 0 {
        None
    } else {
        match index_of(t, '=') {
            Some(k) => Some((trim(t.take(k as int)), t.skip(k + 1int))),
            None => None,
        }
    }
}

/// The pairs of a list of entries, in order, malformed entries dropped.
pub open spec fn env_pairs(entries: Seq<Seq<char>>) -> Seq<(Seq<char>, Seq<char>)>
    decreases entries.len(),
{
    if entries.len() == 0 {
        Seq::empty()
    } else {
        let prev = env_pairs(entries.drop_last());
        match env_pair(entries.last()) {
            Some(p) => prev.push(p),
            None => prev,
        }
    }
}

/// The environment a launch request asks for, `KEY=VALUE` entries separated
/// by commas or line feeds.
pub open spec fn env_of(raw: Seq<char>) -> Seq<(Seq<char>, Seq<char>)> {
    env_pairs(split_on(lf_as_comma(raw), ','))
}

/// Parses `"K=V\nK2=V2"` (entries separated by line feeds or commas) into
/// owned pairs; empty entries and entries without `=` are dropped.
pub fn parse_env_string(raw: &str) -> (r: Vec<(String, String)>)
    ensures
        r@.map_values(|p: (String, String)| (p.0@, p.1@)) == env_of(raw@),
{
    let cs = crate::text::str_chars(raw);
    let mut mapped: Vec<char> = Vec::new();
    let mut i: usize = 0;
    while i < cs.len()
        invariant
            cs@ == raw@,
            i <= cs.len(),
            mapped@ == lf_as_comma(raw@.take(i as int)),
        decreases cs.len() - i,
    {
        mapped.push(if cs[i] == '\n' { ',' } else { cs[i] });
        i = i + 1;
        assert(mapped@ =~= lf_as_comma(raw@.take(i as int)));
    }
    assert(raw@.take(raw@.len() as int) == raw@);
    let entries = split_chars(mapped.as_slice(), ',');
    let ghost es = split_on(lf_as_comma(raw@), ',');
    let mut out: Vec<(String, String)> = Vec::new();
    let mut j: usize = 0;
    while j < entries.len()
        invariant
            entries@.map_values(|p: Vec<char>| p@) == es,
            j <= entries.len(),
            out@.map_values(|p: (String, String)| (p.0@, p.1@)) == env_pairs(es.take(j as int)),
        decreases entries.len() - j,
    {
        assert(es.take(j + 1).drop_last() == es.take(j as int));
        assert(es.take(j + 1).last() == entries@[j as int]@);
        let t = trim_chars(entries[j].as_slice());
        if t.len() > 0 {
            match find_char(t.as_slice(), '=') {
                Some(k) => {
                    let key = trim_chars(vstd::slice::slice_subrange(t.as_slice(), 0, k));
                    let value = vstd::slice::slice_subrange(t.as_slice(), k + 1, t.len());
                    let ghost before = out@;
                    out.push((string_from_chars(key.as_slice()), string_from_chars(value)));
                    assert(out@.map_values(|p: (String, String)| (p.0@, p.1@)) =~= before.map_values(
                        |p: (String, String)| (p.0@, p.1@),
                    ).push((trim(t@.take(k as int)), t@.skip(k + 1int))));
                },
                None => {},
            }
        }
        j = j + 1;
    }
    assert(es.take(es.len() as int) == es);
    out
}

} // verus!
