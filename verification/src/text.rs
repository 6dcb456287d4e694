//! Character and string helpers shared by the screen, reader and encoders:
//! Unicode white-space trimming, decimal formatting and parsing, and small
//! conversions between `&str`, `String` and `Vec<char>`.

use vstd::prelude::*;
use vstd::std_specs::iter::IteratorSpec;

verus! {

/// `String::push` appends one character to the end of the string.
pub assume_specification[ String::push ](s: &mut String, ch: char)
    ensures
        final(s)@ == old(s)@.push(ch),
;

/// The characters with the Unicode `White_Space` property, which is what
/// `char::is_whitespace` (and therefore `str::trim_end`) tests for.
pub open spec fn is_ws(c: char) -> bool {
    ||| ('\u{9}' <= c && c <= '\u{d}')
    ||| c == ' '
    ||| c == '\u{85}'
    ||| c == '\u{a0}'
    ||| c == '\u{1680}'
    ||| ('\u{2000}' <= c && c <= '\u{200a}')
    ||| c == '\u{2028}'
    ||| c == '\u{2029}'
    ||| c == '\u{202f}'
    ||| c == '\u{205f}'
    ||| c == '\u{3000}'
}

pub fn is_whitespace(c: char) -> (r: bool)
    ensures
        r == is_ws(c),
{
    ('\u{9}' <= c && c <= '\u{d}') || c == ' ' || c == '\u{85}' || c == '\u{a0}' || c
        == '\u{1680}' || ('\u{2000}' <= c && c <= '\u{200a}') || c == '\u{2028}' || c
        == '\u{2029}' || c == '\u{202f}' || c == '\u{205f}' || c == '\u{3000}'
}

/// `s` with trailing white space removed.
pub open spec fn trim_end(s: Seq<char>) -> Seq<char>
    decreases s.len(),
{
    if s.len() > 0 && is_ws(s.last()) {
        trim_end(s.drop_last())
    } else {
        s
    }
}

/// `s` with leading white space removed.
pub open spec fn trim_start(s: Seq<char>) -> Seq<char>
    decreases s.len(),
{
    if s.len() > 0 && is_ws(s.first()) {
        trim_start(s.drop_first())
    } else {
        s
    }
}

/// Both ends trimmed.
pub open spec fn trim(s: Seq<char>) -> Seq<char> {
    trim_start(trim_end(s))
}

/// Number of trailing white-space characters that `trim_end` removes.
pub open spec fn trimmed_len(s: Seq<char>) -> nat
    decreases s.len(),
{
    if s.len() > 0 && is_ws(s.last()) {
        trimmed_len(s.drop_last())
    } else {
        s.len()
    }
}

pub proof fn lemma_trim_end_is_prefix(s: Seq<char>)
    ensures
        trimmed_len(s) <= s.len(),
        trim_end(s) == s.take(trimmed_len(s) as int),
    decreases s.len(),
{
    if s.len() > 0 && is_ws(s.last()) {
        lemma_trim_end_is_prefix(s.drop_last());
        assert(s.drop_last().take(trimmed_len(s) as int) == s.take(trimmed_len(s) as int));
    } else {
        assert(s.take(s.len() as int) == s);
    }
}

/// Removes trailing white space in place.
pub fn trim_end_chars(v: &mut Vec<char>)
    ensures
        final(v)@ == trim_end(old(v)@),
{
    while v.len() > 0 && is_whitespace(v[v.len() - 1])
        invariant
            trim_end(v@) == trim_end(old(v)@),
        decreases v.len(),
    {
        let ghost before = v@;
        v.pop();
        assert(v@ == before.drop_last());
    }
}

/// The characters of `s`, in order.
pub fn str_chars(s: &str) -> (r: Vec<char>)
    ensures
        r@ == s@,
{
    broadcast use vstd::string::group_string_axioms;

    let mut r: Vec<char> = Vec::new();
    let mut it = s.chars();
    loop
        invariant_except_break
            it.obeys_prophetic_iter_laws(),
            it.remaining() == s@.skip(r@.len() as int),
            r@ == s@.take(r@.len() as int),
            r@.len() <= s@.len(),
            it.decrease() is Some,
        ensures
            r@ == s@,
        decreases it.decrease()->0,
    {
        let ghost before = it;
        match it.next() {
            Some(c) => {
                assert(s@.skip(r@.len() as int).drop_first() == s@.skip(r@.len() + 1int));
                r.push(c);
                assert(r@ == s@.take(r@.len() as int));
            },
            None => {
                assert(r@ == s@);
                break ;
            },
        }
    }
    r
}

/// A `String` holding exactly the characters `v`.
pub fn string_from_chars(v: &[char]) -> (s: String)
    ensures
        s@ == v@,
{
    let mut s = String::new();
    let mut i: usize = 0;
    while i < v.len()
        invariant
            i <= v.len(),
            s@ == v@.take(i as int),
        decreases v.len() - i,
    {
        s.push(v[i]);
        i = i + 1;
        assert(s@ == v@.take(i as int));
    }
    assert(v@.take(v@.len() as int) == v@);
    s
}

/// Appends every character of `t` to `s`.
pub fn push_chars(s: &mut String, t: &[char])
    ensures
        final(s)@ == old(s)@ + t@,
{
    let mut i: usize = 0;
    while i < t.len()
        invariant
            i <= t.len(),
            s@ == old(s)@ + t@.take(i as int),
        decreases t.len() - i,
    {
        s.push(t[i]);
        i = i + 1;
        assert(s@ == old(s)@ + t@.take(i as int));
    }
    assert(t@.take(t@.len() as int) == t@);
}

/// Appends every character of `t` to `s`.
pub fn push_str(s: &mut String, t: &str)
    ensures
        final(s)@ == old(s)@ + t@,
{
    let cs = str_chars(t);
    push_chars(s, cs.as_slice());
}

/// The ASCII digit for `d < 10`.
pub open spec fn digit_char(d: nat) -> char {
    ((d + 48) as u8) as char
}

/// The decimal representation of `n` (no sign, no leading zeros).
pub open spec fn decimal(n: nat) -> Seq<char>
    decreases n,
{
    if n < 10 {
        seq![digit_char(n)]
    } else {
        decimal(n / 10).push(digit_char(n % 10))
    }
}

fn digit_of(d: u64) -> (c: char)
    requires
        d < 10,
    ensures
        c == digit_char(d as nat),
{
    let b: u8 = (d as u8) + 48;
    b as char
}

/// Appends the decimal representation of `n` to `s`.
pub fn push_decimal(s: &mut String, n: u64)
    ensures
        final(s)@ == old(s)@ + decimal(n as nat),
    decreases n,
{
    if n < 10 {
        s.push(digit_of(n));
        assert(decimal(n as nat) == seq![digit_char(n as nat)]);
    } else {
        push_decimal(s, n / 10);
        s.push(digit_of(n % 10));
        assert(old(s)@ + decimal((n / 10) as nat) + seq![digit_char((n % 10) as nat)] == old(s)@
            + decimal(n as nat));
    }
}

/// Value of an ASCII digit character.
pub open spec fn digit_value(c: char) -> nat {
    (c as nat - 48) as nat
}

pub open spec fn is_digit(c: char) -> bool {
    '0' <= c && c <= '9'
}

/// The value denoted by a run of decimal digits.
pub open spec fn digits_value(s: Seq<char>) -> nat
    decreases s.len(),
{
    if s.len() == 0 {
        0
    } else {
        digits_value(s.drop_last()) * 10 + digit_value(s.last())
    }
}

pub open spec fn all_digits(s: Seq<char>) -> bool {
    forall|i: int| 0 <= i < s.len() ==> is_digit(#[trigger] s[i])
}

/// What `<u32 as FromStr>::from_str` accepts and produces: an optional `+`
/// sign followed by at least one decimal digit, whose value fits in `u32`.
pub open spec fn parse_u32_spec(s: Seq<char>) -> Option<u32> {
    let body = if s.len() > 0 && s[0] == '+' {
        s.drop_first()
    } else {
        s
    };
    if body.len() > 0 && all_digits(body) && digits_value(body) <= u32::MAX {
        Some(digits_value(body) as u32)
    } else {
        None
    }
}

proof fn lemma_digits_value_monotone(s: Seq<char>, t: Seq<char>)
    requires
        all_digits(s + t),
    ensures
        digits_value(s) <= digits_value(s + t),
    decreases t.len(),
{
    if t.len() > 0 {
        assert((s + t).drop_last() == s + t.drop_last());
        assert(all_digits(s + t.drop_last())) by {
            assert forall|i: int| 0 <= i < (s + t.drop_last()).len() implies is_digit(
                #[trigger] (s + t.drop_last())[i],
            ) by {
                assert((s + t.drop_last())[i] == (s + t)[i]);
            }
        }
        lemma_digits_value_monotone(s, t.drop_last());
    } else {
        assert(s + t == s);
    }
}

/// Parses a decimal `u32` exactly as `str::parse::<u32>` does.
pub fn parse_u32(s: &[char]) -> (r: Option<u32>)
    ensures
        r == parse_u32_spec(s@),
{
    let start: usize = if s.len() > 0 && s[0] == '+' {
        1
    } else {
        0
    };
    let ghost body = if s@.len() > 0 && s@[0] == '+' {
        s@.drop_first()
    } else {
        s@
    };
    assert(body == s@.skip(start as int));
    if start >= s.len() {
        return None;
    }
    let mut v: u64 = 0;
    let mut i: usize = start;
    while i < s.len()
        invariant
            start <= i <= s.len(),
            body == s@.skip(start as int),
            body == (if s@.len() > 0 && s@[0] == '+' {
                s@.drop_first()
            } else {
                s@
            }),
            all_digits(s@.subrange(start as int, i as int)),
            v == digits_value(s@.subrange(start as int, i as int)),
            v <= u32::MAX,
        decreases s.len() - i,
    {
        let c = s[i];
        if !('0' <= c && c <= '9') {
            proof {
                assert(body[i - start] == s@[i as int]);
                assert(!is_digit(body[i - start]));
            }
            return None;
        }
        let d: u64 = (c as u32 - 48u32) as u64;
        let ghost pre = s@.subrange(start as int, i as int);
        assert(s@.subrange(start as int, i + 1) == pre.push(c));
        assert(s@.subrange(start as int, i + 1).drop_last() == pre);
        let nv = v * 10 + d;
        assert(digit_value(c) == d);
        assert(digits_value(s@.subrange(start as int, i + 1)) == nv);
        if nv > 0xffff_ffff {
            proof {
                let full = body;
                let pre1 = s@.subrange(start as int, i + 1);
                assert(full == pre1 + s@.subrange(i + 1, s@.len() as int));
                if all_digits(full) {
                    lemma_digits_value_monotone(pre1, s@.subrange(i + 1, s@.len() as int));
                }
            }
            return None;
        }
        v = nv;
        i = i + 1;
        assert(all_digits(s@.subrange(start as int, i as int))) by {
            assert forall|k: int| 0 <= k < (i - start) implies is_digit(
                #[trigger] s@.subrange(start as int, i as int)[k],
            ) by {
                if k < i - 1 - start {
                    assert(s@.subrange(start as int, i as int)[k] == pre[k]);
                }
            }
        }
    }
    assert(s@.subrange(start as int, s@.len() as int) == body);
    Some(v as u32)
}

/// ASCII upper-case letters mapped to lower case; everything else kept.
pub open spec fn lower_char(c: char) -> char {
    if 'A' <= c && c <= 'Z' {
        ((c as u32) + 32) as char
    } else {
        c
    }
}

/// What `to_ascii_lowercase` gives.
pub open spec fn ascii_lower(s: Seq<char>) -> Seq<char> {
    s.map_values(|c: char| lower_char(c))
}

fn lower_char_exec(c: char) -> (r: char)
    ensures
        r == lower_char(c),
{
    if 'A' <= c && c <= 'Z' {
        let b: u8 = (c as u8) + 32;
        b as char
    } else {
        c
    }
}

/// `v` with ASCII letters lowered.
pub fn to_ascii_lower(v: &[char]) -> (r: Vec<char>)
    ensures
        r@ == ascii_lower(v@),
{
    let mut r: Vec<char> = Vec::new();
    let mut i: usize = 0;
    while i < v.len()
        invariant
            i <= v.len(),
            r@ == ascii_lower(v@.take(i as int)),
        decreases v.len() - i,
    {
        r.push(lower_char_exec(v[i]));
        i = i + 1;
        assert(ascii_lower(v@.take(i as int)) =~= ascii_lower(v@.take(i - 1)).push(
            lower_char(v@[i - 1]),
        ));
    }
    assert(v@.take(v@.len() as int) == v@);
    r
}

pub proof fn lemma_trim_start_is_suffix(s: Seq<char>)
    ensures
        exists|k: int| 0 <= k <= s.len() && trim_start(s) == s.skip(k) && (forall|j: int|
            0 <= j < k ==> is_ws(#[trigger] s[j])) && (k < s.len() ==> !is_ws(s[k])),
    decreases s.len(),
{
    if s.len() > 0 && is_ws(s.first()) {
        lemma_trim_start_is_suffix(s.drop_first());
        let k = choose|k: int|
            0 <= k <= s.drop_first().len() && trim_start(s.drop_first()) == s.drop_first().skip(k)
                && (forall|j: int| 0 <= j < k ==> is_ws(#[trigger] s.drop_first()[j])) && (k
                < s.drop_first().len() ==> !is_ws(s.drop_first()[k]));
        assert(s.drop_first().skip(k) == s.skip(k + 1));
        assert forall|j: int| 0 <= j < k + 1 implies is_ws(#[trigger] s[j]) by {
            if j > 0 {
                assert(s[j] == s.drop_first()[j - 1]);
            }
        }
        assert(k + 1 < s.len() ==> s[k + 1] == s.drop_first()[k]);
    } else {
        assert(s.skip(0) == s);
    }
}

/// `v` without leading and trailing white space.
pub fn trim_chars(v: &[char]) -> (r: Vec<char>)
    ensures
        r@ == trim(v@),
{
    let mut w = vstd::slice::slice_to_vec(v);
    trim_end_chars(&mut w);
    let ghost e = w@;
    let mut k: usize = 0;
    while k < w.len() && is_whitespace(w[k])
        invariant
            k <= w@.len(),
            w@ == e,
            forall|j: int| 0 <= j < k ==> is_ws(#[trigger] e[j]),
        decreases w.len() - k,
    {
        k = k + 1;
    }
    proof {
        lemma_trim_start_is_suffix(e);
        let k2 = choose|k2: int|
            0 <= k2 <= e.len() && trim_start(e) == e.skip(k2) && (forall|j: int|
                0 <= j < k2 ==> is_ws(#[trigger] e[j])) && (k2 < e.len() ==> !is_ws(e[k2]));
        if k2 < k {
            assert(is_ws(e[k2]));
        } else if k2 > k {
            assert(is_ws(e[k as int]));
        }
    }
    let mut r: Vec<char> = Vec::new();
    let mut i = k;
    while i < w.len()
        invariant
            k <= i <= w@.len(),
            w@ == e,
            r@ == e.subrange(k as int, i as int),
        decreases w.len() - i,
    {
        r.push(w[i]);
        i = i + 1;
        assert(r@ == e.subrange(k as int, i as int));
    }
    assert(e.subrange(k as int, e.len() as int) == e.skip(k as int));
    r
}

/// Whether the characters `v` are exactly those of `lit`.
pub fn chars_eq(v: &[char], lit: &str) -> (r: bool)
    ensures
        r == (v@ == lit@),
{
    let l = str_chars(lit);
    if v.len() != l.len() {
        return false;
    }
    let mut i: usize = 0;
    while i < v.len()
        invariant
            i <= v@.len(),
            v@.len() == l@.len(),
            l@ == lit@,
            forall|j: int| 0 <= j < i ==> v@[j] == l@[j],
        decreases v.len() - i,
    {
        if v[i] != l[i] {
            return false;
        }
        i = i + 1;
    }
    assert(v@ =~= l@);
    true
}

/// The index of the first `c` in `s`, if any.
pub open spec fn index_of(s: Seq<char>, c: char) -> Option<nat> {
    if exists|i: int| 0 <= i < s.len() && s[i] == c {
        Some(
            (choose|i: int| 0 <= i < s.len() && s[i] == c && forall|j: int| 0 <= j < i ==> s[j] != c) as nat,
        )
    } else {
        None
    }
}

/// The first index `i` with `s[i] == c`.
pub fn find_char(s: &[char], c: char) -> (r: Option<usize>)
    ensures
        match r {
            Some(i) => index_of(s@, c) == Some(i as nat) && i < s@.len() && s@[i as int] == c
                && forall|j: int| 0 <= j < i ==> s@[j] != c,
            None => index_of(s@, c) is None && forall|j: int| 0 <= j < s@.len() ==> s@[j] != c,
        },
{
    let mut i: usize = 0;
    while i < s.len()
        invariant
            i <= s@.len(),
            forall|j: int| 0 <= j < i ==> s@[j] != c,
        decreases s.len() - i,
    {
        if s[i] == c {
            proof {
                let k = choose|k: int|
                    0 <= k < s@.len() && s@[k] == c && forall|j: int| 0 <= j < k ==> s@[j] != c;
                if k < i {
                } else if k > i {
                    assert(s@[i as int] != c);
                }
            }
            return Some(i);
        }
        i = i + 1;
    }
    None
}

/// The pieces of `s` between occurrences of `sep` (what `str::split` yields).
pub open spec fn split_on(s: Seq<char>, sep: char) -> Seq<Seq<char>>
    decreases s.len(),
{
    if s.len() == 0 {
        seq![Seq::empty()]
    } else {
        let rest = split_on(s.drop_last(), sep);
        if s.last() == sep {
            rest.push(Seq::empty())
        } else {
            rest.update(rest.len() - 1, rest.last().push(s.last()))
        }
    }
}

pub proof fn lemma_split_on_nonempty(s: Seq<char>, sep: char)
    ensures
        split_on(s, sep).len() >= 1,
    decreases s.len(),
{
    if s.len() > 0 {
        lemma_split_on_nonempty(s.drop_last(), sep);
    }
}

/// The pieces of `s` between occurrences of `sep`.
pub fn split_chars(s: &[char], sep: char) -> (r: Vec<Vec<char>>)
    ensures
        r@.map_values(|p: Vec<char>| p@) == split_on(s@, sep),
        r@.len() >= 1,
{
    let mut done: Vec<Vec<char>> = Vec::new();
    let mut cur: Vec<char> = Vec::new();
    let mut i: usize = 0;
    while i < s.len()
        invariant
            i <= s@.len(),
            done@.map_values(|p: Vec<char>| p@).push(cur@) == split_on(s@.take(i as int), sep),
        decreases s.len() - i,
    {
        let ghost pre = s@.take(i as int);
        assert(s@.take(i + 1).drop_last() == pre);
        assert(s@.take(i + 1).last() == s@[i as int]);
        proof {
            lemma_split_on_nonempty(pre, sep);
        }
        let c = s[i];
        if c == sep {
            let piece = cur;
            let ghost before = done@;
            done.push(piece);
            cur = Vec::new();
            assert(done@.map_values(|p: Vec<char>| p@) =~= before.map_values(|p: Vec<char>| p@).push(
                piece@,
            ));
        } else {
            cur.push(c);
        }
        i = i + 1;
        assert(done@.map_values(|p: Vec<char>| p@).push(cur@) =~= split_on(s@.take(i as int), sep));
    }
    assert(s@.take(s@.len() as int) == s@);
    let ghost before = done@;
    done.push(cur);
    assert(done@.map_values(|p: Vec<char>| p@) =~= before.map_values(|p: Vec<char>| p@).push(
        cur@,
    ));
    done
}

/// A setting value trimmed and lower-cased, as the selectors compare it.
pub open spec fn normalized(v: Seq<char>) -> Seq<char> {
    ascii_lower(trim(v))
}

/// Trimmed and lower-cased characters of `v`.
pub fn normalize(v: &str) -> (r: Vec<char>)
    ensures
        r@ == normalized(v@),
{
    let cs = str_chars(v);
    let t = trim_chars(cs.as_slice());
    to_ascii_lower(t.as_slice())
}

/// Whether `a` and `b` hold the same characters.
pub fn same_chars(a: &[char], b: &[char]) -> (r: bool)
    ensures
        r == (a@ == b@),
{
    if a.len() != b.len() {
        return false;
    }
    let mut i: usize = 0;
    while i < a.len()
        invariant
            i <= a.len(),
            a.len() == b.len(),
            a@.take(i as int) == b@.take(i as int),
        decreases a.len() - i,
    {
        if a[i] != b[i] {
            assert(a@[i as int] != b@[i as int]);
            return false;
        }
        assert(a@.take(i + 1) == a@.take(i as int).push(a@[i as int]));
        assert(b@.take(i + 1) == b@.take(i as int).push(b@[i as int]));
        i = i + 1;
    }
    assert(a@.take(a@.len() as int) == a@);
    assert(b@.take(b@.len() as int) == b@);
    true
}

/// Splitting `a`, a separator and `b` gives the pieces of `a` and then
/// those of `b`.
pub proof fn lemma_split_on_concat(a: Seq<char>, b: Seq<char>, sep: char)
    ensures
        split_on(a + seq![sep] + b, sep) == split_on(a, sep) + split_on(b, sep),
    decreases b.len(),
{
    let s = a + seq![sep] + b;
    if b.len() == 0 {
        assert(s == (a + seq![sep]));
        assert((a + seq![sep]).drop_last() == a);
        assert(split_on(s, sep) =~= split_on(a, sep) + split_on(b, sep));
    } else {
        assert(s.drop_last() == a + seq![sep] + b.drop_last());
        lemma_split_on_concat(a, b.drop_last(), sep);
        lemma_split_on_nonempty(b.drop_last(), sep);
        lemma_split_on_nonempty(a, sep);
        let x = split_on(a, sep);
        let y = split_on(b.drop_last(), sep);
        if b.last() == sep {
            assert(split_on(s, sep) =~= x + y.push(Seq::empty()));
        } else {
            assert((x + y).last() == y.last());
            assert(split_on(s, sep) =~= x + y.update(y.len() - 1, y.last().push(b.last())));
        }
    }
}

/// `s` begins with `p`.
pub open spec fn has_prefix(s: Seq<char>, p: Seq<char>) -> bool {
    p.len() <= s.len() && s.take(p.len() as int) == p
}

pub fn starts_with_lit(v: &[char], lit: &str) -> (r: bool)
    ensures
        r == has_prefix(v@, lit@),
{
    let p = str_chars(lit);
    if p.len() > v.len() {
        return false;
    }
    let mut i: usize = 0;
    while i < p.len()
        invariant
            p@ == lit@,
            p.len() <= v.len(),
            i <= p.len(),
            v@.take(i as int) == p@.take(i as int),
        decreases p.len() - i,
    {
        if v[i] != p[i] {
            assert(v@.take(p@.len() as int)[i as int] != p@[i as int]);
            return false;
        }
        assert(v@.take(i + 1) == v@.take(i as int).push(v@[i as int]));
        assert(p@.take(i + 1) == p@.take(i as int).push(p@[i as int]));
        i = i + 1;
    }
    assert(p@.take(p@.len() as int) == p@);
    true
}

/// `s` without its trailing copies of `c`.
pub open spec fn trim_end_char(s: Seq<char>, c: char) -> Seq<char>
    decreases s.len(),
{
    if s.len() > 0 && s.last() == c {
        trim_end_char(s.drop_last(), c)
    } else {
        s
    }
}

/// Removes the trailing copies of `c` in place.
pub fn trim_end_char_vec(v: &mut Vec<char>, c: char)
    ensures
        final(v)@ == trim_end_char(old(v)@, c),
{
    while v.len() > 0 && v[v.len() - 1] == c
        invariant
            trim_end_char(v@, c) == trim_end_char(old(v)@, c),
        decreases v.len(),
    {
        v.pop();
    }
}

/// `s` with every occurrence of `pat` replaced by `with`, matching from the
/// left without overlaps, as `str::replace` does.
pub open spec fn replace_all(s: Seq<char>, pat: Seq<char>, with: Seq<char>) -> Seq<char>
    decreases s.len(),
{
    if s.len() == 0 || pat.len() == 0 {
        s
    } else if has_prefix(s, pat) {
        with + replace_all(s.skip(pat.len() as int), pat, with)
    } else {
        seq![s[0]] + replace_all(s.skip(1), pat, with)
    }
}

/// Whether `pat` occurs in `s` at position `i`.
pub fn occurs_at(s: &[char], pat: &[char], i: usize) -> (r: bool)
    requires
        i <= s.len(),
    ensures
        r == has_prefix(s@.skip(i as int), pat@),
{
    if pat.len() > s.len() - i {
        return false;
    }
    let mut k: usize = 0;
    while k < pat.len()
        invariant
            i + pat.len() <= s.len(),
            k <= pat.len(),
            s@.skip(i as int).take(k as int) == pat@.take(k as int),
        decreases pat.len() - k,
    {
        if s[i + k] != pat[k] {
            assert(s@.skip(i as int).take(pat@.len() as int)[k as int] != pat@[k as int]);
            return false;
        }
        assert(s@.skip(i as int).take(k + 1) == s@.skip(i as int).take(k as int).push(s@[i + k]));
        assert(pat@.take(k + 1) == pat@.take(k as int).push(pat@[k as int]));
        k = k + 1;
    }
    assert(pat@.take(pat@.len() as int) == pat@);
    true
}

/// `s` with every occurrence of `pat` replaced by `with`, left to right.
pub fn replace_chars(s: &[char], pat: &[char], with: &[char]) -> (r: Vec<char>)
    requires
        pat@.len() > 0,
    ensures
        r@ == replace_all(s@, pat@, with@),
{
    let mut out: Vec<char> = Vec::new();
    let mut i: usize = 0;
    assert(s@.skip(0) == s@);
    while i < s.len()
        invariant
            i <= s.len(),
            pat@.len() > 0,
            replace_all(s@, pat@, with@) == out@ + replace_all(s@.skip(i as int), pat@, with@),
        decreases s.len() - i,
    {
        let ghost rest = s@.skip(i as int);
        if occurs_at(s, pat, i) {
            assert(rest.skip(pat@.len() as int) == s@.skip(i + pat@.len()));
            let mut k: usize = 0;
            let ghost before = out@;
            while k < with.len()
                invariant
                    k <= with.len(),
                    out@ == before + with@.take(k as int),
                decreases with.len() - k,
            {
                out.push(with[k]);
                k = k + 1;
                assert(out@ == before + with@.take(k as int));
            }
            assert(with@.take(with@.len() as int) == with@);
            i = i + pat.len();
        } else {
            assert(rest.skip(1) == s@.skip(i + 1));
            out.push(s[i]);
            i = i + 1;
        }
    }
    assert(s@.skip(i as int) =~= Seq::<char>::empty());
    assert(out@ + Seq::<char>::empty() == out@);
    out
}

/// `decimal(n)` is a non-empty run of digits whose value is `n`.
pub proof fn lemma_decimal_digits(n: nat)
    ensures
        decimal(n).len() >= 1,
        all_digits(decimal(n)),
        digits_value(decimal(n)) == n,
    decreases n,
{
    if n < 10 {
        let c = digit_char(n);
        assert(((n + 48) as u8) as u32 == n + 48);
        assert(c as nat == n + 48);
        assert(digit_value(c) == n);
        assert(decimal(n) == seq![c]);
        assert(seq![c].drop_last() =~= Seq::<char>::empty());
        assert(seq![c].last() == c);
        assert(digits_value(Seq::<char>::empty()) == 0);
        assert(digits_value(seq![c]) == digits_value(seq![c].drop_last()) * 10 + digit_value(c));
    } else {
        lemma_decimal_digits(n / 10);
        let t = decimal(n / 10);
        let c = digit_char(n % 10);
        assert(((n % 10 + 48) as u8) as u32 == n % 10 + 48);
        assert(c as nat == n % 10 + 48);
        assert(digit_value(c) == n % 10);
        assert(decimal(n) == t.push(c));
        assert(t.push(c).drop_last() =~= t);
        assert(t.push(c).last() == c);
        assert(digits_value(t.push(c)) == digits_value(t) * 10 + digit_value(c));
        assert((n / 10) * 10 + n % 10 == n);
        assert(t.push(c).drop_last() =~= t);
        assert(t.push(c).last() == c);
        assert forall|i: int| 0 <= i < t.push(c).len() implies is_digit(#[trigger] t.push(c)[i]) by {
            if i < t.len() {
                assert(t.push(c)[i] == t[i]);
            }
        }
    }
}

/// A piece without `sep` splits into itself.
pub proof fn lemma_split_on_whole(s: Seq<char>, sep: char)
    requires
        forall|i: int| 0 <= i < s.len() ==> s[i] != sep,
    ensures
        split_on(s, sep) == seq![s],
    decreases s.len(),
{
    if s.len() > 0 {
        lemma_split_on_whole(s.drop_last(), sep);
        assert(s.drop_last().push(s.last()) =~= s);
        assert(seq![s.drop_last()].update(0, s.drop_last().push(s.last())) =~= seq![s]);
    } else {
        assert(s =~= Seq::<char>::empty());
    }
}

/// Text that neither starts nor ends with white space is its own trim.
pub proof fn lemma_trim_plain(s: Seq<char>)
    requires
        s.len() > 0,
        !is_ws(s[0]),
        !is_ws(s.last()),
    ensures
        trim(s) == s,
{
    assert(trim_end(s) == s);
    assert(s.first() == s[0]);
}

/// The first `c` in `s` is at `k` when `s[k]` is `c` and none comes before.
pub proof fn lemma_index_of_at(s: Seq<char>, c: char, k: nat)
    requires
        k < s.len(),
        s[k as int] == c,
        forall|j: int| 0 <= j < k ==> s[j] != c,
    ensures
        index_of(s, c) == Some(k),
{
    assert(exists|i: int| 0 <= i < s.len() && s[i] == c);
    let i = choose|i: int| 0 <= i < s.len() && s[i] == c && forall|j: int| 0 <= j < i ==> s[j] != c;
    assert(0 <= k < s.len() && s[k as int] == c && forall|j: int| 0 <= j < k ==> s[j] != c);
    if i < k {
        assert(s[i] != c);
    } else if i > k {
        assert(s[k as int] != c);
    }
}

} // verus!
