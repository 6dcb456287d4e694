//! Keyboard input for a terminal session: text with its line ends turned
//! into carriage returns, and named key sequences (`ENTER`, `CTRL+C`, `UP`,
//! `F5`, …) turned into the bytes a terminal sends for them.

use vstd::prelude::*;
use vstd::utf8::{encode_utf8, decode_utf8, is_char_boundary};
use crate::text::{has_prefix, starts_with_lit, chars_eq, split_on, split_chars, str_chars, push_str, string_from_chars};

verus! {

// ── text input ──────────────────────────────────────────────────────────

/// `s` with every CR LF pair replaced by a single CR.
pub open spec fn crlf_to_cr(s: Seq<char>) -> Seq<char>
    decreases s.len(),
{
    if s.len() == 0 {
        Seq::empty()
    } else if s.len() >= 2 && s[0] == '\r' && s[1] == '\n' {
        seq!['\r'] + crlf_to_cr(s.skip(2))
    } else {
        seq![s[0]] + crlf_to_cr(s.skip(1))
    }
}

/// `s` with every LF replaced by a CR.
pub open spec fn lf_to_cr(s: Seq<char>) -> Seq<char> {
    s.map_values(|c: char| if c == '\n' { '\r' } else { c })
}

/// The text a terminal receives for `s`: CR LF and LF each become one CR.
pub open spec fn enter_as_cr(s: Seq<char>) -> Seq<char> {
    lf_to_cr(crlf_to_cr(s))
}

/// Translates text into PTY input bytes (UTF-8): CR LF and LF both become a
/// single CR, the way a terminal signals Enter.
pub fn encode_input(text: &str) -> (b: Vec<u8>)
    ensures
        b@ == encode_utf8(enter_as_cr(text@)),
{
    let cs = str_chars(text);
    let mut out: Vec<char> = Vec::new();
    let mut i: usize = 0;
    assert(text@.skip(0) == text@);
    assert(out@ + enter_as_cr(text@) == enter_as_cr(text@));
    while i < cs.len()
        invariant
            cs@ == text@,
            i <= cs.len(),
            enter_as_cr(text@) == out@ + enter_as_cr(text@.skip(i as int)),
        decreases cs.len() - i,
    {
        let ghost rest = text@.skip(i as int);
        if cs[i] == '\r' && i + 1 < cs.len() && cs[i + 1] == '\n' {
            assert(rest.skip(2) == text@.skip(i + 2));
            assert(crlf_to_cr(rest) == seq!['\r'] + crlf_to_cr(rest.skip(2)));
            assert(lf_to_cr(seq!['\r'] + crlf_to_cr(rest.skip(2))) =~= seq!['\r'] + lf_to_cr(crlf_to_cr(rest.skip(2))));
            out.push('\r');
            i = i + 2;
        } else {
            assert(rest.skip(1) == text@.skip(i + 1));
            assert(crlf_to_cr(rest) == seq![rest[0]] + crlf_to_cr(rest.skip(1)));
            let c = if cs[i] == '\n' {
                '\r'
            } else {
                cs[i]
            };
            assert(lf_to_cr(seq![rest[0]] + crlf_to_cr(rest.skip(1))) =~= seq![c] + lf_to_cr(crlf_to_cr(rest.skip(1))));
            out.push(c);
            i = i + 1;
        }
    }
    assert(text@.skip(i as int) =~= Seq::<char>::empty());
    assert(out@ + Seq::<char>::empty() == out@);
    let s = string_from_chars(out.as_slice());
    let bytes = s.as_str().as_bytes();
    let mut v: Vec<u8> = Vec::new();
    let mut j: usize = 0;
    while j < bytes.len()
        invariant
            j <= bytes@.len(),
            v@ == bytes@.take(j as int),
        decreases bytes.len() - j,
    {
        v.push(bytes[j]);
        j = j + 1;
        assert(v@ == bytes@.take(j as int));
    }
    assert(bytes@.take(bytes@.len() as int) == bytes@);
    v
}

// ── named keys ──────────────────────────────────────────────────────────

/// What `str::to_uppercase` gives for `s`: every character replaced by its
/// full Unicode upper-case mapping (which may be several characters).
pub uninterp spec fn unicode_upper(s: Seq<char>) -> Seq<char>;

/// `c` upper-cased if it is an ASCII lower-case letter.
pub open spec fn ascii_upper(c: char) -> char {
    if 'a' <= c && c <= 'z' {
        ((c as u32) - 32) as char
    } else {
        c
    }
}

/// Wraps `str::to_uppercase`. Its result is the Unicode upper-case mapping
/// named `unicode_upper`; of the case tables only the ASCII part is stated:
/// an ASCII string comes back with its lower-case letters upper-cased and
/// every other character as it was.
#[verifier::external_body]
fn upper_case(s: &str) -> (r: String)
    ensures
        r@ == unicode_upper(s@),
        (forall|i: int| 0 <= i < s@.len() ==> (#[trigger] s@[i] as u32) < 128) ==> r@
            == s@.map_values(|c: char| ascii_upper(c)),
{
    s.to_uppercase()
}

/// The bytes of a named key (`u` is the upper-cased token), if it names one.
pub open spec fn named_key(u: Seq<char>) -> Option<Seq<u8>> {
    if u == "ENTER"@ || u == "RETURN"@ {
        Some(seq![0x0du8])
    } else if u == "TAB"@ {
        Some(seq![0x09u8])
    } else if u == "ESCAPE"@ || u == "ESC"@ {
        Some(seq![0x1bu8])
    } else if u == "BACKSPACE"@ || u == "BS"@ {
        Some(seq![0x7fu8])
    } else if u == "DELETE"@ || u == "DEL"@ {
        Some(seq![0x1bu8, 0x5bu8, 0x33u8, 0x7eu8])
    } else if u == "UP"@ {
        Some(seq![0x1bu8, 0x5bu8, 0x41u8])
    } else if u == "DOWN"@ {
        Some(seq![0x1bu8, 0x5bu8, 0x42u8])
    } else if u == "RIGHT"@ {
        Some(seq![0x1bu8, 0x5bu8, 0x43u8])
    } else if u == "LEFT"@ {
        Some(seq![0x1bu8, 0x5bu8, 0x44u8])
    } else if u == "HOME"@ {
        Some(seq![0x1bu8, 0x5bu8, 0x48u8])
    } else if u == "END"@ {
        Some(seq![0x1bu8, 0x5bu8, 0x46u8])
    } else if u == "PAGEUP"@ || u == "PAGE_UP"@ {
        Some(seq![0x1bu8, 0x5bu8, 0x35u8, 0x7eu8])
    } else if u == "PAGEDOWN"@ || u == "PAGE_DOWN"@ {
        Some(seq![0x1bu8, 0x5bu8, 0x36u8, 0x7eu8])
    } else if u == "INSERT"@ {
        Some(seq![0x1bu8, 0x5bu8, 0x32u8, 0x7eu8])
    } else if u == "F1"@ {
        Some(seq![0x1bu8, 0x4fu8, 0x50u8])
    } else if u == "F2"@ {
        Some(seq![0x1bu8, 0x4fu8, 0x51u8])
    } else if u == "F3"@ {
        Some(seq![0x1bu8, 0x4fu8, 0x52u8])
    } else if u == "F4"@ {
        Some(seq![0x1bu8, 0x4fu8, 0x53u8])
    } else if u == "F5"@ {
        Some(seq![0x1bu8, 0x5bu8, 0x31u8, 0x35u8, 0x7eu8])
    } else if u == "F6"@ {
        Some(seq![0x1bu8, 0x5bu8, 0x31u8, 0x37u8, 0x7eu8])
    } else if u == "F7"@ {
        Some(seq![0x1bu8, 0x5bu8, 0x31u8, 0x38u8, 0x7eu8])
    } else if u == "F8"@ {
        Some(seq![0x1bu8, 0x5bu8, 0x31u8, 0x39u8, 0x7eu8])
    } else if u == "F9"@ {
        Some(seq![0x1bu8, 0x5bu8, 0x32u8, 0x30u8, 0x7eu8])
    } else if u == "F10"@ {
        Some(seq![0x1bu8, 0x5bu8, 0x32u8, 0x31u8, 0x7eu8])
    } else if u == "F11"@ {
        Some(seq![0x1bu8, 0x5bu8, 0x32u8, 0x33u8, 0x7eu8])
    } else if u == "F12"@ {
        Some(seq![0x1bu8, 0x5bu8, 0x32u8, 0x34u8, 0x7eu8])
    } else if u == "SPACE"@ {
        Some(seq![0x20u8])
    } else {
        None
    }
}

fn named_key_bytes(u: &[char]) -> (r: Option<Vec<u8>>)
    ensures
        named_key(u@) == match r {
            Some(v) => Some(v@),
            None => None,
        },
{
    if chars_eq(u, "ENTER") || chars_eq(u, "RETURN") {
        Some(vec![0x0du8])
    } else if chars_eq(u, "TAB") {
        Some(vec![0x09u8])
    } else if chars_eq(u, "ESCAPE") || chars_eq(u, "ESC") {
        Some(vec![0x1bu8])
    } else if chars_eq(u, "BACKSPACE") || chars_eq(u, "BS") {
        Some(vec![0x7fu8])
    } else if chars_eq(u, "DELETE") || chars_eq(u, "DEL") {
        Some(vec![0x1bu8, 0x5bu8, 0x33u8, 0x7eu8])
    } else if chars_eq(u, "UP") {
        Some(vec![0x1bu8, 0x5bu8, 0x41u8])
    } else if chars_eq(u, "DOWN") {
        Some(vec![0x1bu8, 0x5bu8, 0x42u8])
    } else if chars_eq(u, "RIGHT") {
        Some(vec![0x1bu8, 0x5bu8, 0x43u8])
    } else if chars_eq(u, "LEFT") {
        Some(vec![0x1bu8, 0x5bu8, 0x44u8])
    } else if chars_eq(u, "HOME") {
        Some(vec![0x1bu8, 0x5bu8, 0x48u8])
    } else if chars_eq(u, "END") {
        Some(vec![0x1bu8, 0x5bu8, 0x46u8])
    } else if chars_eq(u, "PAGEUP") || chars_eq(u, "PAGE_UP") {
        Some(vec![0x1bu8, 0x5bu8, 0x35u8, 0x7eu8])
    } else if chars_eq(u, "PAGEDOWN") || chars_eq(u, "PAGE_DOWN") {
        Some(vec![0x1bu8, 0x5bu8, 0x36u8, 0x7eu8])
    } else if chars_eq(u, "INSERT") {
        Some(vec![0x1bu8, 0x5bu8, 0x32u8, 0x7eu8])
    } else if chars_eq(u, "F1") {
        Some(vec![0x1bu8, 0x4fu8, 0x50u8])
    } else if chars_eq(u, "F2") {
        Some(vec![0x1bu8, 0x4fu8, 0x51u8])
    } else if chars_eq(u, "F3") {
        Some(vec![0x1bu8, 0x4fu8, 0x52u8])
    } else if chars_eq(u, "F4") {
        Some(vec![0x1bu8, 0x4fu8, 0x53u8])
    } else if chars_eq(u, "F5") {
        Some(vec![0x1bu8, 0x5bu8, 0x31u8, 0x35u8, 0x7eu8])
    } else if chars_eq(u, "F6") {
        Some(vec![0x1bu8, 0x5bu8, 0x31u8, 0x37u8, 0x7eu8])
    } else if chars_eq(u, "F7") {
        Some(vec![0x1bu8, 0x5bu8, 0x31u8, 0x38u8, 0x7eu8])
    } else if chars_eq(u, "F8") {
        Some(vec![0x1bu8, 0x5bu8, 0x31u8, 0x39u8, 0x7eu8])
    } else if chars_eq(u, "F9") {
        Some(vec![0x1bu8, 0x5bu8, 0x32u8, 0x30u8, 0x7eu8])
    } else if chars_eq(u, "F10") {
        Some(vec![0x1bu8, 0x5bu8, 0x32u8, 0x31u8, 0x7eu8])
    } else if chars_eq(u, "F11") {
        Some(vec![0x1bu8, 0x5bu8, 0x32u8, 0x33u8, 0x7eu8])
    } else if chars_eq(u, "F12") {
        Some(vec![0x1bu8, 0x5bu8, 0x32u8, 0x34u8, 0x7eu8])
    } else if chars_eq(u, "SPACE") {
        Some(vec![0x20u8])
    } else {
        None
    }
}

/// The characters of `part` after its first `n` UTF-8 bytes, or `None`
/// where byte `n` does not start a character (slicing there panics).
pub open spec fn chars_after_byte(part: Seq<char>, n: nat) -> Option<Seq<char>> {
    let b = encode_utf8(part);
    if is_char_boundary(b, n as int) {
        Some(decode_utf8(b.subrange(n as int, b.len() as int)))
    } else {
        None
    }
}

fn chars_after(part: &str, n: usize) -> (r: Option<Vec<char>>)
    ensures
        chars_after_byte(part@, n as nat) == match r {
            Some(v) => Some(v@),
            None => None,
        },
{
    if part.is_char_boundary(n) {
        let (_head, rest) = part.split_at(n);
        proof {
            vstd::utf8::encode_utf8_decode_utf8(rest@);
        }
        Some(str_chars(rest))
    } else {
        None
    }
}

/// Each character cut to its low byte, as `char as u8` does.
pub open spec fn low_bytes(s: Seq<char>) -> Seq<u8> {
    s.map_values(|c: char| c as u8)
}

fn push_low_bytes(buf: &mut Vec<u8>, s: &[char])
    ensures
        final(buf)@ == old(buf)@ + low_bytes(s@),
{
    let mut i: usize = 0;
    while i < s.len()
        invariant
            i <= s.len(),
            buf@ == old(buf)@ + low_bytes(s@.take(i as int)),
        decreases s.len() - i,
    {
        buf.push(s[i] as u8);
        i = i + 1;
        assert(low_bytes(s@.take(i as int)) =~= low_bytes(s@.take(i - 1)).push(s@[i - 1] as u8));
    }
    assert(s@.take(s@.len() as int) == s@);
}

/// An ASCII letter.
pub open spec fn is_ascii_letter(c: char) -> bool {
    ('a' <= c && c <= 'z') || ('A' <= c && c <= 'Z')
}

/// The control code of ASCII letter `c`: `CTRL+A` is 1, …, `CTRL+Z` is 26.
pub open spec fn ctrl_code(c: char) -> u8 {
    if 'a' <= c && c <= 'z' {
        (c as u32 - 96) as u8
    } else {
        (c as u32 - 64) as u8
    }
}

/// Why a key token was refused.
#[derive(Debug, Clone, Copy, PartialEq, Eq, Structural)]
pub enum KeyFault {
    /// `CTRL+` with nothing after it.
    NoLetterAfterCtrl,
    /// `CTRL+` followed by something other than an ASCII letter.
    InvalidCtrlKey,
}

/// The bytes of one space-free token: `Some(Ok(..))`, `Some(Err(..))` for a
/// refused `CTRL+` token, or `None` where the token's prefix cannot be cut
/// at a character boundary.
pub open spec fn token_outcome(part: Seq<char>) -> Option<Result<Seq<u8>, KeyFault>> {
    let u = unicode_upper(part);
    match named_key(u) {
        Some(b) => Some(Ok(b)),
        None => if has_prefix(u, "CTRL+"@) {
            match chars_after_byte(part, 5) {
                None => None,
                Some(rest) => if rest.len() == 0 {
                    Some(Err(KeyFault::NoLetterAfterCtrl))
                } else if is_ascii_letter(rest[0]) {
                    Some(Ok(seq![ctrl_code(rest[0])]))
                } else {
                    Some(Err(KeyFault::InvalidCtrlKey))
                },
            }
        } else if has_prefix(u, "ALT+"@) {
            match chars_after_byte(part, 4) {
                None => None,
                Some(rest) => Some(Ok(seq![0x1bu8] + low_bytes(rest))),
            }
        } else if has_prefix(u, "SHIFT+"@) {
            match chars_after_byte(part, 6) {
                None => None,
                Some(rest) => Some(Ok(low_bytes(rest))),
            }
        } else {
            Some(Ok(encode_utf8(part)))
        },
    }
}

fn token_bytes(part: &str) -> (r: Option<Result<Vec<u8>, KeyFault>>)
    ensures
        r is None ==> token_outcome(part@) is None,
        r matches Some(Ok(v)) ==> token_outcome(part@) == Some(Ok::<Seq<u8>, KeyFault>(v@)),
        r matches Some(Err(f)) ==> token_outcome(part@) == Some(Err::<Seq<u8>, KeyFault>(f)),
{
    let upper = upper_case(part);
    let u = str_chars(upper.as_str());
    if let Some(b) = named_key_bytes(u.as_slice()) {
        return Some(Ok(b));
    }
    if starts_with_lit(u.as_slice(), "CTRL+") {
        let rest = chars_after(part, 5)?;
        if rest.len() == 0 {
            return Some(Err(KeyFault::NoLetterAfterCtrl));
        }
        let ch = rest[0];
        let code: u8 = if 'a' <= ch && ch <= 'z' {
            (ch as u32 - 96) as u8
        } else if 'A' <= ch && ch <= 'Z' {
            (ch as u32 - 64) as u8
        } else {
            return Some(Err(KeyFault::InvalidCtrlKey));
        };
        let v = vec![code];
        assert(v@ == seq![code]);
        Some(Ok(v))
    } else if starts_with_lit(u.as_slice(), "ALT+") {
        let rest = chars_after(part, 4)?;
        let mut buf: Vec<u8> = vec![0x1bu8];
        assert(buf@ == seq![0x1bu8]);
        push_low_bytes(&mut buf, rest.as_slice());
        Some(Ok(buf))
    } else if starts_with_lit(u.as_slice(), "SHIFT+") {
        let rest = chars_after(part, 6)?;
        let mut buf: Vec<u8> = Vec::new();
        push_low_bytes(&mut buf, rest.as_slice());
        assert(Seq::<u8>::empty() + low_bytes(rest@) == low_bytes(rest@));
        Some(Ok(buf))
    } else {
        Some(Ok(vstd::slice::slice_to_vec(part.as_bytes())))
    }
}

/// A refused key token, with the token as written.
#[derive(Debug, Clone)]
pub struct KeysError {
    pub fault: KeyFault,
    pub part: String,
}

impl KeysError {
    /// The error text: `no letter after CTRL+ in '<token>'` or
    /// `invalid CTRL+key: <token>`.
    pub fn message(&self) -> (s: String)
        ensures
            s@ == match self.fault {
                KeyFault::NoLetterAfterCtrl => "no letter after CTRL+ in '"@ + self.part@ + "'"@,
                KeyFault::InvalidCtrlKey => "invalid CTRL+key: "@ + self.part@,
            },
    {
        let mut s = String::new();
        match self.fault {
            KeyFault::NoLetterAfterCtrl => {
                push_str(&mut s, "no letter after CTRL+ in '");
                push_str(&mut s, self.part.as_str());
                push_str(&mut s, "'");
            },
            KeyFault::InvalidCtrlKey => {
                push_str(&mut s, "invalid CTRL+key: ");
                push_str(&mut s, self.part.as_str());
            },
        }
        s
    }
}

/// The outcome of a whole key sequence, token by token in order: the bytes
/// of every token, or the first refused token with why, or `None` where a
/// token's prefix cannot be cut at a character boundary before any token was
/// refused.
pub open spec fn keys_outcome(parts: Seq<Seq<char>>) -> Option<Result<Seq<u8>, (KeyFault, Seq<char>)>>
    decreases parts.len(),
{
    if parts.len() == 0 {
        Some(Ok(Seq::empty()))
    } else {
        match keys_outcome(parts.drop_last()) {
            None => None,
            Some(Err(e)) => Some(Err(e)),
            Some(Ok(b)) => match token_outcome(parts.last()) {
                None => None,
                Some(Err(f)) => Some(Err((f, parts.last()))),
                Some(Ok(t)) => Some(Ok(b + t)),
            },
        }
    }
}

/// The outcome of the key sequence `keys`, split at every space.
pub open spec fn keys_result(keys: Seq<char>) -> Option<Result<Seq<u8>, (KeyFault, Seq<char>)>> {
    keys_outcome(split_on(keys, ' '))
}

/// The outcome of a parse as a plain value.
pub open spec fn parse_view(r: Result<Vec<u8>, KeysError>) -> Result<Seq<u8>, (KeyFault, Seq<char>)> {
    match r {
        Ok(v) => Ok(v@),
        Err(e) => Err((e.fault, e.part@)),
    }
}

proof fn lemma_keys_outcome_stops(parts: Seq<Seq<char>>, n: nat, m: nat)
    requires
        n <= m <= parts.len(),
        keys_outcome(parts.take(n as int)) matches Some(Ok(_)) ==> false,
    ensures
        keys_outcome(parts.take(m as int)) == keys_outcome(parts.take(n as int)),
    decreases m - n,
{
    if n < m {
        lemma_keys_outcome_stops(parts, n, (m - 1) as nat);
        assert(parts.take(m as int).drop_last() == parts.take(m - 1));
    }
}

fn scan_keys(keys: &str) -> (r: Option<Result<Vec<u8>, KeysError>>)
    ensures
        r is None ==> keys_result(keys@) is None,
        r matches Some(x) ==> keys_result(keys@) == Some(parse_view(x)),
{
    let cs = str_chars(keys);
    let parts = split_chars(cs.as_slice(), ' ');
    let ghost ps = split_on(keys@, ' ');
    let mut buf: Vec<u8> = Vec::new();
    let mut i: usize = 0;
    assert(ps.take(0) =~= Seq::<Seq<char>>::empty());
    while i < parts.len()
        invariant
            ps == split_on(keys@, ' '),
            parts@.map_values(|p: Vec<char>| p@) == ps,
            i <= parts.len(),
            keys_outcome(ps.take(i as int)) == Some(Ok::<Seq<u8>, (KeyFault, Seq<char>)>(buf@)),
        decreases parts.len() - i,
    {
        let part = string_from_chars(parts[i].as_slice());
        assert(part@ == ps[i as int]);
        assert(ps.take(i + 1).drop_last() == ps.take(i as int));
        assert(ps.take(i + 1).last() == ps[i as int]);
        match token_bytes(part.as_str()) {
            None => {
                proof {
                    lemma_keys_outcome_stops(ps, (i + 1) as nat, ps.len());
                    assert(ps.take(ps.len() as int) == ps);
                }
                return None;
            },
            Some(Err(f)) => {
                proof {
                    lemma_keys_outcome_stops(ps, (i + 1) as nat, ps.len());
                    assert(ps.take(ps.len() as int) == ps);
                }
                return Some(Err(KeysError { fault: f, part }));
            },
            Some(Ok(mut b)) => {
                buf.append(&mut b);
            },
        }
        i = i + 1;
    }
    assert(ps.take(ps.len() as int) == ps);
    Some(Ok(buf))
}

/// Parses a space-separated key sequence into the bytes a terminal expects.
///
/// Recognised tokens, case-insensitively: `ENTER`/`RETURN`, `TAB`,
/// `ESC`/`ESCAPE`, `BACKSPACE`/`BS`, `DELETE`/`DEL`, `UP`/`DOWN`/`LEFT`/
/// `RIGHT`, `HOME`/`END`, `PAGEUP`/`PAGE_UP`, `PAGEDOWN`/`PAGE_DOWN`,
/// `INSERT`, `F1`..`F12`, `SPACE`, `CTRL+<letter>`, `ALT+<chars>` and
/// `SHIFT+<chars>`. Any other token is sent through literally, as its UTF-8
/// bytes. A `CTRL+` token without an ASCII letter after it is an
/// error.
pub fn parse_keys(keys: &str) -> (r: Result<Vec<u8>, KeysError>)
    requires
        keys_result(keys@) is Some,
    ensures
        keys_result(keys@) == Some(parse_view(r)),
{
    match scan_keys(keys) {
        Some(r) => r,
        None => {
            proof {
                assert(false);
            }
            Ok(Vec::new())
        },
    }
}

/// [`parse_keys`] on every input: `None` where a token's prefix (`CTRL+`,
/// `ALT+`, `SHIFT+`, matched after upper-casing) does not end on a character
/// boundary of the token as written, so that it cannot be cut off.
pub fn parse_keys_checked(keys: &str) -> (r: Option<Result<Vec<u8>, KeysError>>)
    ensures
        r is None ==> keys_result(keys@) is None,
        r matches Some(x) ==> keys_result(keys@) == Some(parse_view(x)),
{
    if scan_keys(keys).is_none() {
        None
    } else {
        Some(parse_keys(keys))
    }
}

// ── laws ────────────────────────────────────────────────────────────────

/// Splitting between a character other than CR and the rest leaves CR LF
/// pairs where they were.
proof fn lemma_crlf_concat(s: Seq<char>, t: Seq<char>)
    requires
        s.len() == 0 || s.last() != '\r',
    ensures
        crlf_to_cr(s + t) == crlf_to_cr(s) + crlf_to_cr(t),
    decreases s.len(),
{
    if s.len() == 0 {
        assert(s + t == t);
    } else if s.len() >= 2 && s[0] == '\r' && s[1] == '\n' {
        assert((s + t).skip(2) == s.skip(2) + t);
        lemma_crlf_concat(s.skip(2), t);
    } else {
        assert((s + t).skip(1) == s.skip(1) + t);
        lemma_crlf_concat(s.skip(1), t);
    }
}

proof fn lemma_lf_to_cr_concat(s: Seq<char>, t: Seq<char>)
    ensures
        lf_to_cr(s + t) == lf_to_cr(s) + lf_to_cr(t),
{
    assert(lf_to_cr(s + t) =~= lf_to_cr(s) + lf_to_cr(t));
}

/// Enter, whether written CR LF or LF, reaches the terminal as one CR, and
/// the text around it is translated on its own (when the text before it does
/// not end in a CR, which would pair with the LF).
pub proof fn law_enter_is_one_cr(s: Seq<char>, t: Seq<char>)
    requires
        s.len() == 0 || s.last() != '\r',
    ensures
        enter_as_cr(s + seq!['\r', '\n'] + t) == enter_as_cr(s) + seq!['\r'] + enter_as_cr(t),
        enter_as_cr(s + seq!['\n'] + t) == enter_as_cr(s) + seq!['\r'] + enter_as_cr(t),
{
    let crlf = seq!['\r', '\n'];
    let lf = seq!['\n'];
    assert(s + crlf + t == s + (crlf + t));
    assert(s + lf + t == s + (lf + t));
    lemma_crlf_concat(s, crlf + t);
    lemma_crlf_concat(s, lf + t);
    assert((crlf + t).skip(2) == t);
    assert((lf + t).skip(1) == t);
    assert(crlf_to_cr(crlf + t) == seq!['\r'] + crlf_to_cr(t));
    assert(crlf_to_cr(lf + t) == seq!['\n'] + crlf_to_cr(t));
    lemma_lf_to_cr_concat(crlf_to_cr(s), seq!['\r'] + crlf_to_cr(t));
    lemma_lf_to_cr_concat(seq!['\r'], crlf_to_cr(t));
    lemma_lf_to_cr_concat(crlf_to_cr(s), seq!['\n'] + crlf_to_cr(t));
    lemma_lf_to_cr_concat(seq!['\n'], crlf_to_cr(t));
    assert(lf_to_cr(seq!['\r']) =~= seq!['\r']);
    assert(lf_to_cr(seq!['\n']) =~= seq!['\r']);
    assert(crlf_to_cr(s) + (seq!['\r'] + crlf_to_cr(t)) == crlf_to_cr(s) + seq!['\r'] + crlf_to_cr(t));
}

/// No UTF-8 byte of a character other than LF is the LF byte.
proof fn lemma_scalar_has_no_lf(c: char)
    requires
        c != '\n',
    ensures
        forall|i: int|
            0 <= i < vstd::utf8::encode_scalar(c as u32).len() ==> #[trigger] vstd::utf8::encode_scalar(
                c as u32,
            )[i] != 0x0au8,
{
    let v = c as u32;
    assert(v != 10);
    assert(v <= 0x7f ==> (v & 0x7f) as u8 != 10u8) by (bit_vector)
        requires
            v != 10,
    ;
    assert((0xC0u8 | ((v >> 6) & 0x1F) as u8) != 10u8) by (bit_vector);
    assert((0xE0u8 | ((v >> 12) & 0x0F) as u8) != 10u8) by (bit_vector);
    assert((0xF0u8 | ((v >> 18) & 0x7) as u8) != 10u8) by (bit_vector);
    assert((0x80u8 | (v & 0x3F) as u8) != 10u8) by (bit_vector);
    assert((0x80u8 | ((v >> 6) & 0x3F) as u8) != 10u8) by (bit_vector);
    assert((0x80u8 | ((v >> 12) & 0x3F) as u8) != 10u8) by (bit_vector);
}

proof fn lemma_encode_has_no_lf(s: Seq<char>)
    requires
        forall|i: int| 0 <= i < s.len() ==> s[i] != '\n',
    ensures
        forall|i: int| 0 <= i < encode_utf8(s).len() ==> encode_utf8(s)[i] != 0x0au8,
    decreases s.len(),
{
    if s.len() > 0 {
        let head = vstd::utf8::encode_scalar(s[0] as u32);
        let rest = encode_utf8(s.drop_first());
        lemma_scalar_has_no_lf(s[0]);
        lemma_encode_has_no_lf(s.drop_first());
        assert(encode_utf8(s) == head + rest);
        assert forall|i: int| 0 <= i < encode_utf8(s).len() implies encode_utf8(s)[i] != 0x0au8 by {
            if i < head.len() {
                assert(encode_utf8(s)[i] == head[i]);
            } else {
                assert(encode_utf8(s)[i] == rest[i - head.len()]);
            }
        }
    }
}

/// No line feed byte reaches the terminal from [`encode_input`].
pub proof fn law_encode_input_has_no_line_feed(text: Seq<char>)
    ensures
        forall|i: int|
            0 <= i < encode_utf8(enter_as_cr(text)).len() ==> encode_utf8(enter_as_cr(text))[i]
                != 0x0au8,
{
    lemma_encode_has_no_lf(enter_as_cr(text));
}

/// `o` with `x` put before its bytes.
pub open spec fn after_bytes(x: Seq<u8>, o: Option<Result<Seq<u8>, (KeyFault, Seq<char>)>>) -> Option<
    Result<Seq<u8>, (KeyFault, Seq<char>)>,
> {
    match o {
        Some(Ok(y)) => Some(Ok(x + y)),
        other => other,
    }
}

proof fn lemma_keys_outcome_concat(p: Seq<Seq<char>>, q: Seq<Seq<char>>, x: Seq<u8>)
    requires
        keys_outcome(p) == Some(Ok::<Seq<u8>, (KeyFault, Seq<char>)>(x)),
    ensures
        keys_outcome(p + q) == after_bytes(x, keys_outcome(q)),
    decreases q.len(),
{
    if q.len() == 0 {
        assert(p + q == p);
        assert(x + Seq::<u8>::empty() == x);
    } else {
        assert((p + q).drop_last() == p + q.drop_last());
        lemma_keys_outcome_concat(p, q.drop_last(), x);
        match keys_outcome(q.drop_last()) {
            Some(Ok(y)) => {
                match token_outcome(q.last()) {
                    Some(Ok(t)) => {
                        assert(x + y + t == x + (y + t));
                    },
                    _ => {},
                }
            },
            _ => {},
        }
    }
}

/// Key sequences concatenate: after a part that parses, a space and more
/// keys give the first part's bytes followed by what the rest gives (or the
/// rest's error).
pub proof fn law_keys_concatenate(a: Seq<char>, b: Seq<char>, x: Seq<u8>)
    requires
        keys_result(a) == Some(Ok::<Seq<u8>, (KeyFault, Seq<char>)>(x)),
    ensures
        keys_result(a + seq![' '] + b) == after_bytes(x, keys_result(b)),
{
    crate::text::lemma_split_on_concat(a, b, ' ');
    lemma_keys_outcome_concat(split_on(a, ' '), split_on(b, ' '), x);
}

/// The key names, told apart by length and first, second and last letters.
proof fn lemma_key_names()
    ensures
        "ENTER"@.len() == 5 && "ENTER"@[0] == 'E' && "ENTER"@[1] == 'N' && "ENTER"@[4] == 'R',
        "RETURN"@.len() == 6 && "RETURN"@[0] == 'R' && "RETURN"@[1] == 'E' && "RETURN"@[5] == 'N',
        "TAB"@.len() == 3 && "TAB"@[0] == 'T' && "TAB"@[1] == 'A' && "TAB"@[2] == 'B',
        "ESCAPE"@.len() == 6 && "ESCAPE"@[0] == 'E' && "ESCAPE"@[1] == 'S' && "ESCAPE"@[5] == 'E',
        "ESC"@.len() == 3 && "ESC"@[0] == 'E' && "ESC"@[1] == 'S' && "ESC"@[2] == 'C',
        "BACKSPACE"@.len() == 9 && "BACKSPACE"@[0] == 'B' && "BACKSPACE"@[1] == 'A' && "BACKSPACE"@[8] == 'E',
        "BS"@.len() == 2 && "BS"@[0] == 'B' && "BS"@[1] == 'S' && "BS"@[1] == 'S',
        "DELETE"@.len() == 6 && "DELETE"@[0] == 'D' && "DELETE"@[1] == 'E' && "DELETE"@[5] == 'E',
        "DEL"@.len() == 3 && "DEL"@[0] == 'D' && "DEL"@[1] == 'E' && "DEL"@[2] == 'L',
        "UP"@.len() == 2 && "UP"@[0] == 'U' && "UP"@[1] == 'P' && "UP"@[1] == 'P',
        "DOWN"@.len() == 4 && "DOWN"@[0] == 'D' && "DOWN"@[1] == 'O' && "DOWN"@[3] == 'N',
        "RIGHT"@.len() == 5 && "RIGHT"@[0] == 'R' && "RIGHT"@[1] == 'I' && "RIGHT"@[4] == 'T',
        "LEFT"@.len() == 4 && "LEFT"@[0] == 'L' && "LEFT"@[1] == 'E' && "LEFT"@[3] == 'T',
        "HOME"@.len() == 4 && "HOME"@[0] == 'H' && "HOME"@[1] == 'O' && "HOME"@[3] == 'E',
        "END"@.len() == 3 && "END"@[0] == 'E' && "END"@[1] == 'N' && "END"@[2] == 'D',
        "PAGEUP"@.len() == 6 && "PAGEUP"@[0] == 'P' && "PAGEUP"@[1] == 'A' && "PAGEUP"@[5] == 'P',
        "PAGE_UP"@.len() == 7 && "PAGE_UP"@[0] == 'P' && "PAGE_UP"@[1] == 'A' && "PAGE_UP"@[6] == 'P',
        "PAGEDOWN"@.len() == 8 && "PAGEDOWN"@[0] == 'P' && "PAGEDOWN"@[1] == 'A' && "PAGEDOWN"@[7] == 'N',
        "PAGE_DOWN"@.len() == 9 && "PAGE_DOWN"@[0] == 'P' && "PAGE_DOWN"@[1] == 'A' && "PAGE_DOWN"@[8] == 'N',
        "INSERT"@.len() == 6 && "INSERT"@[0] == 'I' && "INSERT"@[1] == 'N' && "INSERT"@[5] == 'T',
        "F1"@.len() == 2 && "F1"@[0] == 'F' && "F1"@[1] == '1' && "F1"@[1] == '1',
        "F2"@.len() == 2 && "F2"@[0] == 'F' && "F2"@[1] == '2' && "F2"@[1] == '2',
        "F3"@.len() == 2 && "F3"@[0] == 'F' && "F3"@[1] == '3' && "F3"@[1] == '3',
        "F4"@.len() == 2 && "F4"@[0] == 'F' && "F4"@[1] == '4' && "F4"@[1] == '4',
        "F5"@.len() == 2 && "F5"@[0] == 'F' && "F5"@[1] == '5' && "F5"@[1] == '5',
        "F6"@.len() == 2 && "F6"@[0] == 'F' && "F6"@[1] == '6' && "F6"@[1] == '6',
        "F7"@.len() == 2 && "F7"@[0] == 'F' && "F7"@[1] == '7' && "F7"@[1] == '7',
        "F8"@.len() == 2 && "F8"@[0] == 'F' && "F8"@[1] == '8' && "F8"@[1] == '8',
        "F9"@.len() == 2 && "F9"@[0] == 'F' && "F9"@[1] == '9' && "F9"@[1] == '9',
        "F10"@.len() == 3 && "F10"@[0] == 'F' && "F10"@[1] == '1' && "F10"@[2] == '0',
        "F11"@.len() == 3 && "F11"@[0] == 'F' && "F11"@[1] == '1' && "F11"@[2] == '1',
        "F12"@.len() == 3 && "F12"@[0] == 'F' && "F12"@[1] == '1' && "F12"@[2] == '2',
        "SPACE"@.len() == 5 && "SPACE"@[0] == 'S' && "SPACE"@[1] == 'P' && "SPACE"@[4] == 'E',
{
    reveal_strlit("ENTER");
    assert("ENTER"@.len() == 5 && "ENTER"@[0] == 'E' && "ENTER"@[1] == 'N' && "ENTER"@[4] == 'R');
    reveal_strlit("RETURN");
    assert("RETURN"@.len() == 6 && "RETURN"@[0] == 'R' && "RETURN"@[1] == 'E' && "RETURN"@[5] == 'N');
    reveal_strlit("TAB");
    assert("TAB"@.len() == 3 && "TAB"@[0] == 'T' && "TAB"@[1] == 'A' && "TAB"@[2] == 'B');
    reveal_strlit("ESCAPE");
    assert("ESCAPE"@.len() == 6 && "ESCAPE"@[0] == 'E' && "ESCAPE"@[1] == 'S' && "ESCAPE"@[5] == 'E');
    reveal_strlit("ESC");
    assert("ESC"@.len() == 3 && "ESC"@[0] == 'E' && "ESC"@[1] == 'S' && "ESC"@[2] == 'C');
    reveal_strlit("BACKSPACE");
    assert("BACKSPACE"@.len() == 9 && "BACKSPACE"@[0] == 'B' && "BACKSPACE"@[1] == 'A' && "BACKSPACE"@[8] == 'E');
    reveal_strlit("BS");
    assert("BS"@.len() == 2 && "BS"@[0] == 'B' && "BS"@[1] == 'S' && "BS"@[1] == 'S');
    reveal_strlit("DELETE");
    assert("DELETE"@.len() == 6 && "DELETE"@[0] == 'D' && "DELETE"@[1] == 'E' && "DELETE"@[5] == 'E');
    reveal_strlit("DEL");
    assert("DEL"@.len() == 3 && "DEL"@[0] == 'D' && "DEL"@[1] == 'E' && "DEL"@[2] == 'L');
    reveal_strlit("UP");
    assert("UP"@.len() == 2 && "UP"@[0] == 'U' && "UP"@[1] == 'P' && "UP"@[1] == 'P');
    reveal_strlit("DOWN");
    assert("DOWN"@.len() == 4 && "DOWN"@[0] == 'D' && "DOWN"@[1] == 'O' && "DOWN"@[3] == 'N');
    reveal_strlit("RIGHT");
    assert("RIGHT"@.len() == 5 && "RIGHT"@[0] == 'R' && "RIGHT"@[1] == 'I' && "RIGHT"@[4] == 'T');
    reveal_strlit("LEFT");
    assert("LEFT"@.len() == 4 && "LEFT"@[0] == 'L' && "LEFT"@[1] == 'E' && "LEFT"@[3] == 'T');
    reveal_strlit("HOME");
    assert("HOME"@.len() == 4 && "HOME"@[0] == 'H' && "HOME"@[1] == 'O' && "HOME"@[3] == 'E');
    reveal_strlit("END");
    assert("END"@.len() == 3 && "END"@[0] == 'E' && "END"@[1] == 'N' && "END"@[2] == 'D');
    reveal_strlit("PAGEUP");
    assert("PAGEUP"@.len() == 6 && "PAGEUP"@[0] == 'P' && "PAGEUP"@[1] == 'A' && "PAGEUP"@[5] == 'P');
    reveal_strlit("PAGE_UP");
    assert("PAGE_UP"@.len() == 7 && "PAGE_UP"@[0] == 'P' && "PAGE_UP"@[1] == 'A' && "PAGE_UP"@[6] == 'P');
    reveal_strlit("PAGEDOWN");
    assert("PAGEDOWN"@.len() == 8 && "PAGEDOWN"@[0] == 'P' && "PAGEDOWN"@[1] == 'A' && "PAGEDOWN"@[7] == 'N');
    reveal_strlit("PAGE_DOWN");
    assert("PAGE_DOWN"@.len() == 9 && "PAGE_DOWN"@[0] == 'P' && "PAGE_DOWN"@[1] == 'A' && "PAGE_DOWN"@[8] == 'N');
    reveal_strlit("INSERT");
    assert("INSERT"@.len() == 6 && "INSERT"@[0] == 'I' && "INSERT"@[1] == 'N' && "INSERT"@[5] == 'T');
    reveal_strlit("F1");
    assert("F1"@.len() == 2 && "F1"@[0] == 'F' && "F1"@[1] == '1' && "F1"@[1] == '1');
    reveal_strlit("F2");
    assert("F2"@.len() == 2 && "F2"@[0] == 'F' && "F2"@[1] == '2' && "F2"@[1] == '2');
    reveal_strlit("F3");
    assert("F3"@.len() == 2 && "F3"@[0] == 'F' && "F3"@[1] == '3' && "F3"@[1] == '3');
    reveal_strlit("F4");
    assert("F4"@.len() == 2 && "F4"@[0] == 'F' && "F4"@[1] == '4' && "F4"@[1] == '4');
    reveal_strlit("F5");
    assert("F5"@.len() == 2 && "F5"@[0] == 'F' && "F5"@[1] == '5' && "F5"@[1] == '5');
    reveal_strlit("F6");
    assert("F6"@.len() == 2 && "F6"@[0] == 'F' && "F6"@[1] == '6' && "F6"@[1] == '6');
    reveal_strlit("F7");
    assert("F7"@.len() == 2 && "F7"@[0] == 'F' && "F7"@[1] == '7' && "F7"@[1] == '7');
    reveal_strlit("F8");
    assert("F8"@.len() == 2 && "F8"@[0] == 'F' && "F8"@[1] == '8' && "F8"@[1] == '8');
    reveal_strlit("F9");
    assert("F9"@.len() == 2 && "F9"@[0] == 'F' && "F9"@[1] == '9' && "F9"@[1] == '9');
    reveal_strlit("F10");
    assert("F10"@.len() == 3 && "F10"@[0] == 'F' && "F10"@[1] == '1' && "F10"@[2] == '0');
    reveal_strlit("F11");
    assert("F11"@.len() == 3 && "F11"@[0] == 'F' && "F11"@[1] == '1' && "F11"@[2] == '1');
    reveal_strlit("F12");
    assert("F12"@.len() == 3 && "F12"@[0] == 'F' && "F12"@[1] == '1' && "F12"@[2] == '2');
    reveal_strlit("SPACE");
    assert("SPACE"@.len() == 5 && "SPACE"@[0] == 'S' && "SPACE"@[1] == 'P' && "SPACE"@[4] == 'E');
}

/// The xterm sequence `ESC [ <code> ~` of an editing or function key.
pub open spec fn csi_tilde(code: nat) -> Seq<u8> {
    seq![0x1bu8, 0x5bu8] + crate::graphics::char_bytes(crate::text::decimal(code)) + seq![0x7eu8]
}

/// The cursor keys send the xterm sequences `ESC [ A`, `ESC [ B`, `ESC [ C`
/// and `ESC [ D` for `UP`, `DOWN`, `RIGHT` and `LEFT` (in any case), so
/// the four differ and each moves the way it is named; `F1` to `F4` send
/// `ESC O P` to `ESC O S`.
pub proof fn law_cursor_and_pf_keys(part: Seq<char>)
    ensures
        unicode_upper(part) == "UP"@ ==> token_outcome(part) == Some(Ok::<Seq<u8>, KeyFault>(seq![0x1bu8, 0x5bu8, 'A' as u8])),
        unicode_upper(part) == "DOWN"@ ==> token_outcome(part) == Some(Ok::<Seq<u8>, KeyFault>(seq![0x1bu8, 0x5bu8, ('A' as u8 + 1) as u8])),
        unicode_upper(part) == "RIGHT"@ ==> token_outcome(part) == Some(Ok::<Seq<u8>, KeyFault>(seq![0x1bu8, 0x5bu8, ('A' as u8 + 2) as u8])),
        unicode_upper(part) == "LEFT"@ ==> token_outcome(part) == Some(Ok::<Seq<u8>, KeyFault>(seq![0x1bu8, 0x5bu8, ('A' as u8 + 3) as u8])),
        unicode_upper(part) == "F1"@ ==> token_outcome(part) == Some(Ok::<Seq<u8>, KeyFault>(seq![0x1bu8, 'O' as u8, ('P' as u8 + 0) as u8])),
        unicode_upper(part) == "F2"@ ==> token_outcome(part) == Some(Ok::<Seq<u8>, KeyFault>(seq![0x1bu8, 'O' as u8, ('P' as u8 + 1) as u8])),
        unicode_upper(part) == "F3"@ ==> token_outcome(part) == Some(Ok::<Seq<u8>, KeyFault>(seq![0x1bu8, 'O' as u8, ('P' as u8 + 2) as u8])),
        unicode_upper(part) == "F4"@ ==> token_outcome(part) == Some(Ok::<Seq<u8>, KeyFault>(seq![0x1bu8, 'O' as u8, ('P' as u8 + 3) as u8])),
{
    lemma_key_names();
    reveal_strlit("CTRL+");
    reveal_strlit("ALT+");
    reveal_strlit("SHIFT+");
}

/// The other named keys, in any case: `ENTER`/`RETURN` send CR, `TAB` a
/// tab, `ESC`/`ESCAPE` an escape, `BACKSPACE`/`BS` DEL, `HOME` and `END`
/// `ESC [ H` and `ESC [ F`, `SPACE` a space, and the editing and `F5`-`F12`
/// keys the xterm `ESC [ <code> ~` sequences with codes 2 (`INSERT`), 3
/// (`DELETE`), 5 and 6 (page up and down) and 15, 17-21, 23, 24.
pub proof fn law_named_keys(part: Seq<char>)
    ensures
        unicode_upper(part) == "ENTER"@ ==> token_outcome(part) == Some(Ok::<Seq<u8>, KeyFault>(seq![0x0du8])),
        unicode_upper(part) == "RETURN"@ ==> token_outcome(part) == Some(Ok::<Seq<u8>, KeyFault>(seq![0x0du8])),
        unicode_upper(part) == "TAB"@ ==> token_outcome(part) == Some(Ok::<Seq<u8>, KeyFault>(seq![0x09u8])),
        unicode_upper(part) == "ESCAPE"@ ==> token_outcome(part) == Some(Ok::<Seq<u8>, KeyFault>(seq![0x1bu8])),
        unicode_upper(part) == "ESC"@ ==> token_outcome(part) == Some(Ok::<Seq<u8>, KeyFault>(seq![0x1bu8])),
        unicode_upper(part) == "BACKSPACE"@ ==> token_outcome(part) == Some(Ok::<Seq<u8>, KeyFault>(seq![0x7fu8])),
        unicode_upper(part) == "BS"@ ==> token_outcome(part) == Some(Ok::<Seq<u8>, KeyFault>(seq![0x7fu8])),
        unicode_upper(part) == "DELETE"@ ==> token_outcome(part) == Some(Ok::<Seq<u8>, KeyFault>(csi_tilde(3))),
        unicode_upper(part) == "DEL"@ ==> token_outcome(part) == Some(Ok::<Seq<u8>, KeyFault>(csi_tilde(3))),
        unicode_upper(part) == "HOME"@ ==> token_outcome(part) == Some(Ok::<Seq<u8>, KeyFault>(seq![0x1bu8, 0x5bu8, 0x48u8])),
        unicode_upper(part) == "END"@ ==> token_outcome(part) == Some(Ok::<Seq<u8>, KeyFault>(seq![0x1bu8, 0x5bu8, 0x46u8])),
        unicode_upper(part) == "PAGEUP"@ ==> token_outcome(part) == Some(Ok::<Seq<u8>, KeyFault>(csi_tilde(5))),
        unicode_upper(part) == "PAGE_UP"@ ==> token_outcome(part) == Some(Ok::<Seq<u8>, KeyFault>(csi_tilde(5))),
        unicode_upper(part) == "PAGEDOWN"@ ==> token_outcome(part) == Some(Ok::<Seq<u8>, KeyFault>(csi_tilde(6))),
        unicode_upper(part) == "PAGE_DOWN"@ ==> token_outcome(part) == Some(Ok::<Seq<u8>, KeyFault>(csi_tilde(6))),
        unicode_upper(part) == "INSERT"@ ==> token_outcome(part) == Some(Ok::<Seq<u8>, KeyFault>(csi_tilde(2))),
        unicode_upper(part) == "F5"@ ==> token_outcome(part) == Some(Ok::<Seq<u8>, KeyFault>(csi_tilde(15))),
        unicode_upper(part) == "F6"@ ==> token_outcome(part) == Some(Ok::<Seq<u8>, KeyFault>(csi_tilde(17))),
        unicode_upper(part) == "F7"@ ==> token_outcome(part) == Some(Ok::<Seq<u8>, KeyFault>(csi_tilde(18))),
        unicode_upper(part) == "F8"@ ==> token_outcome(part) == Some(Ok::<Seq<u8>, KeyFault>(csi_tilde(19))),
        unicode_upper(part) == "F9"@ ==> token_outcome(part) == Some(Ok::<Seq<u8>, KeyFault>(csi_tilde(20))),
        unicode_upper(part) == "F10"@ ==> token_outcome(part) == Some(Ok::<Seq<u8>, KeyFault>(csi_tilde(21))),
        unicode_upper(part) == "F11"@ ==> token_outcome(part) == Some(Ok::<Seq<u8>, KeyFault>(csi_tilde(23))),
        unicode_upper(part) == "F12"@ ==> token_outcome(part) == Some(Ok::<Seq<u8>, KeyFault>(csi_tilde(24))),
        unicode_upper(part) == "SPACE"@ ==> token_outcome(part) == Some(Ok::<Seq<u8>, KeyFault>(seq![0x20u8])),
{
    lemma_key_names();
    reveal_strlit("CTRL+");
    reveal_strlit("ALT+");
    reveal_strlit("SHIFT+");
    reveal_with_fuel(crate::text::decimal, 3);
    assert(csi_tilde(2) =~= seq![0x1bu8, 0x5bu8, 0x32u8, 0x7eu8]);
    assert(csi_tilde(3) =~= seq![0x1bu8, 0x5bu8, 0x33u8, 0x7eu8]);
    assert(csi_tilde(5) =~= seq![0x1bu8, 0x5bu8, 0x35u8, 0x7eu8]);
    assert(csi_tilde(6) =~= seq![0x1bu8, 0x5bu8, 0x36u8, 0x7eu8]);
    assert(csi_tilde(15) =~= seq![0x1bu8, 0x5bu8, 0x31u8, 0x35u8, 0x7eu8]);
    assert(csi_tilde(17) =~= seq![0x1bu8, 0x5bu8, 0x31u8, 0x37u8, 0x7eu8]);
    assert(csi_tilde(18) =~= seq![0x1bu8, 0x5bu8, 0x31u8, 0x38u8, 0x7eu8]);
    assert(csi_tilde(19) =~= seq![0x1bu8, 0x5bu8, 0x31u8, 0x39u8, 0x7eu8]);
    assert(csi_tilde(20) =~= seq![0x1bu8, 0x5bu8, 0x32u8, 0x30u8, 0x7eu8]);
    assert(csi_tilde(21) =~= seq![0x1bu8, 0x5bu8, 0x32u8, 0x31u8, 0x7eu8]);
    assert(csi_tilde(23) =~= seq![0x1bu8, 0x5bu8, 0x32u8, 0x33u8, 0x7eu8]);
    assert(csi_tilde(24) =~= seq![0x1bu8, 0x5bu8, 0x32u8, 0x34u8, 0x7eu8]);
}

/// `CTRL+<letter>` sends the letter's control code, its place in the
/// alphabet (`A` is 1, `Z` is 26) whatever its case; `CTRL+` with nothing
/// after it, or with something other than an ASCII letter, is refused.
pub proof fn law_ctrl_letters(part: Seq<char>, rest: Seq<char>)
    requires
        has_prefix(unicode_upper(part), "CTRL+"@),
        chars_after_byte(part, 5) == Some(rest),
    ensures
        rest.len() == 0 ==> token_outcome(part) == Some(Err::<Seq<u8>, KeyFault>(KeyFault::NoLetterAfterCtrl)),
        rest.len() > 0 && is_ascii_letter(rest[0]) ==> token_outcome(part) == Some(
            Ok::<Seq<u8>, KeyFault>(seq![((ascii_upper(rest[0]) as u32) - ('A' as u32) + 1) as u8]),
        ),
        rest.len() > 0 && is_ascii_letter(rest[0]) ==> 1 <= (ascii_upper(rest[0]) as u32) - ('A' as u32) + 1
            <= 26,
        rest.len() > 0 && !is_ascii_letter(rest[0]) ==> token_outcome(part) == Some(
            Err::<Seq<u8>, KeyFault>(KeyFault::InvalidCtrlKey),
        ),
{
    lemma_key_names();
    reveal_strlit("CTRL+");
    let u = unicode_upper(part);
    assert(u.take(5) == "CTRL+"@);
    assert(u[0] == u.take(5)[0]);
    assert(u[0] == 'C');
    assert(named_key(u) is None);
}

} // verus!
