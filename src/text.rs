//! Lines of the stream as text: UTF-8 decoding, whitespace trimming and the
//! `data: ` envelope.
use vstd::prelude::*;
use vstd::string::*;
use vstd::utf8::*;

verus! {

/// Unicode `White_Space`, the characters that `char::is_whitespace` accepts.
pub open spec fn is_white_space(c: char) -> bool {
    let u = c as u32;
    u == 0x20 || (0x09 <= u && u <= 0x0d) || u == 0x85 || u == 0xa0 || u == 0x1680 || (0x2000
        <= u && u <= 0x200a) || u == 0x2028 || u == 0x2029 || u == 0x202f || u == 0x205f || u
        == 0x3000
}

/// `s` without its leading white space.
pub open spec fn trim_start_ws(s: Seq<char>) -> Seq<char>
    decreases s.len(),
{
    if s.len() > 0 && is_white_space(s[0]) {
        trim_start_ws(s.drop_first())
    } else {
        s
    }
}

/// `s` without its trailing white space.
pub open spec fn trim_end_ws(s: Seq<char>) -> Seq<char>
    decreases s.len(),
{
    if s.len() > 0 && is_white_space(s.last()) {
        trim_end_ws(s.drop_last())
    } else {
        s
    }
}

/// `s` without leading and trailing white space.
pub open spec fn trim_ws(s: Seq<char>) -> Seq<char> {
    trim_end_ws(trim_start_ws(s))
}

/// The text of a line of bytes, trimmed; `None` where the bytes are not UTF-8.
pub open spec fn line_text(line: Seq<u8>) -> Option<Seq<char>> {
    if valid_utf8(line) {
        Some(trim_ws(decode_utf8(line)))
    } else {
        None
    }
}

/// The envelope that marks a line as carrying data.
pub open spec fn data_prefix() -> Seq<char> {
    seq!['d', 'a', 't', 'a', ':', ' ']
}

/// The payload that ends a stream.
pub open spec fn done_sentinel() -> Seq<char> {
    seq!['[', 'D', 'O', 'N', 'E', ']']
}

/// What follows the envelope, where `t` starts with it.
pub open spec fn data_payload(t: Seq<char>) -> Option<Seq<char>> {
    if t.len() >= 6 && t.take(6) == data_prefix() {
        Some(t.skip(6))
    } else {
        None
    }
}

/// The payload of a line of bytes, where it is a UTF-8 `data: ` line.
pub open spec fn line_payload(line: Seq<u8>) -> Option<Seq<char>> {
    match line_text(line) {
        Some(t) => data_payload(t),
        None => None,
    }
}

/// Relies on `String::from_utf8`: it succeeds exactly on valid UTF-8 and then
/// holds the characters those bytes encode.
#[verifier::external_body]
fn utf8_to_string(b: Vec<u8>) -> (r: Option<String>)
    ensures
        r is Some <==> valid_utf8(b@),
        r matches Some(s) ==> s@ == decode_utf8(b@),
{
    String::from_utf8(b).ok()
}

/// Relies on `str::trim`: it removes leading and trailing `White_Space`.
#[verifier::external_body]
fn trim_str(s: &str) -> (r: &str)
    ensures
        r@ == trim_ws(s@),
{
    s.trim()
}

/// The text of a line, decoded and trimmed.
pub fn text_of_line(line: Vec<u8>) -> (r: Option<String>)
    ensures
        opt_text(r) == line_text(line@),
{
    match utf8_to_string(line) {
        Some(s) => {
            let t = trim_str(s.as_str());
            Some(String::from_str(t))
        },
        None => None,
    }
}

pub open spec fn opt_text(o: Option<String>) -> Option<Seq<char>> {
    match o {
        Some(s) => Some(s@),
        None => None,
    }
}

/// Whether `s` holds exactly the characters of `lit` from position `start` on.
fn chars_at(s: &str, start: usize, lit: &Vec<char>) -> (r: bool)
    requires
        start + lit@.len() <= s@.len(),
    ensures
        r == (s@.subrange(start as int, start + lit@.len()) == lit@),
{
    let n = s.unicode_len();
    let mut i: usize = 0;
    while i < lit.len()
        invariant
            i <= lit@.len(),
            n == s@.len(),
            start + lit@.len() <= s@.len(),
            forall|j: int| 0 <= j < i ==> s@[start + j] == lit@[j],
        decreases lit@.len() - i,
    {
        if s.get_char(start + i) != lit[i] {
            assert(s@.subrange(start as int, start + lit@.len())[i as int] != lit@[i as int]);
            return false;
        }
        i = i + 1;
    }
    assert(s@.subrange(start as int, start + lit@.len()) =~= lit@);
    true
}

/// The payload of a `data: ` line, or `None` for any other line.
pub fn payload_of_text(t: &str) -> (r: Option<String>)
    ensures
        opt_text(r) == data_payload(t@),
{
    let n = t.unicode_len();
    if n < 6 {
        return None;
    }
    let prefix = vec!['d', 'a', 't', 'a', ':', ' '];
    assert(prefix@ =~= data_prefix());
    if !chars_at(t, 0, &prefix) {
        assert(t@.take(6) =~= t@.subrange(0, 6));
        return None;
    }
    assert(t@.take(6) =~= t@.subrange(0, 6));
    Some(String::from_str(t.substring_char(6, n)))
}

/// Whether a payload is the end-of-stream sentinel.
pub fn is_done_sentinel(p: &str) -> (r: bool)
    ensures
        r == (p@ == done_sentinel()),
{
    if p.unicode_len() != 6 {
        return false;
    }
    let lit = vec!['[', 'D', 'O', 'N', 'E', ']'];
    let r = chars_at(p, 0, &lit);
    assert(p@.subrange(0, 6) =~= p@);
    assert(lit@ =~= done_sentinel());
    r
}

/// Whether a text is empty.
pub fn is_blank(t: &str) -> (r: bool)
    ensures
        r == (t@.len() == 0),
{
    t.unicode_len() == 0
}

} // verus!
