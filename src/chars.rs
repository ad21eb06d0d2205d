use vstd::prelude::*;
use vstd::std_specs::iter::IteratorSpec;

verus! {

/// An ASCII decimal digit.
pub open spec fn is_digit(c: char) -> bool {
    '0' as u32 <= c as u32 && c as u32 <= '9' as u32
}

/// A space or a tab: the blanks that may separate tokens on a line or indent it.
pub open spec fn is_blank(c: char) -> bool {
    c == ' ' || c == '\t'
}

/// A character of Unicode's general category Cc.
pub open spec fn is_control(c: char) -> bool {
    c as u32 <= 0x1f || (0x7f <= c as u32 && c as u32 <= 0x9f)
}

/// A character with Unicode's White_Space property.
pub open spec fn is_white_space(c: char) -> bool {
    let u = c as u32;
    (0x09 <= u && u <= 0x0d) || u == 0x20 || u == 0x85 || u == 0xa0 || u == 0x1680
        || (0x2000 <= u && u <= 0x200a) || u == 0x2028 || u == 0x2029 || u == 0x202f
        || u == 0x205f || u == 0x3000
}

/// One of the 32 printable ASCII characters that are neither letters, digits nor space.
pub open spec fn is_ascii_punctuation(c: char) -> bool {
    let u = c as u32;
    (0x21 <= u && u <= 0x2f) || (0x3a <= u && u <= 0x40) || (0x5b <= u && u <= 0x60) || (0x7b
        <= u && u <= 0x7e)
}

/// A character that may stand in an unquoted name: the underscore, or any character that is
/// not a control character, not white space and not ASCII punctuation.
pub open spec fn is_name_char(c: char) -> bool {
    c == '_' || (!is_control(c) && !is_white_space(c) && !is_ascii_punctuation(c))
}

pub fn is_ascii_digit(c: char) -> (r: bool)
    ensures
        r == is_digit(c),
{
    '0' as u32 <= c as u32 && c as u32 <= '9' as u32
}

pub fn is_inline_whitespace(c: char) -> (r: bool)
    ensures
        r == is_blank(c),
{
    c == ' ' || c == '\t'
}

pub fn is_valid_identifier(c: char) -> (r: bool)
    ensures
        r == is_name_char(c),
{
    let u = c as u32;
    let control = u <= 0x1f || (0x7f <= u && u <= 0x9f);
    let white = (0x09 <= u && u <= 0x0d) || u == 0x20 || u == 0x85 || u == 0xa0 || u == 0x1680
        || (0x2000 <= u && u <= 0x200a) || u == 0x2028 || u == 0x2029 || u == 0x202f || u
        == 0x205f || u == 0x3000;
    let punct = (0x21 <= u && u <= 0x2f) || (0x3a <= u && u <= 0x40) || (0x5b <= u && u <= 0x60)
        || (0x7b <= u && u <= 0x7e);
    c == '_' || (!control && !white && !punct)
}

/// Relies on `String::from_iter` over a `Vec<char>`: the string holds those characters in order.
#[verifier::external_body]
pub(crate) fn string_from(v: Vec<char>) -> (r: String)
    ensures
        r@ == v@,
{
    String::from_iter(v)
}

/// The characters of `s`, in order.
pub fn chars_of(s: &str) -> (r: Vec<char>)
    ensures
        r@ == s@,
{
    let mut out: Vec<char> = Vec::new();
    let mut it = s.chars();
    let ghost n = s@.len();
    broadcast use vstd::string::axiom_spec_iter, vstd::string::next_postcondition;
    loop
        invariant
            n == s@.len(),
            it.obeys_prophetic_iter_laws(),
            out@.len() + it.remaining().len() == n,
            out@ + it.remaining() == s@,
        ensures
            out@ == s@,
        decreases n - out@.len(),
    {
        let next = it.next();
        match next {
            Some(c) => {
                proof {
                    assert(out@.push(c) + it.remaining() =~= s@);
                }
                out.push(c);
            },
            None => {
                assert(out@ =~= s@);
                break ;
            },
        }
    }
    out
}

} // verus!
