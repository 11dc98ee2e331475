//! Small rules on text typed by the user: optional fields and confirmations.
use vstd::prelude::*;

verus! {

/// Calls `String::push` of std: trusted to append the one character.
#[verifier::external_body]
pub(crate) fn push_char(s: &mut String, c: char)
    ensures
        final(s)@ == old(s)@.push(c),
{
    s.push(c);
}

/// The characters with the Unicode property White_Space.
pub open spec fn is_unicode_whitespace(c: char) -> bool {
    let u = c as u32;
    ||| 0x09 <= u <= 0x0d
    ||| u == 0x20
    ||| u == 0x85
    ||| u == 0xa0
    ||| u == 0x1680
    ||| 0x2000 <= u <= 0x200a
    ||| u == 0x2028
    ||| u == 0x2029
    ||| u == 0x202f
    ||| u == 0x205f
    ||| u == 0x3000
}

/// The text without its leading whitespace.
pub open spec fn trim_start_spec(s: Seq<char>) -> Seq<char>
    decreases s.len(),
{
    if s.len() > 0 && is_unicode_whitespace(s[0]) {
        trim_start_spec(s.drop_first())
    } else {
        s
    }
}

/// The text without its trailing whitespace.
pub open spec fn trim_end_spec(s: Seq<char>) -> Seq<char>
    decreases s.len(),
{
    if s.len() > 0 && is_unicode_whitespace(s.last()) {
        trim_end_spec(s.drop_last())
    } else {
        s
    }
}

/// The text without its leading and trailing whitespace.
pub open spec fn trim_spec(s: Seq<char>) -> Seq<char> {
    trim_end_spec(trim_start_spec(s))
}

/// Calls `str::trim` of std, which removes the leading and trailing characters
/// that have the Unicode property White_Space. Trusted to do exactly that.
#[verifier::external_body]
fn trim(s: &str) -> (r: &str)
    ensures
        r@ == trim_spec(s@),
{
    s.trim()
}

/// What `str::to_lowercase` of std returns for a text: Unicode's lowercase
/// mapping of each character (a final capital sigma also depends on its
/// neighbours). The mapping takes Unicode's tables to state, so it is named
/// here and not written out.
pub uninterp spec fn lowercase_spec(s: Seq<char>) -> Seq<char>;

/// Whether every character of a text is ASCII.
pub open spec fn is_ascii_text(s: Seq<char>) -> bool {
    forall|i: int| 0 <= i < s.len() ==> (#[trigger] s[i] as u32) < 0x80
}

/// The ASCII lowercase of a character: `A` to `Z` become `a` to `z`, others stay.
pub open spec fn ascii_lower(c: char) -> char {
    if 'A' <= c && c <= 'Z' {
        ((c as u32) + 32) as char
    } else {
        c
    }
}

/// Calls `str::to_lowercase` of std. Trusted to return `lowercase_spec` of its
/// argument, which for an ASCII text is the text with `A` to `Z` made `a` to `z`.
#[verifier::external_body]
fn to_lowercase(s: &str) -> (r: String)
    ensures
        r@ == lowercase_spec(s@),
        is_ascii_text(s@) ==> r@ == s@.map_values(|c: char| ascii_lower(c)),
{
    s.to_lowercase()
}

/// Whether a normalized answer says yes: it is `s` or `si`.
pub fn is_affirmative(answer: &str) -> (r: bool)
    ensures
        r == (answer@ == "s"@ || answer@ == "si"@),
{
    let owned = answer.to_owned();
    let yes = "s".to_owned();
    let si = "si".to_owned();
    owned == yes || owned == si
}

/// Whether an answer confirms: once trimmed and lowercased it is `s` or `si`.
pub fn is_confirmation(answer: &str) -> (r: bool)
    ensures
        r == (lowercase_spec(trim_spec(answer@)) == "s"@ || lowercase_spec(trim_spec(answer@)) == "si"@),
        is_ascii_text(trim_spec(answer@)) ==> r == ({
            let lower = trim_spec(answer@).map_values(|c: char| ascii_lower(c));
            lower == "s"@ || lower == "si"@
        }),
{
    let trimmed = trim(answer);
    let lower = to_lowercase(trimmed);
    is_affirmative(lower.as_str())
}

/// An optional field as typed: an empty line leaves the field out.
pub fn non_empty(line: String) -> (r: Option<String>)
    ensures
        line@.len() == 0 ==> r is None,
        line@.len() != 0 ==> r == Some(line),
{
    if !line.as_str().is_empty() {
        Some(line)
    } else {
        None
    }
}

} // verus!
