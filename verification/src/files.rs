//! The names of the files that exports and bills are written to.
use vstd::prelude::*;
use crate::inventory::is_ascii_alphanumeric;
use crate::text::push_char;

verus! {

/// The character of a decimal digit.
pub open spec fn digit_char(d: int) -> char {
    (d + 48) as char
}

/// The decimal digits of a natural number, most significant first.
pub open spec fn decimal(n: nat) -> Seq<char>
    decreases n,
{
    if n < 10 {
        seq![digit_char(n as int)]
    } else {
        decimal(n / 10).push(digit_char((n % 10) as int))
    }
}

/// The decimal form of an integer, with a leading `-` where it is negative.
pub open spec fn signed_decimal(n: int) -> Seq<char> {
    if n < 0 {
        seq!['-'] + decimal((-n) as nat)
    } else {
        decimal(n as nat)
    }
}

fn digit(d: u64) -> (c: char)
    requires
        d < 10,
    ensures
        c == digit_char(d as int),
{
    let b: u8 = d as u8 + 48u8;
    b as char
}

/// Appends the decimal digits of `n`.
pub(crate) fn push_decimal(s: &mut String, n: u64)
    ensures
        final(s)@ == old(s)@ + decimal(n as nat),
    decreases n,
{
    if n >= 10 {
        push_decimal(s, n / 10);
    }
    push_char(s, digit(n % 10));
    proof {
        if n >= 10 {
            assert(decimal(n as nat) == decimal((n / 10) as nat).push(digit_char((n % 10) as int)));
        }
    }
}

/// Appends the decimal form of `n`, with its sign where negative.
fn push_signed_decimal(s: &mut String, n: i32)
    ensures
        final(s)@ == old(s)@ + signed_decimal(n as int),
{
    if n < 0 {
        push_char(s, '-');
        let m: i64 = n as i64;
        push_decimal(s, (-m) as u64);
        assert(final(s)@ =~= old(s)@ + (seq!['-'] + decimal((-n) as nat)));
    } else {
        push_decimal(s, n as u64);
    }
}

/// The character kept in a file name: letters and digits stay, anything else becomes `_`.
pub open spec fn file_name_char(c: char) -> char {
    if is_ascii_alphanumeric(c) {
        c
    } else {
        '_'
    }
}

/// A text made safe for a file name: each character as `file_name_char` keeps it,
/// and an empty text becomes `FACTURA`.
pub open spec fn sanitized(source: Seq<char>) -> Seq<char> {
    if source.len() == 0 {
        "FACTURA"@
    } else {
        source.map_values(|c: char| file_name_char(c))
    }
}

/// A sanitized name is never empty, and holds only ASCII letters, digits and `_`.
pub proof fn lemma_sanitized_is_safe(source: Seq<char>)
    ensures
        sanitized(source).len() > 0,
        forall|i: int| 0 <= i < sanitized(source).len() ==>
            is_ascii_alphanumeric(#[trigger] sanitized(source)[i]) || sanitized(source)[i] == '_',
{
    reveal_strlit("FACTURA");
}

/// Sanitizing keeps the length of a non-empty text and, position by position,
/// every ASCII letter and digit in place, putting `_` for any other character;
/// an empty text becomes `FACTURA`.
pub proof fn lemma_sanitize_keeps_letters_and_digits(source: Seq<char>)
    ensures
        source.len() == 0 ==> sanitized(source) == "FACTURA"@,
        source.len() > 0 ==> sanitized(source).len() == source.len(),
        source.len() > 0 ==> forall|i: int| 0 <= i < source.len() ==> {
            let c = #[trigger] source[i];
            if ('0' <= c && c <= '9') || ('A' <= c && c <= 'Z') || ('a' <= c && c <= 'z') {
                sanitized(source)[i] == c
            } else {
                sanitized(source)[i] == '_'
            }
        },
{
}

fn is_alphanumeric_char(c: char) -> (r: bool)
    ensures
        r == is_ascii_alphanumeric(c),
{
    ('0' <= c && c <= '9') || ('A' <= c && c <= 'Z') || ('a' <= c && c <= 'z')
}

/// A text made safe for a file name (see `sanitized`).
pub fn sanitize_filename(source: &str) -> (r: String)
    ensures
        r@ == sanitized(source@),
{
    let mut out = String::new();
    let n = source.unicode_len();
    let mut i: usize = 0;
    while i < n
        invariant
            n == source@.len(),
            i <= n,
            out@ == source@.take(i as int).map_values(|c: char| file_name_char(c)),
        decreases n - i,
    {
        let c = source.get_char(i);
        if is_alphanumeric_char(c) {
            push_char(&mut out, c);
        } else {
            push_char(&mut out, '_');
        }
        assert(source@.take(i + 1) =~= source@.take(i as int).push(c));
        assert(out@ =~= source@.take(i + 1).map_values(|c: char| file_name_char(c)));
        i = i + 1;
    }
    assert(source@.take(n as int) =~= source@);
    if out.as_str().is_empty() {
        "FACTURA".to_owned()
    } else {
        out
    }
}

/// The part of a file name that tells apart files made at the same time:
/// nothing for the first, `_(n)` for the n-th after it.
pub open spec fn attempt_suffix(attempt: nat) -> Seq<char> {
    if attempt > 0 {
        "_("@ + decimal(attempt) + ")"@
    } else {
        Seq::empty()
    }
}

fn push_attempt_suffix(s: &mut String, attempt: usize)
    ensures
        final(s)@ == old(s)@ + attempt_suffix(attempt as nat),
{
    if attempt > 0 {
        s.append("_(");
        push_decimal(s, attempt as u64);
        s.append(")");
        assert(final(s)@ =~= old(s)@ + ("_("@ + decimal(attempt as nat) + ")"@));
    } else {
        assert(final(s)@ =~= old(s)@ + Seq::<char>::empty());
    }
}

/// The name of an inventory export made on the given date.
pub open spec fn inventory_export_name(year: int, month: nat, day: nat, attempt: nat) -> Seq<char> {
    "ESTADO_INVENTARIO_"@ + signed_decimal(year) + "-"@ + decimal(month) + "-"@ + decimal(day)
        + attempt_suffix(attempt) + ".csv"@
}

/// The name of the file for an inventory export made on the given date; the
/// `attempt`-th name is used where the ones before it are taken.
pub fn inventory_export_file_name(year: i32, month: u32, day: u32, attempt: usize) -> (r: String)
    ensures
        r@ == inventory_export_name(year as int, month as nat, day as nat, attempt as nat),
{
    let mut s = String::new();
    s.append("ESTADO_INVENTARIO_");
    push_signed_decimal(&mut s, year);
    s.append("-");
    push_decimal(&mut s, month as u64);
    s.append("-");
    push_decimal(&mut s, day as u64);
    push_attempt_suffix(&mut s, attempt);
    s.append(".csv");
    assert(s@ =~= inventory_export_name(year as int, month as nat, day as nat, attempt as nat));
    s
}

/// The name of a bill's file, made at the given time.
pub open spec fn bill_name(
    name: Seq<char>,
    year: int,
    month: nat,
    day: nat,
    hour: nat,
    minute: nat,
    second: nat,
    attempt: nat,
) -> Seq<char> {
    "FACTURA_"@ + sanitized(name) + "_"@ + signed_decimal(year) + "-"@ + decimal(month) + "-"@
        + decimal(day) + "_"@ + decimal(hour) + "-"@ + decimal(minute) + "-"@ + decimal(second)
        + attempt_suffix(attempt) + ".csv"@
}

/// The name of the file for the bill with the given name, made at the given
/// time; the `attempt`-th name is used where the ones before it are taken.
pub fn bill_file_name(
    name: &str,
    year: i32,
    month: u32,
    day: u32,
    hour: u32,
    minute: u32,
    second: u32,
    attempt: usize,
) -> (r: String)
    ensures
        r@ == bill_name(
            name@,
            year as int,
            month as nat,
            day as nat,
            hour as nat,
            minute as nat,
            second as nat,
            attempt as nat,
        ),
{
    let safe_name = sanitize_filename(name);
    let mut s = String::new();
    s.append("FACTURA_");
    s.append(safe_name.as_str());
    s.append("_");
    push_signed_decimal(&mut s, year);
    s.append("-");
    push_decimal(&mut s, month as u64);
    s.append("-");
    push_decimal(&mut s, day as u64);
    s.append("_");
    push_decimal(&mut s, hour as u64);
    s.append("-");
    push_decimal(&mut s, minute as u64);
    s.append("-");
    push_decimal(&mut s, second as u64);
    push_attempt_suffix(&mut s, attempt);
    s.append(".csv");
    assert(s@ =~= bill_name(
        name@,
        year as int,
        month as nat,
        day as nat,
        hour as nat,
        minute as nat,
        second as nat,
        attempt as nat,
    ));
    s
}

} // verus!
