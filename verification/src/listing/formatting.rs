//! The columns of the long format: the read-only flag and the size.

use crate::listing::colors::{green, paint_as, paint_green, paint_red, paint_yellow, red, yellow};
use vstd::prelude::*;
use vstd::string::{StrSliceExecFns, StringExecFns};

verus! {

/// The width, in characters, to which the two columns are filled up.
pub const COLUMNS_WIDTH: usize = 31;

/// The character that stands for a digit.
pub open spec fn digit(d: nat) -> char {
    if d == 0 {
        '0'
    } else if d == 1 {
        '1'
    } else if d == 2 {
        '2'
    } else if d == 3 {
        '3'
    } else if d == 4 {
        '4'
    } else if d == 5 {
        '5'
    } else if d == 6 {
        '6'
    } else if d == 7 {
        '7'
    } else if d == 8 {
        '8'
    } else {
        '9'
    }
}

/// A number in decimal, without leading zeros.
pub open spec fn decimal(n: nat) -> Seq<char>
    decreases n,
{
    if n < 10 {
        seq![digit(n)]
    } else {
        decimal(n / 10).push(digit(n % 10))
    }
}

/// `n` divided by `unit` and rounded to the nearest whole number, halves
/// upwards.
pub open spec fn rounded(n: nat, unit: nat) -> nat {
    (n + unit / 2) / unit
}

/// A size in bytes as people read it: in units of a thousand, a million or a
/// thousand million bytes from that size on, rounded to a whole number of
/// them.
pub open spec fn human_size(bytes: nat) -> Seq<char> {
    if bytes >= 1_000_000_000 {
        decimal(rounded(bytes, 1_000_000_000)).push('G')
    } else if bytes >= 1_000_000 {
        decimal(rounded(bytes, 1_000_000)).push('M')
    } else if bytes >= 1_000 {
        decimal(rounded(bytes, 1_000)).push('K')
    } else {
        decimal(bytes)
    }
}

/// `count` spaces.
pub open spec fn spaces(count: nat) -> Seq<char> {
    Seq::new(count, |i: int| ' ')
}

/// `text` filled up with spaces to `width` characters; a longer text stays as
/// it is.
pub open spec fn padded(text: Seq<char>, width: nat) -> Seq<char> {
    if text.len() >= width {
        text
    } else {
        text + spaces((width - text.len()) as nat)
    }
}

/// What the first column says.
pub open spec fn flag_text(readonly: bool) -> Seq<char> {
    if readonly {
        "  Yes    "@
    } else {
        "  No     "@
    }
}

/// The colour of the first column.
pub open spec fn flag_color(readonly: bool) -> Seq<char> {
    if readonly {
        red()
    } else {
        green()
    }
}

/// The two columns made of their cells: filled up to the common width, with
/// one space behind.
pub open spec fn columns(flag: Seq<char>, amount: Seq<char>) -> Seq<char> {
    padded(flag + amount, COLUMNS_WIDTH as nat).push(' ')
}

/// The two columns of an entry, where `flag_painted` and `size_painted` say
/// which of the two cells came back coloured.
pub open spec fn metadata_text(
    readonly: bool,
    size: nat,
    flag_painted: bool,
    size_painted: bool,
) -> Seq<char> {
    columns(
        paint_as(flag_text(readonly), flag_color(readonly), flag_painted),
        paint_as(human_size(size).push(' '), yellow(), size_painted),
    )
}

/// The character of a digit.
fn digit_char(d: u64) -> (c: char)
    requires
        d < 10,
    ensures
        c == digit(d as nat),
{
    if d == 0 {
        '0'
    } else if d == 1 {
        '1'
    } else if d == 2 {
        '2'
    } else if d == 3 {
        '3'
    } else if d == 4 {
        '4'
    } else if d == 5 {
        '5'
    } else if d == 6 {
        '6'
    } else if d == 7 {
        '7'
    } else if d == 8 {
        '8'
    } else {
        '9'
    }
}

/// Writes a number in decimal.
pub fn decimal_string(n: u64) -> (text: String)
    ensures
        text@ == decimal(n as nat),
    decreases n,
{
    if n < 10 {
        let mut text = String::new();
        text.push(digit_char(n));
        text
    } else {
        let mut text = decimal_string(n / 10);
        text.push(digit_char(n % 10));
        text
    }
}

/// Divides by one of the three units and rounds to the nearest whole number.
fn rounded_quotient(n: u64, unit: u64) -> (q: u64)
    requires
        unit == 1_000 || unit == 1_000_000 || unit == 1_000_000_000,
    ensures
        q == rounded(n as nat, unit as nat),
{
    let whole: u64 = n / unit;
    if n % unit >= unit / 2 {
        whole + 1
    } else {
        whole
    }
}

/// Converts a number of bytes into text with the fitting unit.
pub fn format_bytes(bytes: u64) -> (text: String)
    ensures
        text@ == human_size(bytes as nat),
{
    if bytes >= 1_000_000_000 {
        let mut text = decimal_string(rounded_quotient(bytes, 1_000_000_000));
        text.push('G');
        text
    } else if bytes >= 1_000_000 {
        let mut text = decimal_string(rounded_quotient(bytes, 1_000_000));
        text.push('M');
        text
    } else if bytes >= 1_000 {
        let mut text = decimal_string(rounded_quotient(bytes, 1_000));
        text.push('K');
        text
    } else {
        decimal_string(bytes)
    }
}

/// Joins the cell of the flag and the cell of the size, fills them up to the
/// width of the columns and puts one space behind.
pub fn metadata_columns(flag: &str, amount: &str) -> (text: String)
    ensures
        text@ == columns(flag@, amount@),
{
    let mut text = String::from_str(flag);
    text.append(amount);
    let filled: usize = text.as_str().unicode_len();
    let ghost cells = text@;
    let mut i: usize = filled;
    while i < COLUMNS_WIDTH
        invariant
            filled <= i,
            filled < COLUMNS_WIDTH ==> i <= COLUMNS_WIDTH,
            filled >= COLUMNS_WIDTH ==> i == filled,
            cells == flag@ + amount@,
            filled == cells.len(),
            text@ == cells + spaces((i - filled) as nat),
        decreases COLUMNS_WIDTH - i,
    {
        text.push(' ');
        i += 1;
    }
    text.push(' ');
    text
}

/// The read-only flag and the size of an entry as the long format shows them:
/// `Yes` in red or `No` in green, the size in yellow with its unit, filled up
/// to the width of the columns. Each of the two cells comes back from the
/// colouring either coloured or plain.
pub fn print_metadata(readonly: bool, size: u64) -> (text: String)
    ensures
        exists|flag_painted: bool, size_painted: bool|
            text@ == metadata_text(readonly, size as nat, flag_painted, size_painted),
{
    let flag = if readonly {
        paint_red("  Yes    ")
    } else {
        paint_green("  No     ")
    };
    let mut amount = format_bytes(size);
    amount.push(' ');
    let amount = paint_yellow(amount.as_str());
    let text = metadata_columns(flag.as_str(), amount.as_str());
    proof {
        let flag_painted = flag@ != flag_text(readonly);
        let size_painted = amount@ != human_size(size as nat).push(' ');
        assert(text@ == metadata_text(readonly, size as nat, flag_painted, size_painted));
    }
    text
}

} // verus!
