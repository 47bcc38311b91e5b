//! Dates and counts written out as text.
use vstd::prelude::*;
use crate::text::push_str_chars;
use crate::message::CivilDate;

verus! {

pub open spec fn digit(d: int) -> char {
    ((d + 48) as u8) as char
}

/// The decimal digits of `n`, without leading zeros.
pub open spec fn decimal(n: nat) -> Seq<char>
    decreases n,
{
    if n < 10 {
        seq![digit(n as int)]
    } else {
        decimal(n / 10) + seq![digit((n % 10) as int)]
    }
}

/// `s` preceded by as many `fill` characters as bring it to `width`.
pub open spec fn padded(s: Seq<char>, width: int, fill: char) -> Seq<char> {
    if s.len() >= width {
        s
    } else {
        Seq::new((width - s.len()) as nat, |i: int| fill) + s
    }
}

/// A year as the calendar prints it: four digits at least, with a sign
/// outside the years 0 to 9999.
pub open spec fn year_text(y: int) -> Seq<char> {
    if 0 <= y <= 9999 {
        padded(decimal(y as nat), 4, '0')
    } else if y < 0 {
        seq!['-'] + padded(decimal((-y) as nat), 4, '0')
    } else {
        seq!['+'] + padded(decimal(y as nat), 4, '0')
    }
}

/// The English name of month `m`, counted from 1.
pub open spec fn month_name(m: int) -> Seq<char> {
    if m == 1 {
        "January"@
    } else if m == 2 {
        "February"@
    } else if m == 3 {
        "March"@
    } else if m == 4 {
        "April"@
    } else if m == 5 {
        "May"@
    } else if m == 6 {
        "June"@
    } else if m == 7 {
        "July"@
    } else if m == 8 {
        "August"@
    } else if m == 9 {
        "September"@
    } else if m == 10 {
        "October"@
    } else if m == 11 {
        "November"@
    } else {
        "December"@
    }
}

/// A month and year, as in `November 2020`.
pub open spec fn month_title(year: int, month: int) -> Seq<char> {
    month_name(month) + " "@ + year_text(year)
}

/// A date, as in `November 15, 2020`, the day padded with a space to two places.
pub open spec fn long_date(d: CivilDate) -> Seq<char> {
    month_name(d.month as int) + " "@ + padded(decimal(d.day as nat), 2, ' ') + ", "@
        + year_text(d.year as int)
}

/// The file name of a month's chapter, as in `ch-2020-11`.
pub open spec fn chapter_name(year: int, month: int) -> Seq<char> {
    "ch-"@ + year_text(year) + "-"@ + padded(decimal(month as nat), 2, '0')
}

fn digit_char(d: u64) -> (c: char)
    requires
        d < 10,
    ensures
        c == digit(d as int),
{
    ((d as u8) + 48u8) as char
}

/// Appends the decimal digits of `n`.
pub fn push_decimal(out: &mut Vec<char>, n: u64)
    ensures
        final(out)@ == old(out)@ + decimal(n as nat),
    decreases n,
{
    if n >= 10 {
        push_decimal(out, n / 10);
        out.push(digit_char(n % 10));
        assert(final(out)@ =~= old(out)@ + decimal(n as nat));
    } else {
        out.push(digit_char(n));
        assert(final(out)@ =~= old(out)@ + decimal(n as nat));
    }
}

proof fn lemma_decimal_len(n: nat)
    ensures
        decimal(n).len() >= 1,
        n < 10 ==> decimal(n).len() == 1,
        10 <= n < 100 ==> decimal(n).len() == 2,
        100 <= n < 1000 ==> decimal(n).len() == 3,
        1000 <= n < 10000 ==> decimal(n).len() == 4,
        n >= 10000 ==> decimal(n).len() >= 5,
    decreases n,
{
    if n >= 10 {
        lemma_decimal_len(n / 10);
    }
}

/// Appends the decimal digits of `n`, preceded by `fill` up to `width` places.
pub(crate) fn push_padded(out: &mut Vec<char>, n: u64, width: u64, fill: char)
    requires
        width <= 4,
    ensures
        final(out)@ == old(out)@ + padded(decimal(n as nat), width as int, fill),
{
    proof {
        lemma_decimal_len(n as nat);
    }
    let digits: u64 = if n < 10 {
        1
    } else if n < 100 {
        2
    } else if n < 1000 {
        3
    } else if n < 10000 {
        4
    } else {
        5
    };
    let ghost start = out@;
    let mut k: u64 = digits;
    while k < width
        invariant
            digits <= k <= 5,
            width <= 4,
            digits == decimal(n as nat).len() || (digits == 5 && decimal(n as nat).len() >= 5),
            k <= width || k == digits,
            out@ == start + Seq::new((k - digits) as nat, |i: int| fill),
        decreases width - k,
    {
        out.push(fill);
        k = k + 1;
        assert(out@ =~= start + Seq::new((k - digits) as nat, |i: int| fill));
    }
    let ghost mid = out@;
    push_decimal(out, n);
    assert(out@ =~= start + padded(decimal(n as nat), width as int, fill));
}

/// Appends the year as the calendar prints it.
pub fn push_year(out: &mut Vec<char>, y: i32)
    ensures
        final(out)@ == old(out)@ + year_text(y as int),
{
    let ghost start = out@;
    if 0 <= y && y <= 9999 {
        push_padded(out, y as u64, 4, '0');
    } else if y < 0 {
        out.push('-');
        let a: u64 = (-(y as i64)) as u64;
        push_padded(out, a, 4, '0');
        assert(out@ =~= start + year_text(y as int));
    } else {
        out.push('+');
        push_padded(out, y as u64, 4, '0');
        assert(out@ =~= start + year_text(y as int));
    }
}

/// Appends the English name of month `m`.
pub fn push_month_name(out: &mut Vec<char>, m: u32)
    ensures
        final(out)@ == old(out)@ + month_name(m as int),
{
    if m == 1 {
        push_str_chars(out, "January");
    } else if m == 2 {
        push_str_chars(out, "February");
    } else if m == 3 {
        push_str_chars(out, "March");
    } else if m == 4 {
        push_str_chars(out, "April");
    } else if m == 5 {
        push_str_chars(out, "May");
    } else if m == 6 {
        push_str_chars(out, "June");
    } else if m == 7 {
        push_str_chars(out, "July");
    } else if m == 8 {
        push_str_chars(out, "August");
    } else if m == 9 {
        push_str_chars(out, "September");
    } else if m == 10 {
        push_str_chars(out, "October");
    } else if m == 11 {
        push_str_chars(out, "November");
    } else {
        push_str_chars(out, "December");
    }
}

} // verus!
