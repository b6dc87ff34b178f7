//! Rendering into the calendar wire forms: date-times as
//! `YYYYMMDDTHHMMSS`, durations as `PT<N>H`, and alarm triggers as a signed
//! `PT<N>H` whose `-` appears only for offsets before the event start.

use vstd::prelude::*;
use vstd::math::abs;
use vstd::string::StringExecFns;

use crate::dates::DateTime;

verus! {

/// The digit character of value `d`.
pub open spec fn digit_char(d: int) -> char {
    if d == 0 {
        '0'
    } else if d == 1 {
        '1'
    } else if d == 2 {
        '2'
    } else if d == 3 {
        '3'
    } else if d == 4 {
        '4'
    } else if d == 5 {
        '5'
    } else if d == 6 {
        '6'
    } else if d == 7 {
        '7'
    } else if d == 8 {
        '8'
    } else {
        '9'
    }
}

/// The decimal digits of `n`, most significant first, no sign and no
/// padding.
pub open spec fn dec_digits(n: int) -> Seq<char>
    decreases n,
{
    if n < 10 {
        seq![digit_char(n)]
    } else {
        dec_digits(n / 10).push(digit_char(n % 10))
    }
}

/// `n` zero-padded to two digits.
pub open spec fn pad2(n: int) -> Seq<char> {
    if n < 10 {
        seq!['0'] + dec_digits(n)
    } else {
        dec_digits(n)
    }
}

/// `n` zero-padded to four digits.
pub open spec fn pad4(n: int) -> Seq<char> {
    if n < 10 {
        seq!['0', '0', '0'] + dec_digits(n)
    } else if n < 100 {
        seq!['0', '0'] + dec_digits(n)
    } else if n < 1000 {
        seq!['0'] + dec_digits(n)
    } else {
        dec_digits(n)
    }
}

/// The decimal digits of `n` with a leading `-` when `n` is negative.
pub open spec fn int_string(n: int) -> Seq<char> {
    if n < 0 {
        seq!['-'] + dec_digits(-n)
    } else {
        dec_digits(n)
    }
}

/// A date-time in the compact `YYYYMMDDTHHMMSS` form.
pub open spec fn fmt_datetime(dt: DateTime) -> Seq<char> {
    pad4(dt.date.year as int) + pad2(dt.date.month as int) + pad2(dt.date.day as int) + seq!['T']
        + pad2(dt.time.hour as int) + pad2(dt.time.minute as int) + pad2(dt.time.second as int)
}

/// An event duration of `hours` whole hours in the `PT<N>H` form; a
/// negative count keeps its sign between `PT` and `H`.
pub open spec fn fmt_duration(hours: int) -> Seq<char> {
    seq!['P', 'T'] + int_string(hours) + seq!['H']
}

/// An alarm trigger of `hours` whole hours relative to the event start:
/// `-PT<N>H` strictly before the start, `PT<N>H` — with no sign token — at
/// or after it.
pub open spec fn fmt_trigger(hours: int) -> Seq<char> {
    (if hours < 0 {
        seq!['-']
    } else {
        Seq::<char>::empty()
    }) + seq!['P', 'T'] + dec_digits(abs(hours) as int) + seq!['H']
}

/// The one-character string of digit value `d`.
fn digit_str(d: u8) -> (r: &'static str)
    requires
        d <= 9,
    ensures
        r@ == seq![digit_char(d as int)],
{
    let r: &'static str = if d == 0 {
        "0"
    } else if d == 1 {
        "1"
    } else if d == 2 {
        "2"
    } else if d == 3 {
        "3"
    } else if d == 4 {
        "4"
    } else if d == 5 {
        "5"
    } else if d == 6 {
        "6"
    } else if d == 7 {
        "7"
    } else if d == 8 {
        "8"
    } else {
        "9"
    };
    proof {
        reveal_strlit("0");
        reveal_strlit("1");
        reveal_strlit("2");
        reveal_strlit("3");
        reveal_strlit("4");
        reveal_strlit("5");
        reveal_strlit("6");
        reveal_strlit("7");
        reveal_strlit("8");
        reveal_strlit("9");
        assert(r@ =~= seq![digit_char(d as int)]);
    }
    r
}

/// Appends the decimal digits of `n`.
pub fn push_decimal(out: &mut String, n: u64)
    ensures
        final (out)@ == old(out)@ + dec_digits(n as int),
    decreases n,
{
    if n >= 10 {
        push_decimal(out, n / 10);
    }
    let ghost mid = out@;
    out.append(digit_str((n % 10) as u8));
    proof {
        if n < 10 {
            assert(out@ =~= old(out)@ + dec_digits(n as int));
        } else {
            assert(mid == old(out)@ + dec_digits(n as int / 10));
            assert(out@ =~= old(out)@ + dec_digits(n as int));
        }
    }
}

/// Appends `n` zero-padded to two digits.
pub fn push_pad2(out: &mut String, n: u8)
    requires
        n < 100,
    ensures
        final (out)@ == old(out)@ + pad2(n as int),
{
    if n < 10 {
        out.append("0");
        proof {
            reveal_strlit("0");
        }
    }
    let ghost mid = out@;
    push_decimal(out, n as u64);
    proof {
        assert(out@ =~= old(out)@ + pad2(n as int));
    }
}

/// Appends `n` zero-padded to four digits.
pub fn push_pad4(out: &mut String, n: i32)
    requires
        0 <= n <= 9999,
    ensures
        final (out)@ == old(out)@ + pad4(n as int),
{
    if n < 10 {
        out.append("000");
        proof {
            reveal_strlit("000");
        }
    } else if n < 100 {
        out.append("00");
        proof {
            reveal_strlit("00");
        }
    } else if n < 1000 {
        out.append("0");
        proof {
            reveal_strlit("0");
        }
    }
    push_decimal(out, n as u64);
    proof {
        assert(out@ =~= old(out)@ + pad4(n as int));
    }
}

/// Renders a date-time in the compact `YYYYMMDDTHHMMSS` form.
pub fn format_datetime(dt: &DateTime) -> (r: String)
    requires
        dt.wf(),
    ensures
        r@ == fmt_datetime(*dt),
{
    let mut out = String::new();
    push_pad4(&mut out, dt.date.year);
    push_pad2(&mut out, dt.date.month);
    push_pad2(&mut out, dt.date.day);
    out.append("T");
    push_pad2(&mut out, dt.time.hour);
    push_pad2(&mut out, dt.time.minute);
    push_pad2(&mut out, dt.time.second);
    proof {
        reveal_strlit("T");
        assert(out@ =~= fmt_datetime(*dt));
    }
    out
}

/// The magnitude of `n` as an unsigned number.
fn magnitude(n: i64) -> (r: u64)
    ensures
        r == abs(n as int),
{
    if n >= 0 {
        n as u64
    } else {
        (-(n as i128)) as u64
    }
}

/// Renders an event duration of `hours` whole hours as `PT<N>H`.
pub fn format_duration(hours: i64) -> (r: String)
    ensures
        r@ == fmt_duration(hours as int),
{
    let mut out = String::new();
    out.append("PT");
    if hours < 0 {
        out.append("-");
    }
    push_decimal(&mut out, magnitude(hours));
    out.append("H");
    proof {
        reveal_strlit("PT");
        reveal_strlit("-");
        reveal_strlit("H");
        assert(out@ =~= fmt_duration(hours as int));
    }
    out
}

/// Renders an alarm trigger of `hours` whole hours, the sign token leading
/// and only for a trigger before the event start.
pub fn format_trigger(hours: i64) -> (r: String)
    ensures
        r@ == fmt_trigger(hours as int),
{
    let mut out = String::new();
    if hours < 0 {
        out.append("-");
    }
    out.append("PT");
    push_decimal(&mut out, magnitude(hours));
    out.append("H");
    proof {
        reveal_strlit("PT");
        reveal_strlit("-");
        reveal_strlit("H");
        assert(out@ =~= fmt_trigger(hours as int));
    }
    out
}

} // verus!
