//! Coercions for the upstream wire fields: integer-coded booleans and
//! dates written in the `%Y-%m-%d` form.

use vstd::prelude::*;

use crate::dates::{spec_date_from_ymd, Date};
use crate::text::{chars_of, read_number, take_number};

verus! {

/// Reads the upstream boolean coding: `0` is `false`, `1` is `true`, and
/// any other value is rejected.
pub fn bool_from_int(v: u8) -> (r: Option<bool>)
    ensures
        r == (if v == 0 {
            Some(false)
        } else if v == 1 {
            Some(true)
        } else {
            None::<bool>
        }),
{
    if v == 0 {
        Some(false)
    } else if v == 1 {
        Some(true)
    } else {
        None
    }
}

/// The date written as the wire format `%Y-%m-%d` reads it: an
/// up-to-four-digit year, a `-`, an up-to-two-digit month, a `-`, and an
/// up-to-two-digit day ending the string, each number allowing leading
/// ASCII whitespace, the three together forming a real date of the
/// supported years.
pub open spec fn spec_date_from_string(s: Seq<char>) -> Option<Date> {
    match take_number(s, 4) {
        None => None,
        Some((y, r1)) => if r1.len() >= 1 && r1[0] == '-' {
            match take_number(r1.skip(1), 2) {
                None => None,
                Some((m, r2)) => if r2.len() >= 1 && r2[0] == '-' {
                    match take_number(r2.skip(1), 2) {
                        None => None,
                        Some((d, r3)) => if r3.len() == 0 {
                            spec_date_from_ymd(y, m, d)
                        } else {
                            None
                        },
                    }
                } else {
                    None
                },
            }
        } else {
            None
        },
    }
}

/// Reads a date written as `%Y-%m-%d`, exactly as
/// [`spec_date_from_string`] describes it.
pub fn date_from_string(s: &str) -> (r: Option<Date>)
    ensures
        r == spec_date_from_string(s@),
        r is Some ==> r.unwrap().wf(),
{
    let t = chars_of(s);
    proof {
        assert(t@.skip(0) =~= t@);
    }
    let (y, p1) = match read_number(&t, 0, 4) {
        Some(p) => p,
        None => {
            return None;
        },
    };
    if p1 == t.len() {
        return None;
    }
    proof {
        assert(t@.skip(p1 as int)[0] == t@[p1 as int]);
    }
    if t[p1] != '-' {
        return None;
    }
    proof {
        assert(t@.skip(p1 as int).skip(1) =~= t@.skip(p1 + 1));
    }
    let (m, p2) = match read_number(&t, p1 + 1, 2) {
        Some(p) => p,
        None => {
            return None;
        },
    };
    if p2 == t.len() {
        return None;
    }
    proof {
        assert(t@.skip(p2 as int)[0] == t@[p2 as int]);
    }
    if t[p2] != '-' {
        return None;
    }
    proof {
        assert(t@.skip(p2 as int).skip(1) =~= t@.skip(p2 + 1));
    }
    let (d, p3) = match read_number(&t, p2 + 1, 2) {
        Some(p) => p,
        None => {
            return None;
        },
    };
    if p3 < t.len() {
        return None;
    }
    Date::from_ymd(y as i32, m, d)
}

} // verus!
