//! The time-slot description parser.
//!
//! A booking's schedule fragment, such as `"15:00 - 16:00 (23/8)"`, names a
//! start time, an end time, and optionally an end-date hint `(D/M)` — day
//! before month — that places the end on another day of the anchor's year.
//! An end date that would fall before the anchor denotes the following year
//! and is advanced by exactly twelve months. The parsed slot is the start
//! date-time plus the signed span from start to end, which is negative when
//! the end lies before the start: no clamping is performed.
//!
//! [`spec_parse_time_slot`] states the whole grammar and its error
//! taxonomy — the start and end times are read before the date hint, so
//! their errors come first; [`deserialize_time_slot_desc`] returns exactly
//! that value.

use vstd::prelude::*;

use crate::dates::{
    spec_add_12_months, spec_date_from_ymd, spec_days_in_month, Date, DateTime, Duration, MAX_YEAR,
};
use crate::text::{
    chars_of, meaningful_tokens, parse_hhmm, parse_hhmm_chars, parse_u32, parse_u32_chars,
    remove_dashes, remove_parens, split_on_slash, split_slash, strip_parens, tokenize,
};

verus! {

/// A resolved time slot: its start and the signed span to its end.
#[derive(Clone, Copy, Debug, PartialEq, Eq, Structural)]
pub struct TimeSlotDesc {
    pub date: DateTime,
    pub duration: Duration,
}

/// Every way a slot description or a reminder time can be malformed. Each
/// failure is deterministic and caused by the input text alone.
#[derive(Clone, Copy, Debug, PartialEq, Eq, Structural)]
pub enum TimeSlotParseError {
    /// The month numeral of the date hint is missing or unreadable.
    ParseMonth,
    /// The day numeral of the date hint is unreadable.
    ParseDay,
    /// Day and month read, but they form no date of the anchor's year.
    ParseEnd,
    /// The start time is missing or is no `HH:MM` time.
    StartDate,
    /// The end time is missing or is no `HH:MM` time.
    EndDate,
    /// Rolling the end date into the next year left the supported years.
    Overflow,
    /// A reminder's time of day is no `HH:MM` time.
    AlarmDate,
}

impl TimeSlotParseError {
    /// The failure's display message.
    pub open spec fn spec_message(self) -> Seq<char> {
        match self {
            TimeSlotParseError::ParseMonth => "Could not parse month"@,
            TimeSlotParseError::ParseDay => "Could not parse day"@,
            TimeSlotParseError::ParseEnd => "Could not parse end"@,
            TimeSlotParseError::StartDate => "Could not parse start date"@,
            TimeSlotParseError::EndDate => "Could not parse end date"@,
            TimeSlotParseError::Overflow => "Year overflow"@,
            TimeSlotParseError::AlarmDate => "Could not parse alarm date"@,
        }
    }

    /// The failure's display message, for reporting to a caller.
    pub fn message(&self) -> (r: &'static str)
        ensures
            r@ == self.spec_message(),
    {
        match self {
            TimeSlotParseError::ParseMonth => "Could not parse month",
            TimeSlotParseError::ParseDay => "Could not parse day",
            TimeSlotParseError::ParseEnd => "Could not parse end",
            TimeSlotParseError::StartDate => "Could not parse start date",
            TimeSlotParseError::EndDate => "Could not parse end date",
            TimeSlotParseError::Overflow => "Year overflow",
            TimeSlotParseError::AlarmDate => "Could not parse alarm date",
        }
    }
}

/// The end date written by the hint token, still in the anchor's year: the
/// token with all parentheses stripped is split on `/`; the second part is
/// the month and the first the day — in that order — and both must be
/// unsigned numbers forming a date of the anchor's year. A missing or
/// unreadable month is reported before an unreadable day.
pub open spec fn spec_end_date_naive(hint: Seq<char>, anchor: Date) -> Result<
    Date,
    TimeSlotParseError,
> {
    let parts = split_slash(strip_parens(hint));
    if parts.len() < 2 || parse_u32(parts[1]) is None {
        Err(TimeSlotParseError::ParseMonth)
    } else if parse_u32(parts[0]) is None {
        Err(TimeSlotParseError::ParseDay)
    } else {
        let month = parse_u32(parts[1]).unwrap();
        let day = parse_u32(parts[0]).unwrap();
        match spec_date_from_ymd(anchor.year as int, month as int, day as int) {
            Some(d) => Ok(d),
            None => Err(TimeSlotParseError::ParseEnd),
        }
    }
}

/// The end date the hint resolves to: the naive end date, advanced by
/// twelve months when it falls strictly before the anchor.
pub open spec fn spec_resolve_end_date(hint: Seq<char>, anchor: Date) -> Result<
    Date,
    TimeSlotParseError,
> {
    match spec_end_date_naive(hint, anchor) {
        Err(e) => Err(e),
        Ok(naive) => if naive.spec_lt(anchor) {
            match spec_add_12_months(naive) {
                Some(rolled) => Ok(rolled),
                None => Err(TimeSlotParseError::Overflow),
            }
        } else {
            Ok(naive)
        },
    }
}

/// What parsing a slot description against an anchor date yields.
///
/// The description's meaningful tokens are its whitespace-separated words
/// with any literal `-` dropped. The first two tokens are read as the
/// start and end times of day, in that order, so their errors take
/// precedence; a third token is the end-date hint, and without one the end
/// date is the anchor itself. The slot starts at the anchor with the start
/// time, and its duration is the signed span from there to the end date
/// with the end time. Tokens beyond the third are ignored.
pub open spec fn spec_parse_time_slot(desc: Seq<char>, anchor: Date) -> Result<
    TimeSlotDesc,
    TimeSlotParseError,
> {
    let toks = meaningful_tokens(desc);
    if toks.len() < 1 || parse_hhmm(toks[0]) is None {
        Err(TimeSlotParseError::StartDate)
    } else if toks.len() < 2 || parse_hhmm(toks[1]) is None {
        Err(TimeSlotParseError::EndDate)
    } else {
        let end_res: Result<Date, TimeSlotParseError> = if toks.len() >= 3 {
            spec_resolve_end_date(toks[2], anchor)
        } else {
            Ok(anchor)
        };
        match end_res {
            Err(e) => Err(e),
            Ok(end_date) => {
                let st = parse_hhmm(toks[0]).unwrap();
                let et = parse_hhmm(toks[1]).unwrap();
                let start_dt = DateTime { date: anchor, time: st };
                let end_dt = DateTime { date: end_date, time: et };
                Ok(
                    TimeSlotDesc {
                        date: start_dt,
                        duration: Duration {
                            seconds: (end_dt.epoch_seconds() - start_dt.epoch_seconds()) as i64,
                        },
                    },
                )
            },
        }
    }
}

/// For every description whose meaningful tokens are exactly two valid
/// `HH:MM` times — no date hint — parsing succeeds: the slot starts at the
/// anchor date with the first time, its end is the anchor date with the
/// second time, and its duration is their signed difference. The duration
/// is negative when the end time lies before the start time: nothing is
/// clamped.
pub proof fn lemma_no_hint_parse(desc: Seq<char>, anchor: Date, t0: Seq<char>, t1: Seq<char>)
    requires
        anchor.wf(),
        meaningful_tokens(desc) == seq![t0, t1],
        parse_hhmm(t0) is Some,
        parse_hhmm(t1) is Some,
    ensures
        ({
            let st = parse_hhmm(t0).unwrap();
            let et = parse_hhmm(t1).unwrap();
            spec_parse_time_slot(desc, anchor) == Ok::<TimeSlotDesc, TimeSlotParseError>(
                TimeSlotDesc {
                    date: DateTime { date: anchor, time: st },
                    duration: Duration {
                        seconds: (et.seconds_of_day() - st.seconds_of_day()) as i64,
                    },
                },
            )
        }),
{
    let toks = meaningful_tokens(desc);
    assert(toks[0] == t0 && toks[1] == t1);
}

/// The date hint is read day first, month second: with hint parts `a/b`
/// naming the numbers `da` and `mo`, the end date constructed in the
/// anchor's year has day `da` and month `mo` — never the other way round.
pub proof fn lemma_hint_day_month_order(hint: Seq<char>, anchor: Date, da: u32, mo: u32)
    requires
        anchor.wf(),
        split_slash(strip_parens(hint)).len() >= 2,
        parse_u32(split_slash(strip_parens(hint))[0]) == Some(da),
        parse_u32(split_slash(strip_parens(hint))[1]) == Some(mo),
        spec_date_from_ymd(anchor.year as int, mo as int, da as int) is Some,
    ensures
        spec_end_date_naive(hint, anchor) == Ok::<Date, TimeSlotParseError>(
            Date { year: anchor.year, month: mo as u8, day: da as u8 },
        ),
{
}

/// A constructed end date that falls strictly before its anchor — still
/// written in the anchor's year — always advances by exactly twelve months:
/// one whole year with the same month, never a partial amount. Only the day
/// is clamped, to the length the month has in the next year.
pub proof fn lemma_year_rollover(hint: Seq<char>, anchor: Date, naive: Date)
    requires
        anchor.wf(),
        naive.wf(),
        spec_end_date_naive(hint, anchor) == Ok::<Date, TimeSlotParseError>(naive),
        naive.spec_lt(anchor),
        naive.year < MAX_YEAR,
    ensures
        spec_resolve_end_date(hint, anchor) is Ok,
        ({
            let rolled = spec_resolve_end_date(hint, anchor).unwrap();
            &&& rolled.year == naive.year + 1
            &&& rolled.month == naive.month
            &&& 12 * rolled.year + rolled.month == 12 * naive.year + naive.month + 12
            &&& rolled.day == (if naive.day <= spec_days_in_month(
                naive.year + 1,
                naive.month as int,
            ) {
                naive.day as int
            } else {
                spec_days_in_month(naive.year + 1, naive.month as int)
            })
        }),
{
}

/// Parsing is a pure function of the description and the anchor: any two
/// results of parsing the same input are identical, bit for bit — so two
/// calls of [`deserialize_time_slot_desc`] on equal inputs return equal
/// values.
pub proof fn lemma_parse_deterministic(
    r1: Result<TimeSlotDesc, TimeSlotParseError>,
    r2: Result<TimeSlotDesc, TimeSlotParseError>,
    desc: Seq<char>,
    anchor: Date,
)
    requires
        r1 == spec_parse_time_slot(desc, anchor),
        r2 == spec_parse_time_slot(desc, anchor),
    ensures
        r1 == r2,
{
}

/// Resolves the end-date hint token, computed.
fn resolve_end_date(hint: &Vec<char>, anchor: &Date) -> (r: Result<Date, TimeSlotParseError>)
    requires
        anchor.wf(),
    ensures
        r == spec_resolve_end_date(hint@, *anchor),
        r is Ok ==> r.unwrap().wf(),
{
    let stripped = remove_parens(hint);
    let parts = split_on_slash(&stripped);
    proof {
        assert(parts.deep_view() == split_slash(strip_parens(hint@)));
    }
    if parts.len() < 2 {
        return Err(TimeSlotParseError::ParseMonth);
    }
    proof {
        assert(parts.deep_view()[1] =~= parts@[1]@);
        assert(parts.deep_view()[0] =~= parts@[0]@);
    }
    let month = match parse_u32_chars(&parts[1]) {
        Some(m) => m,
        None => {
            return Err(TimeSlotParseError::ParseMonth);
        },
    };
    let day = match parse_u32_chars(&parts[0]) {
        Some(d) => d,
        None => {
            return Err(TimeSlotParseError::ParseDay);
        },
    };
    let naive = match Date::from_ymd(anchor.year, month, day) {
        Some(d) => d,
        None => {
            return Err(TimeSlotParseError::ParseEnd);
        },
    };
    if naive.lt(anchor) {
        match naive.checked_add_12_months() {
            Some(rolled) => Ok(rolled),
            None => Err(TimeSlotParseError::Overflow),
        }
    } else {
        Ok(naive)
    }
}

/// Parses a slot description against its anchor date, returning exactly
/// what [`spec_parse_time_slot`] describes: the slot's start date-time and
/// signed duration, or the first applicable parse error.
pub fn deserialize_time_slot_desc(time_slot_desc: &str, start_date: Date) -> (r: Result<
    TimeSlotDesc,
    TimeSlotParseError,
>)
    requires
        start_date.wf(),
    ensures
        r == spec_parse_time_slot(time_slot_desc@, start_date),
{
    let chars = chars_of(time_slot_desc);
    let words = tokenize(&chars);
    let toks = remove_dashes(words);
    if toks.len() < 1 {
        return Err(TimeSlotParseError::StartDate);
    }
    proof {
        assert(toks.deep_view()[0] =~= toks@[0]@);
    }
    let st = match parse_hhmm_chars(&toks[0]) {
        Some(t) => t,
        None => {
            return Err(TimeSlotParseError::StartDate);
        },
    };
    if toks.len() < 2 {
        return Err(TimeSlotParseError::EndDate);
    }
    proof {
        assert(toks.deep_view()[1] =~= toks@[1]@);
    }
    let et = match parse_hhmm_chars(&toks[1]) {
        Some(t) => t,
        None => {
            return Err(TimeSlotParseError::EndDate);
        },
    };
    let end_date: Date = if toks.len() >= 3 {
        proof {
            assert(toks.deep_view()[2] =~= toks@[2]@);
        }
        match resolve_end_date(&toks[2], &start_date) {
            Ok(d) => d,
            Err(e) => {
                return Err(e);
            },
        }
    } else {
        start_date
    };
    let start_dt = DateTime::new(start_date, st);
    let end_dt = DateTime::new(end_date, et);
    let duration = end_dt.signed_duration_since(&start_dt);
    Ok(TimeSlotDesc { date: start_dt, duration })
}

} // verus!
