//! Booking records and their mapping to calendar events.
//!
//! One booking becomes one event: the booking's identifier as the event
//! identifier, the parsed slot's start, the room name as title, location
//! and alarm text, a status drawn from the queue flag, the slot's duration
//! in whole hours, and one reminder alarm whose trigger is the signed whole
//! hours from the event start to the reminder — negative when the reminder
//! comes first.

use vstd::prelude::*;
use vstd::string::StringExecFns;

use crate::dates::{lemma_trunc_div_sign, trunc_div, Date, DateTime};
use crate::render::{dec_digits, fmt_trigger};
use crate::text::{chars_of, parse_hhmm, parse_hhmm_chars};
use crate::time_slot_desc::{
    deserialize_time_slot_desc, spec_parse_time_slot, TimeSlotDesc, TimeSlotParseError,
};

verus! {

/// One booking record, as the upstream service reports it, with the wire
/// fields already coerced to plain values.
#[derive(Debug)]
pub struct Booking {
    pub booking_id: u32,
    pub laundry_room_id: u32,
    pub laundry_room: String,
    pub time_slots: u32,
    pub time_slots_desc: String,
    pub date_text: String,
    pub image: String,
    pub is_reminder: bool,
    pub date_reminder: Date,
    pub date_book: Date,
    pub date_reminder_text: String,
    pub hour_reminder: String,
    pub is_queue: bool,
    pub number_queue: u32,
    pub number_queue_text: String,
}

impl Booking {
    /// The record's dates are real dates.
    pub open spec fn wf(self) -> bool {
        self.date_reminder.wf() && self.date_book.wf()
    }
}

/// One reminder time type offered by the upstream service.
#[derive(Debug)]
pub struct TimeType {
    pub id: u32,
    pub name: String,
    pub selected: bool,
}

/// The reminder configuration attached to a booking listing.
#[derive(Debug)]
pub struct Reminder {
    pub time_type: Vec<TimeType>,
}

/// A booking listing: the records, their total count, and the reminder
/// configuration when the service sends one.
#[derive(Debug)]
pub struct MyBooking {
    pub data: Vec<Booking>,
    pub total: u32,
    pub reminder: Option<Reminder>,
}

/// An event's confirmation state: tentative while the booking still sits in
/// a queue, confirmed otherwise.
#[derive(Clone, Copy, Debug, PartialEq, Eq, Structural)]
pub enum EventStatus {
    Confirmed,
    Tentative,
}

/// A display reminder attached to an event: its text and its trigger as
/// signed whole hours relative to the event start.
#[derive(Debug)]
pub struct Alarm {
    pub description: String,
    pub trigger_hours: i64,
}

/// One calendar event built from one booking.
#[derive(Debug)]
pub struct CalendarEvent {
    pub uid: String,
    pub dtstamp: DateTime,
    pub dtstart: DateTime,
    pub summary: String,
    pub location: String,
    pub status: EventStatus,
    pub duration_hours: i64,
    pub alarm: Alarm,
}

/// A calendar document: its format version, its producer identifier, and
/// its events in booking order.
#[derive(Debug)]
pub struct Calendar {
    pub version: String,
    pub prodid: String,
    pub events: Vec<CalendarEvent>,
}

/// Why building an event for `b` fails, if it does: the slot description's
/// own parse error, or an unreadable reminder time of day.
pub open spec fn spec_event_error(b: Booking) -> Option<TimeSlotParseError> {
    match spec_parse_time_slot(b.time_slots_desc@, b.date_book) {
        Err(e) => Some(e),
        Ok(_) => if parse_hhmm(b.hour_reminder@) is None {
            Some(TimeSlotParseError::AlarmDate)
        } else {
            None
        },
    }
}

/// The alarm trigger for `b` and its parsed slot, in signed whole hours
/// truncated toward zero: the span from the slot's start to the reminder's
/// date and time. Only meaningful when the reminder time parses.
pub open spec fn spec_alarm_offset_hours(b: Booking, slot: TimeSlotDesc) -> int {
    let at = parse_hhmm(b.hour_reminder@).unwrap();
    trunc_div(
        DateTime { date: b.date_reminder, time: at }.epoch_seconds() - slot.date.epoch_seconds(),
        3600,
    )
}

/// What the one event built from `b` and its parsed slot at stamping time
/// `now` holds, field by field. Only meaningful when the reminder time
/// parses.
pub open spec fn event_matches(e: CalendarEvent, b: Booking, slot: TimeSlotDesc, now: DateTime) -> bool {
    &&& e.uid@ == dec_digits(b.booking_id as int)
    &&& e.dtstamp == now
    &&& e.dtstart == slot.date
    &&& e.summary@ == b.laundry_room@
    &&& e.location@ == b.laundry_room@
    &&& e.status == (if b.is_queue {
        EventStatus::Tentative
    } else {
        EventStatus::Confirmed
    })
    &&& e.duration_hours == trunc_div(slot.duration.seconds as int, 3600)
    &&& e.alarm.description@ == b.laundry_room@
    &&& e.alarm.trigger_hours == spec_alarm_offset_hours(b, slot)
}

/// Builds the calendar event for one booking and its parsed slot, stamped
/// with `now`: exactly the fields [`event_matches`] lists, or the alarm
/// error exactly when the reminder's time of day does not parse.
pub fn build_event(booking: &Booking, slot: &TimeSlotDesc, now: DateTime) -> (r: Result<
    CalendarEvent,
    TimeSlotParseError,
>)
    requires
        booking.wf(),
        now.wf(),
        slot.date.wf(),
    ensures
        r is Ok <==> parse_hhmm(booking.hour_reminder@) is Some,
        r is Err ==> r == Err::<CalendarEvent, TimeSlotParseError>(TimeSlotParseError::AlarmDate),
        r is Ok ==> event_matches(r.unwrap(), *booking, *slot, now),
{
    let reminder_chars = chars_of(booking.hour_reminder.as_str());
    let at = match parse_hhmm_chars(&reminder_chars) {
        Some(t) => t,
        None => {
            return Err(TimeSlotParseError::AlarmDate);
        },
    };
    let alarm_at = DateTime::new(booking.date_reminder, at);
    let diff = alarm_at.signed_duration_since(&slot.date);
    let trigger_hours = diff.num_hours();
    let duration_hours = slot.duration.num_hours();
    let mut uid = String::new();
    crate::render::push_decimal(&mut uid, booking.booking_id as u64);
    Ok(
        CalendarEvent {
            uid,
            dtstamp: now,
            dtstart: slot.date,
            summary: booking.laundry_room.clone(),
            location: booking.laundry_room.clone(),
            status: if booking.is_queue {
                EventStatus::Tentative
            } else {
                EventStatus::Confirmed
            },
            duration_hours,
            alarm: Alarm { description: booking.laundry_room.clone(), trigger_hours },
        },
    )
}

/// The alarm trigger's sign convention, at the whole-hour granularity the
/// offset is truncated to: a reminder a full hour or more before the event
/// start gives a negative trigger, one a full hour or more after gives a
/// positive trigger, and one within the hour of the start — the start
/// itself included — gives zero, which is rendered without a sign token.
///
/// `diff` is the reminder's place minus the event start's place on the
/// time line, in seconds.
pub proof fn lemma_alarm_offset_sign(diff: int)
    ensures
        trunc_div(diff, 3600) < 0 <==> diff <= -3600,
        trunc_div(diff, 3600) > 0 <==> diff >= 3600,
        trunc_div(diff, 3600) == 0 <==> -3600 < diff < 3600,
        fmt_trigger(trunc_div(diff, 3600))[0] == '-' <==> diff <= -3600,
        diff == 0 ==> fmt_trigger(trunc_div(diff, 3600)) == seq!['P', 'T', '0', 'H'],
{
    lemma_trunc_div_sign(diff, 3600);
    let off = trunc_div(diff, 3600);
    if off < 0 {
        assert(fmt_trigger(off)[0] == '-');
    } else {
        assert(fmt_trigger(off)[0] == 'P');
    }
    if diff == 0 {
        assert(fmt_trigger(0) =~= seq!['P', 'T', '0', 'H']);
    }
}

/// The sign convention, stated of a booking's own alarm offset — the value
/// [`event_matches`] fixes as the built event's `trigger_hours`: negative
/// exactly when the reminder lies a full hour or more before the slot's
/// start, positive exactly when a full hour or more after, and rendered
/// `PT0H` with no sign token when it coincides with the start.
pub proof fn lemma_event_trigger_sign(b: Booking, slot: TimeSlotDesc)
    requires
        parse_hhmm(b.hour_reminder@) is Some,
    ensures
        ({
            let at = parse_hhmm(b.hour_reminder@).unwrap();
            let diff = DateTime { date: b.date_reminder, time: at }.epoch_seconds()
                - slot.date.epoch_seconds();
            &&& spec_alarm_offset_hours(b, slot) < 0 <==> diff <= -3600
            &&& spec_alarm_offset_hours(b, slot) > 0 <==> diff >= 3600
            &&& diff == 0 ==> fmt_trigger(spec_alarm_offset_hours(b, slot)) == seq![
                'P',
                'T',
                '0',
                'H',
            ]
        }),
{
    let at = parse_hhmm(b.hour_reminder@).unwrap();
    let diff = DateTime { date: b.date_reminder, time: at }.epoch_seconds()
        - slot.date.epoch_seconds();
    lemma_alarm_offset_sign(diff);
}

/// The first event-building error in `data`, in order, if any.
pub open spec fn spec_batch_error(data: Seq<Booking>) -> Option<TimeSlotParseError>
    decreases data.len(),
{
    if data.len() == 0 {
        None
    } else if spec_event_error(data[0]) is Some {
        spec_event_error(data[0])
    } else {
        spec_batch_error(data.drop_first())
    }
}

/// When the first `i` records build cleanly, the batch's first error is the
/// one at `i` — or there is none if `i` is the whole batch.
proof fn lemma_batch_error_prefix(data: Seq<Booking>, i: int)
    requires
        0 <= i <= data.len(),
        forall|k: int| 0 <= k < i ==> spec_event_error(#[trigger] data[k]) is None,
    ensures
        i == data.len() ==> spec_batch_error(data) is None,
        i < data.len() && spec_event_error(data[i]) is Some ==> spec_batch_error(data)
            == spec_event_error(data[i]),
    decreases data.len(),
{
    if i == 0 {
    } else {
        assert(spec_event_error(data[0]) is None);
        assert forall|k: int| 0 <= k < i - 1 implies spec_event_error(
            #[trigger] data.drop_first()[k],
        ) is None by {
            assert(data.drop_first()[k] == data[k + 1]);
        }
        lemma_batch_error_prefix(data.drop_first(), i - 1);
        if i < data.len() {
            assert(data.drop_first()[i - 1] == data[i]);
        }
    }
}

impl MyBooking {
    /// Every record's dates are real dates.
    pub open spec fn wf(self) -> bool {
        forall|i: int| 0 <= i < self.data@.len() ==> (#[trigger] self.data@[i]).wf()
    }

    /// Builds the calendar for the whole listing, stamped with `now`: one
    /// event per record in record order, or the first record's error, with
    /// nothing built, if any record is malformed.
    pub fn try_into_calendar(&self, now: DateTime) -> (r: Result<Calendar, TimeSlotParseError>)
        requires
            self.wf(),
            now.wf(),
        ensures
            r is Ok <==> spec_batch_error(self.data@) is None,
            r is Err ==> r == Err::<Calendar, TimeSlotParseError>(
                spec_batch_error(self.data@).unwrap(),
            ),
            r is Ok ==> {
                let c = r.unwrap();
                &&& c.version@ == "2.0"@
                &&& c.prodid@ == "bokatvattid-api"@
                &&& c.events@.len() == self.data@.len()
                &&& forall|i: int|
                    0 <= i < self.data@.len() ==> event_matches(
                        #[trigger] c.events@[i],
                        self.data@[i],
                        spec_parse_time_slot(
                            self.data@[i].time_slots_desc@,
                            self.data@[i].date_book,
                        ).unwrap(),
                        now,
                    )
            },
    {
        let mut events: Vec<CalendarEvent> = Vec::new();
        let mut i: usize = 0;
        while i < self.data.len()
            invariant
                i <= self.data@.len(),
                self.wf(),
                now.wf(),
                events@.len() == i,
                forall|k: int| 0 <= k < i ==> spec_event_error(#[trigger] self.data@[k]) is None,
                forall|k: int|
                    0 <= k < i ==> event_matches(
                        #[trigger] events@[k],
                        self.data@[k],
                        spec_parse_time_slot(
                            self.data@[k].time_slots_desc@,
                            self.data@[k].date_book,
                        ).unwrap(),
                        now,
                    ),
            decreases self.data@.len() - i,
        {
            let booking = &self.data[i];
            let slot = match deserialize_time_slot_desc(
                booking.time_slots_desc.as_str(),
                booking.date_book,
            ) {
                Ok(s) => s,
                Err(err) => {
                    proof {
                        lemma_batch_error_prefix(self.data@, i as int);
                    }
                    return Err(err);
                },
            };
            match build_event(booking, &slot, now) {
                Ok(e) => {
                    events.push(e);
                },
                Err(err) => {
                    proof {
                        lemma_batch_error_prefix(self.data@, i as int);
                    }
                    return Err(err);
                },
            }
            i += 1;
        }
        proof {
            lemma_batch_error_prefix(self.data@, self.data@.len() as int);
        }
        Ok(
            Calendar {
                version: String::from_str("2.0"),
                prodid: String::from_str("bokatvattid-api"),
                events,
            },
        )
    }
}

} // verus!
