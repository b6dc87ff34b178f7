use bokatvattid_api::api::my_booking::{build_event, Booking, EventStatus, MyBooking, Reminder};
use bokatvattid_api::api::utils::date_from_string;
use bokatvattid_api::dates::{DateTime, Time};
use bokatvattid_api::render::{format_datetime, format_duration, format_trigger};
use bokatvattid_api::time_slot_desc::{deserialize_time_slot_desc, TimeSlotParseError};

fn sample_booking() -> Booking {
    Booking {
        booking_id: 1,
        laundry_room_id: 1,
        laundry_room: "Laundry room 1".to_string(),
        time_slots: 1,
        time_slots_desc: "10:00 - 11:00".to_string(),
        date_text: "".to_string(),
        image: "".to_string(),
        is_reminder: false,
        date_reminder: date_from_string("2012-11-11").unwrap(),
        date_book: date_from_string("2012-11-12").unwrap(),
        date_reminder_text: "Remember your booking!".to_string(),
        hour_reminder: "09:00".to_string(),
        is_queue: false,
        number_queue: 0,
        number_queue_text: "".to_string(),
    }
}

fn build(booking: &Booking) -> Result<bokatvattid_api::api::my_booking::CalendarEvent, TimeSlotParseError> {
    let slot = deserialize_time_slot_desc(&booking.time_slots_desc, booking.date_book)?;
    build_event(booking, &slot, stamp())
}

fn stamp() -> DateTime {
    DateTime::new(
        date_from_string("2012-11-11").unwrap(),
        Time::new(8, 0, 0).unwrap(),
    )
}

#[test]
fn my_booking_should_parse_into_calendar() {
    let my_booking = MyBooking { data: vec![sample_booking()], total: 1, reminder: None };
    let calendar = my_booking.try_into_calendar(stamp()).unwrap();
    assert_eq!(calendar.version.as_str(), "2.0");
    assert_eq!(calendar.prodid.as_str(), "bokatvattid-api");
    assert_eq!(calendar.events.len(), 1);
    let event = &calendar.events[0];
    assert_eq!(event.uid.as_str(), "1");
    assert_eq!(format_datetime(&event.dtstamp).as_str(), "20121111T080000");
    assert_eq!(format_datetime(&event.dtstart).as_str(), "20121112T100000");
    assert_eq!(event.summary.as_str(), "Laundry room 1");
    assert_eq!(event.location.as_str(), "Laundry room 1");
    assert_eq!(event.status, EventStatus::Confirmed);
    assert_eq!(format_duration(event.duration_hours).as_str(), "PT1H");
    assert_eq!(format_trigger(event.alarm.trigger_hours).as_str(), "-PT25H");
    assert_eq!(event.alarm.description.as_str(), "Laundry room 1");
}

#[test]
fn reminder_the_day_before_gives_negative_trigger() {
    let mut booking = sample_booking();
    booking.time_slots_desc = "15:00 - 16:00".to_string();
    let event = build(&booking).unwrap();
    assert_eq!(format_datetime(&event.dtstart).as_str(), "20121112T150000");
    assert_eq!(event.duration_hours, 1);
    assert_eq!(event.alarm.trigger_hours, -30);
    assert_eq!(format_trigger(event.alarm.trigger_hours).as_str(), "-PT30H");
}

#[test]
fn year_rollover_slot_lasts_25_hours() {
    let mut booking = sample_booking();
    booking.time_slots_desc = "15:00 - 16:00 (1/1)".to_string();
    booking.date_book = date_from_string("2022-12-31").unwrap();
    booking.date_reminder = date_from_string("2022-12-30").unwrap();
    let event = build(&booking).unwrap();
    assert_eq!(format_datetime(&event.dtstart).as_str(), "20221231T150000");
    assert_eq!(event.duration_hours, 25);
    assert_eq!(format_duration(event.duration_hours).as_str(), "PT25H");
}

#[test]
fn queue_flag_alone_decides_the_status() {
    let mut queued = sample_booking();
    queued.is_queue = true;
    let event = build(&queued).unwrap();
    assert_eq!(event.status, EventStatus::Tentative);

    let mut plain = sample_booking();
    plain.is_queue = false;
    plain.is_reminder = true;
    plain.booking_id = 77;
    plain.number_queue = 5;
    let event = build(&plain).unwrap();
    assert_eq!(event.status, EventStatus::Confirmed);
}

#[test]
fn reminder_after_start_gives_positive_unsigned_trigger() {
    let mut booking = sample_booking();
    booking.date_reminder = date_from_string("2012-11-13").unwrap();
    let event = build(&booking).unwrap();
    assert_eq!(event.alarm.trigger_hours, 23);
    assert_eq!(format_trigger(event.alarm.trigger_hours).as_str(), "PT23H");
}

#[test]
fn reminder_at_start_gives_zero_trigger_without_sign() {
    let mut booking = sample_booking();
    booking.date_reminder = date_from_string("2012-11-12").unwrap();
    booking.hour_reminder = "10:00".to_string();
    let event = build(&booking).unwrap();
    assert_eq!(event.alarm.trigger_hours, 0);
    assert_eq!(format_trigger(event.alarm.trigger_hours).as_str(), "PT0H");
}

#[test]
fn malformed_reminder_time_is_alarm_error() {
    let mut booking = sample_booking();
    booking.hour_reminder = "soon".to_string();
    let result = build(&booking);
    assert_eq!(result.unwrap_err(), TimeSlotParseError::AlarmDate);
}

#[test]
fn first_malformed_record_aborts_the_whole_batch() {
    let mut bad = sample_booking();
    bad.booking_id = 2;
    bad.time_slots_desc = "nonsense".to_string();
    let my_booking = MyBooking {
        data: vec![sample_booking(), bad],
        total: 2,
        reminder: Some(Reminder { time_type: vec![] }),
    };
    let result = my_booking.try_into_calendar(stamp());
    assert_eq!(result.unwrap_err(), TimeSlotParseError::StartDate);
}

#[test]
fn uid_is_the_decimal_booking_id() {
    let mut booking = sample_booking();
    booking.booking_id = 123;
    let event = build(&booking).unwrap();
    assert_eq!(event.uid.as_str(), "123");
}

#[test]
fn negative_whole_hour_duration_keeps_its_sign_inside() {
    assert_eq!(format_duration(-2).as_str(), "PT-2H");
    assert_eq!(format_duration(0).as_str(), "PT0H");
}
