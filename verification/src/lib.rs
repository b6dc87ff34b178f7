//! Turns a user's laundry-room booking records into calendar events.
//!
//! The core of the library is the time-slot description parser
//! ([`time_slot_desc::deserialize_time_slot_desc`]), which resolves a
//! free-text schedule fragment such as `"15:00 - 16:00 (23/8)"` against an
//! anchor date, and the event builder ([`api::my_booking::MyBooking`]),
//! which maps each booking to one calendar event with a time-shifted
//! reminder alarm. Both are pure: the surrounding HTTP and serialization
//! plumbing lives outside the library and hands in plain values.

pub mod api;
pub mod dates;
pub mod render;
pub mod text;
pub mod time_slot_desc;
