//! The booking records the upstream service hands over, and their mapping
//! to calendar events. The surrounding HTTP and JSON plumbing coerces the
//! raw wire fields into the plain values these types hold.

pub mod my_booking;
pub mod utils;

pub use my_booking::MyBooking;
