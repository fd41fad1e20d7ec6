//! The error taxonomy. Every operation reports exactly one of these; the
//! contracts of the lifecycle and edit operations say on which inputs each
//! arises.

use vstd::prelude::*;

use crate::frame::append_chars;
use crate::numfmt::{dec_signed, i64_dec_chars};
use crate::text::{chars_of, string_from_chars};

verus! {

/// Why an operation failed. `Storage` carries the underlying database
/// error; the other variants are domain outcomes with defined triggers.
#[derive(Debug)]
pub enum TimerError {
    /// A frame is already open, so another cannot start.
    AlreadyTracking,
    /// No frame is open, so there is nothing to stop or cancel.
    NotTracking,
    /// No frame has the requested id.
    FrameNotFound(i64),
    /// No closed frame exists to restart from.
    NoPreviousFrame,
    /// A time argument did not read as `HH:MM` or `YYYY-MM-DD HH:MM`.
    InvalidTime(String),
    /// A date argument did not read as a date.
    InvalidDate(String),
    /// The store itself failed: lock wait exhausted, I/O, schema.
    Storage(rusqlite::Error),
}

/// The display text of each error, as the command line reports it.
pub open spec fn message_chars(e: &TimerError) -> Seq<char> {
    match e {
        TimerError::AlreadyTracking => "already tracking - stop first"@,
        TimerError::NotTracking => "not tracking"@,
        TimerError::FrameNotFound(id) => "frame "@ + dec_signed(*id as int) + " not found"@,
        TimerError::NoPreviousFrame => "no previous frame to restart"@,
        TimerError::InvalidTime(m) => m@,
        TimerError::InvalidDate(m) => m@,
        TimerError::Storage(_) => "storage error"@,
    }
}

impl TimerError {
    /// The message shown for this error. For `Storage` the caller is
    /// expected to print the carried database error instead.
    pub fn message(&self) -> (r: String)
        ensures
            r@ == message_chars(self),
    {
        match self {
            TimerError::AlreadyTracking => {
                let s = "already tracking - stop first";
                s.to_owned()
            },
            TimerError::NotTracking => {
                let s = "not tracking";
                s.to_owned()
            },
            TimerError::FrameNotFound(id) => {
                let mut cs = chars_of("frame ");
                append_chars(&mut cs, i64_dec_chars(*id));
                append_chars(&mut cs, chars_of(" not found"));
                string_from_chars(&cs)
            },
            TimerError::NoPreviousFrame => {
                let s = "no previous frame to restart";
                s.to_owned()
            },
            TimerError::InvalidTime(m) => m.clone(),
            TimerError::InvalidDate(m) => m.clone(),
            TimerError::Storage(_) => {
                let s = "storage error";
                s.to_owned()
            },
        }
    }
}

} // verus!
