//! A wall clock with alarms: absolute time points, sets of weekdays, and
//! bounded schedulers of one-shot, daily and weekly alarms; plus the command
//! encoding of the peripherals around the clock (the nRF52 real-time counter
//! and a seven-segment display) and the radio's demonstration message.

pub mod days;
pub mod protocol;
pub mod rtc;
pub mod sevseg;
pub mod time;
pub mod wecker;
pub mod winkel;
