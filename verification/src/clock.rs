//! The time at which a report was made, as text.

use chrono::{DateTime, FixedOffset, Local};
use vstd::prelude::*;

verus! {

/// How times are written.
pub const TIME_FORMAT: &'static str = "%Y-%m-%d %H:%M:%S";

/// Tells whether chrono's calendar has the second `secs` of the Unix epoch: it reaches from
/// 262144 BCE to 262142 CE.
pub open spec fn in_calendar(secs: i64) -> bool {
    -8_334_601_228_800 <= secs <= 8_210_266_876_799
}

/// Tells whether a clock can be `offset` seconds ahead of UTC.
pub open spec fn is_offset(offset: i32) -> bool {
    -86_400 < offset < 86_400
}

/// The text that `DateTime::format` makes of the second `secs` on a clock `offset` seconds ahead
/// of UTC.
pub uninterp spec fn text_at(secs: i64, offset: i32, format: Seq<char>) -> Seq<char>;

/// Tells whether `t` is the second `secs` on some clock.
pub open spec fn tells(t: Seq<char>, secs: i64) -> bool {
    exists|offset: i32| is_offset(offset) && t == #[trigger] text_at(secs, offset, TIME_FORMAT@)
}

/// Tells whether `t` is some second that the calendar has.
pub open spec fn tells_some_second(t: Seq<char>) -> bool {
    exists|now: i64| in_calendar(now) && #[trigger] tells(t, now)
}

/// Tells whether `t` may stand for the second `secs`: where the calendar has it, `t` is that
/// second on some clock; else it is some second that the calendar has.
pub open spec fn stamps(t: Seq<char>, secs: i64) -> bool {
    if in_calendar(secs) {
        tells(t, secs)
    } else {
        tells_some_second(t)
    }
}

/// Tells whether `t` may stand on a message with the time `time`: for that second, or, where the
/// message has no time, for any.
pub open spec fn stamps_message(t: Seq<char>, time: Option<i64>) -> bool {
    match time {
        Some(secs) => stamps(t, secs),
        None => exists|now: i64| #[trigger] stamps(t, now),
    }
}

/// The second that a message with the time `time` is of: that one; where the message has no time,
/// the one that the machine's clock shows, `elapsed` seconds into the Unix epoch; the first where
/// that clock shows a time before the epoch.
pub open spec fn second_of(time: Option<i64>, elapsed: Option<u64>) -> i64 {
    match time {
        Some(secs) => secs,
        None => match elapsed {
            Some(secs) => secs as i64,
            None => 0,
        },
    }
}

/// `SystemTime::elapsed`: the seconds from the beginning of the Unix epoch to now; nothing where
/// the machine's clock shows a time before it. Nothing is claimed of it: it depends on that clock.
#[verifier::external_body]
fn unix_elapsed() -> Option<u64> {
    Some(std::time::UNIX_EPOCH.elapsed().ok()?.as_secs())
}

/// One reading of the machine's clock, under a number. Nothing but [`read_clock`] makes one.
#[derive(Debug)]
pub struct Reading {
    number: u64,
    elapsed: Option<u64>,
}

/// What a [`Reading`] stands for: its number, and the seconds that the clock was into the Unix
/// epoch; none where it showed a time before that.
pub struct ReadingModel {
    pub number: u64,
    pub elapsed: Option<u64>,
}

impl View for Reading {
    type V = ReadingModel;

    closed spec fn view(&self) -> ReadingModel {
        ReadingModel { number: self.number, elapsed: self.elapsed }
    }
}

/// The number of the reading that follows `last`; it is another than that of `last`.
pub open spec fn next_number(last: Option<Reading>) -> u64 {
    match last {
        Some(r) => if r@.number == u64::MAX {
            0
        } else {
            (r@.number + 1) as u64
        },
        None => 0,
    }
}

/// Reads the machine's clock, once more than for `last`.
pub fn read_clock(last: &Option<Reading>) -> (r: Reading)
    ensures
        r@.number == next_number(*last),
{
    let number: u64 = match last {
        Some(r) => if r.number == u64::MAX {
            0
        } else {
            r.number + 1
        },
        None => 0,
    };
    Reading { number, elapsed: unix_elapsed() }
}

impl Reading {
    /// The second that the clock showed.
    pub fn second(&self) -> (r: i64)
        ensures
            r == second_of(None, self@.elapsed),
    {
        message_second(None, self.elapsed)
    }
}

/// How far the machine's clock is ahead of UTC at the second `secs`, by `DateTime::from_timestamp`
/// and chrono's `Local`; nothing where the calendar does not have that second. Which offset comes
/// depends on the machine's time zone; any is less than a day.
#[verifier::external_body]
fn local_offset(secs: i64) -> (r: Option<i32>)
    ensures
        r is Some <==> in_calendar(secs),
        r matches Some(offset) ==> is_offset(offset),
{
    Some(DateTime::from_timestamp(secs, 0)?.with_timezone(&Local).offset().local_minus_utc())
}

/// `DateTime::format` at the second `secs` on a clock that is `offset` seconds ahead of UTC. The
/// text depends on these and on the format alone.
#[verifier::external_body]
fn format_at(secs: i64, offset: i32, format: &str) -> (r: String)
    requires
        in_calendar(secs),
        is_offset(offset),
        format@ == TIME_FORMAT@,
    ensures
        r@ == text_at(secs, offset, format@),
{
    let clock = FixedOffset::east_opt(offset).unwrap();
    DateTime::from_timestamp(secs, 0).unwrap().with_timezone(&clock).format(format).to_string()
}

/// `Local::now` and `DateTime::format`: the text of the current second on the machine's clock.
/// Which second that is depends on the machine.
#[verifier::external_body]
fn format_now(format: &str) -> (r: String)
    requires
        format@ == TIME_FORMAT@,
    ensures
        tells_some_second(r@),
{
    Local::now().format(format).to_string()
}

/// The second `secs` on a clock `offset` seconds ahead of UTC; the current second on the machine's
/// clock where there is no offset.
pub fn stamp_on_clock(secs: i64, offset: Option<i32>) -> (r: String)
    requires
        offset matches Some(o) ==> in_calendar(secs) && is_offset(o),
    ensures
        match offset {
            Some(o) => r@ == text_at(secs, o, TIME_FORMAT@),
            None => tells_some_second(r@),
        },
{
    match offset {
        Some(o) => format_at(secs, o, TIME_FORMAT),
        None => format_now(TIME_FORMAT),
    }
}

/// The second `secs` on the machine's clock; the current second where the calendar does not have
/// `secs`.
pub fn stamp(secs: i64) -> (r: String)
    ensures
        stamps(r@, secs),
{
    let offset = local_offset(secs);
    let t = stamp_on_clock(secs, offset);
    assert(offset is Some ==> tells(t@, secs));
    t
}

/// The second that a message with the time `time` is of, where the machine's clock is `elapsed`
/// seconds into the Unix epoch.
pub fn message_second(time: Option<i64>, elapsed: Option<u64>) -> (r: i64)
    ensures
        r == second_of(time, elapsed),
{
    match time {
        Some(secs) => secs,
        None => match elapsed {
            Some(secs) => secs as i64,
            None => 0,
        },
    }
}

/// The text that stands on a message with the time `time`: that second, or the current one where
/// the message has no time.
pub fn message_stamp(time: Option<i64>) -> (r: String)
    ensures
        stamps_message(r@, time),
{
    let secs: i64 = match time {
        Some(secs) => secs,
        None => read_clock(&None).second(),
    };
    let t = stamp(secs);
    assert(stamps(t@, secs));
    t
}

/// A message with a time is of that second. One without is of the second that the clock shows, or,
/// where the clock shows a time before the Unix epoch, of the first of it.
pub proof fn messages_are_of_their_time_or_of_now(time: i64, elapsed: Option<u64>)
    ensures
        second_of(Some(time), elapsed) == time,
        elapsed matches Some(secs) ==> secs <= i64::MAX ==> second_of(None, elapsed) == secs,
        elapsed is None ==> second_of(None, elapsed) == 0,
{
}

/// What stands for a second that the calendar has is that second on a clock less than a day from
/// UTC, with year, month, day, hour, minute and second.
pub proof fn stamps_tell_their_second(t: Seq<char>, secs: i64)
    requires
        stamps(t, secs),
        -8_334_601_228_800 <= secs <= 8_210_266_876_799,
    ensures
        exists|offset: i32|
            -86_400 < offset < 86_400 && t == #[trigger] text_at(
                secs,
                offset,
                "%Y-%m-%d %H:%M:%S"@,
            ),
{
}

} // verus!
