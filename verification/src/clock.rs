//! Timestamps and spans of time, parsed by `jiff` and written compactly.

use vstd::prelude::*;
use vstd::string::*;

use crate::text;

verus! {

/// The first second, counted from the Unix epoch, that a timestamp can have.
pub const FIRST_SECOND: i64 = -377705023201;

/// The last second, counted from the Unix epoch, that a timestamp can have.
pub const LAST_SECOND: i64 = 253402207200;

/// A point in time.
#[derive(Debug, Clone, Copy, PartialEq, Eq, Structural)]
pub struct Instant {
    /// Whole seconds since the Unix epoch; a fraction is cut off.
    pub second: i64,
    /// Nanoseconds since the Unix epoch.
    pub nanosecond: i128,
}

impl Instant {
    /// Whether a timestamp can have this second.
    pub open spec fn in_range(self) -> bool {
        FIRST_SECOND <= self.second <= LAST_SECOND
    }
}

/// The point in time that `jiff` reads in a timestamp such as
/// `2026-06-29T12:00:00Z`, where it reads one.
pub uninterp spec fn instant_of(text: Seq<char>) -> Option<Instant>;

/// `jiff::Timestamp`'s `FromStr`, with `Timestamp::as_second` and
/// `Timestamp::as_nanosecond` of what it returns. The text must hold a date, a
/// time and an offset; what it denotes is named, not stated. A timestamp lies
/// in `jiff`'s range.
#[verifier::external_body]
fn parse_instant(text: &str) -> (r: Option<Instant>)
    ensures
        r == instant_of(text@),
        r matches Some(at) ==> at.in_range(),
{
    match text.parse::<jiff::Timestamp>() {
        Ok(at) => Some(Instant { second: at.as_second(), nanosecond: at.as_nanosecond() }),
        Err(_) => None,
    }
}

/// The point in time that a timestamp denotes, if it denotes one.
pub fn instant(text: &str) -> (r: Option<Instant>)
    ensures
        r == instant_of(text@),
        r matches Some(at) ==> at.in_range(),
{
    parse_instant(text)
}

/// How long ago something was, in its largest sensible unit.
pub open spec fn ago_text(secs: int) -> Seq<char> {
    if secs <= 0 {
        "just now"@
    } else if secs < 60 {
        text::decimal(secs as nat) + "s"@ + " ago"@
    } else if secs < 3600 {
        text::decimal((secs / 60) as nat) + "m"@ + " ago"@
    } else if secs < 86400 {
        text::decimal((secs / 3600) as nat) + "h"@ + " ago"@
    } else if secs < 604800 {
        text::decimal((secs / 86400) as nat) + "d"@ + " ago"@
    } else if secs < 2592000 {
        text::decimal((secs / 604800) as nat) + "w"@ + " ago"@
    } else if secs < 31536000 {
        text::decimal((secs / 2592000) as nat) + "mo"@ + " ago"@
    } else {
        text::decimal((secs / 31536000) as nat) + "y"@ + " ago"@
    }
}

/// A span of time, in its two largest sensible units.
pub open spec fn duration_text(secs: nat) -> Seq<char> {
    if secs < 60 {
        text::decimal(secs) + "s"@
    } else if secs < 3600 {
        text::decimal(secs / 60) + "m"@ + text::decimal(secs % 60) + "s"@
    } else {
        text::decimal(secs / 3600) + "h"@ + text::decimal((secs % 3600) / 60) + "m"@
    }
}

/// How long ago something was, in its largest sensible unit: `45s ago`,
/// `7m ago`. What was not in the past reads `just now`.
pub fn humanize_ago(secs: i64) -> (r: String)
    ensures
        r@ == ago_text(secs as int),
{
    if secs <= 0 {
        return "just now".to_owned();
    }
    let s: u64 = secs as u64;
    let (n, unit): (u64, &str) = if s < 60 {
        (s, "s")
    } else if s < 3600 {
        (s / 60, "m")
    } else if s < 86400 {
        (s / 3600, "h")
    } else if s < 604800 {
        (s / 86400, "d")
    } else if s < 2592000 {
        (s / 604800, "w")
    } else if s < 31536000 {
        (s / 2592000, "mo")
    } else {
        (s / 31536000, "y")
    };
    text::decimal_text(n).concat(unit).concat(" ago")
}

/// A span of time, in its two largest sensible units: `45s`, `2m30s`, `1h5m`.
pub fn humanize_duration(secs: u64) -> (r: String)
    ensures
        r@ == duration_text(secs as nat),
{
    if secs < 60 {
        text::decimal_text(secs).concat("s")
    } else if secs < 3600 {
        text::decimal_text(secs / 60).concat("m").concat(
            text::decimal_text(secs % 60).as_str(),
        ).concat("s")
    } else {
        text::decimal_text(secs / 3600).concat("h").concat(
            text::decimal_text((secs % 3600) / 60).as_str(),
        ).concat("m")
    }
}

/// How long before `now` something was, where both times are known.
pub open spec fn ago_between(then: Option<Instant>, now: Option<Instant>) -> Option<Seq<char>> {
    match (then, now) {
        (Some(t), Some(n)) => Some(ago_text(n.second - t.second)),
        _ => None,
    }
}

/// How much time has passed until `now`, where both times are known; a start
/// in the future counts as no time.
pub open spec fn elapsed_between(then: Option<Instant>, now: Option<Instant>) -> Option<Seq<char>> {
    match (then, now) {
        (Some(t), Some(n)) => Some(
            duration_text(
                if n.second < t.second {
                    0
                } else {
                    (n.second - t.second) as nat
                },
            ),
        ),
        _ => None,
    }
}

/// How long before `now` something was, where both times are known.
pub fn ago(then: Option<Instant>, now: Option<Instant>) -> (r: Option<String>)
    requires
        then matches Some(t) ==> t.in_range(),
        now matches Some(n) ==> n.in_range(),
    ensures
        text::option_view(r) == ago_between(then, now),
{
    match (then, now) {
        (Some(t), Some(n)) => Some(humanize_ago(n.second - t.second)),
        _ => None,
    }
}

/// How much time has passed until `now`, where both times are known.
pub fn elapsed(then: Option<Instant>, now: Option<Instant>) -> (r: Option<String>)
    requires
        then matches Some(t) ==> t.in_range(),
        now matches Some(n) ==> n.in_range(),
    ensures
        text::option_view(r) == elapsed_between(then, now),
{
    match (then, now) {
        (Some(t), Some(n)) => {
            let secs: i64 = n.second - t.second;
            if secs < 0 {
                Some(humanize_duration(0))
            } else {
                Some(humanize_duration(secs as u64))
            }
        },
        _ => None,
    }
}

/// How long before `now` the timestamp `then` was; nothing where either is
/// absent or unreadable.
pub fn relative_time(then: &str, now: &str) -> (r: Option<String>)
    ensures
        text::option_view(r) == ago_between(instant_of(then@), instant_of(now@)),
{
    ago(instant(then), instant(now))
}

/// How much time has passed from the timestamp `then` until `now`; nothing
/// where either is absent or unreadable.
pub fn elapsed_duration(then: &str, now: &str) -> (r: Option<String>)
    ensures
        text::option_view(r) == elapsed_between(instant_of(then@), instant_of(now@)),
{
    elapsed(instant(then), instant(now))
}

} // verus!
