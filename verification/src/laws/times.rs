//! Laws of how spans of time are written.

use vstd::prelude::*;

use crate::clock;
use crate::clock::Instant;
use crate::text;

verus! {

/// A span is written in seconds below a minute, in minutes and seconds below an
/// hour, and in hours and minutes from there on.
pub proof fn spans_are_written_in_two_units(hours: nat, minutes: nat, seconds: nat)
    requires
        minutes < 60,
        seconds < 60,
    ensures
        clock::duration_text(seconds) == text::decimal(seconds) + "s"@,
        minutes > 0 ==> clock::duration_text(60 * minutes + seconds) == text::decimal(minutes)
            + "m"@ + text::decimal(seconds) + "s"@,
        hours > 0 ==> clock::duration_text(3600 * hours + 60 * minutes + seconds)
            == text::decimal(hours) + "h"@ + text::decimal(minutes) + "m"@,
{
}

/// How long ago something was is written in one unit, the largest that it fills,
/// with what is left over cut off.
pub proof fn the_past_is_written_in_one_unit(n: nat, rest: int)
    requires
        n > 0,
        rest >= 0,
    ensures
        n < 60 ==> clock::ago_text(n as int) == text::decimal(n) + "s"@ + " ago"@,
        n < 60 && rest < 60 ==> clock::ago_text(60 * n + rest) == text::decimal(n) + "m"@
            + " ago"@,
        n < 24 && rest < 3600 ==> clock::ago_text(3600 * n + rest) == text::decimal(n) + "h"@
            + " ago"@,
        n < 7 && rest < 86400 ==> clock::ago_text(86400 * n + rest) == text::decimal(n) + "d"@
            + " ago"@,
        rest < 604800 && 604800 * n + rest < 30 * 86400 ==> clock::ago_text(604800 * n + rest)
            == text::decimal(n) + "w"@ + " ago"@,
        rest < 2592000 && 2592000 * n + rest < 365 * 86400 ==> clock::ago_text(2592000 * n + rest)
            == text::decimal(n) + "mo"@ + " ago"@,
        rest < 31536000 ==> clock::ago_text(31536000 * n + rest) == text::decimal(n) + "y"@
            + " ago"@,
{
}

/// What is not in the past is written as being now.
pub proof fn the_future_is_now(secs: int)
    requires
        secs <= 0,
    ensures
        clock::ago_text(secs) == "just now"@,
{
}

/// How long ago something was, and how long it has lasted, go by the seconds
/// from then to now; where either is unknown, so are they. What has yet to begin
/// has lasted no time.
pub proof fn spans_run_from_then_to_now(then: Option<Instant>, now: Option<Instant>)
    ensures
        then is None || now is None ==> clock::ago_between(then, now) is None
            && clock::elapsed_between(then, now) is None,
        then is Some && now is Some ==> clock::ago_between(then, now) == Some(
            clock::ago_text(now->0.second - then->0.second),
        ),
        then is Some && now is Some && then->0.second <= now->0.second ==> clock::elapsed_between(
            then,
            now,
        ) == Some(clock::duration_text((now->0.second - then->0.second) as nat)),
        then is Some && now is Some && then->0.second > now->0.second ==> clock::elapsed_between(
            then,
            now,
        ) == Some(clock::duration_text(0)),
{
}

} // verus!
