//! Where to pick up an episode, and when it counts as heard. Times are in milliseconds, but for
//! the length of an episode, which feeds give in seconds.
use vstd::prelude::*;

use crate::mpd::reply;
use crate::text;

verus! {

/// Under this, starting over is kinder than resuming.
pub const RESUME_MIN: i64 = 10000;

/// This close to the end counts as heard.
pub const PLAYED_WITHIN: i64 = 60000;

/// Heard to (nearly) the end. Without a length nothing counts as heard.
pub open spec fn heard(position: int, duration: Option<int>) -> bool {
    duration matches Some(d) && d > 0 && position >= d * 1000 - PLAYED_WITHIN
}

/// Where to pick up an episode: where it was left, unless that is the very start or the very end.
pub open spec fn resumed(position: int, duration: Option<int>) -> Option<int> {
    if position < RESUME_MIN || heard(position, duration) {
        None
    } else {
        Some(position)
    }
}

/// Has the episode been heard to (nearly) the end?
pub fn is_played(position: i64, duration: Option<i64>) -> (r: bool)
    ensures
        r == heard(position as int, reply::opt_i64(duration)),
{
    match duration {
        Some(d) => d > 0 && position as i128 >= d as i128 * 1000 - PLAYED_WITHIN as i128,
        None => false,
    }
}

/// Where to pick up an episode: where it was left, unless that is the very start or the very end.
pub fn resume_from(position: i64, duration: Option<i64>) -> (r: Option<i64>)
    ensures
        reply::opt_i64(r) == resumed(position as int, reply::opt_i64(duration)),
{
    if position < RESUME_MIN || is_played(position, duration) {
        None
    } else {
        Some(position)
    }
}

/// What to note of an episode: where it is and whether it counts as heard, while it is playing.
pub open spec fn noted(state: Seq<char>, elapsed: int, duration: Option<int>) -> Option<
    (int, bool),
> {
    if state == "play"@ {
        Some((elapsed, heard(elapsed, duration)))
    } else {
        None
    }
}

/// What to note of an episode: where it is and whether it counts as heard, while it is playing.
pub fn progress(state: &str, elapsed: i64, duration: Option<i64>) -> (r: Option<(i64, bool)>)
    ensures
        match r {
            Some((at, played)) => noted(state@, elapsed as int, reply::opt_i64(duration)) == Some(
                (at as int, played),
            ),
            None => noted(state@, elapsed as int, reply::opt_i64(duration)) is None,
        },
{
    if text::same(state, "play") {
        Some((elapsed, is_played(elapsed, duration)))
    } else {
        None
    }
}

/// Once an episode counts as heard it starts over, and goes on counting as heard from there on.
pub proof fn law_heard_starts_over(position: int, later: int, duration: Option<int>)
    requires
        position <= later,
        heard(position, duration),
    ensures
        resumed(position, duration) is None,
        heard(later, duration),
        resumed(later, duration) is None,
{
}

/// An episode resumes exactly where it was left, at least ten seconds in, and more than a minute
/// before its end where its length is known.
pub proof fn law_resume(position: int, duration: Option<int>)
    ensures
        resumed(position, duration) matches Some(at) ==> at == position && at >= 10000,
        resumed(position, duration) matches Some(at) ==> (duration matches Some(d) ==> d <= 0 || at
            < d * 1000 - 60000),
        position >= 10000 && duration is None ==> resumed(position, duration) == Some(position),
{
}

/// An episode resumes where it was left if and only if that is at least ten seconds in and, where its
/// length is known, more than a minute before its end. Anywhere else it starts over.
pub proof fn law_resumes_unless_at_an_end(position: int, duration: Option<int>)
    ensures
        position >= 10000 && (duration is None || duration->Some_0 <= 0 || position
            < duration->Some_0 * 1000 - 60000) ==> resumed(position, duration) == Some(position),
        position < 10000 ==> resumed(position, duration) is None,
        duration is Some && duration->Some_0 > 0 && position >= duration->Some_0 * 1000 - 60000
            ==> resumed(position, duration) is None,
{
}

/// An episode counts as heard from a minute before its end on, and never without a length.
pub proof fn law_heard_from_the_last_minute(position: int, seconds: int)
    ensures
        heard(position, None) == false,
        seconds <= 0 ==> !heard(position, Some(seconds)),
        seconds > 0 ==> (heard(position, Some(seconds)) <==> seconds * 1000 - position <= 60000),
{
}

/// While an episode plays, where it is gets noted as it is, with whether it has come within a minute
/// of its end; in any other state nothing is noted.
pub proof fn law_noted_while_playing(state: Seq<char>, elapsed: int, duration: Option<int>)
    ensures
        state != "play"@ ==> noted(state, elapsed, duration) is None,
        state == "play"@ ==> noted(state, elapsed, duration) is Some,
        noted(state, elapsed, duration) matches Some((at, played)) ==> at == elapsed && (played
            <==> duration is Some && duration->Some_0 > 0 && duration->Some_0 * 1000 - elapsed
            <= 60000),
{
}

} // verus!
