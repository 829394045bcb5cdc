//! What the daemon notes of a podcast episode that is playing.
use vstd::prelude::*;

use crate::player;
use crate::player::Now;
use crate::podcast::resume;
use crate::podcast::resume::progress;

verus! {

/// Where an episode is, and whether it counts as heard.
#[derive(Debug, Clone, Copy, PartialEq, Eq, Structural)]
pub struct Note {
    pub episode_id: i64,
    pub position: i64,
    pub played: bool,
}

/// What is noted: where a playing episode is, by its own length if that is known.
pub open spec fn note_of(now: player::NowView) -> Option<(int, int, bool)> {
    match now.podcast {
        Some(p) => {
            let duration = if now.duration > 0 {
                Some(now.duration / 1000)
            } else {
                None
            };
            match resume::noted(now.state, now.elapsed, duration) {
                Some((at, played)) => Some((p.episode_id, at, played)),
                None => None,
            }
        },
        None => None,
    }
}

/// What to note of what is playing, if it is an episode that is playing.
pub fn note(now: &Now) -> (r: Option<Note>)
    ensures
        match r {
            Some(n) => note_of(now@) == Some((n.episode_id as int, n.position as int, n.played)),
            None => note_of(now@) is None,
        },
{
    let p = match &now.podcast {
        Some(p) => p,
        None => {
            return None;
        },
    };
    let duration = if now.duration > 0 {
        Some(now.duration / 1000)
    } else {
        None
    };
    match progress(&now.state, now.elapsed, duration) {
        Some((position, played)) => Some(Note { episode_id: p.episode_id, position, played }),
        None => None,
    }
}

/// Nothing is noted of music, nor of an episode that is paused or stopped; of a playing episode the
/// place it is at is noted.
pub proof fn law_only_playing_episodes_are_noted(now: player::NowView)
    ensures
        note_of(now) is Some <==> now.podcast is Some && now.state == "play"@,
        note_of(now) matches Some((id, at, _)) ==> id == now.podcast->Some_0.episode_id && at
            == now.elapsed,
{
}

/// An episode that plays is noted as heard from a minute before its last whole second on, and never
/// while its length is unknown or under a second.
pub proof fn law_noted_as_heard_near_the_end(now: player::NowView)
    ensures
        note_of(now) matches Some((_, _, played)) ==> (played <==> now.duration >= 1000
            && now.duration / 1000 * 1000 - now.elapsed <= 60000),
{
}

} // verus!
