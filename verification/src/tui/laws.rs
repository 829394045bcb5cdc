//! What the player promises whatever keys are pressed.
use vstd::prelude::*;

use crate::mpd::reply;
use crate::number;
use crate::player;
use crate::text;
use crate::tui::events;
use crate::tui::events::Outcome;
use crate::tui::state;
use crate::tui::state::{Key, KeyCode, Tab};

verus! {

/// Clearing the queue asks first: only `y`, and only as the answer to the question, clears it.
pub proof fn law_only_yes_clears(s: state::StateView, key: Key)
    ensures
        state::on_key(s, key).1 matches state::EffectView::Mpd(command, _) && command == "clear"@
            ==> s.confirm_clear && key.code == KeyCode::Char('y'),
{
    reveal_strlit("clear");
    reveal_strlit("play");
    reveal_strlit("pause");
    reveal_strlit("next");
    reveal_strlit("previous");
    reveal_strlit("seekcur");
    reveal_strlit("volume");
    reveal_strlit("delete");
    reveal_strlit("add");
    assert("clear"@[0] != "pause"@[0]);
}

/// The question is asked by `c` on the queue's tab alone, and any key but the one that quits closes
/// it.
pub proof fn law_the_question_opens_and_closes(s: state::StateView, key: Key)
    ensures
        ({
            let (after, effect) = state::on_key(s, key);
            &&& !s.confirm_clear && after.confirm_clear ==> s.tab == Tab::Queue && key.code
                == KeyCode::Char('c')
            &&& s.confirm_clear && !(effect is Quit) ==> !after.confirm_clear
        }),
{
}

/// Asking to clear the queue and saying yes clears it; saying anything else does nothing.
pub proof fn law_asked_and_answered(s: state::StateView, answer: Key)
    requires
        s.tab == Tab::Queue,
        !s.confirm_clear,
        !answer.control,
    ensures
        ({
            let asked = state::on_key(s, Key { code: KeyCode::Char('c'), control: false });
            let answered = state::on_key(asked.0, answer);
            &&& asked.1 is Nothing
            &&& answered.0 == s
            &&& answered.1 == if answer.code == KeyCode::Char('y') {
                state::bare("clear"@)
            } else {
                state::EffectView::Nothing
            }
        }),
{
}

/// Only `q` and control-c quit.
pub proof fn law_quitting(s: state::StateView, key: Key)
    ensures
        state::on_key(s, key).1 is Quit ==> key.code == KeyCode::Char('q') || (key.control
            && key.code == KeyCode::Char('c')),
        key.control && key.code == KeyCode::Char('c') ==> state::on_key(s, key).1 is Quit,
{
}

/// Is each cursor inside its list?
pub open spec fn cursors_inside(s: state::StateView) -> bool {
    &&& s.cursor.len() == 4
    &&& s.cursor[0] <= state::last_row(s, Tab::Playing)
    &&& s.cursor[1] <= state::last_row(s, Tab::Queue)
    &&& s.cursor[2] <= state::last_row(s, Tab::Library)
    &&& s.cursor[3] <= state::last_row(s, Tab::Podcasts)
}

/// Clamping puts each cursor inside its list, leaves everything else, and leaves a cursor that is
/// inside where it is.
pub proof fn law_clamping(s: state::StateView)
    requires
        s.cursor.len() == 4,
    ensures
        cursors_inside(state::clamped(s)),
        state::clamped(s) == (state::StateView { cursor: state::clamped(s).cursor, ..s }),
        cursors_inside(s) ==> state::clamped(s) == s,
{
    if cursors_inside(s) {
        assert(state::clamped(s).cursor =~= s.cursor);
    }
}

/// No key takes a cursor out of its list. (A list has no more rows than a cursor can count.)
pub proof fn law_cursors_stay_inside(s: state::StateView, key: Key)
    requires
        cursors_inside(s),
        state::rows_of(s, s.tab) <= usize::MAX,
    ensures
        cursors_inside(state::on_key(s, key).0),
{
}

/// Going to the next tab and back again opens the tab that was open.
pub proof fn law_tabs_go_round(s: state::StateView)
    requires
        !s.confirm_clear,
    ensures
        ({
            let there = state::on_key(s, Key { code: KeyCode::Tab, control: false }).0;
            let back = state::on_key(there, Key { code: KeyCode::BackTab, control: false }).0;
            back == s
        }),
{
}

/// Going to the tab before and then to the next opens the tab that was open, and so do four steps to
/// the next.
pub proof fn law_tabs_come_round(s: state::StateView)
    requires
        !s.confirm_clear,
    ensures
        ({
            let next = Key { code: KeyCode::Tab, control: false };
            let back = Key { code: KeyCode::BackTab, control: false };
            &&& state::on_key(state::on_key(s, back).0, next).0 == s
            &&& state::on_key(
                state::on_key(state::on_key(state::on_key(s, next).0, next).0, next).0,
                next,
            ).0 == s
        }),
{
}

/// The clock moves only while playing, never backwards, and never past the end of what is playing.
pub proof fn law_the_clock(now: player::NowView, earlier: int, later: int)
    requires
        earlier <= later,
        i64::MIN <= now.elapsed <= i64::MAX,
        i64::MIN <= now.duration <= i64::MAX,
    ensures
        state::elapsed_of(Some(now), earlier) <= state::elapsed_of(Some(now), later),
        now.state != "play"@ ==> state::elapsed_of(Some(now), earlier) == state::elapsed_of(
            Some(now),
            later,
        ),
        now.duration > 0 ==> state::elapsed_of(Some(now), later) <= now.duration,
{
}

/// The clock shows where mpd was, plus the time since if it is playing; at the end of what is playing
/// it shows the end.
pub proof fn law_the_clock_adds_the_time_since(now: player::NowView, now_ms: int)
    requires
        i64::MIN <= now.elapsed <= i64::MAX,
        i64::MIN <= now.duration <= i64::MAX,
    ensures
        ({
            let shown = state::elapsed_of(Some(now), now_ms);
            let since = now_ms - now.at;
            &&& now.state == "play"@ && since >= 0 && (now.duration <= 0 || now.elapsed + since
                <= now.duration) && now.elapsed + since <= i64::MAX ==> shown == now.elapsed + since
            &&& now.state == "play"@ && since >= 0 && now.duration > 0 && now.elapsed + since
                > now.duration ==> shown == now.duration
            &&& (now.state != "play"@ || since < 0) && (now.duration <= 0 || now.elapsed
                <= now.duration) ==> shown == now.elapsed
            &&& (now.state != "play"@ || since < 0) && now.duration > 0 && now.elapsed
                > now.duration ==> shown == now.duration
        }),
        state::elapsed_of(None, now_ms) == 0,
{
}

/// With a show open, enter plays the episode under the cursor and `D` downloads it, whichever row
/// that is; where the cursor is on no row, neither does anything. Nothing else changes.
pub proof fn law_the_selected_episode(s: state::StateView, control: bool)
    requires
        s.tab == Tab::Podcasts,
        !s.confirm_clear,
        s.show is Some,
    ensures
        ({
            let row = s.cursor[3] as int;
            let enter = state::on_key(s, Key { code: KeyCode::Enter, control });
            let download = state::on_key(s, Key { code: KeyCode::Char('D'), control });
            &&& enter.0 == s
            &&& download.0 == s
            &&& row < s.episodes.len() ==> enter.1 == state::EffectView::PlayEpisode(
                s.episodes[row].id,
            )
            &&& row < s.episodes.len() ==> download.1 == state::EffectView::Download(
                s.episodes[row].id,
            )
            &&& row >= s.episodes.len() ==> enter.1 is Nothing && download.1 is Nothing
        }),
{
}

/// With no show open, enter opens the show under the cursor at its first episode, and `D` does
/// nothing.
pub proof fn law_the_selected_show(s: state::StateView, control: bool)
    requires
        s.tab == Tab::Podcasts,
        !s.confirm_clear,
        s.show is None,
    ensures
        ({
            let row = s.cursor[3] as int;
            let enter = state::on_key(s, Key { code: KeyCode::Enter, control });
            &&& row < s.shows.len() ==> enter.1 == state::EffectView::LoadEpisodes(
                s.shows[row].name,
            )
            &&& row < s.shows.len() ==> enter.0 == (state::StateView {
                show: Some(s.shows[row].name),
                cursor: s.cursor.update(3, 0usize),
                ..s
            })
            &&& row >= s.shows.len() ==> enter == (s, state::EffectView::Nothing)
            &&& state::on_key(s, Key { code: KeyCode::Char('D'), control }) == (
                s,
                state::EffectView::Nothing,
            )
        }),
{
}

/// Backspace and escape go back from a show's episodes to the first of the shows; on the list of shows
/// they do nothing.
pub proof fn law_back_to_the_shows(s: state::StateView, code: KeyCode, control: bool)
    requires
        s.tab == Tab::Podcasts,
        !s.confirm_clear,
        code == KeyCode::Backspace || code == KeyCode::Esc,
    ensures
        s.show is Some ==> state::on_key(s, Key { code, control }) == (
            (state::StateView { show: None, cursor: s.cursor.update(3, 0usize), ..s }),
            state::EffectView::LoadShows,
        ),
        s.show is None ==> state::on_key(s, Key { code, control }) == (
            s,
            state::EffectView::Nothing,
        ),
{
}

/// On the queue, enter plays the song under the cursor and `d` takes it out: mpd is told the song's
/// own position, and the row if it has none.
pub proof fn law_the_selected_song_of_the_queue(s: state::StateView, control: bool)
    requires
        s.tab == Tab::Queue,
        !s.confirm_clear,
    ensures
        ({
            let row = s.cursor[1] as int;
            let enter = state::on_key(s, Key { code: KeyCode::Enter, control });
            let remove = state::on_key(s, Key { code: KeyCode::Char('d'), control });
            &&& enter.0 == s
            &&& remove.0 == s
            &&& row < s.queue.len() ==> enter.1 is Mpd && remove.1 is Mpd
            &&& row < s.queue.len() ==> (s.queue[row].pos matches Some(p) ==> enter.1
                == state::EffectView::Mpd("play"@, seq![number::decimal(p)]) && remove.1
                == state::EffectView::Mpd("delete"@, seq![number::decimal(p)]))
            &&& row < s.queue.len() && s.queue[row].pos is None && row <= u32::MAX ==> enter.1
                == state::EffectView::Mpd("play"@, seq![number::decimal(row as nat)]) && remove.1
                == state::EffectView::Mpd("delete"@, seq![number::decimal(row as nat)])
            &&& row >= s.queue.len() ==> enter.1 is Nothing && remove.1 is Nothing
        }),
{
}

/// In the library, enter opens the folder under the cursor at its first row, or adds the song; `a`
/// adds either to the queue, a folder whole.
pub proof fn law_the_selected_entry(s: state::StateView, control: bool)
    requires
        s.tab == Tab::Library,
        !s.confirm_clear,
    ensures
        ({
            let row = s.cursor[2] as int;
            let enter = state::on_key(s, Key { code: KeyCode::Enter, control });
            let add = state::on_key(s, Key { code: KeyCode::Char('a'), control });
            &&& row < s.entries.len() ==> (s.entries[row] matches state::EntryView::Folder(path)
                ==> enter == (
                (state::StateView { folder: path, cursor: s.cursor.update(2, 0usize), ..s }),
                state::EffectView::Browse(path),
            ) && add == (s, state::EffectView::Mpd("add"@, seq![path])))
            &&& row < s.entries.len() ==> (s.entries[row] matches state::EntryView::Song(song)
                ==> enter == (s, state::EffectView::Mpd("add"@, seq![song.file])) && add == (
                s,
                state::EffectView::Mpd("add"@, seq![song.file]),
            ))
            &&& row >= s.entries.len() ==> enter == (s, state::EffectView::Nothing) && add == (
                s,
                state::EffectView::Nothing,
            )
        }),
{
}

/// In the library, backspace goes to the folder that the open one lies in, and from the top to the
/// top: a folder below another leads to it, and a name alone leads to the top.
pub proof fn law_up_a_folder(
    s: state::StateView,
    above: Seq<char>,
    name: Seq<char>,
    control: bool,
)
    requires
        s.tab == Tab::Library,
        !s.confirm_clear,
        !name.contains('/'),
    ensures
        ({
            let back = Key { code: KeyCode::Backspace, control };
            let below = state::StateView { folder: above + seq!['/'] + name, ..s };
            let alone = state::StateView { folder: name, ..s };
            &&& state::on_key(below, back) == (
                (state::StateView { folder: above, cursor: s.cursor.update(2, 0usize), ..s }),
                state::EffectView::Browse(above),
            )
            &&& state::on_key(alone, back) == (
                (state::StateView {
                    folder: Seq::<char>::empty(),
                    cursor: s.cursor.update(2, 0usize),
                    ..s
                }),
                state::EffectView::Browse(Seq::<char>::empty()),
            )
        }),
{
    text::law_cut_at_the_last(above, name, '/');
}

/// Opening a tab by its number opens that tab, keeps everything else, and asks for what the tab
/// lists.
pub proof fn law_tabs_by_number(s: state::StateView, control: bool)
    requires
        !s.confirm_clear,
    ensures
        state::on_key(s, Key { code: KeyCode::Char('1'), control }) == (
            (state::StateView { tab: Tab::Playing, ..s }),
            state::EffectView::Nothing,
        ),
        state::on_key(s, Key { code: KeyCode::Char('2'), control }) == (
            (state::StateView { tab: Tab::Queue, ..s }),
            state::EffectView::LoadQueue,
        ),
        state::on_key(s, Key { code: KeyCode::Char('3'), control }) == (
            (state::StateView { tab: Tab::Library, ..s }),
            state::EffectView::Browse(s.folder),
        ),
        state::on_key(s, Key { code: KeyCode::Char('4'), control }).0 == (state::StateView {
            tab: Tab::Podcasts,
            ..s
        }),
        s.show is None ==> state::on_key(s, Key { code: KeyCode::Char('4'), control }).1
            is LoadShows,
        s.show matches Some(name) ==> state::on_key(
            s,
            Key { code: KeyCode::Char('4'), control },
        ).1 == state::EffectView::LoadEpisodes(name),
{
}

/// The next tab is the one with the next number, and after the last comes the first; the tab before
/// likewise. Either opens it just as its number does.
pub proof fn law_the_next_tab(s: state::StateView, control: bool)
    requires
        !s.confirm_clear,
    ensures
        ({
            let next = state::on_key(s, Key { code: KeyCode::Tab, control });
            let back = state::on_key(s, Key { code: KeyCode::BackTab, control });
            let one = state::on_key(s, Key { code: KeyCode::Char('1'), control });
            let two = state::on_key(s, Key { code: KeyCode::Char('2'), control });
            let three = state::on_key(s, Key { code: KeyCode::Char('3'), control });
            let four = state::on_key(s, Key { code: KeyCode::Char('4'), control });
            &&& s.tab == Tab::Playing ==> next == two && back == four
            &&& s.tab == Tab::Queue ==> next == three && back == one
            &&& s.tab == Tab::Library ==> next == four && back == two
            &&& s.tab == Tab::Podcasts ==> next == one && back == three
        }),
{
}

/// The keys that steer playback do the same on every tab, and change nothing on the screen.
pub proof fn law_transport(s: state::StateView, control: bool)
    requires
        !s.confirm_clear,
    ensures
        ({
            let space = state::on_key(s, Key { code: KeyCode::Char(' '), control });
            let stopped = s.now is None || s.now->Some_0.state == "stop"@;
            &&& space.0 == s
            &&& stopped ==> space.1 == state::EffectView::Mpd("play"@, seq![])
            &&& !stopped ==> space.1 == state::EffectView::Mpd("pause"@, seq![])
        }),
        state::on_key(s, Key { code: KeyCode::Char('n'), control }) == (
            s,
            state::EffectView::Mpd("next"@, seq![]),
        ),
        state::on_key(s, Key { code: KeyCode::Char('p'), control }) == (
            s,
            state::EffectView::Mpd("previous"@, seq![]),
        ),
        state::on_key(s, Key { code: KeyCode::Right, control }) == (
            s,
            state::EffectView::Mpd("seekcur"@, seq!["+10"@]),
        ),
        state::on_key(s, Key { code: KeyCode::Left, control }) == (
            s,
            state::EffectView::Mpd("seekcur"@, seq!["-10"@]),
        ),
        state::on_key(s, Key { code: KeyCode::Char('+'), control }) == (
            s,
            state::EffectView::Mpd("volume"@, seq!["+5"@]),
        ),
        state::on_key(s, Key { code: KeyCode::Char('='), control }) == (
            s,
            state::EffectView::Mpd("volume"@, seq!["+5"@]),
        ),
        state::on_key(s, Key { code: KeyCode::Char('-'), control }) == (
            s,
            state::EffectView::Mpd("volume"@, seq!["-5"@]),
        ),
        state::on_key(s, Key { code: KeyCode::Char('q'), control }) == (
            s,
            state::EffectView::Quit,
        ),
{
    reveal_strlit("+");
    reveal_strlit("-");
    reveal_strlit("10");
    reveal_strlit("5");
    reveal_strlit("+10");
    reveal_strlit("-10");
    reveal_strlit("+5");
    reveal_strlit("-5");
    assert("+"@ + state::SEEK_STEP@ =~= "+10"@);
    assert("-"@ + state::SEEK_STEP@ =~= "-10"@);
    assert("+"@ + state::VOLUME_STEP@ =~= "+5"@);
    assert("-"@ + state::VOLUME_STEP@ =~= "-5"@);
}

/// Does the open tab list `n` rows, with its cursor in place `i`?
pub open spec fn lists(s: state::StateView, i: int, n: nat) -> bool {
    match s.tab {
        Tab::Playing => i == 0 && n == 0,
        Tab::Queue => i == 1 && n == s.queue.len(),
        Tab::Library => i == 2 && n == s.entries.len(),
        Tab::Podcasts => i == 3 && (s.show is Some ==> n == s.episodes.len()) && (s.show is None
            ==> n == s.shows.len()),
    }
}

/// The cursor of the open tab goes one row down or up, to the first row or to the last, and stays
/// where it is at either end. Nothing else changes, and nothing is asked for.
pub proof fn law_moving(s: state::StateView, i: int, n: nat, control: bool)
    requires
        !s.confirm_clear,
        s.cursor.len() == 4,
        lists(s, i, n),
        n <= usize::MAX,
        s.cursor[i] < n || (n == 0 && s.cursor[i] == 0),
    ensures
        ({
            let row = s.cursor[i];
            let down = state::on_key(s, Key { code: KeyCode::Down, control });
            let up = state::on_key(s, Key { code: KeyCode::Up, control });
            let first = state::on_key(s, Key { code: KeyCode::Home, control });
            let last = state::on_key(s, Key { code: KeyCode::End, control });
            &&& down.0 == if row + 1 < n {
                (state::StateView { cursor: s.cursor.update(i, (row + 1) as usize), ..s })
            } else {
                s
            }
            &&& up.0 == if row > 0 {
                (state::StateView { cursor: s.cursor.update(i, (row - 1) as usize), ..s })
            } else {
                s
            }
            &&& first.0 == (state::StateView { cursor: s.cursor.update(i, 0usize), ..s })
            &&& last.0 == if n > 0 {
                (state::StateView { cursor: s.cursor.update(i, (n - 1) as usize), ..s })
            } else {
                s
            }
            &&& down.1 is Nothing && up.1 is Nothing && first.1 is Nothing && last.1 is Nothing
            &&& state::on_key(s, Key { code: KeyCode::Char('j'), control }) == down
            &&& state::on_key(s, Key { code: KeyCode::Char('k'), control }) == up
            &&& state::on_key(s, Key { code: KeyCode::Char('g'), control }) == first
            &&& state::on_key(s, Key { code: KeyCode::Char('G'), control }) == last
        }),
{
    let row = s.cursor[i];
    assert(s.cursor.update(i, row) =~= s.cursor);
}

/// Clamping leaves a cursor that is on a row, and moves one that is past its list to the list's last
/// row, or to the first place of a list with none.
pub proof fn law_clamping_moves_to_the_last_row(s: state::StateView, i: int, n: nat)
    requires
        s.cursor.len() == 4,
        lists(s, i, n),
        n <= usize::MAX,
    ensures
        s.cursor[i] < n ==> state::clamped(s).cursor[i] == s.cursor[i],
        s.cursor[i] >= n && n > 0 ==> state::clamped(s).cursor[i] == n - 1,
        n == 0 ==> state::clamped(s).cursor[i] == 0,
        state::clamped(s).tab == s.tab,
        state::clamped(state::StateView { tab: Tab::Playing, ..s }).cursor == state::clamped(
            s,
        ).cursor,
        state::clamped(state::StateView { tab: Tab::Queue, ..s }).cursor == state::clamped(
            s,
        ).cursor,
        state::clamped(state::StateView { tab: Tab::Library, ..s }).cursor == state::clamped(
            s,
        ).cursor,
        state::clamped(state::StateView { tab: Tab::Podcasts, ..s }).cursor == state::clamped(
            s,
        ).cursor,
{
}

/// A key that means nothing on the open tab does nothing there: each tab has its own few, and on the
/// first tab there are none.
pub proof fn law_other_keys_do_nothing(s: state::StateView, control: bool)
    requires
        !s.confirm_clear,
    ensures
        s.tab == Tab::Playing || s.tab == Tab::Queue ==> state::on_key(
            s,
            Key { code: KeyCode::Backspace, control },
        ) == (s, state::EffectView::Nothing),
        s.tab != Tab::Podcasts ==> state::on_key(s, Key { code: KeyCode::Esc, control }) == (
            s,
            state::EffectView::Nothing,
        ),
        s.tab == Tab::Playing ==> state::on_key(s, Key { code: KeyCode::Enter, control }) == (
            s,
            state::EffectView::Nothing,
        ),
        s.tab != Tab::Podcasts ==> state::on_key(
            s,
            Key { code: KeyCode::Char('D'), control },
        ) == (s, state::EffectView::Nothing),
        s.tab != Tab::Queue ==> state::on_key(s, Key { code: KeyCode::Char('d'), control }) == (
            s,
            state::EffectView::Nothing,
        ),
        s.tab != Tab::Library ==> state::on_key(s, Key { code: KeyCode::Char('a'), control }) == (
            s,
            state::EffectView::Nothing,
        ),
        s.tab != Tab::Queue && !control ==> state::on_key(
            s,
            Key { code: KeyCode::Char('c'), control },
        ) == (s, state::EffectView::Nothing),
        state::on_key(s, Key { code: KeyCode::Other, control }) == (s, state::EffectView::Nothing),
        state::on_key(s, Key { code: KeyCode::Char('y'), control }) == (
            s,
            state::EffectView::Nothing,
        ),
{
}

/// What an effect brings in is what it asked for, row by row: the queue, a show's episodes or the
/// shows take the place of what was listed, and everything else stays.
pub proof fn law_what_was_loaded_is_listed(s: state::StateView, outcome: Outcome)
    ensures
        ({
            let after = events::taken_in(s, outcome);
            &&& outcome matches Outcome::Queue(queue) ==> after == (state::StateView {
                queue: after.queue,
                ..s
            }) && after.queue.len() == queue@.len() && forall|i: int|
                0 <= i < queue@.len() ==> #[trigger] after.queue[i] == queue@[i]@
            &&& outcome matches Outcome::Shows(shows) ==> after == (state::StateView {
                shows: after.shows,
                ..s
            }) && after.shows.len() == shows@.len() && forall|i: int|
                0 <= i < shows@.len() ==> #[trigger] after.shows[i] == shows@[i]@
            &&& outcome matches Outcome::Episodes(episodes) ==> after == (state::StateView {
                episodes: after.episodes,
                ..s
            }) && after.episodes.len() == episodes@.len() && forall|i: int|
                0 <= i < episodes@.len() ==> #[trigger] after.episodes[i] == episodes@[i]@
            &&& outcome matches Outcome::Ran(_, Some(queue)) ==> after.queue.len() == queue@.len()
                && forall|i: int|
                0 <= i < queue@.len() ==> #[trigger] after.queue[i] == queue@[i]@
            &&& outcome matches Outcome::Ran(_, None) ==> after.queue == s.queue
            &&& outcome is Ran ==> after == (state::StateView {
                queue: after.queue,
                message: after.message,
                ..s
            })
            &&& outcome is Idle ==> after == s
        }),
{
}

/// What is said of an effect: that a song was added, which episode plays or downloads, that mpd does
/// not answer, or what went wrong. Nothing else on the screen changes with it.
pub proof fn law_what_is_said(s: state::StateView, outcome: Outcome)
    ensures
        ({
            let after = events::taken_in(s, outcome);
            &&& outcome matches Outcome::Ran(command, _) ==> (command@ == "add"@ ==> after.message
                == Some("added to the queue"@)) && (command@ != "add"@ ==> after.message
                == s.message)
            &&& outcome matches Outcome::Playing(title) ==> after == (state::StateView {
                message: Some("playing "@ + title@),
                ..s
            })
            &&& outcome matches Outcome::Downloading(id) ==> after == (state::StateView {
                message: Some(
                    "downloading episode "@ + number::signed_decimal(id as int) + "\u{2026}"@,
                ),
                ..s
            })
            &&& outcome is NoMpd ==> after == (state::StateView {
                message: Some("mpd is not answering"@),
                ..s
            })
            &&& outcome matches Outcome::Failed(cause) ==> after == (state::StateView {
                message: Some(cause@),
                ..s
            })
            &&& outcome is Queue || outcome is Shows || outcome is Episodes || outcome is Folder
                ==> after.message == s.message
        }),
{
}

/// A folder lists its folders first and then its songs, each in mpd's order and each as mpd gave it.
pub proof fn law_a_folder_lists_folders_then_songs(pairs: Seq<(Seq<char>, Seq<char>)>, i: int)
    ensures
        ({
            let entries = events::entries_of(pairs);
            let folders = reply::values_of(pairs, "directory"@);
            let songs = reply::songs_of(pairs);
            &&& entries.len() == folders.len() + songs.len()
            &&& 0 <= i < folders.len() ==> entries[i] == state::EntryView::Folder(folders[i])
            &&& 0 <= i < songs.len() ==> entries[folders.len() + i] == state::EntryView::Song(
                songs[i],
            )
        }),
{
}

/// A folder that mpd lists takes the place of the one that was listed, and nothing else changes.
pub proof fn law_a_folder_is_listed(s: state::StateView, pairs: Vec<(String, String)>)
    ensures
        events::taken_in(s, Outcome::Folder(pairs)) == (state::StateView {
            entries: events::entries_of(reply::pairs_view(pairs@)),
            ..s
        }),
{
}

/// mpd is needed to run a command, read the queue or a folder, and play an episode; and the queue is
/// read again after the commands that change it.
pub proof fn law_what_needs_mpd(
    command: Seq<char>,
    args: Seq<Seq<char>>,
    text: Seq<char>,
    id: int,
)
    ensures
        events::asks_mpd(state::EffectView::Mpd(command, args)),
        events::asks_mpd(state::EffectView::LoadQueue),
        events::asks_mpd(state::EffectView::Browse(text)),
        events::asks_mpd(state::EffectView::PlayEpisode(id)),
        !events::asks_mpd(state::EffectView::Nothing),
        !events::asks_mpd(state::EffectView::Quit),
        !events::asks_mpd(state::EffectView::LoadShows),
        !events::asks_mpd(state::EffectView::LoadEpisodes(text)),
        !events::asks_mpd(state::EffectView::Download(id)),
        events::changes_queue(command) <==> command == "add"@ || command == "delete"@ || command
            == "clear"@,
{
}

/// Once a download has ended it is said where the file is, or why there is none.
pub proof fn law_download_news(text: Seq<char>)
    ensures
        events::download_news(Ok(text)) == "saved to ~/music/"@ + text,
        events::download_news(Err(text)) == "download failed: "@ + text,
{
}

/// While the question is open every key answers it, on whichever tab: `y` clears the queue, any other
/// does nothing, and the question is closed with nothing else changed. Control-c quits all the same.
pub proof fn law_every_key_answers(s: state::StateView, key: Key)
    requires
        s.confirm_clear,
    ensures
        ({
            let quits = key.control && key.code == KeyCode::Char('c');
            let (after, effect) = state::on_key(s, key);
            &&& quits ==> after == s && effect is Quit
            &&& !quits ==> after == (state::StateView { confirm_clear: false, ..s })
            &&& !quits && key.code == KeyCode::Char('y') ==> effect == state::EffectView::Mpd(
                "clear"@,
                seq![],
            )
            &&& !quits && key.code != KeyCode::Char('y') ==> effect is Nothing
        }),
{
}

/// Asking whether to clear the queue changes nothing else, and asks nothing of mpd.
pub proof fn law_asking_to_clear(s: state::StateView)
    requires
        s.tab == Tab::Queue,
        !s.confirm_clear,
    ensures
        state::on_key(s, Key { code: KeyCode::Char('c'), control: false }) == (
            (state::StateView { confirm_clear: true, ..s }),
            state::EffectView::Nothing,
        ),
{
}

/// A character that no key is named for does nothing on any tab.
pub proof fn law_other_characters_do_nothing(s: state::StateView, c: char, control: bool)
    requires
        !s.confirm_clear,
        c != 'q' && c != '1' && c != '2' && c != '3' && c != '4',
        c != ' ' && c != 'n' && c != 'p' && c != '+' && c != '=' && c != '-',
        c != 'j' && c != 'k' && c != 'g' && c != 'G',
        c != 'd' && c != 'c' && c != 'a' && c != 'D',
    ensures
        state::on_key(s, Key { code: KeyCode::Char(c), control }) == (
            s,
            state::EffectView::Nothing,
        ),
{
}

} // verus!
