//! What each command asks of mpd.
use vstd::prelude::*;

use crate::mpd::reply;
use crate::mpd::reply::Song;
use crate::number;
use crate::text;

verus! {

/// The areas of mpd whose changes the status reflects.
pub const WATCHED: [&'static str; 4] = ["player", "mixer", "playlist", "options"];

/// How many songs a search lists if nothing else is asked for.
pub const DEFAULT_SEARCH_LIMIT: usize = 100;

/// A command about mpd.
#[derive(Debug, Clone, PartialEq, Eq)]
pub enum Command {
    /// what is playing now
    Status,
    /// the cover of what is playing
    Art,
    /// start playing: the song at a position of the queue, or where it paused
    Play(Option<u32>),
    Pause,
    Toggle,
    Stop,
    Next,
    Prev,
    /// jump to a time
    Seek(String),
    /// set the volume, or change it
    Volume(String),
    QueueList,
    QueueAdd(String),
    QueueClear,
    QueueRemove(u32),
    /// the folders and songs in one folder of the library
    Browse(String),
    /// the songs whose tags or path mention the text, as many as this
    Search(String, usize),
    /// have mpd scan the library again
    Update,
}

/// What to do for a command.
#[derive(Debug, Clone, PartialEq, Eq)]
pub enum Plan {
    /// show what is playing, with its cover
    Status,
    /// show the cover
    Art,
    /// have mpd run this, then show what is playing
    Run(&'static str, Vec<String>),
    /// ask mpd for its state, then run what `toggle` says, then show what is playing
    Toggle,
    /// list the queue
    Queue,
    /// have mpd run this, and list the folders and songs it answers
    Folder(&'static str, Vec<String>),
    /// have mpd run this, and list the first songs it answers, as many as this
    Songs(&'static str, Vec<String>, usize),
}

/// A `Plan`, with its texts as sequences.
pub ghost enum PlanView {
    Status,
    Art,
    Run(Seq<char>, Seq<Seq<char>>),
    Toggle,
    Queue,
    Folder(Seq<char>, Seq<Seq<char>>),
    Songs(Seq<char>, Seq<Seq<char>>, int),
}

impl View for Plan {
    type V = PlanView;

    open spec fn view(&self) -> PlanView {
        match *self {
            Plan::Status => PlanView::Status,
            Plan::Art => PlanView::Art,
            Plan::Run(command, args) => PlanView::Run(command@, reply::strings_view(args@)),
            Plan::Toggle => PlanView::Toggle,
            Plan::Queue => PlanView::Queue,
            Plan::Folder(command, args) => PlanView::Folder(command@, reply::strings_view(args@)),
            Plan::Songs(command, args, most) => PlanView::Songs(
                command@,
                reply::strings_view(args@),
                most as int,
            ),
        }
    }
}

/// Why a command is refused.
#[derive(Debug, Clone, Copy, PartialEq, Eq, Structural)]
pub enum CliError {
    /// not a time to seek
    BadSeek,
    /// not a volume
    BadVolume,
}

impl CliError {
    /// What the error says to a person.
    pub fn message(self) -> (m: &'static str)
        ensures
            m@ == match self {
                CliError::BadSeek => "seek takes seconds: 90, +30 or -10"@,
                CliError::BadVolume => "volume takes 0\u{2013}100, +5 or -5"@,
            },
    {
        match self {
            CliError::BadSeek => "seek takes seconds: 90, +30 or -10",
            CliError::BadVolume => "volume takes 0\u{2013}100, +5 or -5",
        }
    }
}

/// Does the text start with a sign?
pub open spec fn has_sign(s: Seq<char>) -> bool {
    s.len() > 0 && (s[0] == '+' || s[0] == '-')
}

/// A text without its sign.
pub open spec fn without_sign(s: Seq<char>) -> Seq<char> {
    if has_sign(s) {
        s.skip(1)
    } else {
        s
    }
}

/// A time to seek or a volume: digits, with a sign or without, and with a fraction or without, in up
/// to eight characters behind the sign.
pub open spec fn is_amount(s: Seq<char>) -> bool {
    let digits = without_sign(s);
    &&& 0 < digits.len() <= 8
    &&& forall|i: int|
        0 <= i < digits.len() ==> text::is_digit(#[trigger] digits[i]) || digits[i] == '.'
    &&& exists|i: int| 0 <= i < digits.len() && text::is_digit(#[trigger] digits[i])
    &&& forall|i: int, j: int|
        0 <= i < j < digits.len() ==> !(#[trigger] digits[i] == '.' && #[trigger] digits[j] == '.')
}

fn signed(text: &str) -> (r: bool)
    ensures
        r == has_sign(text@),
{
    let chars = text::characters(text);
    chars.len() > 0 && (chars[0] == '+' || chars[0] == '-')
}

/// Is this a time to seek, or a volume?
pub fn valid_amount(text: &str) -> (r: bool)
    ensures
        r == is_amount(text@),
{
    let chars = text::characters(text);
    let from: usize = if signed(text) {
        1
    } else {
        0
    };
    let ghost digits = without_sign(text@);
    assert(text@.skip(0) =~= text@);
    assert(digits == text@.skip(from as int));
    let count = chars.len() - from;
    if count == 0 || count > 8 {
        return false;
    }
    let mut points: usize = 0;
    let mut some_digit: bool = false;
    let ghost mut point: int = 0;
    let mut i: usize = from;
    while i < chars.len()
        invariant
            from <= i <= chars@.len(),
            chars@ == text@,
            from <= 1,
            digits == text@.skip(from as int),
            digits == without_sign(text@),
            points <= 1,
            forall|j: int|
                0 <= j < i - from ==> text::is_digit(#[trigger] digits[j]) || digits[j] == '.',
            some_digit == exists|j: int|
                0 <= j < i - from && text::is_digit(#[trigger] digits[j]),
            points == 1 ==> 0 <= point < i - from && digits[point] == '.',
            forall|j: int|
                0 <= j < i - from && !(points == 1 && j == point) ==> #[trigger] digits[j] != '.',
        decreases chars@.len() - i,
    {
        let c = chars[i];
        assert(digits[i - from] == c);
        if c == '.' {
            if points == 1 {
                assert(digits[point] == '.' && digits[i - from] == '.');
                return false;
            }
            points = 1;
            proof {
                point = i - from;
            }
        } else if text::digit(c) {
            some_digit = true;
        } else {
            return false;
        }
        i += 1;
    }
    some_digit
}

/// How many songs are listed when `limit` are asked for: at least one and at most a thousand.
pub open spec fn search_limit(limit: int) -> int {
    if limit < 1 {
        1
    } else if limit > 1000 {
        1000
    } else {
        limit
    }
}

/// What to do for a command, or why it is refused.
pub open spec fn planned(command: Command) -> Result<PlanView, CliError> {
    match command {
        Command::Status => Ok(PlanView::Status),
        Command::Art => Ok(PlanView::Art),
        Command::Play(pos) => Ok(
            PlanView::Run(
                "play"@,
                match pos {
                    Some(p) => seq![number::decimal(p as nat)],
                    None => seq![],
                },
            ),
        ),
        Command::Pause => Ok(PlanView::Run("pause"@, seq!["1"@])),
        Command::Toggle => Ok(PlanView::Toggle),
        Command::Stop => Ok(PlanView::Run("stop"@, seq![])),
        Command::Next => Ok(PlanView::Run("next"@, seq![])),
        Command::Prev => Ok(PlanView::Run("previous"@, seq![])),
        Command::Seek(to) => if is_amount(to@) {
            Ok(PlanView::Run("seekcur"@, seq![to@]))
        } else {
            Err(CliError::BadSeek)
        },
        // a sign changes the volume, a plain number sets it
        Command::Volume(level) => if !is_amount(level@) {
            Err(CliError::BadVolume)
        } else if has_sign(level@) {
            Ok(PlanView::Run("volume"@, seq![level@]))
        } else {
            Ok(PlanView::Run("setvol"@, seq![level@]))
        },
        Command::QueueList => Ok(PlanView::Queue),
        Command::QueueAdd(uri) => Ok(PlanView::Run("add"@, seq![uri@])),
        Command::QueueClear => Ok(PlanView::Run("clear"@, seq![])),
        Command::QueueRemove(pos) => Ok(
            PlanView::Run("delete"@, seq![number::decimal(pos as nat)]),
        ),
        Command::Browse(dir) => Ok(PlanView::Folder("lsinfo"@, seq![dir@])),
        Command::Search(wanted, limit) => Ok(
            PlanView::Songs("search"@, seq!["any"@, wanted@], search_limit(limit as int)),
        ),
        Command::Update => Ok(PlanView::Run("update"@, seq![])),
    }
}

fn none() -> (r: Vec<String>)
    ensures
        reply::strings_view(r@) == Seq::<Seq<char>>::empty(),
{
    let r: Vec<String> = Vec::new();
    assert(reply::strings_view(r@) =~= Seq::<Seq<char>>::empty());
    r
}

fn one(arg: String) -> (r: Vec<String>)
    ensures
        reply::strings_view(r@) == seq![arg@],
{
    let mut r: Vec<String> = Vec::new();
    r.push(arg);
    assert(reply::strings_view(r@) =~= seq![arg@]);
    r
}

/// What to do for a command, or why it is refused.
pub fn plan(command: Command) -> (r: Result<Plan, CliError>)
    ensures
        match r {
            Ok(p) => planned(command) == Ok::<PlanView, CliError>(p@),
            Err(e) => planned(command) == Err::<PlanView, CliError>(e),
        },
{
    match command {
        Command::Status => Ok(Plan::Status),
        Command::Art => Ok(Plan::Art),
        Command::Play(pos) => Ok(
            Plan::Run(
                "play",
                match pos {
                    Some(p) => one(number::write_number(p as u64)),
                    None => none(),
                },
            ),
        ),
        Command::Pause => Ok(Plan::Run("pause", one("1".to_owned()))),
        Command::Toggle => Ok(Plan::Toggle),
        Command::Stop => Ok(Plan::Run("stop", none())),
        Command::Next => Ok(Plan::Run("next", none())),
        Command::Prev => Ok(Plan::Run("previous", none())),
        Command::Seek(to) => if valid_amount(&to) {
            Ok(Plan::Run("seekcur", one(to)))
        } else {
            Err(CliError::BadSeek)
        },
        Command::Volume(level) => if !valid_amount(&level) {
            Err(CliError::BadVolume)
        } else if signed(&level) {
            Ok(Plan::Run("volume", one(level)))
        } else {
            Ok(Plan::Run("setvol", one(level)))
        },
        Command::QueueList => Ok(Plan::Queue),
        Command::QueueAdd(uri) => Ok(Plan::Run("add", one(uri))),
        Command::QueueClear => Ok(Plan::Run("clear", none())),
        Command::QueueRemove(pos) => Ok(Plan::Run("delete", one(number::write_number(pos as u64)))),
        Command::Browse(dir) => Ok(Plan::Folder("lsinfo", one(dir))),
        Command::Search(wanted, limit) => {
            let mut args = one("any".to_owned());
            assert(reply::strings_view(args@).len() == 1 && reply::strings_view(args@)[0] == "any"@);
            args.push(wanted);
            assert(reply::strings_view(args@) =~= seq!["any"@, wanted@]);
            let most: usize = if limit < 1 {
                1
            } else if limit > 1000 {
                1000
            } else {
                limit
            };
            Ok(Plan::Songs("search", args, most))
        },
        Command::Update => Ok(Plan::Run("update", none())),
    }
}

/// What to run to toggle: mpd's `pause` flips between playing and pausing, but does nothing when
/// stopped.
pub fn toggle(state: &str) -> (r: &'static str)
    ensures
        r@ == if state@ == "stop"@ {
            "play"@
        } else {
            "pause"@
        },
{
    if text::same(state, "stop") {
        "play"
    } else {
        "pause"
    }
}

/// Keep the first songs of a list, as many as this.
pub fn keep_first(songs: &mut Vec<Song>, most: usize)
    ensures
        final(songs)@ == old(songs)@.take(
            if old(songs)@.len() < most {
                old(songs)@.len() as int
            } else {
                most as int
            },
        ),
{
    if songs.len() > most {
        songs.truncate(most);
    } else {
        assert(songs@ =~= songs@.take(songs@.len() as int));
    }
}

/// The folder that mpd has to scan for a file to be found.
pub fn folder_to_update(path: &str) -> (r: String)
    ensures
        r@ == text::before_last(path@, '/'),
{
    text::first_pieces(path, '/')
}

/// What a search lists is never empty by request, and never more than a thousand songs.
pub proof fn law_search_limit(limit: int)
    ensures
        1 <= search_limit(limit) <= 1000,
        1 <= limit <= 1000 ==> search_limit(limit) == limit,
{
}

/// Only amounts reach mpd: whatever was typed to seek or to set the volume, what is sent holds
/// digits, a sign and a point at most.
pub proof fn law_only_amounts_are_sent(typed: String)
    ensures
        planned(Command::Seek(typed)) matches Ok(PlanView::Run(_, args)) ==> args.len() == 1
            && is_amount(args[0]),
        planned(Command::Volume(typed)) matches Ok(PlanView::Run(_, args)) ==> args.len() == 1
            && is_amount(args[0]),
        planned(Command::Seek(typed)) is Ok <==> is_amount(typed@),
        planned(Command::Volume(typed)) is Ok <==> is_amount(typed@),
{
}

/// Each command has mpd run what it is named for, with what was typed as its argument, as it was
/// typed. A position is written in decimal, and a search asks for the text in any tag.
pub proof fn law_commands_are_run(typed: String, pos: u32, limit: usize)
    ensures
        planned(Command::Status) == Ok::<PlanView, CliError>(PlanView::Status),
        planned(Command::Art) == Ok::<PlanView, CliError>(PlanView::Art),
        planned(Command::Toggle) == Ok::<PlanView, CliError>(PlanView::Toggle),
        planned(Command::QueueList) == Ok::<PlanView, CliError>(PlanView::Queue),
        planned(Command::Play(None)) == Ok::<PlanView, CliError>(PlanView::Run("play"@, seq![])),
        planned(Command::Play(Some(pos))) == Ok::<PlanView, CliError>(
            PlanView::Run("play"@, seq![number::decimal(pos as nat)]),
        ),
        planned(Command::Pause) == Ok::<PlanView, CliError>(PlanView::Run("pause"@, seq!["1"@])),
        planned(Command::Stop) == Ok::<PlanView, CliError>(PlanView::Run("stop"@, seq![])),
        planned(Command::Next) == Ok::<PlanView, CliError>(PlanView::Run("next"@, seq![])),
        planned(Command::Prev) == Ok::<PlanView, CliError>(PlanView::Run("previous"@, seq![])),
        planned(Command::QueueAdd(typed)) == Ok::<PlanView, CliError>(
            PlanView::Run("add"@, seq![typed@]),
        ),
        planned(Command::QueueClear) == Ok::<PlanView, CliError>(PlanView::Run("clear"@, seq![])),
        planned(Command::QueueRemove(pos)) == Ok::<PlanView, CliError>(
            PlanView::Run("delete"@, seq![number::decimal(pos as nat)]),
        ),
        planned(Command::Browse(typed)) == Ok::<PlanView, CliError>(
            PlanView::Folder("lsinfo"@, seq![typed@]),
        ),
        planned(Command::Update) == Ok::<PlanView, CliError>(PlanView::Run("update"@, seq![])),
        planned(Command::Search(typed, limit)) matches Ok(PlanView::Songs(command, args, most))
            && command == "search"@ && args == seq!["any"@, typed@] && (1 <= limit <= 1000 ==> most
            == limit) && (limit < 1 ==> most == 1) && (limit > 1000 ==> most == 1000),
{
}

/// An amount that is typed is sent as it was typed: a time to seek to or by, and a volume, which is
/// changed if it has a sign and set if it has none. Anything else is refused.
pub proof fn law_amounts_are_sent_as_typed(typed: String)
    ensures
        is_amount(typed@) ==> planned(Command::Seek(typed)) == Ok::<PlanView, CliError>(
            PlanView::Run("seekcur"@, seq![typed@]),
        ),
        is_amount(typed@) && (typed@[0] == '+' || typed@[0] == '-') ==> planned(
            Command::Volume(typed),
        ) == Ok::<PlanView, CliError>(PlanView::Run("volume"@, seq![typed@])),
        is_amount(typed@) && typed@[0] != '+' && typed@[0] != '-' ==> planned(
            Command::Volume(typed),
        ) == Ok::<PlanView, CliError>(PlanView::Run("setvol"@, seq![typed@])),
        !is_amount(typed@) ==> planned(Command::Seek(typed)) == Err::<PlanView, CliError>(
            CliError::BadSeek,
        ),
        !is_amount(typed@) ==> planned(Command::Volume(typed)) == Err::<PlanView, CliError>(
            CliError::BadVolume,
        ),
{
}

/// Up to eight digits are an amount, alone or with a sign before them, and so they are with a point
/// among or beside them if that makes no more than eight.
pub proof fn law_numbers_are_amounts(whole: Seq<char>, part: Seq<char>, sign: char)
    requires
        forall|i: int| 0 <= i < whole.len() ==> '0' <= #[trigger] whole[i] <= '9',
        forall|i: int| 0 <= i < part.len() ==> '0' <= #[trigger] part[i] <= '9',
        sign == '+' || sign == '-',
    ensures
        1 <= whole.len() <= 8 ==> is_amount(whole) && is_amount(seq![sign] + whole),
        1 <= whole.len() + part.len() <= 7 ==> is_amount(whole + seq!['.'] + part) && is_amount(
            seq![sign] + (whole + seq!['.'] + part),
        ),
        !is_amount(seq![]),
        !is_amount(seq![sign]),
        whole.len() > 8 ==> !is_amount(whole) && !is_amount(seq![sign] + whole),
{
    let pointed = whole + seq!['.'] + part;
    assert((seq![sign] + whole).skip(1) =~= whole);
    assert((seq![sign] + pointed).skip(1) =~= pointed);
    assert(seq![sign].skip(1) =~= seq![]);
    if whole.len() > 0 {
        assert('0' <= whole[0] <= '9');
        assert(text::is_digit(whole[0]));
        assert(text::is_digit(pointed[0]));
    }
    if part.len() > 0 {
        assert('0' <= part[0] <= '9');
        assert(pointed[whole.len() as int + 1] == part[0]);
        assert(text::is_digit(pointed[whole.len() as int + 1]));
    }
    assert forall|i: int| 0 <= i < pointed.len() && pointed[i] == '.' implies i == whole.len() by {
        if i < whole.len() {
            assert('0' <= whole[i] <= '9');
        } else if i > whole.len() {
            assert('0' <= part[i - whole.len() - 1] <= '9');
        }
    }
    assert forall|i: int| 0 <= i < pointed.len() && i != whole.len() implies text::is_digit(
        #[trigger] pointed[i],
    ) by {
        if i < whole.len() {
            assert('0' <= whole[i] <= '9');
        } else {
            assert('0' <= part[i - whole.len() - 1] <= '9');
        }
    }
    assert(pointed[whole.len() as int] == '.');
    if 1 <= whole.len() + part.len() <= 7 {
        assert(!has_sign(pointed));
        assert(without_sign(pointed) == pointed);
        assert(exists|i: int| 0 <= i < pointed.len() && text::is_digit(#[trigger] pointed[i]));
        assert forall|i: int, j: int| 0 <= i < j < pointed.len() implies !(#[trigger] pointed[i]
            == '.' && #[trigger] pointed[j] == '.') by {}
        assert(is_amount(pointed));
        let signed = seq![sign] + pointed;
        assert(signed[0] == sign);
        assert(without_sign(signed) == pointed);
        assert(is_amount(signed));
    }
    if 1 <= whole.len() <= 8 {
        assert forall|i: int| 0 <= i < whole.len() implies text::is_digit(#[trigger] whole[i]) by {}
        assert(without_sign(whole) == whole);
        assert(is_amount(whole));
        let signed = seq![sign] + whole;
        assert(signed[0] == sign);
        assert(without_sign(signed) == whole);
        assert(is_amount(signed));
    }
}

/// An amount is nothing but that: behind its sign, if it has one, there are one to eight characters,
/// each a digit or a point, with a digit among them and no second point.
pub proof fn law_amounts_are_numbers(typed: Seq<char>, i: int, j: int)
    requires
        is_amount(typed),
    ensures
        1 <= typed.len() <= 9,
        typed.len() == 9 ==> typed[0] == '+' || typed[0] == '-',
        0 <= i < typed.len() ==> '0' <= typed[i] <= '9' || typed[i] == '.' || (i == 0 && (typed[i]
            == '+' || typed[i] == '-')),
        0 <= i < j < typed.len() ==> !(typed[i] == '.' && typed[j] == '.'),
        exists|k: int| 0 <= k < typed.len() && '0' <= #[trigger] typed[k] <= '9',
{
    let digits = without_sign(typed);
    let off = typed.len() - digits.len();
    assert forall|k: int| 0 <= k < digits.len() implies digits[k] == typed[k + off] by {}
    let k = choose|k: int| 0 <= k < digits.len() && text::is_digit(#[trigger] digits[k]);
    assert(off == 0 || off == 1);
    assert(off == 1 ==> typed[0] == '+' || typed[0] == '-');
    assert(typed[k + off] == digits[k]);
    assert('0' <= typed[k + off] <= '9');
    if off <= i < typed.len() {
        assert(typed[i] == digits[i - off]);
        assert(text::is_digit(digits[i - off]) || digits[i - off] == '.');
    }
    if 0 <= i < j < typed.len() {
        assert(typed[j] == digits[j - off]);
        if i >= off {
            assert(typed[i] == digits[i - off]);
            assert(!(digits[i - off] == '.' && digits[j - off] == '.'));
        }
    }
}

} // verus!
