//! What is sent to mpd: one line for each command, every argument quoted.
use vstd::prelude::*;

use crate::text;

verus! {

/// Would this argument end its line early?
pub open spec fn has_line_break(arg: Seq<char>) -> bool {
    arg.contains('\n') || arg.contains('\r')
}

/// An argument with a backslash before each backslash and each quotation mark.
pub open spec fn escaped(arg: Seq<char>) -> Seq<char>
    decreases arg.len(),
{
    if arg.len() == 0 {
        seq![]
    } else if arg[0] == '\\' || arg[0] == '"' {
        seq!['\\', arg[0]] + escaped(arg.skip(1))
    } else {
        seq![arg[0]] + escaped(arg.skip(1))
    }
}

/// An argument the way mpd expects it.
pub open spec fn quoted(arg: Seq<char>) -> Seq<char> {
    seq!['"'] + escaped(arg) + seq!['"']
}

/// Arguments, each quoted and set off by a space.
pub open spec fn arguments_text(args: Seq<Seq<char>>) -> Seq<char>
    decreases args.len(),
{
    if args.len() == 0 {
        seq![]
    } else {
        seq![' '] + quoted(args[0]) + arguments_text(args.skip(1))
    }
}

/// The line that carries a command.
pub open spec fn command_line(command: Seq<char>, args: Seq<Seq<char>>) -> Seq<char> {
    command + arguments_text(args) + seq!['\n']
}

/// The texts of some arguments.
pub open spec fn texts(args: Seq<&str>) -> Seq<Seq<char>> {
    args.map_values(|a: &str| a@)
}

/// An argument cannot be sent: it holds a line break, which would start a second command.
#[derive(Debug, Clone, Copy, PartialEq, Eq)]
pub struct LineBreak;

/// Quote one argument the way mpd expects; one with a line break is refused.
pub fn quote(arg: &str) -> (r: Result<String, LineBreak>)
    ensures
        r is Err <==> has_line_break(arg@),
        r matches Ok(q) ==> q@ == quoted(arg@),
{
    if text::has_char(arg, '\n') || text::has_char(arg, '\r') {
        return Err(LineBreak);
    }
    let chars = text::characters(arg);
    let mut out = String::new();
    out.push('"');
    let mut i: usize = 0;
    assert(arg@.skip(0) =~= arg@);
    while i < chars.len()
        invariant
            i <= chars@.len(),
            chars@ == arg@,
            out@ + escaped(arg@.skip(i as int)) =~= seq!['"'] + escaped(arg@),
        decreases chars@.len() - i,
    {
        assert(arg@.skip(i as int).skip(1) =~= arg@.skip(i + 1));
        if chars[i] == '\\' || chars[i] == '"' {
            out.push('\\');
        }
        out.push(chars[i]);
        i += 1;
    }
    out.push('"');
    assert(out@ =~= quoted(arg@));
    Ok(out)
}

/// The line that carries a command; an argument with a line break is refused.
pub fn request(command: &str, args: &[&str]) -> (r: Result<String, LineBreak>)
    ensures
        r is Err <==> exists|i: int| 0 <= i < args@.len() && has_line_break(#[trigger] args@[i]@),
        r matches Ok(line) ==> line@ == command_line(command@, texts(args@)),
{
    let mut line = command.to_owned();
    let ghost all = texts(args@);
    assert(all.skip(0) =~= all);
    let mut i: usize = 0;
    while i < args.len()
        invariant
            i <= args@.len(),
            all == texts(args@),
            forall|j: int| 0 <= j < i ==> !has_line_break(#[trigger] args@[j]@),
            line@ + arguments_text(all.skip(i as int)) =~= command@ + arguments_text(all),
        decreases args@.len() - i,
    {
        match quote(args[i]) {
            Ok(q) => {
                line.push(' ');
                line.append(&q);
            },
            Err(e) => {
                return Err(e);
            },
        }
        assert(all.skip(i as int).skip(1) =~= all.skip(i + 1));
        assert(all.skip(i as int)[0] == args@[i as int]@);
        i += 1;
    }
    line.push('\n');
    assert(line@ =~= command_line(command@, all));
    Ok(line)
}

// ── How mpd reads it ─────────────────────────────────────────────────────

/// The text up to the closing quotation mark, with backslashes taken off, and what follows.
pub open spec fn read_quoted(s: Seq<char>) -> Option<(Seq<char>, Seq<char>)>
    decreases s.len(),
{
    if s.len() == 0 {
        None
    } else if s[0] == '"' {
        Some((seq![], s.skip(1)))
    } else if s[0] == '\\' {
        if s.len() < 2 {
            None
        } else {
            match read_quoted(s.skip(2)) {
                Some((a, rest)) => Some((seq![s[1]] + a, rest)),
                None => None,
            }
        }
    } else {
        match read_quoted(s.skip(1)) {
            Some((a, rest)) => Some((seq![s[0]] + a, rest)),
            None => None,
        }
    }
}

/// The arguments on the rest of a command's line.
pub open spec fn read_arguments(s: Seq<char>) -> Option<Seq<Seq<char>>>
    decreases s.len(),
{
    if s.len() == 0 {
        Some(seq![])
    } else if s.len() >= 2 && s[0] == ' ' && s[1] == '"' {
        match read_quoted(s.skip(2)) {
            Some((a, rest)) if rest.len() < s.len() => match read_arguments(rest) {
                Some(more) => Some(seq![a] + more),
                None => None,
            },
            _ => None,
        }
    } else {
        None
    }
}

/// A quoted argument reads back as the argument, and nothing after it is swallowed.
pub proof fn law_quoted_reads_back(arg: Seq<char>, rest: Seq<char>)
    ensures
        read_quoted(escaped(arg) + seq!['"'] + rest) == Some((arg, rest)),
    decreases arg.len(),
{
    let s = escaped(arg) + seq!['"'] + rest;
    if arg.len() == 0 {
        assert(s.skip(1) =~= rest);
        assert(arg =~= seq![]);
    } else {
        let inner = escaped(arg.skip(1)) + seq!['"'] + rest;
        law_quoted_reads_back(arg.skip(1), rest);
        if arg[0] == '\\' || arg[0] == '"' {
            assert(s.skip(2) =~= inner);
        } else {
            assert(s.skip(1) =~= inner);
        }
        assert(seq![arg[0]] + arg.skip(1) =~= arg);
    }
}

/// mpd reads the arguments of a command's line as exactly those that were given.
pub proof fn law_arguments_read_back(args: Seq<Seq<char>>)
    ensures
        read_arguments(arguments_text(args)) == Some(args),
    decreases args.len(),
{
    let s = arguments_text(args);
    if args.len() == 0 {
        assert(args =~= seq![]);
    } else {
        let rest = arguments_text(args.skip(1));
        law_arguments_read_back(args.skip(1));
        law_quoted_reads_back(args[0], rest);
        assert(s.skip(2) =~= escaped(args[0]) + seq!['"'] + rest);
        assert(seq![args[0]] + args.skip(1) =~= args);
    }
}

proof fn lemma_escaped_line_breaks(arg: Seq<char>)
    requires
        !has_line_break(arg),
    ensures
        !has_line_break(escaped(arg)),
    decreases arg.len(),
{
    if arg.len() > 0 {
        let rest = arg.skip(1);
        assert(arg.contains(arg[0]));
        assert(!has_line_break(rest)) by {
            assert forall|j: int| 0 <= j < rest.len() implies rest[j] != '\n' && rest[j] != '\r' by {
                assert(rest[j] == arg[j + 1]);
            }
        }
        lemma_escaped_line_breaks(rest);
        let tail = escaped(rest);
        assert forall|j: int| 0 <= j < escaped(arg).len() implies escaped(arg)[j] != '\n' && escaped(
            arg,
        )[j] != '\r' by {
            let skip = escaped(arg).len() - tail.len();
            if j >= skip {
                assert(escaped(arg)[j] == tail[j - skip]);
                assert(tail.contains(tail[j - skip]));
            }
        }
    }
}

proof fn lemma_arguments_line_breaks(args: Seq<Seq<char>>)
    requires
        forall|i: int| 0 <= i < args.len() ==> !has_line_break(#[trigger] args[i]),
    ensures
        !has_line_break(arguments_text(args)),
    decreases args.len(),
{
    if args.len() > 0 {
        lemma_escaped_line_breaks(args[0]);
        let rest = args.skip(1);
        assert forall|i: int| 0 <= i < rest.len() implies !has_line_break(#[trigger] rest[i]) by {
            assert(rest[i] == args[i + 1]);
        }
        lemma_arguments_line_breaks(rest);
        let s = arguments_text(args);
        let q = escaped(args[0]);
        let t = arguments_text(rest);
        assert(s =~= seq![' ', '"'] + q + seq!['"'] + t);
        assert forall|j: int| 0 <= j < s.len() implies s[j] != '\n' && s[j] != '\r' by {
            if 2 <= j < 2 + q.len() {
                assert(s[j] == q[j - 2]);
                assert(q.contains(q[j - 2]));
            } else if j >= 3 + q.len() {
                assert(s[j] == t[j - 3 - q.len()]);
                assert(t.contains(t[j - 3 - q.len()]));
            }
        }
    }
}

/// A command's line is one line: its only line break is its last character, so no argument can
/// put a second command on the wire.
pub proof fn law_one_command_per_line(command: Seq<char>, args: Seq<Seq<char>>)
    requires
        !has_line_break(command),
        forall|i: int| 0 <= i < args.len() ==> !has_line_break(#[trigger] args[i]),
    ensures
        command_line(command, args).last() == '\n',
        !has_line_break(command_line(command, args).drop_last()),
{
    lemma_arguments_line_breaks(args);
    let t = arguments_text(args);
    let s = command_line(command, args);
    assert(s.drop_last() =~= command + t);
    assert forall|j: int| 0 <= j < s.len() - 1 implies s.drop_last()[j] != '\n'
        && s.drop_last()[j] != '\r' by {
        if j < command.len() {
            assert(command.contains(command[j]));
        } else {
            assert(t.contains(t[j - command.len()]));
        }
    }
}

// ── Waiting for changes ──────────────────────────────────────────────────

/// Is this made like the name of one of mpd's areas: small letters and underscores?
pub open spec fn is_subsystem(name: Seq<char>) -> bool {
    forall|i: int| 0 <= i < name.len() ==> text::is_lower(#[trigger] name[i]) || name[i] == '_'
}

/// Names, each set off by a space.
pub open spec fn names_text(names: Seq<Seq<char>>) -> Seq<char>
    decreases names.len(),
{
    if names.len() == 0 {
        seq![]
    } else {
        seq![' '] + names[0] + names_text(names.skip(1))
    }
}

/// The line that asks mpd to wait for a change.
pub open spec fn idle_line(names: Seq<Seq<char>>) -> Seq<char> {
    "idle"@ + names_text(names) + seq!['\n']
}

fn subsystem(name: &str) -> (r: bool)
    ensures
        r == is_subsystem(name@),
{
    let chars = text::characters(name);
    let mut i: usize = 0;
    while i < chars.len()
        invariant
            i <= chars@.len(),
            chars@ == name@,
            forall|j: int| 0 <= j < i ==> text::is_lower(#[trigger] name@[j]) || name@[j] == '_',
        decreases chars@.len() - i,
    {
        let c = chars[i];
        if !(('a' <= c && c <= 'z') || c == '_') {
            assert(name@[i as int] == c);
            return false;
        }
        i += 1;
    }
    true
}

/// The line that asks mpd to wait for a change in any of these areas; the first name that is not
/// made like one is refused.
pub fn idle_request(names: &[&str]) -> (r: Result<String, String>)
    ensures
        match r {
            Ok(line) => {
                &&& forall|i: int| 0 <= i < names@.len() ==> is_subsystem(#[trigger] names@[i]@)
                &&& line@ == idle_line(texts(names@))
            },
            Err(bad) => exists|i: int|
                0 <= i < names@.len() && bad@ == (#[trigger] names@[i])@ && !is_subsystem(bad@)
                    && forall|j: int| 0 <= j < i ==> is_subsystem(#[trigger] names@[j]@),
        },
{
    let mut line = "idle".to_owned();
    let ghost all = texts(names@);
    assert(all.skip(0) =~= all);
    let mut i: usize = 0;
    while i < names.len()
        invariant
            i <= names@.len(),
            all == texts(names@),
            forall|j: int| 0 <= j < i ==> is_subsystem(#[trigger] names@[j]@),
            line@ + names_text(all.skip(i as int)) =~= "idle"@ + names_text(all),
        decreases names@.len() - i,
    {
        if !subsystem(names[i]) {
            let bad = names[i].to_owned();
            assert(bad@ == names@[i as int]@);
            return Err(bad);
        }
        line.push(' ');
        line.append(names[i]);
        assert(all.skip(i as int).skip(1) =~= all.skip(i + 1));
        assert(all.skip(i as int)[0] == names@[i as int]@);
        i += 1;
    }
    line.push('\n');
    assert(line@ =~= idle_line(all));
    Ok(line)
}

proof fn lemma_names_line_breaks(names: Seq<Seq<char>>)
    requires
        forall|i: int| 0 <= i < names.len() ==> is_subsystem(#[trigger] names[i]),
    ensures
        !has_line_break(names_text(names)),
    decreases names.len(),
{
    if names.len() > 0 {
        let rest = names.skip(1);
        assert forall|i: int| 0 <= i < rest.len() implies is_subsystem(#[trigger] rest[i]) by {
            assert(rest[i] == names[i + 1]);
        }
        lemma_names_line_breaks(rest);
        let s = names_text(names);
        let t = names_text(rest);
        assert forall|j: int| 0 <= j < s.len() implies s[j] != '\n' && s[j] != '\r' by {
            if 1 <= j < 1 + names[0].len() {
                assert(s[j] == names[0][j - 1]);
            } else if j >= 1 + names[0].len() {
                assert(s[j] == t[j - 1 - names[0].len()]);
                assert(t.contains(t[j - 1 - names[0].len()]));
            }
        }
    }
}

/// The line that asks mpd to wait is one line, so no name can put a second command on the wire.
pub proof fn law_idle_is_one_line(names: Seq<Seq<char>>)
    requires
        forall|i: int| 0 <= i < names.len() ==> is_subsystem(#[trigger] names[i]),
    ensures
        idle_line(names).last() == '\n',
        !has_line_break(idle_line(names).drop_last()),
{
    reveal_strlit("idle");
    lemma_names_line_breaks(names);
    let t = names_text(names);
    let s = idle_line(names);
    assert(s.drop_last() =~= "idle"@ + t);
    assert forall|j: int| 0 <= j < s.len() - 1 implies s.drop_last()[j] != '\n'
        && s.drop_last()[j] != '\r' by {
        if j >= 4 {
            assert(t.contains(t[j - 4]));
        }
    }
}

/// An argument is escaped character by character: a quote and a backslash get a backslash before
/// them, and nothing else changes.
pub proof fn law_escaping(a: Seq<char>, b: Seq<char>, c: char)
    ensures
        escaped(seq![]) == Seq::<char>::empty(),
        escaped(a + b) == escaped(a) + escaped(b),
        c == '"' || c == '\\' ==> escaped(seq![c]) == seq!['\\', c],
        c != '"' && c != '\\' ==> escaped(seq![c]) == seq![c],
    decreases a.len(),
{
    reveal_with_fuel(escaped, 2);
    assert(seq![c].skip(1) =~= seq![]);
    assert(seq!['\\', c] + Seq::<char>::empty() =~= seq!['\\', c]);
    assert(seq![c] + Seq::<char>::empty() =~= seq![c]);
    if a.len() == 0 {
        assert(a + b =~= b);
        assert(escaped(a) + escaped(b) =~= escaped(b));
    } else {
        law_escaping(a.skip(1), b, c);
        assert((a + b).skip(1) =~= a.skip(1) + b);
        assert((a + b)[0] == a[0]);
        assert(escaped(a + b) =~= escaped(a) + escaped(b));
    }
}

/// A command goes out with its arguments behind it, in order, each after a space and between quotes,
/// and ends its line.
pub proof fn law_how_a_command_is_sent(
    command: Seq<char>,
    arg: Seq<char>,
    args: Seq<Seq<char>>,
)
    ensures
        command_line(command, seq![]) == command + seq!['\n'],
        command_line(command, seq![arg]) == command + seq![' ', '"'] + escaped(arg) + seq![
            '"',
            '\n',
        ],
        command_line(command, seq![arg] + args) == command_line(
            command + seq![' ', '"'] + escaped(arg) + seq!['"'],
            args,
        ),
{
    assert((seq![arg] + args).skip(1) =~= args);
    assert(seq![arg].skip(1) =~= seq![]);
    reveal_with_fuel(arguments_text, 2);
    assert(command_line(command, seq![]) =~= command + seq!['\n']);
    assert(command_line(command, seq![arg]) =~= command + seq![' ', '"'] + escaped(arg) + seq![
        '"',
        '\n',
    ]);
    assert(command_line(command, seq![arg] + args) =~= command_line(
        command + seq![' ', '"'] + escaped(arg) + seq!['"'],
        args,
    ));
}

/// A line break is one of two characters.
pub proof fn law_line_breaks(arg: Seq<char>)
    ensures
        has_line_break(arg) <==> exists|i: int|
            0 <= i < arg.len() && (#[trigger] arg[i] == '\n' || arg[i] == '\r'),
{
}

/// The line that asks mpd to wait names what to wait for, in order; and what can be waited for is
/// written in small letters and underscores.
pub proof fn law_what_is_waited_for(names: Seq<Seq<char>>)
    requires
        forall|i: int| 0 <= i < names.len() ==> is_subsystem(#[trigger] names[i]),
    ensures
        text::pieces(idle_line(names).drop_last(), ' ') == seq!["idle"@] + names,
{
    reveal_strlit("idle");
    assert(idle_line(names).drop_last() =~= "idle"@ + names_text(names));
    assert(!"idle"@.contains(' '));
    lemma_names_are_pieces("idle"@, names);
}

/// A name that can be waited for is small letters and underscores.
pub proof fn law_subsystems(name: Seq<char>)
    ensures
        is_subsystem(name) <==> forall|i: int|
            0 <= i < name.len() ==> ('a' <= #[trigger] name[i] <= 'z' || name[i] == '_'),
{
}

proof fn lemma_names_are_pieces(first: Seq<char>, names: Seq<Seq<char>>)
    requires
        !first.contains(' '),
        forall|i: int| 0 <= i < names.len() ==> is_subsystem(#[trigger] names[i]),
    ensures
        text::pieces(first + names_text(names), ' ') == seq![first] + names,
    decreases names.len(),
{
    if names.len() == 0 {
        assert(first + names_text(names) =~= first);
        text::lemma_pieces(first, seq![], ' ');
        assert(seq![first] + names =~= seq![first]);
    } else {
        let rest = names.skip(1);
        assert forall|i: int| 0 <= i < rest.len() implies is_subsystem(#[trigger] rest[i]) by {
            assert(rest[i] == names[i + 1]);
        }
        assert(is_subsystem(names[0]));
        assert(!names[0].contains(' ')) by {
            assert forall|j: int| 0 <= j < names[0].len() implies names[0][j] != ' ' by {
                assert(text::is_lower(names[0][j]) || names[0][j] == '_');
            }
        }
        lemma_names_are_pieces(names[0], rest);
        assert(first + names_text(names) =~= first + seq![' '] + (names[0] + names_text(rest)));
        text::lemma_pieces(first, names[0] + names_text(rest), ' ');
        assert(seq![first] + (seq![names[0]] + rest) =~= seq![first] + names);
    }
}

} // verus!
