//! The on-disk task table: a line-oriented text form in the shape of a
//! TOML document, one block of seven lines per task, every string field
//! escaped into a single line.  Writing and reading back are proved to
//! round-trip.  Reading and writing the file itself is left to the
//! caller; this module turns tasks into text and text into tasks.

use vstd::prelude::*;
use crate::decimal::i64_chars;
use crate::decimal::int_chars;
use crate::decimal::parse_int_chars;
use crate::decimal::parse_int;
use crate::decimal::is_digit;
use crate::decimal::lemma_int_chars_parse;
use crate::decimal::lemma_int_chars_shape;
use crate::task::Task;
use crate::task::TaskV;
use crate::task::Timestamp;
use crate::task::views_of;
use crate::task::tasks_wf_seq;
use crate::strutil::chars_eq;
use crate::strutil::first_occurrence;
use crate::strutil::lemma_first_occurrence;
use crate::strutil::lemma_first_occurrence_at;
use crate::strutil::chars_extend;
use crate::strutil::chars_extend_str;
use crate::strutil::chars_starts_with;
use crate::strutil::chars_subrange;
use crate::strutil::chars_to_string;
use crate::strutil::str_chars;
use crate::strutil::str_eq_chars;
use crate::task::OFFSET_SECS_LIMIT;
use crate::task::TS_SECS_LIMIT;

verus! {

/// A (de)serialization failure: the text is not a task table this
/// module ever writes.
#[derive(Clone, Copy, Debug, PartialEq, Eq, Structural)]
pub enum StorageError {
    Malformed,
}

// ---------------------------------------------------------------------
// escaping one string field onto one line

/// How one character is written inside a quoted field: backslash,
/// quote, newline, carriage return and tab hide behind a backslash;
/// everything else stands for itself.
pub open spec fn esc_char(c: char) -> Seq<char> {
    if c == '\\' {
        seq!['\\', '\\']
    } else if c == '"' {
        seq!['\\', '"']
    } else if c == '\n' {
        seq!['\\', 'n']
    } else if c == '\r' {
        seq!['\\', 'r']
    } else if c == '\t' {
        seq!['\\', 't']
    } else {
        seq![c]
    }
}

/// A string field escaped for one quoted line.
pub open spec fn escape_spec(s: Seq<char>) -> Seq<char>
    decreases s.len(),
{
    if s.len() == 0 {
        Seq::empty()
    } else {
        esc_char(s[0]) + escape_spec(s.drop_first())
    }
}

/// What a backslash is followed by, read back.
pub open spec fn unesc_char(c: char) -> Option<char> {
    if c == '\\' {
        Some('\\')
    } else if c == '"' {
        Some('"')
    } else if c == 'n' {
        Some('\n')
    } else if c == 'r' {
        Some('\r')
    } else if c == 't' {
        Some('\t')
    } else {
        None
    }
}

/// A quoted field read back; fails on a lone trailing backslash or an
/// unknown escape.
pub open spec fn unescape_spec(s: Seq<char>) -> Option<Seq<char>>
    decreases s.len(),
{
    if s.len() == 0 {
        Some(Seq::empty())
    } else if s[0] == '\\' {
        if s.len() < 2 {
            None
        } else {
            match unesc_char(s[1]) {
                Some(c) => match unescape_spec(s.subrange(2, s.len() as int)) {
                    Some(rest) => Some(seq![c] + rest),
                    None => None,
                },
                None => None,
            }
        }
    } else {
        match unescape_spec(s.drop_first()) {
            Some(rest) => Some(seq![s[0]] + rest),
            None => None,
        }
    }
}

/// Escaping reads back as what was written.
pub proof fn lemma_unescape_escape(s: Seq<char>)
    ensures
        unescape_spec(escape_spec(s)) == Some(s),
    decreases s.len(),
{
    if s.len() == 0 {
    } else {
        lemma_unescape_escape(s.drop_first());
        let e = escape_spec(s);
        let c = s[0];
        let rest = escape_spec(s.drop_first());
        assert(e == esc_char(c) + rest);
        if c == '\\' || c == '"' || c == '\n' || c == '\r' || c == '\t' {
            assert(e[0] == '\\');
            assert(e.len() >= 2);
            assert(e.subrange(2, e.len() as int) =~= rest);
            assert(seq![c] + s.drop_first() =~= s);
        } else {
            assert(e[0] == c);
            assert(e.drop_first() =~= rest);
            assert(seq![c] + s.drop_first() =~= s);
        }
    }
}

/// Escaped text never holds a raw line break.
pub proof fn lemma_escape_no_newline(s: Seq<char>)
    ensures
        forall|k: int| 0 <= k < escape_spec(s).len() ==> #[trigger] escape_spec(s)[k] != '\n',
    decreases s.len(),
{
    if s.len() == 0 {
    } else {
        lemma_escape_no_newline(s.drop_first());
        let e = escape_spec(s);
        let head = esc_char(s[0]);
        let rest = escape_spec(s.drop_first());
        assert forall|k: int| 0 <= k < e.len() implies #[trigger] e[k] != '\n' by {
            if k < head.len() {
                assert(e[k] == head[k]);
            } else {
                assert(e[k] == rest[k - head.len()]);
            }
        }
    }
}

// ---------------------------------------------------------------------
// the lines of one task

pub open spec fn header_line() -> Seq<char> {
    "[[tasks]]"@
}

pub open spec fn name_prefix() -> Seq<char> {
    "name = \""@
}

pub open spec fn description_prefix() -> Seq<char> {
    "description = \""@
}

pub open spec fn subject_prefix() -> Seq<char> {
    "subject = \""@
}

pub open spec fn time_prefix() -> Seq<char> {
    "time = \""@
}

/// The quoted body of the deadline field: an explicit marker when the
/// task has none, else the seconds and the offset in decimal.
pub open spec fn time_body(time: Option<Timestamp>) -> Seq<char> {
    match time {
        None => "none"@,
        Some(ts) => int_chars(ts.secs as int) + seq![' '] + int_chars(ts.offset_secs as int),
    }
}

pub open spec fn bool_line(prefix: Seq<char>, b: bool) -> Seq<char> {
    prefix + (if b {
        "true"@
    } else {
        "false"@
    })
}

pub open spec fn field_line(prefix: Seq<char>, body: Seq<char>) -> Seq<char> {
    prefix + body + seq!['"']
}

/// The seven lines a task is written as.
pub open spec fn task_lines(t: TaskV) -> Seq<Seq<char>> {
    seq![
        header_line(),
        field_line(name_prefix(), escape_spec(t.name)),
        field_line(description_prefix(), escape_spec(t.description)),
        field_line(subject_prefix(), escape_spec(t.subject)),
        field_line(time_prefix(), time_body(t.time)),
        bool_line("complete = "@, t.complete),
        bool_line("starred = "@, t.starred),
    ]
}

/// All lines of a task table.
pub open spec fn lines_of(tasks: Seq<TaskV>) -> Seq<Seq<char>>
    decreases tasks.len(),
{
    if tasks.len() == 0 {
        Seq::empty()
    } else {
        task_lines(tasks[0]) + lines_of(tasks.drop_first())
    }
}

/// Lines joined into a text, a line break after every line.
pub open spec fn join_nl(lines: Seq<Seq<char>>) -> Seq<char>
    decreases lines.len(),
{
    if lines.len() == 0 {
        Seq::empty()
    } else {
        lines[0] + seq!['\n'] + join_nl(lines.drop_first())
    }
}

/// The full text of a task table.
pub open spec fn encode_spec(tasks: Seq<TaskV>) -> Seq<char> {
    join_nl(lines_of(tasks))
}

// ---------------------------------------------------------------------
// splitting a text back into lines

/// The lines of a text in which every line ends with a line break;
/// nothing (an error) when the text does not end that way.
pub open spec fn split_lines_spec(s: Seq<char>) -> Option<Seq<Seq<char>>>
    decreases s.len(),
{
    if s.len() == 0 {
        Some(Seq::empty())
    } else if !s.contains('\n') {
        None
    } else {
        let i = first_occurrence(s, '\n');
        if 0 <= i < s.len() {
            match split_lines_spec(s.subrange(i + 1, s.len() as int)) {
                Some(rest) => Some(seq![s.subrange(0, i)] + rest),
                None => None,
            }
        } else {
            None
        }
    }
}

/// Splitting undoes joining, for lines free of line breaks.
pub proof fn lemma_split_join(lines: Seq<Seq<char>>)
    requires
        forall|i: int, k: int|
            0 <= i < lines.len() && 0 <= k < lines[i].len() ==> #[trigger] lines[i][k] != '\n',
    ensures
        split_lines_spec(join_nl(lines)) == Some(lines),
    decreases lines.len(),
{
    if lines.len() == 0 {
    } else {
        let s = join_nl(lines);
        let a = lines[0];
        let b = join_nl(lines.drop_first());
        assert(s == a + seq!['\n'] + b);
        assert forall|k: int| 0 <= k < a.len() implies a[k] != '\n' by {
            assert(lines[0][k] != '\n');
        }
        lemma_first_occurrence_at(a, '\n', b);
        assert(s.subrange(0, a.len() as int) =~= a);
        assert(s.subrange(a.len() as int + 1, s.len() as int) =~= b);
        let rest = lines.drop_first();
        assert forall|i: int, k: int|
            0 <= i < rest.len() && 0 <= k < rest[i].len() implies #[trigger] rest[i][k]
            != '\n' by {
            assert(rest[i] == lines[i + 1]);
        }
        lemma_split_join(rest);
        assert(seq![a] + rest =~= lines);
    }
}


// ---------------------------------------------------------------------
// reading the lines back

/// Reads a quoted field line: the prefix, then the body, then the
/// closing quote as the line's last character.
pub open spec fn strip_field(line: Seq<char>, prefix: Seq<char>) -> Option<Seq<char>> {
    if line.len() >= prefix.len() + 1 && line.subrange(0, prefix.len() as int) == prefix && line[
        line.len() - 1
    ] == '"' {
        Some(line.subrange(prefix.len() as int, line.len() - 1))
    } else {
        None
    }
}

/// Reads the deadline body back: the explicit marker, or two decimal
/// numbers in the representable range, separated by one space.
pub open spec fn parse_time_body(tb: Seq<char>) -> Option<Option<Timestamp>> {
    if tb == "none"@ {
        Some(None)
    } else if !tb.contains(' ') {
        None
    } else {
        let sp = first_occurrence(tb, ' ');
        if 0 <= sp < tb.len() {
            match (parse_int(tb.subrange(0, sp)), parse_int(tb.subrange(sp + 1, tb.len() as int))) {
                (Some(a), Some(b)) => if -(TS_SECS_LIMIT as int) <= a <= TS_SECS_LIMIT as int && -(
                OFFSET_SECS_LIMIT as int) < b < OFFSET_SECS_LIMIT as int {
                    Some(Some(Timestamp { secs: a as i64, offset_secs: b as i32 }))
                } else {
                    None
                },
                _ => None,
            }
        } else {
            None
        }
    }
}

pub open spec fn parse_bool_line(line: Seq<char>, prefix: Seq<char>) -> Option<bool> {
    if line == prefix + "true"@ {
        Some(true)
    } else if line == prefix + "false"@ {
        Some(false)
    } else {
        None
    }
}

/// One task read back from its seven lines.
pub open spec fn parse_task_lines(g: Seq<Seq<char>>) -> Option<TaskV> {
    if g.len() == 7 && g[0] == header_line() {
        match (
            strip_field(g[1], name_prefix()),
            strip_field(g[2], description_prefix()),
            strip_field(g[3], subject_prefix()),
            strip_field(g[4], time_prefix()),
        ) {
            (Some(nb), Some(db), Some(sb), Some(tb)) => match (
                unescape_spec(nb),
                unescape_spec(db),
                unescape_spec(sb),
                parse_time_body(tb),
                parse_bool_line(g[5], "complete = "@),
                parse_bool_line(g[6], "starred = "@),
            ) {
                (
                    Some(name),
                    Some(description),
                    Some(subject),
                    Some(time),
                    Some(complete),
                    Some(starred),
                ) => Some(TaskV { name, description, subject, time, complete, starred }),
                _ => None,
            },
            _ => None,
        }
    } else {
        None
    }
}

/// A task table read back from its lines, seven at a time.
pub open spec fn parse_tasks_lines(lines: Seq<Seq<char>>) -> Option<Seq<TaskV>>
    decreases lines.len(),
{
    if lines.len() == 0 {
        Some(Seq::empty())
    } else if lines.len() < 7 {
        None
    } else {
        match parse_task_lines(lines.subrange(0, 7)) {
            Some(t) => match parse_tasks_lines(lines.subrange(7, lines.len() as int)) {
                Some(rest) => Some(seq![t] + rest),
                None => None,
            },
            None => None,
        }
    }
}

/// What a text denotes as a task table, if anything.
pub open spec fn decode_spec(text: Seq<char>) -> Option<Seq<TaskV>> {
    match split_lines_spec(text) {
        Some(lines) => parse_tasks_lines(lines),
        None => None,
    }
}

// ---------------------------------------------------------------------
// the round trip

proof fn lemma_field_roundtrip(prefix: Seq<char>, body: Seq<char>)
    ensures
        strip_field(field_line(prefix, body), prefix) == Some(body),
{
    let line = field_line(prefix, body);
    assert(line.len() == prefix.len() + body.len() + 1);
    assert(line.subrange(0, prefix.len() as int) =~= prefix);
    assert(line[line.len() - 1] == '"');
    assert(line.subrange(prefix.len() as int, line.len() - 1) =~= body);
}

proof fn lemma_bool_roundtrip(prefix: Seq<char>, b: bool)
    ensures
        parse_bool_line(bool_line(prefix, b), prefix) == Some(b),
{
    reveal_strlit("true");
    reveal_strlit("false");
    if b {
    } else {
        assert((prefix + "false"@).len() != (prefix + "true"@).len());
    }
}

proof fn lemma_time_roundtrip(time: Option<Timestamp>)
    requires
        time is Some ==> time->0.wf(),
    ensures
        parse_time_body(time_body(time)) == Some(time),
{
    match time {
        None => {},
        Some(ts) => {
            let c1 = int_chars(ts.secs as int);
            let c2 = int_chars(ts.offset_secs as int);
            let tb = time_body(time);
            assert(tb == c1 + seq![' '] + c2);
            lemma_int_chars_shape(ts.secs as int);
            lemma_int_chars_shape(ts.offset_secs as int);
            // the body does not read as the no-deadline marker
            reveal_strlit("none");
            assert(tb[0] == c1[0]);
            assert(is_digit(c1[0]) || c1[0] == '-');
            assert("none"@[0] == 'n');
            assert(tb != "none"@);
            // the separating space is the first space
            assert forall|k: int| 0 <= k < c1.len() implies c1[k] != ' ' by {
                assert(is_digit(c1[k]) || (k == 0 && c1[k] == '-'));
            }
            lemma_first_occurrence_at(c1, ' ', c2);
            let sp = first_occurrence(tb, ' ');
            assert(sp == c1.len());
            assert(tb.subrange(0, sp) =~= c1);
            assert(tb.subrange(sp + 1, tb.len() as int) =~= c2);
            lemma_int_chars_parse(ts.secs as int);
            lemma_int_chars_parse(ts.offset_secs as int);
        },
    }
}

/// One task's lines read back as the task itself.
proof fn lemma_task_roundtrip(t: TaskV)
    requires
        t.wf(),
    ensures
        parse_task_lines(task_lines(t)) == Some(t),
{
    let g = task_lines(t);
    lemma_field_roundtrip(name_prefix(), escape_spec(t.name));
    lemma_field_roundtrip(description_prefix(), escape_spec(t.description));
    lemma_field_roundtrip(subject_prefix(), escape_spec(t.subject));
    lemma_field_roundtrip(time_prefix(), time_body(t.time));
    lemma_unescape_escape(t.name);
    lemma_unescape_escape(t.description);
    lemma_unescape_escape(t.subject);
    lemma_time_roundtrip(t.time);
    lemma_bool_roundtrip("complete = "@, t.complete);
    lemma_bool_roundtrip("starred = "@, t.starred);
}

/// No character of any literal line piece is a line break, so every
/// written line is a single line.
proof fn lemma_task_lines_no_newline(t: TaskV)
    ensures
        forall|i: int, k: int|
            0 <= i < task_lines(t).len() && 0 <= k < task_lines(t)[i].len()
                ==> #[trigger] task_lines(t)[i][k] != '\n',
{
    let g = task_lines(t);
    reveal_strlit("[[tasks]]");
    reveal_strlit("name = \"");
    reveal_strlit("description = \"");
    reveal_strlit("subject = \"");
    reveal_strlit("time = \"");
    reveal_strlit("complete = ");
    reveal_strlit("starred = ");
    reveal_strlit("true");
    reveal_strlit("false");
    reveal_strlit("none");
    lemma_escape_no_newline(t.name);
    lemma_escape_no_newline(t.description);
    lemma_escape_no_newline(t.subject);
    if t.time is Some {
        lemma_int_chars_shape(t.time->0.secs as int);
        lemma_int_chars_shape(t.time->0.offset_secs as int);
        assert forall|k: int| 0 <= k < time_body(t.time).len() implies time_body(t.time)[k]
            != '\n' by {
            let c1 = int_chars(t.time->0.secs as int);
            let c2 = int_chars(t.time->0.offset_secs as int);
            if k < c1.len() {
                assert(time_body(t.time)[k] == c1[k]);
                assert(is_digit(c1[k]) || c1[k] == '-');
            } else if k == c1.len() {
                assert(time_body(t.time)[k] == ' ');
            } else {
                assert(time_body(t.time)[k] == c2[k - c1.len() - 1]);
                assert(is_digit(c2[k - c1.len() - 1]) || c2[k - c1.len() - 1] == '-');
            }
        }
    }
    assert forall|i: int, k: int|
        0 <= i < g.len() && 0 <= k < g[i].len() implies #[trigger] g[i][k] != '\n' by {
        if i == 0 {
            assert(g[i] == header_line());
        } else if i == 1 {
            assert(g[i] == field_line(name_prefix(), escape_spec(t.name)));
            field_line_no_newline(name_prefix(), escape_spec(t.name), k);
        } else if i == 2 {
            assert(g[i] == field_line(description_prefix(), escape_spec(t.description)));
            field_line_no_newline(description_prefix(), escape_spec(t.description), k);
        } else if i == 3 {
            assert(g[i] == field_line(subject_prefix(), escape_spec(t.subject)));
            field_line_no_newline(subject_prefix(), escape_spec(t.subject), k);
        } else if i == 4 {
            assert(g[i] == field_line(time_prefix(), time_body(t.time)));
            field_line_no_newline(time_prefix(), time_body(t.time), k);
        } else if i == 5 {
            assert(g[i] == bool_line("complete = "@, t.complete));
        } else {
            assert(g[i] == bool_line("starred = "@, t.starred));
        }
    }
}

/// A helper step: a quoted field line holds no line break when its
/// prefix and body hold none.
proof fn field_line_no_newline(prefix: Seq<char>, body: Seq<char>, k: int)
    requires
        forall|j: int| 0 <= j < prefix.len() ==> prefix[j] != '\n',
        forall|j: int| 0 <= j < body.len() ==> body[j] != '\n',
        0 <= k < field_line(prefix, body).len(),
    ensures
        field_line(prefix, body)[k] != '\n',
{
    let line = field_line(prefix, body);
    if k < prefix.len() {
        assert(line[k] == prefix[k]);
    } else if k < prefix.len() + body.len() {
        assert(line[k] == body[k - prefix.len()]);
    } else {
        assert(line[k] == '"');
    }
}

/// The lines of a whole table read back as the tasks themselves.
proof fn lemma_tasks_lines_roundtrip(tasks: Seq<TaskV>)
    requires
        crate::task::tasks_wf_seq(tasks),
    ensures
        parse_tasks_lines(lines_of(tasks)) == Some(tasks),
    decreases tasks.len(),
{
    if tasks.len() == 0 {
    } else {
        let lines = lines_of(tasks);
        let rest = tasks.drop_first();
        assert(tasks[0].wf());
        assert forall|k: int| 0 <= k < rest.len() implies (#[trigger] rest[k]).wf() by {
            assert(rest[k] == tasks[k + 1]);
        }
        lemma_tasks_lines_roundtrip(rest);
        assert(lines == task_lines(tasks[0]) + lines_of(rest));
        assert(lines.subrange(0, 7) =~= task_lines(tasks[0]));
        assert(lines.subrange(7, lines.len() as int) =~= lines_of(rest));
        lemma_task_roundtrip(tasks[0]);
        assert(seq![tasks[0]] + rest =~= tasks);
    }
}

proof fn lemma_lines_of_no_newline(tasks: Seq<TaskV>)
    ensures
        forall|i: int, k: int|
            0 <= i < lines_of(tasks).len() && 0 <= k < lines_of(tasks)[i].len()
                ==> #[trigger] lines_of(tasks)[i][k] != '\n',
    decreases tasks.len(),
{
    if tasks.len() == 0 {
    } else {
        let lines = lines_of(tasks);
        let head = task_lines(tasks[0]);
        let rest = lines_of(tasks.drop_first());
        lemma_task_lines_no_newline(tasks[0]);
        lemma_lines_of_no_newline(tasks.drop_first());
        assert forall|i: int, k: int|
            0 <= i < lines.len() && 0 <= k < lines[i].len() implies #[trigger] lines[i][k]
            != '\n' by {
            if i < head.len() {
                assert(lines[i] == head[i]);
            } else {
                assert(lines[i] == rest[i - head.len()]);
            }
        }
    }
}

/// Writing a task table and reading it back reproduces an equal
/// collection: name, description, subject, deadline, completion and
/// star all preserved, and a missing deadline comes back as missing.
pub proof fn lemma_storage_round_trip(tasks: Seq<TaskV>)
    requires
        crate::task::tasks_wf_seq(tasks),
    ensures
        decode_spec(encode_spec(tasks)) == Some(tasks),
{
    lemma_lines_of_no_newline(tasks);
    lemma_split_join(lines_of(tasks));
    lemma_tasks_lines_roundtrip(tasks);
}

// ---------------------------------------------------------------------
// the executable encoder

proof fn lemma_escape_push(s: Seq<char>, x: char)
    ensures
        escape_spec(s.push(x)) == escape_spec(s) + esc_char(x),
    decreases s.len(),
{
    if s.len() == 0 {
        assert(s.push(x).drop_first() =~= Seq::<char>::empty());
        assert(escape_spec(Seq::<char>::empty()) + esc_char(x) =~= esc_char(x));
        assert(esc_char(s.push(x)[0]) + escape_spec(Seq::<char>::empty()) =~= esc_char(x));
    } else {
        lemma_escape_push(s.drop_first(), x);
        assert(s.push(x).drop_first() =~= s.drop_first().push(x));
        assert(s.push(x)[0] == s[0]);
        assert(esc_char(s[0]) + (escape_spec(s.drop_first()) + esc_char(x)) =~= (esc_char(s[0])
            + escape_spec(s.drop_first())) + esc_char(x));
    }
}

proof fn lemma_lines_of_push(ts: Seq<TaskV>, t: TaskV)
    ensures
        lines_of(ts.push(t)) == lines_of(ts) + task_lines(t),
    decreases ts.len(),
{
    if ts.len() == 0 {
        assert(ts.push(t).drop_first() =~= Seq::<TaskV>::empty());
        assert(ts.push(t)[0] == t);
        assert(task_lines(t) + lines_of(Seq::<TaskV>::empty()) =~= task_lines(t));
        assert(lines_of(ts) + task_lines(t) =~= task_lines(t));
    } else {
        lemma_lines_of_push(ts.drop_first(), t);
        assert(ts.push(t).drop_first() =~= ts.drop_first().push(t));
        assert(ts.push(t)[0] == ts[0]);
        assert(task_lines(ts[0]) + (lines_of(ts.drop_first()) + task_lines(t)) =~= (task_lines(
            ts[0],
        ) + lines_of(ts.drop_first())) + task_lines(t));
    }
}

proof fn lemma_join_concat(a: Seq<Seq<char>>, b: Seq<Seq<char>>)
    ensures
        join_nl(a + b) == join_nl(a) + join_nl(b),
    decreases a.len(),
{
    if a.len() == 0 {
        assert(a + b =~= b);
        assert(join_nl(a) + join_nl(b) =~= join_nl(b));
    } else {
        lemma_join_concat(a.drop_first(), b);
        assert((a + b).drop_first() =~= a.drop_first() + b);
        assert((a + b)[0] == a[0]);
        assert(a[0] + seq!['\n'] + (join_nl(a.drop_first()) + join_nl(b)) =~= (a[0] + seq!['\n']
            + join_nl(a.drop_first())) + join_nl(b));
    }
}

/// The text of seven lines, written out.
proof fn lemma_join7(g: Seq<Seq<char>>)
    requires
        g.len() == 7,
    ensures
        join_nl(g) == g[0] + seq!['\n'] + g[1] + seq!['\n'] + g[2] + seq!['\n'] + g[3] + seq![
            '\n',
        ] + g[4] + seq!['\n'] + g[5] + seq!['\n'] + g[6] + seq!['\n'],
{
    let g1 = g.drop_first();
    let g2 = g1.drop_first();
    let g3 = g2.drop_first();
    let g4 = g3.drop_first();
    let g5 = g4.drop_first();
    let g6 = g5.drop_first();
    assert(g1[0] == g[1] && g2[0] == g[2] && g3[0] == g[3] && g4[0] == g[4] && g5[0] == g[5]
        && g6[0] == g[6]);
    assert(g6.drop_first() =~= Seq::<Seq<char>>::empty());
    assert(join_nl(Seq::<Seq<char>>::empty()) == Seq::<char>::empty());
    assert(join_nl(g6) =~= g[6] + seq!['\n']);
    assert(join_nl(g5) =~= g[5] + seq!['\n'] + join_nl(g6));
    assert(join_nl(g4) =~= g[4] + seq!['\n'] + join_nl(g5));
    assert(join_nl(g3) =~= g[3] + seq!['\n'] + join_nl(g4));
    assert(join_nl(g2) =~= g[2] + seq!['\n'] + join_nl(g3));
    assert(join_nl(g1) =~= g[1] + seq!['\n'] + join_nl(g2));
    assert(join_nl(g) =~= g[0] + seq!['\n'] + join_nl(g1));
    assert(join_nl(g) =~= g[0] + seq!['\n'] + g[1] + seq!['\n'] + g[2] + seq!['\n'] + g[3] + seq![
        '\n',
    ] + g[4] + seq!['\n'] + g[5] + seq!['\n'] + g[6] + seq!['\n']);
}

/// Appends a string field in its escaped form.
fn append_escaped(out: &mut Vec<char>, s: &str)
    ensures
        final(out)@ == old(out)@ + escape_spec(s@),
{
    let cs = str_chars(s);
    let mut i: usize = 0;
    proof {
        assert(cs@.subrange(0, 0) =~= Seq::<char>::empty());
        assert(old(out)@ + escape_spec(Seq::<char>::empty()) =~= old(out)@);
    }
    while i < cs.len()
        invariant
            i <= cs@.len(),
            cs@ == s@,
            out@ == old(out)@ + escape_spec(cs@.subrange(0, i as int)),
        decreases cs@.len() - i,
    {
        let c = cs[i];
        proof {
            lemma_escape_push(cs@.subrange(0, i as int), c);
            assert(cs@.subrange(0, i + 1) =~= cs@.subrange(0, i as int).push(c));
        }
        if c == '\\' {
            out.push('\\');
            out.push('\\');
        } else if c == '"' {
            out.push('\\');
            out.push('"');
        } else if c == '\n' {
            out.push('\\');
            out.push('n');
        } else if c == '\r' {
            out.push('\\');
            out.push('r');
        } else if c == '\t' {
            out.push('\\');
            out.push('t');
        } else {
            out.push(c);
        }
        proof {
            assert(out@ =~= old(out)@ + escape_spec(cs@.subrange(0, i + 1)));
        }
        i += 1;
    }
    proof {
        assert(cs@.subrange(0, cs@.len() as int) =~= cs@);
    }
}

/// Appends one line and closes it with a line break.
fn append_line(out: &mut Vec<char>, line: &Vec<char>)
    ensures
        final(out)@ == old(out)@ + line@ + seq!['\n'],
{
    chars_extend(out, line);
    out.push('\n');
    proof {
        assert(out@ =~= old(out)@ + line@ + seq!['\n']);
    }
}

/// Appends the seven lines of one task, each closed with a line break.
#[verifier::rlimit(100)]
fn append_task_text(out: &mut Vec<char>, t: &Task)
    requires
        t@.wf(),
    ensures
        final(out)@ == old(out)@ + join_nl(task_lines(t@)),
{
    let ghost g = task_lines(t@);
    let mut l0: Vec<char> = Vec::new();
    chars_extend_str(&mut l0, "[[tasks]]");
    proof {
        assert(l0@ =~= header_line());
    }
    let mut l1: Vec<char> = Vec::new();
    chars_extend_str(&mut l1, "name = \"");
    append_escaped(&mut l1, t.name.as_str());
    l1.push('"');
    proof {
        assert(l1@ =~= field_line(name_prefix(), escape_spec(t@.name)));
    }
    let mut l2: Vec<char> = Vec::new();
    chars_extend_str(&mut l2, "description = \"");
    append_escaped(&mut l2, t.description.as_str());
    l2.push('"');
    proof {
        assert(l2@ =~= field_line(description_prefix(), escape_spec(t@.description)));
    }
    let mut l3: Vec<char> = Vec::new();
    chars_extend_str(&mut l3, "subject = \"");
    append_escaped(&mut l3, t.subject.as_str());
    l3.push('"');
    proof {
        assert(l3@ =~= field_line(subject_prefix(), escape_spec(t@.subject)));
    }
    let mut l4: Vec<char> = Vec::new();
    chars_extend_str(&mut l4, "time = \"");
    match &t.time {
        None => {
            chars_extend_str(&mut l4, "none");
        },
        Some(ts) => {
            let a = i64_chars(ts.secs);
            chars_extend(&mut l4, &a);
            l4.push(' ');
            let b = i64_chars(ts.offset_secs as i64);
            chars_extend(&mut l4, &b);
        },
    }
    l4.push('"');
    proof {
        assert(l4@ =~= field_line(time_prefix(), time_body(t@.time)));
    }
    let mut l5: Vec<char> = Vec::new();
    chars_extend_str(&mut l5, "complete = ");
    if t.complete {
        chars_extend_str(&mut l5, "true");
    } else {
        chars_extend_str(&mut l5, "false");
    }
    proof {
        assert(l5@ =~= bool_line("complete = "@, t@.complete));
    }
    let mut l6: Vec<char> = Vec::new();
    chars_extend_str(&mut l6, "starred = ");
    if t.starred {
        chars_extend_str(&mut l6, "true");
    } else {
        chars_extend_str(&mut l6, "false");
    }
    proof {
        assert(l6@ =~= bool_line("starred = "@, t@.starred));
    }
    append_line(out, &l0);
    append_line(out, &l1);
    append_line(out, &l2);
    append_line(out, &l3);
    append_line(out, &l4);
    append_line(out, &l5);
    append_line(out, &l6);
    proof {
        lemma_join7(g);
        assert(out@ =~= old(out)@ + join_nl(g));
    }
}

/// The full text of a task table.
pub fn encode_tasks(tasks: &Vec<Task>) -> (r: String)
    requires
        tasks_wf_seq(views_of(tasks@)),
    ensures
        r@ == encode_spec(views_of(tasks@)),
{
    let mut out: Vec<char> = Vec::new();
    let mut i: usize = 0;
    proof {
        assert(views_of(tasks@).subrange(0, 0) =~= Seq::<TaskV>::empty());
    }
    while i < tasks.len()
        invariant
            i <= tasks@.len(),
            tasks_wf_seq(views_of(tasks@)),
            out@ == encode_spec(views_of(tasks@).subrange(0, i as int)),
        decreases tasks@.len() - i,
    {
        proof {
            assert(views_of(tasks@)[i as int].wf());
        }
        append_task_text(&mut out, &tasks[i]);
        proof {
            let pre = views_of(tasks@).subrange(0, i as int);
            let cur = views_of(tasks@).subrange(0, i + 1);
            assert(cur =~= pre.push(views_of(tasks@)[i as int]));
            lemma_lines_of_push(pre, views_of(tasks@)[i as int]);
            lemma_join_concat(lines_of(pre), task_lines(views_of(tasks@)[i as int]));
        }
        i += 1;
    }
    proof {
        assert(views_of(tasks@).subrange(0, tasks@.len() as int) =~= views_of(tasks@));
    }
    chars_to_string(&out)
}

// ---------------------------------------------------------------------
// the executable decoder

/// The values of a vector of lines.
pub open spec fn line_views(ls: Seq<Vec<char>>) -> Seq<Seq<char>> {
    ls.map_values(|l: Vec<char>| l@)
}

/// Prepends already-split lines to the outcome on the rest of the text.
pub open spec fn split_step(
    done: Seq<Seq<char>>,
    rest: Option<Seq<Seq<char>>>,
) -> Option<Seq<Seq<char>>> {
    match rest {
        Some(r) => Some(done + r),
        None => None,
    }
}

/// Splits a text into its lines; fails when the text does not end with
/// a line break.
fn split_lines(v: &Vec<char>) -> (r: Option<Vec<Vec<char>>>)
    ensures
        match r {
            Some(lines) => split_lines_spec(v@) == Some(line_views(lines@)),
            None => split_lines_spec(v@) is None,
        },
{
    let mut lines: Vec<Vec<char>> = Vec::new();
    let mut start: usize = 0;
    let mut i: usize = 0;
    proof {
        assert(line_views(lines@) =~= Seq::<Seq<char>>::empty());
        assert(v@.subrange(0, v@.len() as int) =~= v@);
        assert(split_lines_spec(v@) == split_step(
            line_views(lines@),
            split_lines_spec(v@.subrange(0 as int, v@.len() as int)),
        ));
    }
    while i < v.len()
        invariant
            start <= i <= v@.len(),
            split_lines_spec(v@) == split_step(
                line_views(lines@),
                split_lines_spec(v@.subrange(start as int, v@.len() as int)),
            ),
            forall|k: int| start <= k < i ==> v@[k] != '\n',
        decreases v@.len() - i,
    {
        if v[i] == '\n' {
            let line = chars_subrange(v, start, i);
            let ghost done = line_views(lines@);
            let ghost suffix = v@.subrange(start as int, v@.len() as int);
            let ghost tail = v@.subrange(i + 1, v@.len() as int);
            proof {
                assert forall|k: int| 0 <= k < line@.len() implies line@[k] != '\n' by {
                    assert(line@[k] == v@[start + k]);
                }
                lemma_first_occurrence_at(line@, '\n', tail);
                assert(suffix =~= line@ + seq!['\n'] + tail);
                assert(suffix.subrange(0, line@.len() as int) =~= line@);
                assert(suffix.subrange(
                    line@.len() as int + 1,
                    suffix.len() as int,
                ) =~= tail);
            }
            lines.push(line);
            proof {
                assert(line_views(lines@) =~= done.push(line@));
                assert forall|rest: Seq<Seq<char>>|
                    done + (seq![line@] + rest) =~= done.push(line@) + rest by {}
            }
            i += 1;
            start = i;
        } else {
            i += 1;
        }
    }
    if start < v.len() {
        proof {
            let suffix = v@.subrange(start as int, v@.len() as int);
            assert forall|k: int| 0 <= k < suffix.len() implies suffix[k] != '\n' by {
                assert(suffix[k] == v@[start + k]);
            }
            if suffix.contains('\n') {
                let w = choose|w: int| 0 <= w < suffix.len() && suffix[w] == '\n';
                assert(false);
            }
        }
        return None;
    }
    proof {
        assert(v@.subrange(start as int, v@.len() as int) =~= Seq::<char>::empty());
        assert(line_views(lines@) + Seq::<Seq<char>>::empty() =~= line_views(lines@));
    }
    Some(lines)
}

/// Reads a quoted field line back: prefix, body, closing quote.
fn strip_field_exec(line: &Vec<char>, prefix: &str) -> (r: Option<Vec<char>>)
    ensures
        match r {
            Some(b) => strip_field(line@, prefix@) == Some(b@),
            None => strip_field(line@, prefix@) is None,
        },
{
    let pc = str_chars(prefix);
    if line.len() <= pc.len() {
        return None;
    }
    if !chars_starts_with(line, &pc) {
        return None;
    }
    if line[line.len() - 1] != '"' {
        return None;
    }
    Some(chars_subrange(line, pc.len(), line.len() - 1))
}

/// Reads an escaped field body back.
fn unescape_exec(v: &Vec<char>) -> (r: Option<Vec<char>>)
    ensures
        match r {
            Some(b) => unescape_spec(v@) == Some(b@),
            None => unescape_spec(v@) is None,
        },
{
    let mut out: Vec<char> = Vec::new();
    let mut i: usize = 0;
    proof {
        assert(v@.subrange(0, v@.len() as int) =~= v@);
        assert(out@ =~= Seq::<char>::empty());
    }
    while i < v.len()
        invariant
            i <= v@.len(),
            unescape_spec(v@) == (match unescape_spec(v@.subrange(i as int, v@.len() as int)) {
                Some(rest) => Some(out@ + rest),
                None => None,
            }),
        decreases v@.len() - i,
    {
        let ghost suffix = v@.subrange(i as int, v@.len() as int);
        let c = v[i];
        proof {
            assert(suffix[0] == c);
        }
        if c == '\\' {
            if i + 1 >= v.len() {
                proof {
                    assert(suffix.len() < 2);
                }
                return None;
            }
            let d = v[i + 1];
            proof {
                assert(suffix[1] == d);
                assert(suffix.subrange(2, suffix.len() as int) =~= v@.subrange(
                    i + 2,
                    v@.len() as int,
                ));
            }
            let dec: char = if d == '\\' {
                '\\'
            } else if d == '"' {
                '"'
            } else if d == 'n' {
                '\n'
            } else if d == 'r' {
                '\r'
            } else if d == 't' {
                '\t'
            } else {
                return None;
            };
            let ghost before = out@;
            out.push(dec);
            proof {
                assert forall|rest: Seq<char>| before + (seq![dec] + rest) =~= out@ + rest by {}
            }
            i += 2;
        } else {
            let ghost before = out@;
            out.push(c);
            proof {
                assert(suffix.drop_first() =~= v@.subrange(i + 1, v@.len() as int));
                assert forall|rest: Seq<char>| before + (seq![c] + rest) =~= out@ + rest by {}
            }
            i += 1;
        }
    }
    proof {
        assert(v@.subrange(v@.len() as int, v@.len() as int) =~= Seq::<char>::empty());
        assert(out@ + Seq::<char>::empty() =~= out@);
    }
    Some(out)
}

/// Reads the deadline body back.
fn parse_time_body_exec(tb: &Vec<char>) -> (r: Option<Option<Timestamp>>)
    ensures
        r == parse_time_body(tb@),
{
    if str_eq_chars("none", tb) {
        return Some(None);
    }
    // find the separating space
    let mut sp: usize = 0;
    let mut found = false;
    while sp < tb.len() && !found
        invariant
            sp <= tb@.len(),
            found ==> sp < tb@.len() && tb@[sp as int] == ' ',
            forall|k: int| 0 <= k < sp ==> tb@[k] != ' ',
        decreases tb@.len() - sp + (if found { 0int } else { 1int }),
    {
        if tb[sp] == ' ' {
            found = true;
        } else {
            sp += 1;
        }
    }
    if !found {
        proof {
            if tb@.contains(' ') {
                let w = choose|w: int| 0 <= w < tb@.len() && tb@[w] == ' ';
                assert(false);
            }
        }
        return None;
    }
    proof {
        lemma_first_occurrence(tb@, ' ');
        let fo = first_occurrence(tb@, ' ');
        if fo < sp {
            assert(tb@[fo] != ' ');
        }
        if sp < fo {
            assert(tb@[sp as int] != ' ');
        }
        assert(fo == sp);
    }
    let s1 = chars_subrange(tb, 0, sp);
    let s2 = chars_subrange(tb, sp + 1, tb.len());
    let a = match parse_int_chars(&s1) {
        Some(a) => a,
        None => {
            return None;
        },
    };
    let b = match parse_int_chars(&s2) {
        Some(b) => b,
        None => {
            return None;
        },
    };
    if a < -TS_SECS_LIMIT || a > TS_SECS_LIMIT {
        return None;
    }
    if !(-(OFFSET_SECS_LIMIT as i64) < b && b < OFFSET_SECS_LIMIT as i64) {
        return None;
    }
    Some(Some(Timestamp { secs: a, offset_secs: b as i32 }))
}

/// Reads one of the two flag lines back.
fn parse_bool_line_exec(line: &Vec<char>, word_true: &str, word_false: &str) -> (r: Option<bool>)
    ensures
        match r {
            Some(b) => line@ == (if b {
                word_true@
            } else {
                word_false@
            }),
            None => line@ != word_true@ && line@ != word_false@,
        },
{
    if str_eq_chars(word_true, line) {
        Some(true)
    } else if str_eq_chars(word_false, line) {
        Some(false)
    } else {
        None
    }
}

/// Reads one seven-line block back as a task.
fn parse_task_group(lines: &Vec<Vec<char>>, base: usize) -> (r: Option<Task>)
    requires
        base + 7 <= lines@.len(),
    ensures
        match r {
            Some(t) => parse_task_lines(line_views(lines@).subrange(base as int, base + 7))
                == Some(t@) && t@.wf(),
            None => parse_task_lines(line_views(lines@).subrange(base as int, base + 7)) is None,
        },
{
    let _n = lines.len();
    let ghost g = line_views(lines@).subrange(base as int, base + 7);
    proof {
        assert(g[0] == lines@[base as int]@);
        assert(g[1] == lines@[base as int + 1]@);
        assert(g[2] == lines@[base as int + 2]@);
        assert(g[3] == lines@[base as int + 3]@);
        assert(g[4] == lines@[base as int + 4]@);
        assert(g[5] == lines@[base as int + 5]@);
        assert(g[6] == lines@[base as int + 6]@);
    }
    if !str_eq_chars("[[tasks]]", &lines[base]) {
        return None;
    }
    let nb = match strip_field_exec(&lines[base + 1], "name = \"") {
        Some(b) => b,
        None => {
            return None;
        },
    };
    let db = match strip_field_exec(&lines[base + 2], "description = \"") {
        Some(b) => b,
        None => {
            return None;
        },
    };
    let sb = match strip_field_exec(&lines[base + 3], "subject = \"") {
        Some(b) => b,
        None => {
            return None;
        },
    };
    let tb = match strip_field_exec(&lines[base + 4], "time = \"") {
        Some(b) => b,
        None => {
            return None;
        },
    };
    let name = match unescape_exec(&nb) {
        Some(b) => b,
        None => {
            return None;
        },
    };
    let description = match unescape_exec(&db) {
        Some(b) => b,
        None => {
            return None;
        },
    };
    let subject = match unescape_exec(&sb) {
        Some(b) => b,
        None => {
            return None;
        },
    };
    let time = match parse_time_body_exec(&tb) {
        Some(t) => t,
        None => {
            return None;
        },
    };
    proof {
        reveal_strlit("complete = ");
        reveal_strlit("complete = true");
        reveal_strlit("complete = false");
        reveal_strlit("starred = ");
        reveal_strlit("starred = true");
        reveal_strlit("starred = false");
        reveal_strlit("true");
        reveal_strlit("false");
        assert("complete = true"@ =~= "complete = "@ + "true"@);
        assert("complete = false"@ =~= "complete = "@ + "false"@);
        assert("starred = true"@ =~= "starred = "@ + "true"@);
        assert("starred = false"@ =~= "starred = "@ + "false"@);
    }
    let complete = match parse_bool_line_exec(&lines[base + 5], "complete = true", "complete = false") {
        Some(b) => b,
        None => {
            return None;
        },
    };
    let starred = match parse_bool_line_exec(&lines[base + 6], "starred = true", "starred = false") {
        Some(b) => b,
        None => {
            return None;
        },
    };
    Some(
        Task {
            name: chars_to_string(&name),
            description: chars_to_string(&description),
            subject: chars_to_string(&subject),
            time,
            complete,
            starred,
        },
    )
}

/// Reads a whole task table back; fails exactly on text this module
/// never writes.
pub fn decode_tasks(text: &str) -> (r: Result<Vec<Task>, StorageError>)
    ensures
        match r {
            Ok(tasks) => decode_spec(text@) == Some(views_of(tasks@)) && tasks_wf_seq(
                views_of(tasks@),
            ),
            Err(_) => decode_spec(text@) is None,
        },
{
    let chars = str_chars(text);
    let lines = match split_lines(&chars) {
        Some(lines) => lines,
        None => {
            return Err(StorageError::Malformed);
        },
    };
    let ghost lv = line_views(lines@);
    let mut tasks: Vec<Task> = Vec::new();
    let mut base: usize = 0;
    proof {
        assert(lv.subrange(0, lv.len() as int) =~= lv);
        assert(views_of(tasks@) =~= Seq::<TaskV>::empty());
    }
    while base < lines.len()
        invariant
            base <= lv.len(),
            lv == line_views(lines@),
            split_lines_spec(text@) == Some(lv),
            tasks_wf_seq(views_of(tasks@)),
            parse_tasks_lines(lv) == (match parse_tasks_lines(
                lv.subrange(base as int, lv.len() as int),
            ) {
                Some(rest) => Some(views_of(tasks@) + rest),
                None => None,
            }),
        decreases lv.len() - base,
    {
        let ghost suffix = lv.subrange(base as int, lv.len() as int);
        if lines.len() - base < 7 {
            proof {
                assert(suffix.len() < 7 && suffix.len() > 0);
            }
            return Err(StorageError::Malformed);
        }
        proof {
            assert(suffix.subrange(0, 7) =~= lv.subrange(base as int, base + 7));
            assert(suffix.subrange(7, suffix.len() as int) =~= lv.subrange(
                base + 7,
                lv.len() as int,
            ));
        }
        let t = match parse_task_group(&lines, base) {
            Some(t) => t,
            None => {
                return Err(StorageError::Malformed);
            },
        };
        let ghost before = views_of(tasks@);
        tasks.push(t);
        proof {
            assert(views_of(tasks@) =~= before.push(t@));
            assert forall|rest: Seq<TaskV>| before + (seq![t@] + rest) =~= views_of(tasks@)
                + rest by {}
            assert forall|k: int|
                0 <= k < views_of(tasks@).len() implies (#[trigger] views_of(tasks@)[k]).wf() by {
                if k < before.len() {
                    assert(views_of(tasks@)[k] == before[k]);
                } else {
                    assert(views_of(tasks@)[k] == t@);
                }
            }
        }
        base += 7;
    }
    proof {
        assert(lv.subrange(lv.len() as int, lv.len() as int) =~= Seq::<Seq<char>>::empty());
        assert(views_of(tasks@) + Seq::<TaskV>::empty() =~= views_of(tasks@));
    }
    Ok(tasks)
}

// ---------------------------------------------------------------------
// the entry form and the storage handle

/// A task as one block of the persisted table: strings for everything,
/// the deadline rendered as text or absent.
pub struct TaskEntry {
    pub name: String,
    pub description: String,
    pub subject: String,
    pub time: Option<String>,
    pub complete: bool,
    pub starred: bool,
}

impl TaskEntry {
    /// The entry a task is written as; the deadline becomes its decimal
    /// rendering.
    pub fn from_task(task: &Task) -> (r: TaskEntry)
        requires
            task@.wf(),
        ensures
            r.name@ == task@.name,
            r.description@ == task@.description,
            r.subject@ == task@.subject,
            r.complete == task@.complete,
            r.starred == task@.starred,
            match task@.time {
                None => r.time is None,
                Some(_) => r.time is Some && r.time->0@ == time_body(task@.time),
            },
    {
        let time = match &task.time {
            None => None,
            Some(ts) => {
                let mut v = i64_chars(ts.secs);
                v.push(' ');
                let b = i64_chars(ts.offset_secs as i64);
                chars_extend(&mut v, &b);
                proof {
                    assert(v@ =~= time_body(task@.time));
                }
                Some(chars_to_string(&v))
            },
        };
        TaskEntry {
            name: task.name.clone(),
            description: task.description.clone(),
            subject: task.subject.clone(),
            time,
            complete: task.complete,
            starred: task.starred,
        }
    }

    /// The task an entry denotes; fails exactly when the deadline text
    /// does not read as one this module writes.
    pub fn to_task(self) -> (r: Result<Task, StorageError>)
        ensures
            match r {
                Ok(t) => {
                    &&& t@.name == self.name@
                    &&& t@.description == self.description@
                    &&& t@.subject == self.subject@
                    &&& t@.complete == self.complete
                    &&& t@.starred == self.starred
                    &&& t@.wf()
                    &&& match self.time {
                        None => t@.time is None,
                        Some(sv) => parse_time_body(sv@) == Some(t@.time),
                    }
                },
                Err(_) => self.time is Some && parse_time_body(self.time->0@) is None,
            },
    {
        let time = match &self.time {
            None => None,
            Some(sv) => {
                let tv = str_chars(sv.as_str());
                match parse_time_body_exec(&tv) {
                    Some(t) => t,
                    None => {
                        return Err(StorageError::Malformed);
                    },
                }
            },
        };
        Ok(
            Task {
                name: self.name,
                description: self.description,
                subject: self.subject,
                time,
                complete: self.complete,
                starred: self.starred,
            },
        )
    }
}

/// The persistence handle: it knows the table's path and the text form;
/// the file reads and writes themselves belong to the caller.
pub struct TomlStorage {
    pub path: String,
}

impl TomlStorage {
    pub fn new(path: String) -> (r: Self)
        ensures
            r.path@ == path@,
    {
        TomlStorage { path }
    }

    /// The text the tasks are persisted as.
    pub fn dump(&self, tasks: &Vec<Task>) -> (r: String)
        requires
            tasks_wf_seq(views_of(tasks@)),
        ensures
            r@ == encode_spec(views_of(tasks@)),
    {
        encode_tasks(tasks)
    }

    /// The tasks a persisted text holds; fails exactly on text the
    /// table format does not cover.
    pub fn parse(&self, content: &str) -> (r: Result<Vec<Task>, StorageError>)
        ensures
            match r {
                Ok(tasks) => decode_spec(content@) == Some(views_of(tasks@)) && tasks_wf_seq(
                    views_of(tasks@),
                ),
                Err(_) => decode_spec(content@) is None,
            },
    {
        decode_tasks(content)
    }

    /// True exactly when the in-memory tasks serialize to something
    /// other than the persisted text, byte for byte.
    pub fn should_save(&self, content: &str, tasks: &Vec<Task>) -> (r: bool)
        requires
            tasks_wf_seq(views_of(tasks@)),
        ensures
            r == (content@ != encode_spec(views_of(tasks@))),
    {
        let dump = encode_tasks(tasks);
        let a = str_chars(content);
        let b = str_chars(dump.as_str());
        !chars_eq(&a, &b)
    }
}

} // verus!
