//! The decision half of the prompt-driven menus: reading numbers,
//! list indexes and commands out of a line the caller has already read,
//! and the range rules for a manually entered date.  Printing prompts
//! and reading lines stay with the caller.

use vstd::prelude::*;
use crate::decimal::parse_int;
use crate::strutil::chars_subrange;
use crate::strutil::chars_to_string;
use crate::strutil::first_occurrence;
use crate::strutil::lemma_first_occurrence_at;
use crate::strutil::str_chars;

verus! {

pub open spec fn is_ascii_ws(c: char) -> bool {
    c == ' ' || c == '\t' || c == '\n' || c == '\r'
}

/// The sequence without its leading ASCII whitespace.
pub open spec fn trim_front(s: Seq<char>) -> Seq<char>
    decreases s.len(),
{
    if s.len() > 0 && is_ascii_ws(s[0]) {
        trim_front(s.drop_first())
    } else {
        s
    }
}

/// The sequence without its trailing ASCII whitespace.
pub open spec fn trim_back(s: Seq<char>) -> Seq<char>
    decreases s.len(),
{
    if s.len() > 0 && is_ascii_ws(s.last()) {
        trim_back(s.drop_last())
    } else {
        s
    }
}

/// The sequence without leading and trailing ASCII whitespace.
pub open spec fn trim_spec(s: Seq<char>) -> Seq<char> {
    trim_back(trim_front(s))
}

proof fn lemma_trim_front_at(s: Seq<char>, a: int)
    requires
        0 <= a <= s.len(),
        forall|k: int| 0 <= k < a ==> is_ascii_ws(#[trigger] s[k]),
        a < s.len() ==> !is_ascii_ws(s[a]),
    ensures
        trim_front(s) == s.subrange(a, s.len() as int),
    decreases a,
{
    if a == 0 {
        if s.len() == 0 {
            assert(s.subrange(0, 0) =~= s);
        } else {
            assert(s.subrange(0, s.len() as int) =~= s);
        }
    } else {
        assert(is_ascii_ws(s[0]));
        let rest = s.drop_first();
        assert forall|k: int| 0 <= k < a - 1 implies is_ascii_ws(#[trigger] rest[k]) by {
            assert(rest[k] == s[k + 1]);
        }
        if a - 1 < rest.len() {
            assert(rest[a - 1] == s[a]);
        }
        lemma_trim_front_at(rest, a - 1);
        assert(rest.subrange(a - 1, rest.len() as int) =~= s.subrange(a, s.len() as int));
    }
}

proof fn lemma_trim_back_at(s: Seq<char>, b: int)
    requires
        0 <= b <= s.len(),
        forall|k: int| b <= k < s.len() ==> is_ascii_ws(#[trigger] s[k]),
        b > 0 ==> !is_ascii_ws(s[b - 1]),
    ensures
        trim_back(s) == s.subrange(0, b),
    decreases s.len() - b,
{
    if b == s.len() {
        if s.len() == 0 {
            assert(s.subrange(0, 0) =~= s);
        } else {
            assert(s.subrange(0, s.len() as int) =~= s);
        }
    } else {
        assert(is_ascii_ws(s.last()));
        let rest = s.drop_last();
        assert forall|k: int| b <= k < rest.len() implies is_ascii_ws(#[trigger] rest[k]) by {
            assert(rest[k] == s[k]);
        }
        if b > 0 {
            assert(rest[b - 1] == s[b - 1]);
        }
        lemma_trim_back_at(rest, b);
        assert(rest.subrange(0, b) =~= s.subrange(0, b));
    }
}

fn is_ascii_ws_exec(c: char) -> (r: bool)
    ensures
        r == is_ascii_ws(c),
{
    c == ' ' || c == '\t' || c == '\n' || c == '\r'
}

/// The characters without leading and trailing ASCII whitespace.
pub fn trim_chars(v: &Vec<char>) -> (r: Vec<char>)
    ensures
        r@ == trim_spec(v@),
{
    let mut a: usize = 0;
    while a < v.len() && is_ascii_ws_exec(v[a])
        invariant
            a <= v@.len(),
            forall|k: int| 0 <= k < a ==> is_ascii_ws(#[trigger] v@[k]),
        decreases v@.len() - a,
    {
        a += 1;
    }
    proof {
        lemma_trim_front_at(v@, a as int);
    }
    if a == v.len() {
        proof {
            assert(v@.subrange(a as int, v@.len() as int) =~= Seq::<char>::empty());
        }
        let r: Vec<char> = Vec::new();
        proof {
            assert(r@ =~= trim_back(Seq::<char>::empty()));
        }
        return r;
    }
    let mut b: usize = v.len();
    while b > a + 1 && is_ascii_ws_exec(v[b - 1])
        invariant
            a < b <= v@.len(),
            forall|k: int| b <= k < v@.len() ==> is_ascii_ws(#[trigger] v@[k]),
        decreases b,
    {
        b -= 1;
    }
    let b_final = if b == a + 1 && is_ascii_ws_exec(v[b - 1]) {
        b - 1
    } else {
        b
    };
    proof {
        let front = v@.subrange(a as int, v@.len() as int);
        assert forall|k: int| b_final - a <= k < front.len() implies is_ascii_ws(
            #[trigger] front[k],
        ) by {
            assert(front[k] == v@[a + k]);
        }
        if b_final > a {
            assert(front[b_final - a - 1] == v@[b_final - 1]);
            assert(!is_ascii_ws(v@[b_final - 1]));
        }
        lemma_trim_back_at(front, b_final - a);
        assert(front.subrange(0, b_final - a) =~= v@.subrange(a as int, b_final as int));
    }
    chars_subrange(v, a, b_final)
}

/// What a line entered at a number prompt during manual date entry
/// yields: nothing for a blank line, the number when one stands there,
/// and the out-of-range marker for anything unreadable.
pub open spec fn number_date_spec(s: Seq<char>) -> Option<i32> {
    let t = trim_spec(s);
    match parse_int(t) {
        Some(v) => if i32::MIN <= v <= i32::MAX {
            Some(v as i32)
        } else {
            Some(-1i32)
        },
        None => if t.len() == 0 {
            None
        } else {
            Some(-1i32)
        },
    }
}

/// Reads a number entered at a date prompt: blank means "use the
/// default", a number means itself, anything else reads as -1.
pub fn ask_number_date(input: &str) -> (r: Option<i32>)
    ensures
        r == number_date_spec(input@),
{
    let cs = str_chars(input);
    let t = trim_chars(&cs);
    match crate::decimal::parse_int_chars(&t) {
        Some(v) => {
            if i32::MIN as i64 <= v && v <= i32::MAX as i64 {
                Some(v as i32)
            } else {
                Some(-1)
            }
        },
        None => {
            if t.len() == 0 {
                None
            } else {
                Some(-1)
            }
        },
    }
}

/// What a line entered at the task-index prompt selects from a list of
/// `len` tasks: the entered number less one, when it is a number and
/// lands in the list.
pub open spec fn index_choice_spec(s: Seq<char>, len: nat) -> Option<usize> {
    let t = trim_spec(s);
    match parse_int(t) {
        Some(v) => if i32::MIN <= v <= i32::MAX && 1 <= v && v - 1 < len {
            Some((v - 1) as usize)
        } else {
            None
        },
        None => None,
    }
}

/// Reads a one-based task index; anything unreadable or out of bounds
/// selects nothing.
pub fn ask_index(input: &str, len: usize) -> (r: Option<usize>)
    ensures
        r == index_choice_spec(input@, len as nat),
{
    let cs = str_chars(input);
    let t = trim_chars(&cs);
    match crate::decimal::parse_int_chars(&t) {
        Some(v) => {
            if i32::MIN as i64 <= v && v <= i32::MAX as i64 && 1 <= v && ((v - 1) as u64) < (
            len as u64) {
                Some((v - 1) as usize)
            } else {
                None
            }
        },
        None => None,
    }
}

/// What lower-casing a string yields; the case folding is the standard
/// library's and depends on the characters alone.
pub uninterp spec fn lower_of(s: Seq<char>) -> Seq<char>;

/// Relies on `str::to_lowercase`: the lowercase equivalent of the
/// string, a function of its characters alone; empty input stays empty.
#[verifier::external_body]
fn lowercase(s: &str) -> (r: String)
    ensures
        r@ == lower_of(s@),
        s@.len() == 0 ==> r@.len() == 0,
{
    s.to_lowercase()
}

/// All pieces of `s` between occurrences of `sep`, in order; a piece
/// may be empty.
pub open spec fn split_all(s: Seq<char>, sep: char) -> Seq<Seq<char>>
    decreases s.len(),
{
    if !s.contains(sep) {
        seq![s]
    } else {
        let i = first_occurrence(s, sep);
        if 0 <= i < s.len() {
            seq![s.subrange(0, i)] + split_all(s.subrange(i + 1, s.len() as int), sep)
        } else {
            seq![s]
        }
    }
}

/// The words of a command line: each piece trimmed, empty pieces
/// dropped.
pub open spec fn tokens_of(pieces: Seq<Seq<char>>) -> Seq<Seq<char>>
    decreases pieces.len(),
{
    if pieces.len() == 0 {
        Seq::empty()
    } else {
        (if trim_spec(pieces[0]).len() > 0 {
            seq![trim_spec(pieces[0])]
        } else {
            Seq::<Seq<char>>::empty()
        }) + tokens_of(pieces.drop_first())
    }
}

/// What a command line denotes: nothing at all for the empty line,
/// else the words of its lowercase form.
pub open spec fn prompt_input_spec(s: Seq<char>) -> Option<Seq<Seq<char>>> {
    if s.len() == 0 {
        None
    } else {
        Some(tokens_of(split_all(lower_of(s), ' ')))
    }
}

pub open spec fn string_views(ss: Seq<String>) -> Seq<Seq<char>> {
    ss.map_values(|x: String| x@)
}

/// Splits on single spaces.
fn split_spaces(v: &Vec<char>) -> (r: Vec<Vec<char>>)
    ensures
        line_views_local(r@) == split_all(v@, ' '),
{
    let mut pieces: Vec<Vec<char>> = Vec::new();
    let mut start: usize = 0;
    let mut i: usize = 0;
    proof {
        assert(v@.subrange(0, v@.len() as int) =~= v@);
        assert(line_views_local(pieces@) =~= Seq::<Seq<char>>::empty());
        assert(Seq::<Seq<char>>::empty() + split_all(v@, ' ') =~= split_all(v@, ' '));
    }
    while i < v.len()
        invariant
            start <= i <= v@.len(),
            split_all(v@, ' ') == line_views_local(pieces@) + split_all(
                v@.subrange(start as int, v@.len() as int),
                ' ',
            ),
            forall|k: int| start <= k < i ==> v@[k] != ' ',
        decreases v@.len() - i,
    {
        if v[i] == ' ' {
            let piece = chars_subrange(v, start, i);
            let ghost done = line_views_local(pieces@);
            let ghost suffix = v@.subrange(start as int, v@.len() as int);
            let ghost tail = v@.subrange(i + 1, v@.len() as int);
            proof {
                assert forall|k: int| 0 <= k < piece@.len() implies piece@[k] != ' ' by {
                    assert(piece@[k] == v@[start + k]);
                }
                lemma_first_occurrence_at(piece@, ' ', tail);
                assert(suffix =~= piece@ + seq![' '] + tail);
                assert(suffix.subrange(0, piece@.len() as int) =~= piece@);
                assert(suffix.subrange(piece@.len() as int + 1, suffix.len() as int) =~= tail);
            }
            pieces.push(piece);
            proof {
                assert(line_views_local(pieces@) =~= done.push(piece@));
                assert forall|rest: Seq<Seq<char>>|
                    done + (seq![piece@] + rest) =~= done.push(piece@) + rest by {}
            }
            i += 1;
            start = i;
        } else {
            i += 1;
        }
    }
    let last = chars_subrange(v, start, v.len());
    let ghost done = line_views_local(pieces@);
    proof {
        let suffix = v@.subrange(start as int, v@.len() as int);
        assert forall|k: int| 0 <= k < suffix.len() implies suffix[k] != ' ' by {
            assert(suffix[k] == v@[start + k]);
        }
        if suffix.contains(' ') {
            let w = choose|w: int| 0 <= w < suffix.len() && suffix[w] == ' ';
            assert(false);
        }
        assert(split_all(suffix, ' ') == seq![suffix]);
    }
    pieces.push(last);
    proof {
        assert(line_views_local(pieces@) =~= done.push(last@));
        assert(done + seq![last@] =~= done.push(last@));
    }
    pieces
}

/// The values of a vector of pieces.
pub open spec fn line_views_local(ls: Seq<Vec<char>>) -> Seq<Seq<char>> {
    ls.map_values(|l: Vec<char>| l@)
}

/// Reads a command line: the empty line means "no input"; any other
/// line becomes its lowercase words, split on spaces, trimmed, with
/// empty words dropped.
pub fn prompt_input(input: &str) -> (r: Option<Vec<String>>)
    ensures
        match r {
            Some(words) => input@.len() > 0 && prompt_input_spec(input@) == Some(
                string_views(words@),
            ),
            None => input@.len() == 0,
        },
{
    if input.unicode_len() == 0 {
        return None;
    }
    let lowered = lowercase(input);
    let lv = str_chars(lowered.as_str());
    let pieces = split_spaces(&lv);
    let mut words: Vec<String> = Vec::new();
    let mut i: usize = 0;
    proof {
        assert(string_views(words@) =~= Seq::<Seq<char>>::empty());
        assert(line_views_local(pieces@).subrange(0, line_views_local(pieces@).len() as int)
            =~= line_views_local(pieces@));
    }
    while i < pieces.len()
        invariant
            i <= pieces@.len(),
            tokens_of(line_views_local(pieces@)) == string_views(words@) + tokens_of(
                line_views_local(pieces@).subrange(i as int, pieces@.len() as int),
            ),
        decreases pieces@.len() - i,
    {
        let ghost suffix = line_views_local(pieces@).subrange(i as int, pieces@.len() as int);
        let t = trim_chars(&pieces[i]);
        proof {
            assert(suffix[0] == pieces@[i as int]@);
            assert(suffix.drop_first() =~= line_views_local(pieces@).subrange(
                i + 1,
                pieces@.len() as int,
            ));
        }
        if t.len() > 0 {
            let ghost before = string_views(words@);
            words.push(chars_to_string(&t));
            proof {
                assert(string_views(words@) =~= before.push(t@));
                assert forall|rest: Seq<Seq<char>>|
                    before + (seq![t@] + rest) =~= before.push(t@) + rest by {}
            }
        } else {
            proof {
                assert(Seq::<Seq<char>>::empty() + tokens_of(suffix.drop_first()) =~= tokens_of(
                    suffix.drop_first(),
                ));
            }
        }
        i += 1;
    }
    proof {
        assert(line_views_local(pieces@).subrange(
            pieces@.len() as int,
            pieces@.len() as int,
        ) =~= Seq::<Seq<char>>::empty());
        assert(string_views(words@) + Seq::<Seq<char>>::empty() =~= string_views(words@));
    }
    Some(words)
}

/// Why a manually entered date is rejected.
#[derive(Clone, Copy, Debug, PartialEq, Eq, Structural)]
pub enum DateFieldError {
    Month,
    Day,
    Hour,
}

/// The range rules for a manually entered date, checked in entry
/// order: a month outside 1..=12, then a day outside 1..=31, then an
/// hour above 23 reject the entry.
pub fn validate_date_fields(month: i32, day: i32, hour: i32) -> (r: Result<(), DateFieldError>)
    ensures
        month < 1 || month > 12 ==> r == Err::<(), DateFieldError>(DateFieldError::Month),
        (1 <= month <= 12 && (day < 1 || day > 31)) ==> r == Err::<(), DateFieldError>(
            DateFieldError::Day,
        ),
        (1 <= month <= 12 && 1 <= day <= 31 && hour > 23) ==> r == Err::<(), DateFieldError>(
            DateFieldError::Hour,
        ),
        (1 <= month <= 12 && 1 <= day <= 31 && hour <= 23) ==> r is Ok,
{
    if month < 1 || month > 12 {
        Err(DateFieldError::Month)
    } else if day < 1 || day > 31 {
        Err(DateFieldError::Day)
    } else if hour > 23 {
        Err(DateFieldError::Hour)
    } else {
        Ok(())
    }
}

/// A minute above 59 only draws a warning; the entry still proceeds.
pub fn minute_suspect(minute: i32) -> (r: bool)
    ensures
        r == (minute > 59),
{
    minute > 59
}

} // verus!
