//! Humanized labels for remaining time: "2 days 3 hours 1 minute",
//! the infinity sign for tasks without a deadline, and "No time!" when
//! the deadline is less than a minute away.

use vstd::prelude::*;
use crate::decimal::int_chars;
use crate::decimal::i64_chars;
use crate::strutil::chars_extend;
use crate::strutil::chars_extend_str;
use crate::strutil::chars_to_string;
use crate::strutil::push_char;
use crate::task::Task;
use crate::task::Timestamp;
use crate::task::div_trunc;
use crate::task::div_trunc_i64;
use crate::task::spec_delta;
use crate::task::SECS_PER_DAY;
use crate::task::SECS_PER_HOUR;
use crate::task::SECS_PER_MINUTE;

verus! {

/// The label for `num` units: nothing for zero, the singular form for
/// one of either sign, the plural form otherwise.
pub open spec fn quantity_label(unit: Seq<char>, num: int) -> Option<Seq<char>> {
    if num == 1 || num == -1 {
        Some(int_chars(num) + seq![' '] + unit)
    } else if num > 1 || num < -1 {
        Some(int_chars(num) + seq![' '] + unit + seq!['s'])
    } else {
        None
    }
}

/// Appends an optional piece to a list of label pieces.
pub open spec fn push_opt(s: Seq<Seq<char>>, o: Option<Seq<char>>) -> Seq<Seq<char>> {
    match o {
        Some(x) => s.push(x),
        None => s,
    }
}

/// The pieces joined with single spaces; empty when there are none.
pub open spec fn join_spaces(s: Seq<Seq<char>>) -> Seq<char>
    decreases s.len(),
{
    if s.len() == 0 {
        Seq::empty()
    } else if s.len() == 1 {
        s[0]
    } else {
        join_spaces(s.drop_last()) + seq![' '] + s.last()
    }
}

/// The days, hours and minutes components of a duration in seconds, as
/// the calendar library derives them: whole days, hours beyond those
/// days, minutes beyond those hours, all rounded toward zero.
pub open spec fn days_part(d: int) -> int {
    div_trunc(d, SECS_PER_DAY as int)
}

pub open spec fn hours_part(d: int) -> int {
    div_trunc(d, SECS_PER_HOUR as int) - days_part(d) * 24
}

pub open spec fn minutes_part(d: int) -> int {
    div_trunc(d, SECS_PER_MINUTE as int) - div_trunc(d, SECS_PER_HOUR as int) * 60
}

/// The humanized label of a remaining duration: the non-zero components
/// with unit words (minutes only in the long form), joined with spaces;
/// the infinity sign when there is no deadline.
pub open spec fn duration_label_spec(d: Option<i64>, long: bool) -> Seq<char> {
    match d {
        None => seq!['∞'],
        Some(d) => join_spaces(
            push_opt(
                push_opt(
                    push_opt(Seq::empty(), quantity_label("day"@, days_part(d as int))),
                    quantity_label("hour"@, hours_part(d as int)),
                ),
                if long {
                    quantity_label("minute"@, minutes_part(d as int))
                } else {
                    None
                },
            ),
        ),
    }
}

/// The full label of a task's remaining time: infinity without a
/// deadline, "No time!" under a minute away in either direction, and the
/// long humanized label otherwise.
pub open spec fn delta_label_spec(d: Option<i64>) -> Seq<char> {
    match d {
        None => seq!['∞'],
        Some(d) => if -SECS_PER_MINUTE < d < SECS_PER_MINUTE {
            "No time!"@
        } else {
            duration_label_spec(Some(d), true)
        },
    }
}

/// The characters of a unit label, if the count deserves one.
fn quantity_chars(unit: &str, num: i64) -> (r: Option<Vec<char>>)
    requires
        i64::MIN < num,
    ensures
        match r {
            Some(v) => quantity_label(unit@, num as int) == Some(v@),
            None => quantity_label(unit@, num as int) is None,
        },
{
    if num == 0 {
        None
    } else {
        let mut v = i64_chars(num);
        v.push(' ');
        proof {
            assert(v@ =~= int_chars(num as int) + seq![' ']);
        }
        chars_extend_str(&mut v, unit);
        proof {
            assert(v@ =~= int_chars(num as int) + seq![' '] + unit@);
        }
        if num != 1 && num != -1 {
            v.push('s');
            proof {
                assert(v@ =~= int_chars(num as int) + seq![' '] + unit@ + seq!['s']);
            }
        }
        Some(v)
    }
}

/// The label for `num` units, e.g. "1 day" or "-3 hours"; nothing for a
/// count of zero.
pub fn time_quantity_format(unit: &str, num: i32) -> (r: Option<String>)
    ensures
        match r {
            Some(s) => quantity_label(unit@, num as int) == Some(s@),
            None => quantity_label(unit@, num as int) is None,
        },
{
    match quantity_chars(unit, num as i64) {
        Some(v) => Some(chars_to_string(&v)),
        None => None,
    }
}

/// The infinity sign, the label of a task without a deadline.
fn infinity_string() -> (r: String)
    ensures
        r@ == seq!['∞'],
{
    let mut s = String::new();
    push_char(&mut s, '∞');
    proof {
        assert(Seq::<char>::empty().push('∞') =~= seq!['∞']);
    }
    s
}

/// The humanized remaining-time label of a duration; the short form
/// leaves the minutes out.
pub fn duration_label(duration: &Option<i64>, long: bool) -> (r: String)
    requires
        duration is Some ==> i64::MIN < duration->0,
    ensures
        r@ == duration_label_spec(*duration, long),
{
    let d: i64 = match duration {
        None => {
            return infinity_string();
        },
        Some(d) => *d,
    };
    let days = div_trunc_i64(d, SECS_PER_DAY);
    let total_hours = div_trunc_i64(d, SECS_PER_HOUR);
    let total_minutes = div_trunc_i64(d, SECS_PER_MINUTE);
    let hours = total_hours - days * 24;
    let minutes = total_minutes - total_hours * 60;
    let day_label = quantity_chars("day", days);
    let hour_label = quantity_chars("hour", hours);
    let minute_label = quantity_chars("minute", minutes);
    let ghost mut pieces: Seq<Seq<char>> = Seq::empty();
    let mut out: Vec<char> = Vec::new();
    let mut have_piece = false;
    if let Some(x) = day_label {
        chars_extend(&mut out, &x);
        have_piece = true;
        proof {
            pieces = pieces.push(x@);
            assert(Seq::<char>::empty() + x@ =~= x@);
        }
    }
    proof {
        assert(pieces == push_opt(Seq::empty(), quantity_label("day"@, days_part(d as int))));
        assert(out@ == join_spaces(pieces));
        assert(have_piece == (pieces.len() > 0));
    }
    if let Some(x) = hour_label {
        let ghost before = pieces;
        if have_piece {
            out.push(' ');
        }
        chars_extend(&mut out, &x);
        have_piece = true;
        proof {
            pieces = pieces.push(x@);
            assert(pieces.drop_last() =~= before);
            if before.len() == 0 {
                assert(Seq::<char>::empty() + x@ =~= x@);
            } else {
                assert(join_spaces(before) + seq![' '] + x@ =~= out@);
            }
        }
    }
    proof {
        assert(pieces == push_opt(
            push_opt(Seq::empty(), quantity_label("day"@, days_part(d as int))),
            quantity_label("hour"@, hours_part(d as int)),
        ));
        assert(out@ == join_spaces(pieces));
        assert(have_piece == (pieces.len() > 0));
    }
    if long {
        if let Some(x) = minute_label {
            let ghost before = pieces;
            if have_piece {
                out.push(' ');
            }
            chars_extend(&mut out, &x);
            proof {
                pieces = pieces.push(x@);
                assert(pieces.drop_last() =~= before);
                if before.len() == 0 {
                    assert(Seq::<char>::empty() + x@ =~= x@);
                } else {
                    assert(join_spaces(before) + seq![' '] + x@ =~= out@);
                }
            }
        }
    }
    proof {
        assert(out@ == join_spaces(pieces));
        assert(duration_label_spec(*duration, long) == join_spaces(pieces));
    }
    chars_to_string(&out)
}

impl Task {
    /// The remaining-time label measured from a given instant.
    pub fn delta_at(&self, now: &Timestamp) -> (r: String)
        requires
            self.wf(),
            now.wf(),
        ensures
            r@ == delta_label_spec(spec_delta(self@.time, *now)),
    {
        let duration = self.get_delta(now);
        match duration {
            None => infinity_string(),
            Some(d) => {
                let neg = if d < 0 {
                    -d
                } else {
                    d
                };
                if neg < SECS_PER_MINUTE {
                    String::from_str("No time!")
                } else {
                    duration_label(&duration, true)
                }
            },
        }
    }

    /// The remaining-time label measured from the current moment.  A task
    /// without a deadline is labelled with the infinity sign whatever the
    /// moment; with a deadline the label is the one `delta_at` gives for
    /// some valid instant.
    pub fn delta(&self) -> (r: String)
        requires
            self.wf(),
        ensures
            self@.time is None ==> r@ == seq!['∞'],
            exists|now: Timestamp|
                now.wf() && r@ == delta_label_spec(spec_delta(self@.time, now)),
    {
        let now = crate::task::now_timestamp();
        let r = self.delta_at(&now);
        proof {
            assert(now.wf() && r@ == delta_label_spec(spec_delta(self@.time, now)));
        }
        r
    }
}

} // verus!
