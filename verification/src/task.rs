//! The task model: a task's fields, its optional deadline as a plain
//! fixed-offset instant, and the urgency status derived from the time
//! left until the deadline.

use vstd::prelude::*;

verus! {

/// Magnitude bound, in seconds from the Unix epoch, on every instant the
/// calendar library can represent (its date range spans roughly 262,000
/// years either side of the common era, below 2^43 seconds).
pub const TS_SECS_LIMIT: i64 = 8_796_093_022_208;

/// Exclusive bound on the magnitude of a UTC offset in seconds (one day).
pub const OFFSET_SECS_LIMIT: i32 = 86_400;

pub const SECS_PER_MINUTE: i64 = 60;

pub const SECS_PER_HOUR: i64 = 3_600;

pub const SECS_PER_DAY: i64 = 86_400;

/// A deadline closer than this many days makes an incomplete task urgent.
pub const DAYS_LEFT: i64 = 2;

/// An instant with a fixed UTC offset: seconds since the Unix epoch
/// together with the local offset in seconds.
#[derive(Clone, Copy, Debug, PartialEq, Eq, Structural)]
pub struct Timestamp {
    pub secs: i64,
    pub offset_secs: i32,
}

impl Timestamp {
    /// The instant is one the calendar library can represent and the
    /// offset is a valid fixed UTC offset.
    pub open spec fn wf(self) -> bool {
        &&& -TS_SECS_LIMIT <= self.secs <= TS_SECS_LIMIT
        &&& -OFFSET_SECS_LIMIT < self.offset_secs < OFFSET_SECS_LIMIT
    }
}

/// Derived task urgency; never stored.
#[derive(Clone, Copy, Debug, PartialEq, Eq, Structural)]
pub enum TaskStatus {
    Panic,
    Normal,
    Zen,
}

/// A single task.
#[derive(Debug, PartialEq)]
pub struct Task {
    pub name: String,
    pub description: String,
    pub subject: String,
    pub time: Option<Timestamp>,
    pub complete: bool,
    pub starred: bool,
}

/// The mathematical value of a task: every field, with strings as
/// character sequences.
pub ghost struct TaskV {
    pub name: Seq<char>,
    pub description: Seq<char>,
    pub subject: Seq<char>,
    pub time: Option<Timestamp>,
    pub complete: bool,
    pub starred: bool,
}

impl TaskV {
    pub open spec fn wf(self) -> bool {
        self.time is Some ==> self.time->0.wf()
    }
}

/// The values of a sequence of tasks.
pub open spec fn views_of(s: Seq<Task>) -> Seq<TaskV> {
    s.map_values(|t: Task| t@)
}

/// Every deadline in a task sequence is a representable instant.
pub open spec fn tasks_wf_seq(s: Seq<TaskV>) -> bool {
    forall|k: int| 0 <= k < s.len() ==> (#[trigger] s[k]).wf()
}

impl View for Task {
    type V = TaskV;

    open spec fn view(&self) -> TaskV {
        TaskV {
            name: self.name@,
            description: self.description@,
            subject: self.subject@,
            time: self.time,
            complete: self.complete,
            starred: self.starred,
        }
    }
}

impl Clone for Task {
    fn clone(&self) -> (r: Self)
        ensures
            r@ == self@,
    {
        Task {
            name: self.name.clone(),
            description: self.description.clone(),
            subject: self.subject.clone(),
            time: self.time,
            complete: self.complete,
            starred: self.starred,
        }
    }
}

/// Truncating division (the rounding Rust's `/` performs on integers),
/// for a positive divisor.
pub open spec fn div_trunc(a: int, b: int) -> int
    recommends
        b > 0,
{
    if a >= 0 {
        a / b
    } else {
        -((-a) / b)
    }
}

/// Truncating division of a signed quantity by a positive unit.  The
/// quotient times the unit never exceeds the dividend in magnitude.
pub fn div_trunc_i64(a: i64, b: i64) -> (r: i64)
    requires
        0 < b,
        i64::MIN < a,
    ensures
        r == div_trunc(a as int, b as int),
        a >= 0 ==> 0 <= r && r * b <= a,
        a < 0 ==> r <= 0 && a <= r * b,
{
    if a >= 0 {
        let q: u64 = (a as u64) / (b as u64);
        assert(a as u64 / b as u64 <= a as u64 && (a as u64 / b as u64) * (b as u64) <= a as u64)
            by (nonlinear_arith)
            requires 0 <= a, 0 < b,
        ;
        q as i64
    } else {
        let m: u64 = ((-a) as u64) / (b as u64);
        assert((-a) as u64 / b as u64 <= (-a) as u64 && ((-a) as u64 / b as u64) * (b as u64) <= (
        -a) as u64) by (nonlinear_arith)
            requires a < 0, i64::MIN < a, 0 < b,
        ;
        let r = -(m as i64);
        proof {
            assert((r as int) * (b as int) == -((m as int) * (b as int))) by (nonlinear_arith)
                requires r as int == -(m as int),
            ;
        }
        r
    }
}

/// The remaining duration in seconds: deadline minus the given instant,
/// or nothing when the task has no deadline.
pub open spec fn spec_delta(time: Option<Timestamp>, target: Timestamp) -> Option<i64> {
    match time {
        Some(t) => Some((t.secs - target.secs) as i64),
        None => None,
    }
}

/// The urgency rule: no deadline gives Zen when complete and Normal
/// otherwise; with a deadline, an incomplete task whose remaining time is
/// under the threshold is in Panic, a complete task is Zen, and the rest
/// are Normal.
pub open spec fn spec_status(complete: bool, duration: Option<i64>) -> TaskStatus {
    match duration {
        None => if complete {
            TaskStatus::Zen
        } else {
            TaskStatus::Normal
        },
        Some(d) => if div_trunc(d as int, SECS_PER_DAY as int) < DAYS_LEFT && !complete {
            TaskStatus::Panic
        } else if complete {
            TaskStatus::Zen
        } else {
            TaskStatus::Normal
        },
    }
}

pub open spec fn default_name() -> Seq<char> {
    "[Name]"@
}

pub open spec fn default_description() -> Seq<char> {
    "Description_goes_here"@
}

pub open spec fn default_subject() -> Seq<char> {
    "[Subject]"@
}

/// A task equal to a freshly constructed default task in every field but
/// the timestamp.
pub open spec fn is_default_spec(t: TaskV) -> bool {
    &&& t.name == default_name()
    &&& t.description == default_description()
    &&& t.subject == default_subject()
    &&& !t.complete
    &&& !t.starred
}

/// Relies on `chrono::Local::now` for the current moment, read as a
/// fixed-offset instant.  The bounds hold because `chrono` only produces
/// dates within about 262,000 years of the common era and fixed offsets
/// strictly within one day of UTC.
#[verifier::external_body]
pub fn now_timestamp() -> (r: Timestamp)
    ensures
        r.wf(),
{
    let now = chrono::Local::now().fixed_offset();
    Timestamp { secs: now.timestamp(), offset_secs: now.offset().local_minus_utc() }
}

impl Default for Task {
    /// The template used by "add blank task": placeholder texts, a
    /// deadline of this moment, not complete, not starred.
    fn default() -> (r: Self)
        ensures
            is_default_spec(r@),
            r@.time is Some,
            r@.wf(),
    {
        Task {
            name: String::from_str("[Name]"),
            description: String::from_str("Description_goes_here"),
            subject: String::from_str("[Subject]"),
            time: Some(now_timestamp()),
            complete: false,
            starred: false,
        }
    }
}

impl Task {
    pub open spec fn wf(self) -> bool {
        self@.wf()
    }

    /// Remaining seconds until the deadline, measured from `target`.
    pub fn get_delta(&self, target: &Timestamp) -> (r: Option<i64>)
        requires
            self.wf(),
            target.wf(),
        ensures
            r == spec_delta(self@.time, *target),
    {
        match self.time {
            Some(t) => Some(t.secs - target.secs),
            None => None,
        }
    }

    /// Remaining seconds until the deadline, measured from the current
    /// moment; present exactly when the task has a deadline.
    pub fn get_delta_now(&self) -> (r: Option<i64>)
        requires
            self.wf(),
        ensures
            r is Some <==> self@.time is Some,
            r is Some ==> i64::MIN < r->0 < i64::MAX,
    {
        let now = now_timestamp();
        let r = self.get_delta(&now);
        r
    }

    /// The urgency status for a given remaining duration.
    pub fn get_status(&self, duration: &Option<i64>) -> (r: TaskStatus)
        requires
            duration is Some ==> i64::MIN < duration->0,
        ensures
            r == spec_status(self@.complete, *duration),
    {
        match duration {
            None => {
                if self.complete {
                    TaskStatus::Zen
                } else {
                    TaskStatus::Normal
                }
            },
            Some(d) => {
                let days: i64 = div_trunc_i64(*d, SECS_PER_DAY);
                if days < DAYS_LEFT && !self.complete {
                    TaskStatus::Panic
                } else if self.complete {
                    TaskStatus::Zen
                } else {
                    TaskStatus::Normal
                }
            },
        }
    }

    /// The urgency status measured from the current moment.  Whatever the
    /// moment: a complete task is Zen; an incomplete task without a
    /// deadline is Normal; an incomplete task with a deadline is Panic or
    /// Normal.
    pub fn get_status_now(&self) -> (r: TaskStatus)
        requires
            self.wf(),
        ensures
            self@.complete ==> r == TaskStatus::Zen,
            !self@.complete && self@.time is None ==> r == TaskStatus::Normal,
            !self@.complete && self@.time is Some ==> (r == TaskStatus::Panic || r
                == TaskStatus::Normal),
    {
        let duration = self.get_delta_now();
        self.get_status(&duration)
    }

    pub fn name(&self) -> (r: &str)
        ensures
            r@ == self@.name,
    {
        self.name.as_str()
    }

    pub fn subject(&self) -> (r: &str)
        ensures
            r@ == self@.subject,
    {
        self.subject.as_str()
    }

    /// Structurally equal to a freshly constructed default task except
    /// for the timestamp field.
    pub fn is_default(&self) -> (r: bool)
        ensures
            r == is_default_spec(self@),
    {
        let name_eq = self.name == String::from_str("[Name]");
        let description_eq = self.description == String::from_str("Description_goes_here");
        let subject_eq = self.subject == String::from_str("[Subject]");
        name_eq && description_eq && subject_eq && !self.complete && !self.starred
    }
}

/// A complete task is Zen whatever its deadline and whatever the moment;
/// the filter that hides Zen tasks therefore hides exactly the complete
/// ones.
pub proof fn lemma_zen_iff_complete(complete: bool, duration: Option<i64>)
    ensures
        spec_status(complete, duration) == TaskStatus::Zen <==> complete,
{
}

/// An incomplete task without a deadline is Normal whatever the moment.
pub proof fn lemma_no_deadline_incomplete_normal(complete: bool)
    ensures
        !complete ==> spec_status(complete, None) == TaskStatus::Normal,
{
}

/// An incomplete task whose deadline is strictly less than the threshold
/// number of days away (two, including any overdue deadline) is in
/// Panic.
pub proof fn lemma_imminent_incomplete_panic(complete: bool, d: i64)
    requires
        !complete,
        d < DAYS_LEFT * SECS_PER_DAY,
    ensures
        spec_status(complete, Some(d)) == TaskStatus::Panic,
{
    if d >= 0 {
        assert(d as int / (SECS_PER_DAY as int) < DAYS_LEFT) by (nonlinear_arith)
            requires 0 <= d, d < DAYS_LEFT * SECS_PER_DAY,
        ;
    } else {
        assert((-(d as int)) / (SECS_PER_DAY as int) >= 0) by (nonlinear_arith)
            requires d < 0,
        ;
    }
}

} // verus!
