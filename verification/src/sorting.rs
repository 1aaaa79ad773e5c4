//! The display order of tasks: incomplete before complete, deadlined
//! before non-deadlined within a completion group, earlier deadlines
//! first among the deadlined.  The sort is a stable insertion sort with
//! a functional specification.

use vstd::prelude::*;
use crate::task::Task;
use crate::task::TaskV;
use crate::task::views_of;

verus! {

/// The display preorder on tasks.
pub open spec fn task_le(a: TaskV, b: TaskV) -> bool {
    if a.complete != b.complete {
        !a.complete
    } else if (a.time is Some) != (b.time is Some) {
        a.time is Some
    } else if a.time is Some {
        a.time->0.secs <= b.time->0.secs
    } else {
        true
    }
}

pub open spec fn sorted_tasks(s: Seq<TaskV>) -> bool {
    forall|i: int, j: int| 0 <= i < j < s.len() ==> task_le(s[i], s[j])
}

/// Inserts a task into an already ordered sequence, after every task
/// that compares no greater; equal tasks therefore keep their relative
/// order, which makes the sort stable.
pub open spec fn insert_sorted(x: TaskV, s: Seq<TaskV>) -> Seq<TaskV>
    decreases s.len(),
{
    if s.len() == 0 {
        seq![x]
    } else if task_le(s[0], x) {
        seq![s[0]] + insert_sorted(x, s.drop_first())
    } else {
        seq![x] + s
    }
}

/// The stable insertion sort of a task sequence.
pub open spec fn sort_spec(s: Seq<TaskV>) -> Seq<TaskV>
    decreases s.len(),
{
    if s.len() == 0 {
        Seq::empty()
    } else {
        insert_sorted(s.last(), sort_spec(s.drop_last()))
    }
}

/// The display order can always compare two tasks one way or the other.
pub proof fn lemma_task_le_total(a: TaskV, b: TaskV)
    ensures
        task_le(a, b) || task_le(b, a),
{
}

pub proof fn lemma_task_le_trans(a: TaskV, b: TaskV, c: TaskV)
    requires
        task_le(a, b),
        task_le(b, c),
    ensures
        task_le(a, c),
{
}

pub proof fn lemma_insert_sorted(x: TaskV, s: Seq<TaskV>)
    requires
        sorted_tasks(s),
    ensures
        sorted_tasks(insert_sorted(x, s)),
        insert_sorted(x, s).to_multiset() == s.to_multiset().insert(x),
        insert_sorted(x, s).len() == s.len() + 1,
        forall|k: int|
            0 <= k < insert_sorted(x, s).len() ==> (#[trigger] insert_sorted(x, s)[k] == x
                || s.contains(insert_sorted(x, s)[k])),
    decreases s.len(),
{
    broadcast use vstd::seq_lib::group_to_multiset_ensures;

    let r = insert_sorted(x, s);
    if s.len() == 0 {
        assert(seq![x] =~= Seq::<TaskV>::empty().push(x));
        assert(r.to_multiset() =~= s.to_multiset().insert(x));
    } else if task_le(s[0], x) {
        let rest = s.drop_first();
        assert forall|i: int, j: int| 0 <= i < j < rest.len() implies task_le(
            rest[i],
            rest[j],
        ) by {
            assert(rest[i] == s[i + 1] && rest[j] == s[j + 1]);
        }
        lemma_insert_sorted(x, rest);
        let r2 = insert_sorted(x, rest);
        assert(r =~= seq![s[0]] + r2);
        // the head is no greater than anything that follows it
        assert forall|k: int| 0 <= k < r2.len() implies task_le(s[0], r2[k]) by {
            if r2[k] == x {
            } else {
                assert(rest.contains(r2[k]));
                let m = choose|m: int| 0 <= m < rest.len() && rest[m] == r2[k];
                assert(s[m + 1] == r2[k]);
            }
        }
        assert forall|i: int, j: int| 0 <= i < j < r.len() implies task_le(r[i], r[j]) by {
            if i == 0 {
                assert(r[j] == r2[j - 1]);
            } else {
                assert(r[i] == r2[i - 1] && r[j] == r2[j - 1]);
            }
        }
        // multiset: cons commutes with insert
        assert(r.to_multiset() =~= seq![s[0]].to_multiset().add(r2.to_multiset())) by {
            vstd::seq_lib::lemma_multiset_commutative(seq![s[0]], r2);
        }
        assert(s.to_multiset() =~= seq![s[0]].to_multiset().add(rest.to_multiset())) by {
            assert(s =~= seq![s[0]] + rest);
            vstd::seq_lib::lemma_multiset_commutative(seq![s[0]], rest);
        }
        assert(r.to_multiset() =~= s.to_multiset().insert(x));
        assert forall|k: int| 0 <= k < r.len() implies (#[trigger] r[k] == x || s.contains(
            r[k],
        )) by {
            if k == 0 {
                assert(r[k] == s[0]);
            } else {
                assert(r[k] == r2[k - 1]);
                if r2[k - 1] != x {
                    assert(rest.contains(r2[k - 1]));
                    let m = choose|m: int| 0 <= m < rest.len() && rest[m] == r2[k - 1];
                    assert(s[m + 1] == r2[k - 1]);
                }
            }
        }
    } else {
        lemma_task_le_total(s[0], x);
        assert(task_le(x, s[0]));
        assert(r =~= seq![x] + s);
        assert forall|i: int, j: int| 0 <= i < j < r.len() implies task_le(r[i], r[j]) by {
            if i == 0 {
                assert(r[j] == s[j - 1]);
                if j > 1 {
                    lemma_task_le_trans(x, s[0], s[j - 1]);
                }
            } else {
                assert(r[i] == s[i - 1] && r[j] == s[j - 1]);
            }
        }
        assert(r.to_multiset() =~= seq![x].to_multiset().add(s.to_multiset())) by {
            vstd::seq_lib::lemma_multiset_commutative(seq![x], s);
        }
        assert(seq![x] =~= Seq::<TaskV>::empty().push(x));
        assert(r.to_multiset() =~= s.to_multiset().insert(x));
    }
}

/// The sorted sequence is ordered and holds exactly the same tasks.
pub proof fn lemma_sort_spec(s: Seq<TaskV>)
    ensures
        sorted_tasks(sort_spec(s)),
        sort_spec(s).to_multiset() == s.to_multiset(),
        sort_spec(s).len() == s.len(),
    decreases s.len(),
{
    broadcast use vstd::seq_lib::group_to_multiset_ensures;

    if s.len() == 0 {
        assert(sort_spec(s) =~= Seq::<TaskV>::empty());
    } else {
        lemma_sort_spec(s.drop_last());
        lemma_insert_sorted(s.last(), sort_spec(s.drop_last()));
        assert(s =~= s.drop_last().push(s.last()));
        assert(s.to_multiset() =~= s.drop_last().to_multiset().insert(s.last()));
    }
}

/// After sorting: an incomplete task never follows a complete one;
/// within one completion group a non-deadlined task never precedes a
/// deadlined one; and among deadlined tasks of one completion group the
/// deadlines are non-decreasing.
pub proof fn lemma_sort_order(s: Seq<TaskV>, i: int, j: int)
    requires
        0 <= i < j < sort_spec(s).len(),
    ensures
        sort_spec(s)[i].complete ==> sort_spec(s)[j].complete,
        (sort_spec(s)[i].complete == sort_spec(s)[j].complete && sort_spec(s)[i].time is None)
            ==> sort_spec(s)[j].time is None,
        (sort_spec(s)[i].complete == sort_spec(s)[j].complete && sort_spec(s)[i].time is Some
            && sort_spec(s)[j].time is Some) ==> sort_spec(s)[i].time->0.secs
            <= sort_spec(s)[j].time->0.secs,
{
    lemma_sort_spec(s);
    assert(task_le(sort_spec(s)[i], sort_spec(s)[j]));
}

/// Whether `a` comes no later than `b` in the display order.
pub fn task_le_exec(a: &Task, b: &Task) -> (r: bool)
    ensures
        r == task_le(a@, b@),
{
    if a.complete != b.complete {
        !a.complete
    } else {
        match (&a.time, &b.time) {
            (Some(ta), Some(tb)) => ta.secs <= tb.secs,
            (Some(_), None) => true,
            (None, Some(_)) => false,
            (None, None) => true,
        }
    }
}

/// Where `insert_sorted` puts the new task: right before the first
/// position whose task compares greater.
proof fn lemma_insert_sorted_at(x: TaskV, s: Seq<TaskV>, pos: int)
    requires
        0 <= pos <= s.len(),
        forall|k: int| 0 <= k < pos ==> task_le(#[trigger] s[k], x),
        pos < s.len() ==> !task_le(s[pos], x),
    ensures
        insert_sorted(x, s) == s.insert(pos, x),
    decreases s.len(),
{
    if pos == 0 {
        if s.len() == 0 {
            assert(insert_sorted(x, s) =~= s.insert(0, x));
        } else {
            assert(insert_sorted(x, s) =~= s.insert(0, x));
        }
    } else {
        assert(task_le(s[0], x));
        let rest = s.drop_first();
        assert forall|k: int| 0 <= k < pos - 1 implies task_le(#[trigger] rest[k], x) by {
            assert(rest[k] == s[k + 1]);
        }
        if pos - 1 < rest.len() {
            assert(rest[pos - 1] == s[pos]);
        }
        lemma_insert_sorted_at(x, rest, pos - 1);
        assert(seq![s[0]] + rest.insert(pos - 1, x) =~= s.insert(pos, x));
    }
}

/// Reorders the tasks into the display order; the result is exactly the
/// stable insertion sort of the input.
pub fn sort_tasks(tasks: &mut Vec<Task>)
    ensures
        views_of(final(tasks)@) == sort_spec(views_of(old(tasks)@)),
{
    let mut out: Vec<Task> = Vec::new();
    let mut i: usize = 0;
    proof {
        assert(views_of(tasks@).subrange(0, 0) =~= Seq::<TaskV>::empty());
        assert(sort_spec(Seq::<TaskV>::empty()) =~= Seq::<TaskV>::empty());
    }
    while i < tasks.len()
        invariant
            i <= tasks@.len(),
            views_of(out@) == sort_spec(views_of(tasks@).subrange(0, i as int)),
        decreases tasks@.len() - i,
    {
        let x = tasks[i].clone();
        let mut pos: usize = 0;
        while pos < out.len() && task_le_exec(&out[pos], &x)
            invariant
                pos <= out@.len(),
                x@ == views_of(tasks@)[i as int],
                forall|k: int| 0 <= k < pos ==> task_le(#[trigger] views_of(out@)[k], x@),
            decreases out@.len() - pos,
        {
            pos += 1;
        }
        let ghost old_out = out@;
        out.insert(pos, x);
        proof {
            lemma_insert_sorted_at(x@, views_of(old_out), pos as int);
            assert(views_of(out@) =~= views_of(old_out).insert(pos as int, x@));
            let pre = views_of(tasks@).subrange(0, i as int);
            let cur = views_of(tasks@).subrange(0, i + 1);
            assert(cur.drop_last() =~= pre);
            assert(cur.last() == views_of(tasks@)[i as int]);
        }
        i += 1;
    }
    proof {
        assert(views_of(tasks@).subrange(0, tasks@.len() as int) =~= views_of(tasks@));
    }
    *tasks = out;
}

} // verus!
