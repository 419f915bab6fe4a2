//! The task model: a task is either a concrete unit of work or a template
//! carrying a half-open replication range that expands into one indexed
//! instance per range element.

use vstd::prelude::*;
use crate::text::{decimal_spec, replace_spec};

verus! {

/// Half-open interval `[start, end)` of replication indices a template has
/// still to produce.
#[derive(Clone, Copy, PartialEq, Eq, Structural, Debug)]
pub struct TaskRange {
    pub start: usize,
    pub end: usize,
}

/// One unit of work. With `range` present it is a template to be expanded;
/// with `range` absent it is a concrete instance bound for a machine slot.
#[derive(Clone, Debug)]
pub struct Task {
    pub name: String,
    pub cmd: String,
    pub range: Option<TaskRange>,
}

/// The mathematical content of a task.
pub struct TaskView {
    pub name: Seq<char>,
    pub cmd: Seq<char>,
    pub range: Option<TaskRange>,
}

impl View for Task {
    type V = TaskView;

    open spec fn view(&self) -> TaskView {
        TaskView { name: self.name@, cmd: self.cmd@, range: self.range }
    }
}

/// A well-formed template's range is non-empty; a task without a range is
/// always well formed.
pub open spec fn wf_task(t: TaskView) -> bool {
    match t.range {
        Some(r) => r.start < r.end,
        None => true,
    }
}

/// A template counts once per remaining index; a plain task counts once.
pub open spec fn task_multiplicity(t: TaskView) -> nat {
    match t.range {
        Some(r) => (r.end - r.start) as nat,
        None => 1,
    }
}

/// Every task in the queue is well formed.
pub open spec fn wf_queue(q: Seq<TaskView>) -> bool {
    forall|i: int| 0 <= i < q.len() ==> wf_task(#[trigger] q[i])
}

/// The number of concrete instances the whole queue has yet to produce.
pub open spec fn total_instances(q: Seq<TaskView>) -> nat
    decreases q.len(),
{
    if q.len() == 0 {
        0
    } else {
        task_multiplicity(q[0]) + total_instances(q.skip(1))
    }
}

/// The queue's tasks, as their mathematical views.
pub open spec fn views_of(q: Seq<Task>) -> Seq<TaskView> {
    q.map_values(|t: Task| t@)
}

/// The concrete instance a template yields for index `i`: the placeholder
/// is substituted in name and command and the range tag is cleared.
pub open spec fn instance_at(t: TaskView, i: nat) -> TaskView {
    TaskView {
        name: replace_spec(t.name, decimal_spec(i)),
        cmd: replace_spec(t.cmd, decimal_spec(i)),
        range: None,
    }
}

/// What one expansion step returns for the queue head: a task without a
/// range is returned unchanged; a template yields the instance for its
/// current start index.
pub open spec fn instance_of(t: TaskView) -> TaskView {
    match t.range {
        Some(r) => instance_at(t, r.start as nat),
        None => t,
    }
}

/// The template left over after its head index is consumed: the same text,
/// with `start` moved up by one.
pub open spec fn residual_of(t: TaskView, r: TaskRange) -> TaskView {
    TaskView { name: t.name, cmd: t.cmd, range: Some(TaskRange { start: (r.start + 1) as usize, end: r.end }) }
}

/// The queue after one expansion step on a non-empty queue: the head is
/// consumed; a template with more than one index left re-enqueues its
/// residual at the tail, keeping FIFO fairness between templates.
pub open spec fn after_expand(q: Seq<TaskView>) -> Seq<TaskView> {
    match q[0].range {
        Some(r) => if r.end - r.start > 1 {
            q.skip(1).push(residual_of(q[0], r))
        } else {
            q.skip(1)
        },
        None => q.skip(1),
    }
}

/// `total_instances` sums multiplicities, so appending a task adds its
/// multiplicity.
pub proof fn lemma_total_instances_push(q: Seq<TaskView>, t: TaskView)
    ensures
        total_instances(q.push(t)) == total_instances(q) + task_multiplicity(t),
    decreases q.len(),
{
    if q.len() == 0 {
        assert(q.push(t)[0] == t);
        assert(q.push(t).skip(1) =~= Seq::<TaskView>::empty());
        assert(total_instances(q.push(t).skip(1)) == 0);
    } else {
        assert(q.push(t)[0] == q[0]);
        assert(q.push(t).skip(1) =~= q.skip(1).push(t));
        lemma_total_instances_push(q.skip(1), t);
    }
}

/// One expansion step consumes exactly one instance: nothing is lost and
/// nothing is duplicated between the returned instance and the residue.
pub proof fn lemma_expand_conserves(q: Seq<TaskView>)
    requires
        wf_queue(q),
        q.len() > 0,
    ensures
        total_instances(after_expand(q)) + 1 == total_instances(q),
        wf_queue(after_expand(q)),
{
    assert(wf_task(q[0]));
    match q[0].range {
        Some(r) => {
            if r.end - r.start > 1 {
                lemma_total_instances_push(q.skip(1), residual_of(q[0], r));
                assert(forall|i: int|
                    0 <= i < after_expand(q).len() - 1 ==> after_expand(q)[i] == q.skip(1)[i]);
                assert(wf_task(after_expand(q).last()));
            }
        },
        None => {},
    }
    assert(forall|i: int| 0 <= i < q.skip(1).len() ==> wf_task(#[trigger] q.skip(1)[i]));
}

/// The sequence of concrete instances produced by expanding the queue until
/// it is empty.
pub open spec fn drained(q: Seq<TaskView>) -> Seq<TaskView>
    decreases total_instances(q)
        when wf_queue(q)
        via drained_decreases
{
    if q.len() == 0 {
        Seq::empty()
    } else {
        seq![instance_of(q[0])] + drained(after_expand(q))
    }
}

#[via_fn]
proof fn drained_decreases(q: Seq<TaskView>) {
    if q.len() > 0 {
        lemma_expand_conserves(q);
    }
}

/// Conservation over a whole run, for any mix of ranged and plain
/// templates: expanding a well-formed queue to exhaustion yields exactly as
/// many concrete instances as the queue stood ready to produce — none lost,
/// none duplicated — and every one of them has its range tag consumed.
pub proof fn lemma_drain_complete(q: Seq<TaskView>)
    requires
        wf_queue(q),
    ensures
        drained(q).len() == total_instances(q),
        forall|k: int| 0 <= k < drained(q).len() ==> drained(q)[k].range is None,
    decreases total_instances(q),
{
    if q.len() > 0 {
        lemma_expand_conserves(q);
        lemma_drain_complete(after_expand(q));
        let d = drained(q);
        assert(d == seq![instance_of(q[0])] + drained(after_expand(q)));
        assert(instance_of(q[0]).range is None);
        assert forall|k: int| 0 <= k < d.len() implies d[k].range is None by {
            if k > 0 {
                assert(d[k] == drained(after_expand(q))[k - 1]);
            }
        }
    }
}

/// Idempotent resume, seen from the queue: what the loop still dispatches
/// is a function of the persisted queue alone. A run that has just produced
/// the instance for the queue head and persisted the successor queue
/// continues exactly as a run restarted from that snapshot — both produce
/// `drained` of the successor, so no instance is repeated or lost across a
/// restart.
pub proof fn lemma_resume_dispatches(q: Seq<TaskView>)
    requires
        wf_queue(q),
        q.len() > 0,
    ensures
        drained(q) == seq![instance_of(q[0])] + drained(after_expand(q)),
{
}

/// Expansion conservation and non-duplication: draining a queue that holds
/// one template with range `[s, e)` yields exactly `e - s` instances, and
/// the instance at position `k` carries index `s + k` — every index in the
/// range appears exactly once, in order, with the placeholder substituted
/// and no range tag left.
pub proof fn lemma_expansion_conservation(t: TaskView)
    requires
        t.range is Some,
        wf_task(t),
    ensures
        drained(seq![t]).len() == t.range->Some_0.end - t.range->Some_0.start,
        forall|k: int| 0 <= k < drained(seq![t]).len()
            ==> drained(seq![t])[k] == instance_at(t, (t.range->Some_0.start + k) as nat),
    decreases t.range->Some_0.end - t.range->Some_0.start,
{
    let r = t.range->Some_0;
    let q = seq![t];
    assert(wf_queue(q));
    assert(q.skip(1) =~= Seq::<TaskView>::empty());
    if r.end - r.start > 1 {
        let res = residual_of(t, r);
        assert(after_expand(q) =~= seq![res]);
        lemma_expansion_conservation(res);
        let d = drained(q);
        let dr = drained(seq![res]);
        assert(d == seq![instance_of(t)] + dr);
        assert(d.len() == 1 + dr.len());
        assert forall|k: int| 0 <= k < d.len()
            implies d[k] == instance_at(t, (r.start + k) as nat) by {
            if k == 0 {
                assert(d[0] == instance_of(t));
            } else {
                assert(d[k] == dr[k - 1]);
                assert(dr[k - 1] == instance_at(res, (r.start + 1 + (k - 1)) as nat));
                assert(instance_at(res, (r.start + k) as nat) == instance_at(t, (r.start + k) as nat));
            }
        }
    } else {
        assert(after_expand(q) =~= Seq::<TaskView>::empty());
        let d = drained(q);
        assert(drained(Seq::<TaskView>::empty()) == Seq::<TaskView>::empty());
        assert(d =~= seq![instance_of(t)]);
        assert(d[0] == instance_at(t, r.start as nat));
    }
}

} // verus!
