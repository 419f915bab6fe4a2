//! Bookkeeping of the scheduling loop: the time-ordered check queue of
//! `(machine, slot)` probes, its seeding, the renumbering performed when a
//! machine leaves the pool by swap-removal, and the decisions the loop
//! takes between its remote interactions.

use vstd::prelude::*;
use std::collections::VecDeque;
use vstd::arithmetic::div_mod::lemma_fundamental_div_mod_converse;
use crate::config::Config;
use crate::job::Job;
use crate::task::{after_expand, lemma_expand_conserves, total_instances, views_of, wf_queue, Task, TaskView};
use crate::text;

verus! {

/// One pending probe: at `deadline` (seconds), the slot `slot` of the
/// machine at pool index `machine` is due for a status check.
#[derive(Clone, Copy, PartialEq, Eq, Structural, Debug)]
pub struct CheckEntry {
    pub deadline: u64,
    pub machine: usize,
    pub slot: usize,
}

/// Seeds the check queue at the start of the event loop: one entry per
/// machine and slot, all due at `now`, machine-major in pool order.
pub fn seed_checks(machine_count: usize, slots_per_machine: usize, now: u64) -> (r: VecDeque<
    CheckEntry,
>)
    requires
        machine_count * slots_per_machine <= usize::MAX,
    ensures
        r@.len() == machine_count * slots_per_machine,
        forall|k: int|
            0 <= k < r@.len() ==> #[trigger] r@[k] == (CheckEntry {
                deadline: now,
                machine: (k / slots_per_machine as int) as usize,
                slot: (k % slots_per_machine as int) as usize,
            }),
{
    let mut r: VecDeque<CheckEntry> = VecDeque::new();
    let mut m: usize = 0;
    while m < machine_count
        invariant
            m <= machine_count,
            machine_count * slots_per_machine <= usize::MAX,
            r@.len() == m * slots_per_machine,
            forall|k: int|
                0 <= k < r@.len() ==> #[trigger] r@[k] == (CheckEntry {
                    deadline: now,
                    machine: (k / slots_per_machine as int) as usize,
                    slot: (k % slots_per_machine as int) as usize,
                }),
        decreases machine_count - m,
    {
        let mut s: usize = 0;
        proof {
            assert((m + 1) * slots_per_machine <= machine_count * slots_per_machine) by (nonlinear_arith)
                requires
                    m < machine_count,
                    slots_per_machine >= 0,
            ;
            assert(m * slots_per_machine + slots_per_machine == (m + 1) * slots_per_machine)
                by (nonlinear_arith);
        }
        while s < slots_per_machine
            invariant
                m < machine_count,
                s <= slots_per_machine,
                m * slots_per_machine + slots_per_machine <= machine_count * slots_per_machine
                    <= usize::MAX,
                r@.len() == m * slots_per_machine + s,
                forall|k: int|
                    0 <= k < r@.len() ==> #[trigger] r@[k] == (CheckEntry {
                        deadline: now,
                        machine: (k / slots_per_machine as int) as usize,
                        slot: (k % slots_per_machine as int) as usize,
                    }),
            decreases slots_per_machine - s,
    {
            r.push_back(CheckEntry { deadline: now, machine: m, slot: s });
            proof {
                lemma_fundamental_div_mod_converse(
                    m * slots_per_machine + s,
                    slots_per_machine as int,
                    m as int,
                    s as int,
                );
            }
            s += 1;
        }
        m += 1;
    }
    r
}

/// An entry as it reads after the machine at pool index `last` has been
/// swapped into the freed index: entries addressing `last` follow their
/// machine to `freed`; all others are untouched.
pub open spec fn renumbered_entry(e: CheckEntry, freed: usize, last: usize) -> CheckEntry {
    if e.machine == last {
        CheckEntry { machine: freed, ..e }
    } else {
        e
    }
}

/// The check queue after the machine at pool index `removed` leaves the
/// pool by swap-removal with the machine at index `last`: its own entries
/// drop out, entries addressing `last` are renumbered to `removed`, and
/// everything else — including the relative order — is untouched.
pub open spec fn pruned(q: Seq<CheckEntry>, removed: usize, last: usize) -> Seq<CheckEntry>
    decreases q.len(),
{
    if q.len() == 0 {
        Seq::empty()
    } else if q[0].machine == removed {
        pruned(q.skip(1), removed, last)
    } else {
        seq![renumbered_entry(q[0], removed, last)] + pruned(q.skip(1), removed, last)
    }
}

/// Rewrites the check queue for the swap-removal of the machine at pool
/// index `removed`, `last` being the pool's current last index.
pub fn prune_checks(todo: &mut VecDeque<CheckEntry>, removed: usize, last: usize)
    ensures
        final(todo)@ == pruned(old(todo)@, removed, last),
{
    let ghost q = todo@;
    let n = todo.len();
    let mut out: VecDeque<CheckEntry> = VecDeque::new();
    let mut i: usize = 0;
    proof {
        assert(q.skip(0) =~= q);
        assert(out@ + pruned(q, removed, last) =~= pruned(q, removed, last));
    }
    while i < n
        invariant
            i <= n,
            n == todo@.len(),
            q == todo@,
            pruned(q, removed, last) == out@ + pruned(q.skip(i as int), removed, last),
        decreases n - i,
    {
        let ghost tail = q.skip(i as int);
        proof {
            assert(tail[0] == q[i as int]);
            assert(tail.skip(1) =~= q.skip(i + 1));
        }
        let e = todo[i];
        if e.machine != removed {
            let ghost before = out@;
            if e.machine == last {
                out.push_back(CheckEntry { deadline: e.deadline, machine: removed, slot: e.slot });
            } else {
                out.push_back(e);
            }
            proof {
                assert(out@ =~= before + seq![renumbered_entry(e, removed, last)]);
                assert(before + (seq![renumbered_entry(e, removed, last)] + pruned(
                    q.skip(i + 1),
                    removed,
                    last,
                )) =~= out@ + pruned(q.skip(i + 1), removed, last));
            }
        }
        i += 1;
    }
    proof {
        assert(q.skip(n as int) =~= Seq::<CheckEntry>::empty());
    }
    *todo = out;
}

/// Whether the machine at pool index `idx` may be destroyed: only when the
/// shared task queue is empty (no replacement work can arrive) and every
/// one of its slots is empty (nothing is still running there).
pub fn can_destroy(job: &Job, idx: usize) -> (r: bool)
    requires
        idx < job.machines@.len(),
    ensures
        r == (job.tasks@.len() == 0 && job.machines@[idx as int].drained()),
{
    job.tasks.len() == 0 && job.machines[idx].all_slots_empty()
}

/// Removes the machine at pool index `idx` from the pool by swap-removal
/// and renumbers the check queue to match, after the remote teardown has
/// succeeded. Destruction safety: this demands an empty task queue and a
/// fully drained machine — a machine is never torn down while a slot holds
/// a task or while work could still be dispatched to it.
pub fn remove_machine(job: &mut Job, todo: &mut VecDeque<CheckEntry>, idx: usize)
    requires
        idx < old(job).machines@.len(),
        old(job).machines@[idx as int].drained(),
        old(job).tasks@.len() == 0,
    ensures
        final(job).machines@ == old(job).machines@.update(
            idx as int,
            old(job).machines@.last(),
        ).drop_last(),
        final(todo)@ == pruned(old(todo)@, idx, (old(job).machines@.len() - 1) as usize),
        final(job).binary == old(job).binary,
        final(job).inputs == old(job).inputs,
        final(job).config == old(job).config,
        final(job).tasks == old(job).tasks,
{
    let last = job.machines.len() - 1;
    prune_checks(todo, idx, last);
    job.machines.swap_remove(idx);
}

/// Whether the provisioning phase still owes the pool a machine: the pool
/// is below the target computed from the outstanding task volume.
pub fn needs_more_machines(job: &Job) -> (r: bool)
    requires
        wf_queue(views_of(job.tasks@)),
        total_instances(views_of(job.tasks@)) <= usize::MAX,
    ensures
        r == (job.machines@.len() < job.target_machine_count()),
{
    job.machines.len() < job.max_machines()
}

/// The name for the machine at pool index `idx`: the configured prefix, a
/// dash, and the index in decimal.
pub fn machine_name(config: &Config, idx: usize) -> (r: String)
    ensures
        r@ == config.name@ + seq!['-'] + text::decimal_spec(idx as nat),
{
    let mut r = config.name.clone();
    r.append("-");
    let index = text::decimal_string(idx as u64);
    r.append(index.as_str());
    proof {
        reveal_strlit("-");
        assert("-"@ =~= seq!['-']);
    }
    r
}

/// Re-enqueues the probe for a slot whose task was just dispatched or is
/// still running: due again one check interval from now.
pub fn reschedule(todo: &mut VecDeque<CheckEntry>, now: u64, config: &Config, machine: usize, slot: usize)
    requires
        now + config.check_interval <= u64::MAX,
    ensures
        final(todo)@ == old(todo)@.push(
            CheckEntry { deadline: (now + config.check_interval) as u64, machine, slot },
        ),
{
    todo.push_back(CheckEntry { deadline: now + config.check_interval, machine, slot });
}

/// Whether results are to be fetched after a probe: always on completion,
/// and on every probe when partial fetching is configured.
pub fn should_fetch(finished: bool, config: &Config) -> (r: bool)
    ensures
        r == (finished || config.fetch_partial_results),
{
    finished || config.fetch_partial_results
}

/// How many slots hold a task.
pub open spec fn occupied_count(slots: Seq<Option<Task>>) -> nat
    decreases slots.len(),
{
    if slots.len() == 0 {
        0
    } else {
        (if slots[0] is Some {
            1nat
        } else {
            0nat
        }) + occupied_count(slots.skip(1))
    }
}

proof fn lemma_occupied_update(slots: Seq<Option<Task>>, i: int, v: Option<Task>)
    requires
        0 <= i < slots.len(),
    ensures
        occupied_count(slots.update(i, v)) + (if slots[i] is Some {
            1nat
        } else {
            0nat
        }) == occupied_count(slots) + (if v is Some {
            1nat
        } else {
            0nat
        }),
    decreases slots.len(),
{
    let u = slots.update(i, v);
    assert(u.len() == slots.len());
    if i == 0 {
        assert(u[0] == v);
        assert(u.skip(1) =~= slots.skip(1));
    } else {
        assert(u[0] == slots[0]);
        assert(u.skip(1) =~= slots.skip(1).update(i - 1, v));
        lemma_occupied_update(slots.skip(1), i - 1, v);
    }
}

/// Slot exclusivity: a dispatch takes exactly one instance out of the queue
/// and puts it into one previously empty slot. The outstanding queue count
/// drops by one while the occupied-slot count rises by one — together they
/// are conserved — and no slot other than the target changes, so no
/// instance is ever held by the pending queue and a slot at the same time,
/// and no slot ever ends up holding more than one.
pub proof fn lemma_dispatch_exclusivity(
    q: Seq<TaskView>,
    slots: Seq<Option<Task>>,
    slot: int,
    t: Task,
)
    requires
        wf_queue(q),
        q.len() > 0,
        0 <= slot < slots.len(),
        slots[slot] is None,
    ensures
        total_instances(after_expand(q)) + occupied_count(slots.update(slot, Some(t)))
            == total_instances(q) + occupied_count(slots),
        occupied_count(slots.update(slot, Some(t))) == occupied_count(slots) + 1,
        forall|j: int|
            0 <= j < slots.len() && j != slot ==> slots.update(slot, Some(t))[j] == slots[j],
{
    lemma_expand_conserves(q);
    lemma_occupied_update(slots, slot, Some(t));
}

/// The retirement counterpart: clearing the one slot whose task finished
/// frees exactly that slot and leaves the pending queue untouched.
pub proof fn lemma_finish_frees_slot(slots: Seq<Option<Task>>, slot: int)
    requires
        0 <= slot < slots.len(),
        slots[slot] is Some,
    ensures
        occupied_count(slots.update(slot, None)) + 1 == occupied_count(slots),
        forall|j: int|
            0 <= j < slots.len() && j != slot ==> slots.update(slot, None)[j] == slots[j],
{
    lemma_occupied_update(slots, slot, None);
}

} // verus!
