//! The job: the root aggregate of one orchestration run — payload, config,
//! the machine pool and the FIFO queue of not-yet-dispatched task templates.

use vstd::prelude::*;
use std::collections::VecDeque;
use crate::config::Config;
use crate::machine::Machine;
use crate::task::{
    after_expand, instance_of, lemma_expand_conserves, task_multiplicity, total_instances,
    views_of, wf_queue, Task, TaskRange, TaskView,
};
use crate::text;

verus! {

/// The root state aggregate. The queue holds only not-yet-started work:
/// once an instance is dispatched it lives solely inside a machine's slot.
#[derive(Clone, Debug)]
pub struct Job {
    /// Path of the executable payload shipped to every machine.
    pub binary: String,
    /// Paths of auxiliary files shipped alongside the binary.
    pub inputs: Vec<String>,
    pub config: Config,
    /// Live machines; the position in this vector is the pool index the
    /// check queue addresses.
    pub machines: Vec<Machine>,
    /// FIFO queue of pending task templates.
    pub tasks: VecDeque<Task>,
}

impl Job {
    /// The pool size this run aims for: the outstanding instance count,
    /// capped by the configured ceiling.
    pub open spec fn target_machine_count(&self) -> nat {
        let total = total_instances(views_of(self.tasks@));
        if total <= self.config.max_machines {
            total
        } else {
            self.config.max_machines as nat
        }
    }

    /// Computes the target pool size from the queue: the sum over every
    /// template of its multiplicity (range width if present, else one),
    /// capped by `config.max_machines`.
    pub fn max_machines(&self) -> (r: usize)
        requires
            wf_queue(views_of(self.tasks@)),
            total_instances(views_of(self.tasks@)) <= usize::MAX,
        ensures
            r == self.target_machine_count(),
    {
        let ghost q = views_of(self.tasks@);
        let n = self.tasks.len();
        let mut max_tasks: usize = 0;
        let mut i: usize = 0;
        proof {
            assert(q.skip(0) =~= q);
        }
        while i < n
            invariant
                i <= n,
                n == self.tasks@.len(),
                wf_queue(q),
                q == views_of(self.tasks@),
                total_instances(q) <= usize::MAX,
                max_tasks + total_instances(q.skip(i as int)) == total_instances(q),
            decreases n - i,
        {
            let ghost tail = q.skip(i as int);
            proof {
                assert(tail[0] == q[i as int]);
                assert(tail.skip(1) =~= q.skip(i + 1));
            }
            let width = match &self.tasks[i].range {
                Some(range) => {
                    proof {
                        assert(q[i as int] == self.tasks@[i as int]@);
                        assert(task_multiplicity(q[i as int]) == range.end - range.start);
                    }
                    range.end - range.start
                },
                None => 1,
            };
            max_tasks += width;
            i += 1;
        }
        proof {
            assert(q.skip(n as int) =~= Seq::<TaskView>::empty());
            assert(total_instances(q.skip(n as int)) == 0);
        }
        if max_tasks < self.config.max_machines {
            max_tasks
        } else {
            self.config.max_machines
        }
    }

    /// The earliest probe time over the pool.
    pub open spec fn min_next_check(ms: Seq<Machine>) -> int
        recommends
            ms.len() > 0,
        decreases ms.len(),
    {
        if ms.len() <= 1 {
            ms[0].next_check as int
        } else {
            let rest = Self::min_next_check(ms.skip(1));
            if ms[0].next_check <= rest {
                ms[0].next_check as int
            } else {
                rest
            }
        }
    }

    fn min_next_check_from(machines: &Vec<Machine>, i: usize) -> (r: u64)
        requires
            i < machines@.len(),
        ensures
            r == Self::min_next_check(machines@.skip(i as int)),
        decreases machines@.len() - i,
    {
        let ghost tail = machines@.skip(i as int);
        proof {
            assert(tail[0] == machines@[i as int]);
            assert(tail.skip(1) =~= machines@.skip(i + 1));
        }
        if i == machines.len() - 1 {
            machines[i].next_check
        } else {
            let rest = Self::min_next_check_from(machines, i + 1);
            if machines[i].next_check <= rest {
                machines[i].next_check
            } else {
                rest
            }
        }
    }

    /// How long the loop still has to wait, at `now`, until the earliest
    /// machine probe is due: the time left if the earliest probe lies in
    /// the future, nothing if it is already due.
    pub fn next_check(&self, now: u64) -> (r: Option<u64>)
        requires
            self.machines@.len() > 0,
        ensures
            r == if Self::min_next_check(self.machines@) >= now {
                Some((Self::min_next_check(self.machines@) - now) as u64)
            } else {
                None::<u64>
            },
    {
        let next_check = Self::min_next_check_from(&self.machines, 0);
        proof {
            assert(self.machines@.skip(0) =~= self.machines@);
        }
        if next_check >= now {
            Some(next_check - now)
        } else {
            None
        }
    }

    /// One expansion step on the queue (`expand_next`). Pops the head; a
    /// task without a range is returned unchanged, while a template yields
    /// the concrete instance for its current start index and, if more than
    /// one index is left, re-enqueues its residual at the tail.
    pub fn next_task(tasks: &mut VecDeque<Task>) -> (r: Option<Task>)
        requires
            wf_queue(views_of(old(tasks)@)),
        ensures
            match r {
                None => old(tasks)@.len() == 0 && final(tasks)@ == old(tasks)@,
                Some(inst) => {
                    &&& old(tasks)@.len() > 0
                    &&& inst@ == instance_of(views_of(old(tasks)@)[0])
                    &&& views_of(final(tasks)@) == after_expand(views_of(old(tasks)@))
                    &&& wf_queue(views_of(final(tasks)@))
                },
            },
    {
        let ghost q0 = views_of(old(tasks)@);
        let mut task = match tasks.pop_front() {
            None => {
                return None;
            },
            Some(task) => task,
        };
        proof {
            assert(q0[0] == old(tasks)@[0]@);
        }
        if let Some(range) = task.range {
            if range.end - range.start > 1 {
                let residual = Task {
                    name: task.name.clone(),
                    cmd: task.cmd.clone(),
                    range: Some(TaskRange { start: range.start + 1, end: range.end }),
                };
                tasks.push_back(residual);
            }
            let index = text::decimal_string(range.start as u64);
            let name = text::replace_placeholder(task.name.as_str(), index.as_str());
            let cmd = text::replace_placeholder(task.cmd.as_str(), index.as_str());
            task = Task { name, cmd, range: None };
        }
        proof {
            assert(views_of(final(tasks)@) =~= after_expand(q0));
            lemma_expand_conserves(q0);
        }
        Some(task)
    }
}

/// Pool sizing bound: for any mix of ranged and plain templates, the target
/// machine count never exceeds the configured ceiling and never exceeds the
/// total outstanding instance count.
pub proof fn lemma_pool_sizing_bound(job: &Job)
    ensures
        job.target_machine_count() <= job.config.max_machines,
        job.target_machine_count() <= total_instances(views_of(job.tasks@)),
{
}

} // verus!
