//! The machine model: one provisioned remote node, its identity and its
//! fixed array of task slots, plus the pure bookkeeping of its lifecycle.

use vstd::prelude::*;
use vstd::string::*;
use crate::config::Config;
use crate::task::Task;
use crate::text::{after_field, field_bounds, head_field, skip_spaces};

verus! {

/// Why a provisioning reply could not be accepted.
#[derive(Clone, Copy, PartialEq, Eq, Structural, Debug)]
pub enum ProvisionReplyError {
    /// The reply holds no field at all.
    MissingId,
    /// The reply holds an id but no address.
    MissingIp,
}

/// The compute half of machine creation: the provisioning collaborator
/// replies with the machine's id and public address as the first two
/// whitespace-separated fields, and this extracts them. A reply without two
/// fields is malformed and names the first field it lacks.
pub fn parse_provision_reply(s: &str) -> (r: Result<(String, String), ProvisionReplyError>)
    ensures
        ({
            let id = head_field(skip_spaces(s@));
            let rest = after_field(skip_spaces(s@));
            let ip = head_field(skip_spaces(rest));
            match r {
                Ok(fields) => id.len() > 0 && ip.len() > 0 && fields.0@ == id && fields.1@ == ip,
                Err(e) => match e {
                    ProvisionReplyError::MissingId => id.len() == 0,
                    ProvisionReplyError::MissingIp => id.len() > 0 && ip.len() == 0,
                },
            }
        }),
{
    let n = s.unicode_len();
    proof {
        assert(s@.skip(0) =~= s@);
    }
    let (a1, b1) = field_bounds(s, 0, n);
    if a1 == b1 {
        return Err(ProvisionReplyError::MissingId);
    }
    let (a2, b2) = field_bounds(s, b1, n);
    if a2 == b2 {
        return Err(ProvisionReplyError::MissingIp);
    }
    let id = s.substring_char(a1, b1).to_owned();
    let ip = s.substring_char(a2, b2).to_owned();
    Ok((id, ip))
}

/// One provisioned node. `tasks` is the fixed array of slots, each holding
/// at most one in-flight task instance; `next_check` is the next time (in
/// seconds) this machine is eligible for a status probe.
#[derive(Clone, Debug)]
pub struct Machine {
    pub name: String,
    pub id: String,
    pub ip: String,
    pub tasks: Vec<Option<Task>>,
    pub next_check: u64,
}

impl Machine {
    /// No slot holds a task. This is how a machine looks both before its
    /// one-time bootstrap and when it is ready to be destroyed.
    pub open spec fn drained(&self) -> bool {
        forall|i: int| 0 <= i < self.tasks@.len() ==> self.tasks@[i] is None
    }

    /// A freshly provisioned node: the identity reported by the
    /// provisioning collaborator and `slots` empty task slots.
    pub fn provisioned(name: String, id: String, ip: String, slots: usize, next_check: u64) -> (m: Machine)
        ensures
            m.name == name,
            m.id == id,
            m.ip == ip,
            m.tasks@.len() == slots,
            m.drained(),
            m.next_check == next_check,
    {
        let mut tasks: Vec<Option<Task>> = Vec::new();
        let mut i: usize = 0;
        while i < slots
            invariant
                i <= slots,
                tasks@.len() == i,
                forall|j: int| 0 <= j < i ==> tasks@[j] is None,
            decreases slots - i,
        {
            tasks.push(None);
            i += 1;
        }
        Machine { name, id, ip, tasks, next_check }
    }

    /// Whether a machine whose probe time is `*next_check` is due at `now`;
    /// a due machine has its probe time pushed one interval ahead.
    pub fn next_check(next_check: &mut u64, config: &Config, now: u64) -> (due: bool)
        requires
            now + config.check_interval <= u64::MAX,
        ensures
            due == (*old(next_check) <= now),
            *final(next_check) == if *old(next_check) <= now {
                now + config.check_interval
            } else {
                *old(next_check) as int
            },
    {
        if *next_check <= now {
            *next_check = now + config.check_interval;
            true
        } else {
            false
        }
    }

    /// Whether every slot is empty.
    pub fn all_slots_empty(&self) -> (r: bool)
        ensures
            r == self.drained(),
    {
        let mut i: usize = 0;
        let n = self.tasks.len();
        while i < n
            invariant
                i <= n,
                n == self.tasks@.len(),
                forall|j: int| 0 <= j < i ==> self.tasks@[j] is None,
            decreases n - i,
        {
            if self.tasks[i].is_some() {
                return false;
            }
            i += 1;
        }
        true
    }

    /// Whether the slot holds a task.
    pub fn slot_occupied(&self, slot: usize) -> (r: bool)
        requires
            slot < self.tasks@.len(),
        ensures
            r == (self.tasks@[slot as int] is Some),
    {
        self.tasks[slot].is_some()
    }

    /// Places a dispatched instance into a free slot. A slot never holds
    /// two tasks: dispatching into an occupied slot is ruled out here.
    pub fn assign_slot(&mut self, slot: usize, t: Task)
        requires
            slot < old(self).tasks@.len(),
            old(self).tasks@[slot as int] is None,
        ensures
            final(self).tasks@ == old(self).tasks@.update(slot as int, Some(t)),
            final(self).name == old(self).name,
            final(self).id == old(self).id,
            final(self).ip == old(self).ip,
            final(self).next_check == old(self).next_check,
    {
        self.tasks.set(slot, Some(t));
    }

    /// Empties a slot whose task has finished and had its results fetched.
    pub fn clear_slot(&mut self, slot: usize)
        requires
            slot < old(self).tasks@.len(),
            old(self).tasks@[slot as int] is Some,
        ensures
            final(self).tasks@ == old(self).tasks@.update(slot as int, None),
            final(self).name == old(self).name,
            final(self).id == old(self).id,
            final(self).ip == old(self).ip,
            final(self).next_check == old(self).next_check,
    {
        self.tasks.set(slot, None);
    }
}

} // verus!
