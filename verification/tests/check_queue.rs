use std::collections::VecDeque;

use fleetjob::config::Config;
use fleetjob::job::Job;
use fleetjob::machine::Machine;
use fleetjob::sched::{
    can_destroy, needs_more_machines, remove_machine, reschedule, seed_checks, should_fetch,
    CheckEntry,
};
use fleetjob::task::{Task, TaskRange};

fn config(max_machines: usize, tasks_per_machine: usize) -> Config {
    Config {
        max_machines,
        tasks_per_machine,
        name: "worker".to_string(),
        image: "img".to_string(),
        size: "s".to_string(),
        region: "r".to_string(),
        ssh_key: "k".to_string(),
        ssh_user: "u".to_string(),
        install_cmd: "true".to_string(),
        check_interval: 10,
        fetch_partial_results: false,
    }
}

fn machine(name: &str, slots: usize) -> Machine {
    Machine::provisioned(name.to_string(), "id".to_string(), "ip".to_string(), slots, 0)
}

fn job_with_machines(count: usize, slots: usize) -> Job {
    let mut machines = Vec::new();
    for i in 0..count {
        machines.push(machine(&format!("worker-{}", i), slots));
    }
    Job {
        binary: "payload".to_string(),
        inputs: vec![],
        config: config(count, slots),
        machines,
        tasks: VecDeque::new(),
    }
}

fn entry(deadline: u64, machine: usize, slot: usize) -> CheckEntry {
    CheckEntry { deadline, machine, slot }
}

#[test]
fn seeding_covers_every_machine_and_slot_in_order() {
    let todo = seed_checks(2, 2, 5);
    let entries: Vec<CheckEntry> = todo.into_iter().collect();
    assert_eq!(
        entries,
        vec![entry(5, 0, 0), entry(5, 0, 1), entry(5, 1, 0), entry(5, 1, 1)]
    );
}

#[test]
fn seeding_empty_pool_yields_no_entries() {
    assert!(seed_checks(0, 3, 5).is_empty());
    assert!(seed_checks(3, 0, 5).is_empty());
}

#[test]
fn removal_renumbers_entries_for_swapped_machine() {
    // Pool of three machines; the check queue addresses indices 0, 1 and 2.
    // Destroying the machine at index 0 swap-removes it with the machine at
    // index 2: entries for index 0 drop out, entries for index 2 must now
    // address index 0, and entries for index 1 are untouched.
    let mut job = job_with_machines(3, 1);
    let mut todo: VecDeque<CheckEntry> = VecDeque::new();
    todo.push_back(entry(1, 0, 0));
    todo.push_back(entry(2, 1, 0));
    todo.push_back(entry(3, 2, 0));
    todo.push_back(entry(4, 0, 0));
    todo.push_back(entry(5, 2, 0));

    remove_machine(&mut job, &mut todo, 0);

    let entries: Vec<CheckEntry> = todo.into_iter().collect();
    assert_eq!(entries, vec![entry(2, 1, 0), entry(3, 0, 0), entry(5, 0, 0)]);
    assert_eq!(job.machines.len(), 2);
    assert_eq!(job.machines[0].name, "worker-2");
    assert_eq!(job.machines[1].name, "worker-1");
}

#[test]
fn removal_of_last_machine_drops_its_entries_only() {
    let mut job = job_with_machines(2, 1);
    let mut todo: VecDeque<CheckEntry> = VecDeque::new();
    todo.push_back(entry(1, 0, 0));
    todo.push_back(entry(2, 1, 0));

    remove_machine(&mut job, &mut todo, 1);

    let entries: Vec<CheckEntry> = todo.into_iter().collect();
    assert_eq!(entries, vec![entry(1, 0, 0)]);
    assert_eq!(job.machines.len(), 1);
    assert_eq!(job.machines[0].name, "worker-0");
}

#[test]
fn destruction_waits_for_drained_machine_and_empty_queue() {
    let mut job = job_with_machines(1, 2);
    assert!(can_destroy(&job, 0));

    job.machines[0].assign_slot(1, Task { name: "t".to_string(), cmd: "c".to_string(), range: None });
    assert!(!can_destroy(&job, 0));

    job.machines[0].clear_slot(1);
    job.tasks.push_back(Task {
        name: "t".to_string(),
        cmd: "c".to_string(),
        range: Some(TaskRange { start: 0, end: 2 }),
    });
    assert!(!can_destroy(&job, 0));

    job.tasks.clear();
    assert!(can_destroy(&job, 0));
}

#[test]
fn provisioning_stops_at_target() {
    let mut job = job_with_machines(0, 1);
    job.config.max_machines = 5;
    job.tasks.push_back(Task {
        name: "t".to_string(),
        cmd: "c".to_string(),
        range: Some(TaskRange { start: 0, end: 2 }),
    });
    assert!(needs_more_machines(&job));
    job.machines.push(machine("worker-0", 1));
    assert!(needs_more_machines(&job));
    job.machines.push(machine("worker-1", 1));
    assert!(!needs_more_machines(&job));
}

#[test]
fn fetch_on_completion_or_when_partial_results_enabled() {
    let mut c = config(1, 1);
    assert!(should_fetch(true, &c));
    assert!(!should_fetch(false, &c));
    c.fetch_partial_results = true;
    assert!(should_fetch(true, &c));
    assert!(should_fetch(false, &c));
}

#[test]
fn rescheduling_appends_entry_one_interval_ahead() {
    let c = config(1, 1);
    let mut todo: VecDeque<CheckEntry> = VecDeque::new();
    reschedule(&mut todo, 100, &c, 3, 1);
    assert_eq!(todo.len(), 1);
    assert_eq!(todo[0], entry(110, 3, 1));
}
