use std::collections::VecDeque;

use fleetjob::job::Job;
use fleetjob::task::{Task, TaskRange};
use fleetjob::text::{decimal_string, replace_placeholder};

fn template(name: &str, cmd: &str, range: Option<(usize, usize)>) -> Task {
    Task {
        name: name.to_string(),
        cmd: cmd.to_string(),
        range: range.map(|(start, end)| TaskRange { start, end }),
    }
}

#[test]
fn expansion_yields_each_index_in_order() {
    let mut tasks: VecDeque<Task> = VecDeque::new();
    tasks.push_back(template("t{{index}}", "echo {{index}}", Some((0, 3))));
    let mut produced: Vec<(String, String)> = Vec::new();
    while let Some(task) = Job::next_task(&mut tasks) {
        assert!(task.range.is_none());
        produced.push((task.name, task.cmd));
    }
    assert_eq!(
        produced,
        vec![
            ("t0".to_string(), "echo 0".to_string()),
            ("t1".to_string(), "echo 1".to_string()),
            ("t2".to_string(), "echo 2".to_string()),
        ]
    );
    assert!(tasks.is_empty());
}

#[test]
fn width_one_range_consumed_whole() {
    let mut tasks: VecDeque<Task> = VecDeque::new();
    tasks.push_back(template("t{{index}}", "echo {{index}}", Some((5, 6))));
    let task = Job::next_task(&mut tasks).unwrap();
    assert_eq!(task.name, "t5");
    assert_eq!(task.cmd, "echo 5");
    assert!(task.range.is_none());
    assert!(tasks.is_empty());
    assert!(Job::next_task(&mut tasks).is_none());
}

#[test]
fn range_with_offset_start() {
    let mut tasks: VecDeque<Task> = VecDeque::new();
    tasks.push_back(template("t", "echo {{index}}", Some((7, 9))));
    let first = Job::next_task(&mut tasks).unwrap();
    let second = Job::next_task(&mut tasks).unwrap();
    assert_eq!(first.cmd, "echo 7");
    assert_eq!(second.cmd, "echo 8");
    assert!(Job::next_task(&mut tasks).is_none());
}

#[test]
fn task_without_range_returned_unchanged() {
    let mut tasks: VecDeque<Task> = VecDeque::new();
    tasks.push_back(template("plain {{index}}", "run {{index}}", None));
    let task = Job::next_task(&mut tasks).unwrap();
    assert_eq!(task.name, "plain {{index}}");
    assert_eq!(task.cmd, "run {{index}}");
    assert!(task.range.is_none());
    assert!(tasks.is_empty());
}

#[test]
fn residual_requeued_at_tail_keeps_fifo_fairness() {
    let mut tasks: VecDeque<Task> = VecDeque::new();
    tasks.push_back(template("a", "a {{index}}", Some((0, 2))));
    tasks.push_back(template("b", "b", None));
    let first = Job::next_task(&mut tasks).unwrap();
    let second = Job::next_task(&mut tasks).unwrap();
    let third = Job::next_task(&mut tasks).unwrap();
    assert_eq!(first.cmd, "a 0");
    assert_eq!(second.cmd, "b");
    assert_eq!(third.cmd, "a 1");
    assert!(Job::next_task(&mut tasks).is_none());
}

#[test]
fn residual_template_keeps_text_and_advances_start() {
    let mut tasks: VecDeque<Task> = VecDeque::new();
    tasks.push_back(template("t{{index}}", "echo {{index}}", Some((0, 3))));
    let instance = Job::next_task(&mut tasks).unwrap();
    assert_eq!(instance.name, "t0");
    assert!(instance.range.is_none());
    // The residual template is re-enqueued untouched but for its start.
    assert_eq!(tasks.len(), 1);
    assert_eq!(tasks[0].name, "t{{index}}");
    assert_eq!(tasks[0].cmd, "echo {{index}}");
    assert_eq!(tasks[0].range, Some(TaskRange { start: 1, end: 3 }));
}

#[test]
fn empty_queue_yields_nothing() {
    let mut tasks: VecDeque<Task> = VecDeque::new();
    assert!(Job::next_task(&mut tasks).is_none());
    assert!(tasks.is_empty());
}

#[test]
fn decimal_rendering_exact() {
    assert_eq!(decimal_string(0), "0");
    assert_eq!(decimal_string(7), "7");
    assert_eq!(decimal_string(10), "10");
    assert_eq!(decimal_string(105), "105");
    assert_eq!(decimal_string(18446744073709551615), "18446744073709551615");
}

#[test]
fn replace_leaves_text_without_token_alone() {
    assert_eq!(replace_placeholder("echo hello", "3"), "echo hello");
    assert_eq!(replace_placeholder("", "3"), "");
    assert_eq!(replace_placeholder("{{index}", "3"), "{{index}");
}

#[test]
fn replace_substitutes_every_occurrence() {
    assert_eq!(replace_placeholder("{{index}}", "12"), "12");
    assert_eq!(replace_placeholder("a{{index}}b{{index}}c", "4"), "a4b4c");
    assert_eq!(replace_placeholder("{{index}}{{index}}", "9"), "99");
}

#[test]
fn replace_scans_left_to_right_without_overlap() {
    assert_eq!(replace_placeholder("{{{{index}}}}", "2"), "{{2}}");
    assert_eq!(replace_placeholder("{{indexx{{index}}", "1"), "{{indexx1");
}
