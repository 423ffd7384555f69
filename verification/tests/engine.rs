use task_runner::engine::{classify_outcome, next_runnable, spawn_failure_report, TaskOutcome};
use task_runner::parse::{get_execute_queue, get_user_tasks, get_variables_map};
use task_runner::resolve::build_registry;

#[test]
fn queue_entries_run_in_order() {
    let config = b"[A]\ncommand = first\n[B]\ncommand = second\n[execute]\nA\nB\n\n";
    let vars = get_variables_map(config);
    let tasks = get_user_tasks(config);
    let registry = build_registry(&tasks, &vars);
    let mut queue = get_execute_queue(config);

    let (name, cs) = next_runnable(&mut queue, &registry).unwrap();
    assert_eq!(name, b"A".to_vec());
    assert_eq!(cs.program, b"first".to_vec());
    let (name, cs) = next_runnable(&mut queue, &registry).unwrap();
    assert_eq!(name, b"B".to_vec());
    assert_eq!(cs.program, b"second".to_vec());
    assert!(next_runnable(&mut queue, &registry).is_none());
    assert!(queue.is_empty());
}

#[test]
fn unknown_queue_entry_is_skipped() {
    let config = b"[A]\ncommand = first\n[B]\ncommand = second\n[execute]\nA\nunknown\nB\n\n";
    let vars = get_variables_map(config);
    let tasks = get_user_tasks(config);
    let registry = build_registry(&tasks, &vars);
    let mut queue = get_execute_queue(config);

    let (name, _) = next_runnable(&mut queue, &registry).unwrap();
    assert_eq!(name, b"A".to_vec());
    let (name, _) = next_runnable(&mut queue, &registry).unwrap();
    assert_eq!(name, b"B".to_vec());
    assert!(next_runnable(&mut queue, &registry).is_none());
}

#[test]
fn repeated_queue_entry_runs_twice() {
    let config = b"[A]\ncommand = first\n[execute]\nA\nA\n\n";
    let vars = get_variables_map(config);
    let tasks = get_user_tasks(config);
    let registry = build_registry(&tasks, &vars);
    let mut queue = get_execute_queue(config);

    assert_eq!(next_runnable(&mut queue, &registry).unwrap().0, b"A".to_vec());
    assert_eq!(next_runnable(&mut queue, &registry).unwrap().0, b"A".to_vec());
    assert!(next_runnable(&mut queue, &registry).is_none());
}

#[test]
fn nonzero_exit_is_reported_failed() {
    let report = classify_outcome(b"t".to_vec(), false, b"out".to_vec(), b"err".to_vec());
    assert_eq!(report.task_name, b"t".to_vec());
    match report.outcome {
        TaskOutcome::Failed { output } => assert_eq!(output, Some(b"err".to_vec())),
        _ => panic!("a non-zero exit must be reported as failed"),
    }
}

#[test]
fn success_shows_captured_stdout() {
    let report = classify_outcome(b"t".to_vec(), true, b"done\n".to_vec(), b"err".to_vec());
    match report.outcome {
        TaskOutcome::Finished { output } => assert_eq!(output, Some(b"done\n".to_vec())),
        _ => panic!("a successful exit must be reported as finished"),
    }
}

#[test]
fn empty_output_is_not_shown() {
    let report = classify_outcome(b"t".to_vec(), true, b"".to_vec(), b"".to_vec());
    match report.outcome {
        TaskOutcome::Finished { output } => assert_eq!(output, None),
        _ => panic!("a successful exit must be reported as finished"),
    }
}

#[test]
fn invalid_text_output_is_not_shown() {
    let report = classify_outcome(b"t".to_vec(), false, vec![], vec![0xff, 0xfe, 0xfd]);
    match report.outcome {
        TaskOutcome::Failed { output } => assert_eq!(output, None),
        _ => panic!("a non-zero exit must be reported as failed"),
    }
}

#[test]
fn spawn_failure_carries_error_text() {
    let report = spawn_failure_report(b"t".to_vec(), b"no such program".to_vec());
    match report.outcome {
        TaskOutcome::SpawnFailed { error } => assert_eq!(error, b"no such program".to_vec()),
        _ => panic!("a spawn failure must be reported as such"),
    }
}

#[test]
fn failure_does_not_halt_the_queue() {
    let config = b"[A]\ncommand = first\n[B]\ncommand = second\n[execute]\nA\nB\n\n";
    let vars = get_variables_map(config);
    let tasks = get_user_tasks(config);
    let registry = build_registry(&tasks, &vars);
    let mut queue = get_execute_queue(config);

    let (name, _) = next_runnable(&mut queue, &registry).unwrap();
    let report = classify_outcome(name, false, Vec::new(), b"boom".to_vec());
    assert!(matches!(report.outcome, TaskOutcome::Failed { .. }));

    let (name, _) = next_runnable(&mut queue, &registry).unwrap();
    assert_eq!(name, b"B".to_vec());
}
