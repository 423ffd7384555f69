use task_runner::parse::{
    get_execute_queue, get_line_key_value, get_user_tasks, get_variables_map,
};

#[test]
fn variable_line_parses() {
    let vars = get_variables_map(b"$ARG = \"hello\"\n");
    assert_eq!(vars.get(b"ARG"), Some(&b"hello".to_vec()));
    assert_eq!(vars.len(), 1);
}

#[test]
fn later_variable_overwrites() {
    let vars = get_variables_map(b"$K = \"V\"\n$K = \"V2\"\n");
    assert_eq!(vars.get(b"K"), Some(&b"V2".to_vec()));
    assert_eq!(vars.len(), 1);
}

#[test]
fn variable_without_equals_ignored() {
    let vars = get_variables_map(b"$JUNK\n");
    assert_eq!(vars.len(), 0);
    assert_eq!(vars.get(b"JUNK"), None);
}

#[test]
fn non_dollar_line_ignored() {
    let vars = get_variables_map(b"K = \"V\"\n");
    assert_eq!(vars.len(), 0);
}

#[test]
fn variable_trims_spaces_and_quotes() {
    let vars = get_variables_map(b"  $PAD =   \"  \" \n");
    assert_eq!(vars.get(b"PAD"), Some(&b"".to_vec()));
}

#[test]
fn key_value_splits_at_first_equals() {
    let kv = get_line_key_value(b"k = \"a=b\"");
    assert_eq!(kv, Some((b"k".to_vec(), b"a=b".to_vec())));
}

#[test]
fn key_value_without_equals_is_none() {
    assert_eq!(get_line_key_value(b"no separator here"), None);
}

#[test]
fn task_block_parses() {
    let tasks = get_user_tasks(b"[build]\ncommand = cc main.c\n");
    assert_eq!(tasks.len(), 1);
    assert_eq!(tasks[0].name, b"build".to_vec());
    assert_eq!(tasks[0].command, b"cc main.c".to_vec());
}

#[test]
fn task_header_without_command_yields_nothing() {
    let tasks = get_user_tasks(b"[build]\nno command here\n");
    assert_eq!(tasks.len(), 0);
}

#[test]
fn empty_command_value_drops_task() {
    let tasks = get_user_tasks(b"[silent]\ncommand =\n[loud]\ncommand = echo hi\n");
    assert_eq!(tasks.len(), 1);
    assert_eq!(tasks[0].name, b"loud".to_vec());
    assert_eq!(tasks[0].command, b"echo hi".to_vec());
}

#[test]
fn option_lines_inside_block_are_skipped() {
    let tasks = get_user_tasks(b"[t]\nretries = 3\ncommand = run\n");
    assert_eq!(tasks.len(), 1);
    assert_eq!(tasks[0].command, b"run".to_vec());
}

#[test]
fn duplicate_task_names_both_listed() {
    let tasks = get_user_tasks(b"[t]\ncommand = one\n[t]\ncommand = two\n");
    assert_eq!(tasks.len(), 2);
    assert_eq!(tasks[0].command, b"one".to_vec());
    assert_eq!(tasks[1].command, b"two".to_vec());
}

#[test]
fn crlf_line_endings_accepted() {
    let config = b"$A = \"1\"\r\n[t]\r\ncommand = x A\r\n";
    let vars = get_variables_map(config);
    assert_eq!(vars.get(b"A"), Some(&b"1".to_vec()));
    let tasks = get_user_tasks(config);
    assert_eq!(tasks.len(), 1);
    assert_eq!(tasks[0].command, b"x A".to_vec());
}

#[test]
fn execute_section_in_order() {
    let queue = get_execute_queue(b"[execute]\nA\nB\n\n");
    let entries: Vec<Vec<u8>> = queue.into_iter().collect();
    assert_eq!(entries, vec![b"A".to_vec(), b"B".to_vec()]);
}

#[test]
fn blank_line_ends_execute_section_for_good() {
    let queue = get_execute_queue(b"[execute]\nA\n\nB\n");
    let entries: Vec<Vec<u8>> = queue.into_iter().collect();
    assert_eq!(entries, vec![b"A".to_vec()]);
}

#[test]
fn execute_marker_must_match_exactly() {
    let queue = get_execute_queue(b" [execute]\nA\n");
    assert!(queue.is_empty());
    let queue = get_execute_queue(b"[execute] \nA\n");
    assert!(queue.is_empty());
}

#[test]
fn execute_entries_are_verbatim() {
    let queue = get_execute_queue(b"[execute]\n A\n");
    let entries: Vec<Vec<u8>> = queue.into_iter().collect();
    assert_eq!(entries, vec![b" A".to_vec()]);
}

#[test]
fn empty_config_yields_nothing() {
    assert_eq!(get_variables_map(b"").len(), 0);
    assert_eq!(get_user_tasks(b"").len(), 0);
    assert!(get_execute_queue(b"").is_empty());
}
