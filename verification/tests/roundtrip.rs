use task_runner::parse::{get_execute_queue, get_user_tasks, get_variables_map};
use task_runner::text::{join_tokens, split_spaces};

#[test]
fn parsing_twice_gives_identical_results() {
    let config =
        b"$A = \"1\"\n$B = \"2\"\n[t]\ncommand = run A B\n[u]\ncommand = other\n[execute]\nt\nu\n\n";

    let vars1 = get_variables_map(config);
    let vars2 = get_variables_map(config);
    assert_eq!(vars1.len(), vars2.len());
    assert_eq!(vars1.get(b"A"), vars2.get(b"A"));
    assert_eq!(vars1.get(b"B"), vars2.get(b"B"));

    let tasks1 = get_user_tasks(config);
    let tasks2 = get_user_tasks(config);
    assert_eq!(tasks1.len(), tasks2.len());
    for (t1, t2) in tasks1.iter().zip(tasks2.iter()) {
        assert_eq!(t1.name, t2.name);
        assert_eq!(t1.command, t2.command);
    }

    let queue1 = get_execute_queue(config);
    let queue2 = get_execute_queue(config);
    assert_eq!(queue1, queue2);
}

#[test]
fn split_then_join_reconstructs_command() {
    let cases: Vec<&[u8]> = vec![
        b"echo hello world",
        b"single",
        b"",
        b"a  b   c",
        b" leading and trailing ",
    ];
    for case in cases {
        let tokens = split_spaces(case);
        let joined = join_tokens(&tokens);
        assert_eq!(joined, case.to_vec());
    }
}

#[test]
fn split_keeps_token_order() {
    let tokens = split_spaces(b"cc -O2 main.c");
    assert_eq!(
        tokens,
        vec![b"cc".to_vec(), b"-O2".to_vec(), b"main.c".to_vec()]
    );
}
