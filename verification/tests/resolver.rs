use task_runner::parse::{get_user_tasks, get_variables_map};
use task_runner::resolve::{build_registry, resolve_command};
use task_runner::vars::VariableMap;

#[test]
fn known_token_is_substituted() {
    let mut vars = VariableMap::new();
    vars.insert(b"ARG".to_vec(), b"hello".to_vec());
    let cs = resolve_command(b"echo ARG", &vars).unwrap();
    assert_eq!(cs.program, b"echo".to_vec());
    assert_eq!(cs.args, vec![b"hello".to_vec()]);
}

#[test]
fn unknown_token_passes_through() {
    let mut vars = VariableMap::new();
    vars.insert(b"ARG".to_vec(), b"hello".to_vec());
    let cs = resolve_command(b"echo WORLD", &vars).unwrap();
    assert_eq!(cs.program, b"echo".to_vec());
    assert_eq!(cs.args, vec![b"WORLD".to_vec()]);
}

#[test]
fn program_only_command_has_no_args() {
    let vars = VariableMap::new();
    let cs = resolve_command(b"ls", &vars).unwrap();
    assert_eq!(cs.program, b"ls".to_vec());
    assert!(cs.args.is_empty());
}

#[test]
fn empty_command_resolves_to_nothing() {
    let vars = VariableMap::new();
    assert!(resolve_command(b"", &vars).is_none());
}

#[test]
fn adjacent_spaces_keep_empty_tokens() {
    let vars = VariableMap::new();
    let cs = resolve_command(b"a  b", &vars).unwrap();
    assert_eq!(cs.program, b"a".to_vec());
    assert_eq!(cs.args, vec![b"".to_vec(), b"b".to_vec()]);
}

#[test]
fn program_token_is_never_substituted() {
    let mut vars = VariableMap::new();
    vars.insert(b"echo".to_vec(), b"other".to_vec());
    let cs = resolve_command(b"echo echo", &vars).unwrap();
    assert_eq!(cs.program, b"echo".to_vec());
    assert_eq!(cs.args, vec![b"other".to_vec()]);
}

#[test]
fn registry_resolves_each_task_once() {
    let config = b"$W = \"ball\"\n[throw]\ncommand = toss W\n";
    let vars = get_variables_map(config);
    let tasks = get_user_tasks(config);
    let registry = build_registry(&tasks, &vars);
    let cs = registry.get(b"throw").unwrap();
    assert_eq!(cs.program, b"toss".to_vec());
    assert_eq!(cs.args, vec![b"ball".to_vec()]);
    assert!(registry.get(b"missing").is_none());
}

#[test]
fn later_task_with_same_name_shadows() {
    let config = b"[t]\ncommand = one\n[t]\ncommand = two\n";
    let vars = get_variables_map(config);
    let tasks = get_user_tasks(config);
    let registry = build_registry(&tasks, &vars);
    let cs = registry.get(b"t").unwrap();
    assert_eq!(cs.program, b"two".to_vec());
}
