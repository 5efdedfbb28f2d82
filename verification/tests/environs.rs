use sharun::environ::{add_to_env, get_env_var, Env};

fn pair(k: &str, v: &str) -> (String, String) {
    (k.to_string(), v.to_string())
}

#[test]
fn new_environment_is_empty() {
    let env = Env::new();
    assert_eq!(env.pairs(), vec![]);
    assert_eq!(env.get("PATH"), None);
    assert!(!env.contains("PATH"));
}

#[test]
fn set_then_get() {
    let mut env = Env::new();
    env.set("FOO", "bar");
    assert_eq!(env.get("FOO"), Some("bar".to_string()));
    assert!(env.contains("FOO"));
    assert_eq!(env.get("foo"), None);
}

#[test]
fn set_replaces_value_and_keeps_place() {
    let mut env = Env::new();
    env.set("A", "1");
    env.set("B", "2");
    env.set("A", "3");
    assert_eq!(env.pairs(), vec![pair("A", "3"), pair("B", "2")]);
}

#[test]
fn remove_takes_variable_out() {
    let mut env = Env::new();
    env.set("A", "1");
    env.set("B", "2");
    env.remove("A");
    assert_eq!(env.get("A"), None);
    assert_eq!(env.pairs(), vec![pair("B", "2")]);
    env.remove("missing");
    assert_eq!(env.pairs(), vec![pair("B", "2")]);
}

#[test]
fn from_pairs_keeps_later_value() {
    let env = Env::from_pairs(&vec![pair("A", "1"), pair("B", "2"), pair("A", "3")]);
    assert_eq!(env.get("A"), Some("3".to_string()));
    assert_eq!(env.get("B"), Some("2".to_string()));
    assert_eq!(env.pairs().len(), 2);
}

#[test]
fn lookup_reports_unset_variable_as_error() {
    let mut env = Env::new();
    env.set("A", "1");
    assert_eq!(env.lookup("A").ok(), Some(Some("1".to_string())));
    assert!(env.lookup("B").is_err());
}

#[test]
fn block_has_one_line_per_variable() {
    let mut env = Env::new();
    env.set("HOME", "/root");
    env.set("EMPTY", "");
    env.set("X", "a=b");
    assert_eq!(env.to_block(), vec!["HOME=/root".to_string(), "EMPTY=".to_string(), "X=a=b".to_string()]);
}

#[test]
fn clone_holds_the_same_variables() {
    let mut env = Env::new();
    env.set("A", "1");
    let mut copy = env.clone();
    copy.set("B", "2");
    assert_eq!(env.pairs(), vec![pair("A", "1")]);
    assert_eq!(copy.pairs(), vec![pair("A", "1"), pair("B", "2")]);
}

#[test]
fn get_env_var_is_empty_for_unset_variable() {
    let mut env = Env::new();
    env.set("A", "1");
    assert_eq!(get_env_var(&env, "A"), "1");
    assert_eq!(get_env_var(&env, "B"), "");
}

#[test]
fn add_to_env_puts_value_first() {
    let mut env = Env::new();
    env.set("PATH", "/usr/bin:/bin");
    add_to_env(&mut env, "PATH", "/opt/b/bin");
    assert_eq!(env.get("PATH"), Some("/opt/b/bin:/usr/bin:/bin".to_string()));
}

#[test]
fn add_to_env_of_unset_variable_leaves_trailing_colon() {
    let mut env = Env::new();
    add_to_env(&mut env, "PATH", "/opt/b/bin");
    assert_eq!(env.get("PATH"), Some("/opt/b/bin:".to_string()));
}
