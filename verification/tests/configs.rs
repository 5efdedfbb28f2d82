use sharun::config::{
    apply_config_line, expand_env_variables, expand_or_keep, parse_binding, read_dotenv,
    settle_expansion,
};
use sharun::environ::Env;

fn cs(s: &str) -> Vec<char> {
    s.chars().collect()
}

fn env_of(pairs: &[(&str, &str)]) -> Env {
    let mut env = Env::new();
    for (k, v) in pairs {
        env.set(k, v);
    }
    env
}

#[test]
fn plain_binding_is_set() {
    let mut env = Env::new();
    let misses = read_dotenv("FOO=bar", &mut env);
    assert_eq!(env.get("FOO"), Some("bar".to_string()));
    assert_eq!(env.pairs().len(), 1);
    assert!(misses.is_empty());
}

#[test]
fn binding_replaces_existing_value() {
    let mut env = env_of(&[("FOO", "old")]);
    read_dotenv("FOO=bar\n", &mut env);
    assert_eq!(env.get("FOO"), Some("bar".to_string()));
}

#[test]
fn line_without_equals_is_ignored() {
    let mut env = env_of(&[("A", "1")]);
    read_dotenv("just some words\nFOO", &mut env);
    assert_eq!(env.pairs(), vec![("A".to_string(), "1".to_string())]);
}

#[test]
fn comment_line_is_ignored_whatever_it_holds() {
    let mut env = Env::new();
    read_dotenv("#FOO=bar\n# A = b\n#", &mut env);
    assert_eq!(env.pairs(), vec![]);
}

#[test]
fn blank_lines_are_ignored() {
    let mut env = Env::new();
    read_dotenv("\n   \n\t\r\nA=1\n\n", &mut env);
    assert_eq!(env.pairs(), vec![("A".to_string(), "1".to_string())]);
}

#[test]
fn indented_hash_is_no_comment() {
    let mut env = Env::new();
    read_dotenv(" #X=1", &mut env);
    assert_eq!(env.get("#X"), Some("1".to_string()));
}

#[test]
fn name_and_value_are_trimmed() {
    let mut env = Env::new();
    read_dotenv("  KEY  =  some value \r\n", &mut env);
    assert_eq!(env.get("KEY"), Some("some value".to_string()));
}

#[test]
fn line_is_cut_at_first_equals() {
    let mut env = Env::new();
    read_dotenv("OPTS=a=b=c", &mut env);
    assert_eq!(env.get("OPTS"), Some("a=b=c".to_string()));
}

#[test]
fn empty_value_is_set() {
    let mut env = Env::new();
    read_dotenv("EMPTY=", &mut env);
    assert_eq!(env.get("EMPTY"), Some("".to_string()));
}

#[test]
fn references_are_expanded_against_environment() {
    let mut env = env_of(&[("HOME", "/home/u")]);
    let misses = read_dotenv("CACHE=$HOME/.cache\nDATA=${HOME}data", &mut env);
    assert_eq!(env.get("CACHE"), Some("/home/u/.cache".to_string()));
    assert_eq!(env.get("DATA"), Some("/home/udata".to_string()));
    assert!(misses.is_empty());
}

#[test]
fn later_line_sees_earlier_line() {
    let mut env = Env::new();
    read_dotenv("BASE=/opt\nBIN=$BASE/bin", &mut env);
    assert_eq!(env.get("BIN"), Some("/opt/bin".to_string()));
}

#[test]
fn earlier_line_does_not_see_later_line() {
    let mut env = Env::new();
    let misses = read_dotenv("BIN=$BASE/bin\nBASE=/opt", &mut env);
    assert_eq!(env.get("BIN"), Some("$BASE/bin".to_string()));
    assert_eq!(misses, vec!["BASE".to_string()]);
}

#[test]
fn undefined_reference_stays_literal_and_is_reported() {
    let mut env = env_of(&[("A", "1")]);
    let misses = read_dotenv("X=$A-$NOPE\nY=ok", &mut env);
    assert_eq!(env.get("X"), Some("$A-$NOPE".to_string()));
    assert_eq!(env.get("Y"), Some("ok".to_string()));
    assert_eq!(misses, vec!["NOPE".to_string()]);
}

#[test]
fn expand_env_variables_expands_or_keeps() {
    let env = env_of(&[("FOO", "bar")]);
    assert_eq!(expand_env_variables("$FOO/x", &env), "bar/x");
    assert_eq!(expand_env_variables("${FOO}x", &env), "barx");
    assert_eq!(expand_env_variables("plain", &env), "plain");
    assert_eq!(expand_env_variables("$MISSING/x", &env), "$MISSING/x");
}

#[test]
fn expansion_uses_default_for_unset_variable() {
    let env = Env::new();
    assert_eq!(expand_env_variables("${UNSET:-42}", &env), "42");
}

#[test]
fn expand_or_keep_names_the_failing_variable() {
    let env = env_of(&[("FOO", "bar")]);
    assert_eq!(expand_or_keep("$FOO", &env), ("bar".to_string(), None));
    assert_eq!(expand_or_keep("a$GONE", &env), ("a$GONE".to_string(), Some("GONE".to_string())));
}

#[test]
fn parse_binding_cuts_and_trims() {
    assert_eq!(parse_binding(&cs(" A = b c ")), Some((cs("A"), cs("b c"))));
    assert_eq!(parse_binding(&cs("=v")), Some((cs(""), cs("v"))));
    assert_eq!(parse_binding(&cs("#A=b")), None);
    assert_eq!(parse_binding(&cs("no equals")), None);
    assert_eq!(parse_binding(&cs("   ")), None);
    assert_eq!(parse_binding(&cs("")), None);
}

#[test]
fn apply_config_line_sets_one_variable() {
    let mut env = env_of(&[("A", "1")]);
    assert_eq!(apply_config_line(&mut env, &cs("B=$A$A")), None);
    assert_eq!(env.get("B"), Some("11".to_string()));
    assert_eq!(apply_config_line(&mut env, &cs("C=$Z")), Some("Z".to_string()));
    assert_eq!(env.get("C"), Some("$Z".to_string()));
}

#[test]
fn settle_expansion_takes_text_or_keeps_input() {
    assert_eq!(settle_expansion("$A", Ok("1".to_string())), ("1".to_string(), None));
    assert_eq!(
        settle_expansion("$A", Err("A".to_string())),
        ("$A".to_string(), Some("A".to_string()))
    );
}
