use sharun::apprun::{
    app_name_of, desktop_exec_name, is_desktop_entry, resolve_app_name, DESKTOP_SUFFIX, EXEC_KEY,
};
use sharun::environ::Env;
use sharun::error::LaunchError;
use sharun::layout::BundleLayout;
use sharun::plan::plan_app_run;

fn strings(list: &[&str]) -> Vec<String> {
    list.iter().map(|s| s.to_string()).collect()
}

#[test]
fn marker_names_application() {
    assert_eq!(resolve_app_name(Some("myapp"), &vec![]), Ok("myapp".to_string()));
    assert_eq!(resolve_app_name(Some("myapp\n"), &vec![]), Ok("myapp".to_string()));
}

#[test]
fn marker_is_read_by_first_line_that_is_not_blank() {
    assert_eq!(resolve_app_name(Some("\n\n  myapp  \nother\n"), &vec![]), Ok("myapp".to_string()));
    assert_eq!(resolve_app_name(Some("first\r\nsecond"), &vec![]), Ok("first".to_string()));
}

#[test]
fn marker_wins_over_desktop_entry() {
    let desktop = strings(&["[Desktop Entry]\nExec=other\n"]);
    assert_eq!(resolve_app_name(Some("myapp"), &desktop), Ok("myapp".to_string()));
}

#[test]
fn path_prefix_and_quotes_are_stripped() {
    assert_eq!(app_name_of("/usr/bin/myapp"), "myapp");
    assert_eq!(app_name_of("\"myapp\""), "myapp");
    assert_eq!(app_name_of("'/opt/x/my app'"), "my app");
}

#[test]
fn desktop_entry_names_program_of_first_exec_line() {
    assert_eq!(EXEC_KEY, "Exec=");
    let data = "[Desktop Entry]\nName=App\nExec=myapp --flag %U\nExec=second\n";
    assert_eq!(desktop_exec_name(data), "myapp");
}

#[test]
fn exec_key_is_case_sensitive_and_at_line_start() {
    assert_eq!(desktop_exec_name("exec=a\nTryExec=b\n Exec=c\nEXEC=d"), "");
    assert_eq!(desktop_exec_name("TryExec=b\nExec=real"), "real");
}

#[test]
fn exec_line_without_program_gives_nothing() {
    assert_eq!(desktop_exec_name("Exec=\nExec=later"), "");
    assert_eq!(desktop_exec_name("Exec=   \n"), "");
    assert_eq!(desktop_exec_name(""), "");
}

#[test]
fn desktop_entry_is_used_without_marker() {
    let desktop = strings(&["[Desktop Entry]\nExec=\"/usr/bin/my-app\" %f\r\n"]);
    assert_eq!(resolve_app_name(None, &desktop), Ok("my-app".to_string()));
}

#[test]
fn last_desktop_entry_decides() {
    let desktop = strings(&["Exec=first", "Exec=second"]);
    assert_eq!(resolve_app_name(None, &desktop), Ok("second".to_string()));
    let desktop = strings(&["Exec=first", "Name=none"]);
    assert_eq!(resolve_app_name(None, &desktop), Err(LaunchError::NotFound));
}

#[test]
fn bundle_without_name_has_no_application() {
    assert_eq!(resolve_app_name(None, &vec![]), Err(LaunchError::NotFound));
    assert_eq!(resolve_app_name(Some(""), &vec![]), Err(LaunchError::NotFound));
    assert_eq!(resolve_app_name(Some("  \n "), &strings(&["Exec=app"])), Err(LaunchError::NotFound));
    assert_eq!(resolve_app_name(Some("dir/"), &vec![]), Err(LaunchError::NotFound));
    assert_eq!(resolve_app_name(Some("\"\""), &vec![]), Err(LaunchError::NotFound));
}

#[test]
fn apprun_with_marker_sets_appdir_and_runs_application() {
    let layout = BundleLayout::new("/opt/bundle");
    let mut env = Env::new();
    env.set("PATH", "/usr/bin");
    let app = resolve_app_name(Some("myapp"), &vec![]).unwrap();
    let plan = plan_app_run(&layout, &app, "./AppRun", &strings(&["--flag"]), env);
    assert_eq!(plan.program, "/opt/bundle/bin/myapp");
    assert_eq!(plan.args, strings(&["--flag"]));
    assert_eq!(plan.env.get("APPDIR"), Some("/opt/bundle".to_string()));
    assert_eq!(plan.env.get("ARGV0"), Some("./AppRun".to_string()));
    assert_eq!(plan.env.get("PATH"), Some("/opt/bundle/bin:/usr/bin".to_string()));
    assert_eq!(plan.working_dir, None);
    assert!(!plan.through_loader);
}

#[test]
fn apprun_never_replaces_argv0_from_outside() {
    let layout = BundleLayout::new("/opt/bundle");
    let mut env = Env::new();
    env.set("ARGV0", "given");
    env.set("APPDIR", "/stale");
    let plan = plan_app_run(&layout, "myapp", "./AppRun", &vec![], env);
    assert_eq!(plan.env.get("ARGV0"), Some("given".to_string()));
    assert_eq!(plan.env.get("APPDIR"), Some("/opt/bundle".to_string()));
}

#[test]
fn apprun_keeps_empty_argv0_from_outside() {
    let layout = BundleLayout::new("/opt/bundle");
    let mut env = Env::new();
    env.set("ARGV0", "");
    let plan = plan_app_run(&layout, "myapp", "./AppRun", &vec![], env);
    assert_eq!(plan.env.get("ARGV0"), Some("".to_string()));
}

#[test]
fn desktop_entries_are_known_by_suffix() {
    assert_eq!(DESKTOP_SUFFIX, ".desktop");
    assert!(is_desktop_entry("myapp.desktop"));
    assert!(is_desktop_entry(".desktop"));
    assert!(!is_desktop_entry("myapp.desktop.bak"));
    assert!(!is_desktop_entry("myapp.Desktop"));
    assert!(!is_desktop_entry("desktop"));
}
