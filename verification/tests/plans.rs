use sharun::environ::Env;
use sharun::error::LaunchError;
use sharun::interp::{interpreter_names, select_interpreter, Arch};
use sharun::layout::BundleLayout;
use sharun::plan::{
    app_marker_path, config_path, export_bundle_dir, plan_direct, plan_managed, prepare_managed,
    private_path, target_path,
};

fn strings(list: &[&str]) -> Vec<String> {
    list.iter().map(|s| s.to_string()).collect()
}

const ELF64: [u8; 6] = [0x7f, b'E', b'L', b'F', 2, 1];
const ELF32: [u8; 6] = [0x7f, b'E', b'L', b'F', 1, 1];

#[test]
fn bundle_paths() {
    let layout = BundleLayout::new("/opt/bundle");
    assert_eq!(target_path(&layout, "app"), "/opt/bundle/shared/bin/app");
    assert_eq!(private_path(&layout, "app"), "/opt/bundle/bin/app");
    assert_eq!(config_path(&layout), "/opt/bundle/.env");
    assert_eq!(app_marker_path(&layout), "/opt/bundle/.app");
}

#[test]
fn bundle_dir_is_exported() {
    let layout = BundleLayout::new("/opt/bundle");
    let mut env = Env::new();
    export_bundle_dir(&mut env, &layout);
    assert_eq!(env.get("SHARUN_DIR"), Some("/opt/bundle".to_string()));
}

#[test]
fn managed_execution_runs_loader_with_library_path() {
    let layout = BundleLayout::new("/opt/bundle");
    let candidates = interpreter_names(None, Arch::X86_64);
    let loader = select_interpreter(&layout.shared_lib, &candidates, &vec![true, false, false]).unwrap();
    let mut env = Env::new();
    env.set("HOME", "/root");
    let target = target_path(&layout, "app");
    let plan = plan_managed(&layout.shared_lib, &target, &loader, &strings(&["--flag"]), env);
    let mut argv = vec![plan.program.clone()];
    argv.extend(plan.args.clone());
    assert_eq!(
        argv,
        strings(&[
            "/opt/bundle/shared/lib/ld-linux-x86-64.so.2",
            "--library-path",
            "/opt/bundle/shared/lib",
            "/opt/bundle/shared/bin/app",
            "--flag",
        ])
    );
    assert!(plan.through_loader);
    assert_eq!(plan.working_dir, None);
    assert_eq!(plan.env.to_block(), strings(&["HOME=/root"]));
}

#[test]
fn working_directory_is_consumed() {
    let mut env = Env::new();
    env.set("SHARUN_WORKING_DIR", "/work");
    env.set("KEEP", "1");
    let plan = plan_managed("/l", "/b/app", "/l/ld.so", &vec![], env);
    assert_eq!(plan.working_dir, Some("/work".to_string()));
    assert_eq!(plan.env.get("SHARUN_WORKING_DIR"), None);
    assert_eq!(plan.env.get("KEEP"), Some("1".to_string()));
    assert_eq!(plan.args, strings(&["--library-path", "/l", "/b/app"]));
}

#[test]
fn empty_working_directory_is_left_alone() {
    let mut env = Env::new();
    env.set("SHARUN_WORKING_DIR", "");
    let plan = plan_managed("/l", "/b/app", "/l/ld.so", &vec![], env);
    assert_eq!(plan.working_dir, None);
    assert_eq!(plan.env.get("SHARUN_WORKING_DIR"), Some("".to_string()));
}

#[test]
fn direct_execution_runs_private_binary_without_loader() {
    let layout = BundleLayout::new("/opt/bundle");
    let mut env = Env::new();
    env.set("PATH", "/usr/bin:/bin");
    env.set("SHARUN_WORKING_DIR", "/work");
    let plan = plan_direct(&layout, "tool", &strings(&["a", "b"]), env);
    assert_eq!(plan.program, "/opt/bundle/bin/tool");
    assert_eq!(plan.args, strings(&["a", "b"]));
    assert!(!plan.through_loader);
    assert_eq!(plan.working_dir, None);
    assert_eq!(plan.env.get("PATH"), Some("/opt/bundle/bin:/usr/bin:/bin".to_string()));
    assert_eq!(plan.env.get("SHARUN_WORKING_DIR"), Some("/work".to_string()));
}

#[test]
fn prepare_fails_on_short_header() {
    let layout = BundleLayout::new("/proc");
    let r = prepare_managed(&layout, "app", &[0x7f, b'E'], None, &vec![], Env::new(), Arch::X86_64);
    assert_eq!(r.err(), Some(LaunchError::Io));
}

#[test]
fn prepare_fails_on_header_without_magic() {
    let mut layout = BundleLayout::new("/bundle");
    layout.shared_lib = "/proc".to_string();
    let mut env = Env::new();
    env.set("SHARUN_LDNAME", "version");
    let r = prepare_managed(&layout, "app", b"#!/bin/sh\n", None, &vec![], env, Arch::X86_64);
    assert_eq!(r.err(), Some(LaunchError::Io));
}

#[test]
fn prepare_fails_without_loader() {
    let layout = BundleLayout::new("/definitely/not/here");
    let r = prepare_managed(&layout, "app", &ELF64, None, &vec![], Env::new(), Arch::X86_64);
    assert_eq!(r.err(), Some(LaunchError::NotFound));
}

#[test]
fn prepare_takes_library_directory_of_word_size() {
    let mut layout = BundleLayout::new("/bundle");
    layout.shared_lib = "/proc".to_string();
    layout.shared_lib32 = "/dev".to_string();
    let mut env = Env::new();
    env.set("SHARUN_LDNAME", "version");
    let (plan, misses) =
        prepare_managed(&layout, "app", &ELF64, None, &strings(&["--flag"]), env.clone(), Arch::X86_64).unwrap();
    assert_eq!(plan.program, "/proc/version");
    assert_eq!(plan.args, strings(&["--library-path", "/proc", "/bundle/shared/bin/app", "--flag"]));
    assert!(misses.is_empty());
    let r = prepare_managed(&layout, "app", &ELF32, None, &vec![], env.clone(), Arch::X86_64);
    assert_eq!(r.err(), Some(LaunchError::NotFound));
    env.set("SHARUN_LDNAME", "null");
    let (plan, _) = prepare_managed(&layout, "app", &ELF32, None, &vec![], env, Arch::X86_64).unwrap();
    assert_eq!(plan.program, "/dev/null");
    assert_eq!(plan.args, strings(&["--library-path", "/dev", "/bundle/shared/bin/app"]));
}

#[test]
fn prepare_applies_configuration_before_looking_for_loader() {
    let mut layout = BundleLayout::new("/bundle");
    layout.shared_lib = "/proc".to_string();
    let mut env = Env::new();
    env.set("NAME", "version");
    let config = "# loader\nSHARUN_LDNAME=$NAME\nSHARUN_WORKING_DIR=/tmp\nBROKEN=$NOPE\n";
    let (plan, misses) =
        prepare_managed(&layout, "app", &ELF64, Some(config), &vec![], env, Arch::Aarch64).unwrap();
    assert_eq!(plan.program, "/proc/version");
    assert_eq!(plan.working_dir, Some("/tmp".to_string()));
    assert_eq!(plan.env.get("SHARUN_WORKING_DIR"), None);
    assert_eq!(plan.env.get("SHARUN_LDNAME"), Some("version".to_string()));
    assert_eq!(plan.env.get("BROKEN"), Some("$NOPE".to_string()));
    assert_eq!(misses, strings(&["NOPE"]));
}
