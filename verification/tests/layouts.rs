use sharun::error::LaunchError;
use sharun::layout::{choose_bundle_root, locate_bundle_root, BundleLayout, LAUNCHER_NAME};

#[test]
fn launcher_name() {
    assert_eq!(LAUNCHER_NAME, "sharun");
}

#[test]
fn layout_follows_from_root() {
    let layout = BundleLayout::new("/opt/bundle");
    assert_eq!(layout.root, "/opt/bundle");
    assert_eq!(layout.bin_dir, "/opt/bundle/bin");
    assert_eq!(layout.shared_bin, "/opt/bundle/shared/bin");
    assert_eq!(layout.shared_lib, "/opt/bundle/shared/lib");
    assert_eq!(layout.shared_lib32, "/opt/bundle/shared/lib32");
}

#[test]
fn library_dir_follows_word_size() {
    let layout = BundleLayout::new("/b");
    assert_eq!(layout.library_dir(true), "/b/shared/lib32");
    assert_eq!(layout.library_dir(false), "/b/shared/lib");
}

#[test]
fn launcher_in_bin_with_marker_above_belongs_to_upper_root() {
    assert_eq!(
        choose_bundle_root("/opt/bundle/bin", true, Ok("/opt/bundle".to_string())),
        Ok("/opt/bundle".to_string())
    );
}

#[test]
fn launcher_in_bin_without_marker_is_its_own_root() {
    assert_eq!(
        choose_bundle_root("/opt/bundle/bin", false, Ok("/opt/bundle".to_string())),
        Ok("/opt/bundle/bin".to_string())
    );
}

#[test]
fn launcher_outside_bin_is_its_own_root() {
    assert_eq!(
        choose_bundle_root("/opt/bundle", true, Ok("/opt".to_string())),
        Ok("/opt/bundle".to_string())
    );
    assert_eq!(
        choose_bundle_root("/opt/bundle/sbin", true, Err(LaunchError::Resolution)),
        Ok("/opt/bundle/sbin".to_string())
    );
}

#[test]
fn upper_root_that_cannot_be_resolved_is_resolution_error() {
    assert_eq!(
        choose_bundle_root("/opt/bundle/bin", true, Err(LaunchError::Resolution)),
        Err(LaunchError::Resolution)
    );
}

#[test]
fn locate_takes_directory_of_executable() {
    assert_eq!(locate_bundle_root("/opt/bundle/sharun"), Ok("/opt/bundle".to_string()));
    assert_eq!(locate_bundle_root("/sharun"), Ok("/".to_string()));
}

#[test]
fn locate_in_bin_without_marker_keeps_bin() {
    assert_eq!(
        locate_bundle_root("/definitely/not/here/bin/sharun"),
        Ok("/definitely/not/here/bin".to_string())
    );
}
