//! Where the parts of a bundle lie, and how the bundle's root is found from
//! the launcher's own path.

use vstd::prelude::*;
use crate::error::{text_result, LaunchError};
use crate::path::{
    basename, basename_of, child_of, dirname, dirname_of, is_file, join_path, realpath,
};
use crate::text::str_concat;

verus! {

/// The name under which the launcher itself is installed.
pub const LAUNCHER_NAME: &'static str = "sharun";

/// The directories of a bundle. All of them follow from the root.
#[derive(Clone, Debug, PartialEq, Eq)]
pub struct BundleLayout {
    /// The bundle's root directory.
    pub root: String,
    /// The private binaries, one per alias: `bin` under the root.
    pub bin_dir: String,
    /// The shared binaries: `shared/bin` under the root.
    pub shared_bin: String,
    /// The 64-bit libraries: `shared/lib` under the root.
    pub shared_lib: String,
    /// The 32-bit libraries: `shared/lib32` under the root.
    pub shared_lib32: String,
}

/// The shared tree of a bundle: `shared` under the root.
pub open spec fn shared_dir_of(root: Seq<char>) -> Seq<char> {
    child_of(root, "shared"@)
}

impl BundleLayout {
    /// Every directory lies where the root puts it.
    pub open spec fn wf(&self) -> bool {
        &&& self.bin_dir@ == child_of(self.root@, "bin"@)
        &&& self.shared_bin@ == child_of(shared_dir_of(self.root@), "bin"@)
        &&& self.shared_lib@ == child_of(shared_dir_of(self.root@), "lib"@)
        &&& self.shared_lib32@ == child_of(shared_dir_of(self.root@), "lib32"@)
    }

    /// The layout of the bundle whose root is `root`.
    pub fn new(root: &str) -> (layout: BundleLayout)
        ensures
            layout.wf(),
            layout.root@ == root@,
    {
        let shared = join_path(root, "shared");
        BundleLayout {
            root: root.to_owned(),
            bin_dir: join_path(root, "bin"),
            shared_bin: join_path(shared.as_str(), "bin"),
            shared_lib: join_path(shared.as_str(), "lib"),
            shared_lib32: join_path(shared.as_str(), "lib32"),
        }
    }

    /// The library directory for a binary of the given word size.
    pub fn library_dir(&self, elf32: bool) -> (dir: &String)
        ensures
            dir@ == (if elf32 {
                self.shared_lib32@
            } else {
                self.shared_lib@
            }),
    {
        if elf32 {
            &self.shared_lib32
        } else {
            &self.shared_lib
        }
    }
}

/// The bundle's root, given the directory of the launcher's executable,
/// whether the launcher's marker file lies one level above it, and the
/// canonical form of that upper directory where it has one. A launcher in a
/// directory called `bin` with the marker above it belongs to the bundle
/// rooted above; any other launcher is its bundle's root directory itself.
pub open spec fn bundle_root(
    exe_dir: Seq<char>,
    marker_is_file: bool,
    canonical_parent: Option<Seq<char>>,
) -> Result<Seq<char>, LaunchError> {
    if basename_of(exe_dir) == "bin"@ && marker_is_file {
        match canonical_parent {
            Some(parent) => Ok(parent),
            None => Err(LaunchError::Resolution),
        }
    } else {
        Ok(exe_dir)
    }
}

/// The view of the canonical form of a path, where it has one.
pub open spec fn canonical_view(r: Result<String, LaunchError>) -> Option<Seq<char>> {
    match r {
        Ok(found) => Some(found@),
        Err(_) => None,
    }
}

/// The bundle's root from the three facts that decide it.
pub fn choose_bundle_root(
    exe_dir: &str,
    marker_is_file: bool,
    canonical_parent: Result<String, LaunchError>,
) -> (r: Result<String, LaunchError>)
    ensures
        text_result(r) == bundle_root(exe_dir@, marker_is_file, canonical_view(canonical_parent)),
{
    let name = basename(exe_dir);
    let bin = "bin".to_owned();
    if name == bin && marker_is_file {
        match canonical_parent {
            Ok(parent) => Ok(parent),
            Err(_) => Err(LaunchError::Resolution),
        }
    } else {
        Ok(exe_dir.to_owned())
    }
}

/// Finds the bundle's root from the path of the launcher's own executable.
/// The file system is asked whether the marker file, named as the launcher,
/// lies one level above the executable's directory, and for the canonical
/// form of that upper directory; a launcher whose directory is not called
/// `bin` is its bundle's root directory without any question asked.
pub fn locate_bundle_root(exe_path: &str) -> (r: Result<String, LaunchError>)
    ensures
        exists|marker_is_file: bool, canonical_parent: Option<Seq<char>>|
            text_result(r) == #[trigger] bundle_root(
                dirname_of(exe_path@),
                marker_is_file,
                canonical_parent,
            ),
        basename_of(dirname_of(exe_path@)) != "bin"@ ==> text_result(r) == bundle_root(
            dirname_of(exe_path@),
            false,
            None,
        ),
{
    let exe_dir = dirname(exe_path);
    let name = basename(exe_dir.as_str());
    let bin = "bin".to_owned();
    if name == bin {
        let upper = str_concat(exe_dir.as_str(), "/../");
        let marker = str_concat(upper.as_str(), LAUNCHER_NAME);
        if is_file(marker.as_str()) {
            let canonical = realpath(upper.as_str());
            let r = choose_bundle_root(exe_dir.as_str(), true, canonical);
            assert(text_result(r) == bundle_root(
                dirname_of(exe_path@),
                true,
                canonical_view(canonical),
            ));
            r
        } else {
            let r = choose_bundle_root(exe_dir.as_str(), false, Err(LaunchError::Resolution));
            assert(text_result(r) == bundle_root(dirname_of(exe_path@), false, None));
            r
        }
    } else {
        let r = choose_bundle_root(exe_dir.as_str(), false, Err(LaunchError::Resolution));
        assert(text_result(r) == bundle_root(dirname_of(exe_path@), false, None));
        r
    }
}

} // verus!
