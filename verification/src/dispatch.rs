//! What one invocation asks for: under which alias the launcher was called,
//! what that alias and the first argument select, and whether a private
//! binary of that name runs directly or the shared one runs through the
//! loader.

use vstd::prelude::*;
use crate::error::{text_result, LaunchError};
use crate::layout::{BundleLayout, LAUNCHER_NAME};
use crate::path::{
    basename, basename_of, canonicalize, dirname, dirname_of, is_symlink, join_path, path_exists,
};
use crate::text::{opt_text, str_eq, str_views, tail_strings};

verus! {

/// The alias under which a bundle's entry point for applications is called.
pub const APPRUN_NAME: &'static str = "AppRun";

/// What the file system reports of a file: its kind, its permission bits,
/// and the device and inode that identify it.
#[derive(Clone, Copy, Debug, PartialEq, Eq, Structural)]
pub struct FileMeta {
    /// Whether it is a regular file.
    pub is_file: bool,
    /// The permission bits.
    pub mode: u32,
    /// The device that holds the file.
    pub dev: u64,
    /// The file's inode on that device.
    pub ino: u64,
}

/// A regular file that someone may execute.
pub open spec fn executable(meta: FileMeta) -> bool {
    meta.is_file && meta.mode & 0o111 != 0
}

/// Two records of the same underlying file: same device, same inode.
pub open spec fn same_file(a: FileMeta, b: FileMeta) -> bool {
    a.ino == b.ino && a.dev == b.dev
}

/// Whether the file is a regular file with an executable bit set.
pub fn is_exe(meta: &FileMeta) -> (r: bool)
    ensures
        r == executable(*meta),
{
    meta.is_file && meta.mode & 0o111 != 0
}

/// Whether two records are of one file, so that each path is a hard link to
/// the other's file.
pub fn is_hardlink(file1: &FileMeta, file2: &FileMeta) -> (r: bool)
    ensures
        r == same_file(*file1, *file2),
{
    file1.ino == file2.ino && file1.dev == file2.dev
}

/// The private binary runs directly: it is an executable file, and it is a
/// hard link to the launcher's own file or no shared binary bears its name.
/// A file of which no record could be had is no executable and no hard link.
pub open spec fn runs_directly(
    candidate: Option<FileMeta>,
    launcher: Option<FileMeta>,
    shared_exists: bool,
) -> bool {
    &&& candidate is Some
    &&& executable(candidate->0)
    &&& (launcher is Some && same_file(launcher->0, candidate->0)) || !shared_exists
}

/// Whether the private binary runs directly, from the three facts that
/// decide it.
pub fn alias_runs_directly(
    candidate: Option<FileMeta>,
    launcher: Option<FileMeta>,
    shared_exists: bool,
) -> (direct: bool)
    ensures
        direct == runs_directly(candidate, launcher, shared_exists),
{
    match candidate {
        Some(found) => {
            let linked = match launcher {
                Some(own) => is_hardlink(&own, &found),
                None => false,
            };
            is_exe(&found) && (linked || !shared_exists)
        },
        None => false,
    }
}

/// Whether the private binary `name` runs directly. The file system is asked
/// whether a shared binary of that name exists, and only where the answer
/// matters: for an executable candidate that is no hard link to the
/// launcher.
pub fn dispatch_alias(
    layout: &BundleLayout,
    name: &str,
    candidate: Option<FileMeta>,
    launcher: Option<FileMeta>,
) -> (direct: bool)
    ensures
        exists|shared_exists: bool| direct == #[trigger] runs_directly(candidate, launcher, shared_exists),
        runs_directly(candidate, launcher, true) ==> direct,
        !runs_directly(candidate, launcher, false) ==> !direct,
{
    if alias_runs_directly(candidate, launcher, true) {
        assert(true == runs_directly(candidate, launcher, true));
        true
    } else if !alias_runs_directly(candidate, launcher, false) {
        assert(false == runs_directly(candidate, launcher, false));
        false
    } else {
        let shared = join_path(layout.shared_bin.as_str(), name);
        let shared_exists = path_exists(shared.as_str());
        let direct = alias_runs_directly(candidate, launcher, shared_exists);
        assert(direct == runs_directly(candidate, launcher, shared_exists));
        direct
    }
}

/// A private entry that is a hard link to the launcher's own file runs
/// directly, even where a shared binary of its name exists.
pub proof fn lemma_hard_link_runs_directly(
    candidate: FileMeta,
    launcher: FileMeta,
    shared_exists: bool,
)
    requires
        executable(candidate),
        same_file(launcher, candidate),
    ensures
        runs_directly(Some(candidate), Some(launcher), shared_exists),
{
}

/// A private entry that is no hard link to the launcher gives way to a
/// shared binary of its name: the shared one runs, through the loader.
pub proof fn lemma_shadowed_entry_is_managed(candidate: FileMeta, launcher: Option<FileMeta>)
    requires
        launcher is Some ==> !same_file(launcher->0, candidate),
    ensures
        !runs_directly(Some(candidate), launcher, true),
{
}

/// The status with which the launcher fails.
pub const FAILURE_STATUS: i32 = 1;

/// The status with which the launcher ends after the embedded script: the
/// script's own, or the failure status where the script could not be started
/// or left no status.
pub fn passthrough_exit_code(status: Option<i32>) -> (code: i32)
    ensures
        code == (match status {
            Some(own) => own,
            None => FAILURE_STATUS,
        }),
{
    match status {
        Some(own) => own,
        None => FAILURE_STATUS,
    }
}

/// An entry of the private binary directory: its name, and the record of
/// its file where one could be had.
#[derive(Clone, Debug)]
pub struct DirItem {
    pub name: String,
    pub meta: Option<FileMeta>,
}

/// The entry is an executable file.
pub open spec fn is_binary(item: DirItem) -> bool {
    item.meta is Some && executable(item.meta->0)
}

/// The names of the executable files among `items`, in their order.
pub open spec fn binaries_among(items: Seq<DirItem>) -> Seq<Seq<char>>
    decreases items.len(),
{
    if items.len() == 0 {
        Seq::<Seq<char>>::empty()
    } else if is_binary(items.last()) {
        binaries_among(items.drop_last()).push(items.last().name@)
    } else {
        binaries_among(items.drop_last())
    }
}

/// The binaries to list for an invocation that names none: the executable
/// files that lie directly in the private binary directory.
pub fn executable_names(items: &Vec<DirItem>) -> (names: Vec<String>)
    ensures
        str_views(names@) == binaries_among(items@),
{
    let mut names: Vec<String> = Vec::new();
    let mut i: usize = 0;
    while i < items.len()
        invariant
            i <= items.len(),
            str_views(names@) == binaries_among(items@.take(i as int)),
        decreases items.len() - i,
    {
        let item = &items[i];
        proof {
            let t = items@.take(i + 1);
            assert(t.drop_last() == items@.take(i as int));
            assert(t.last() == *item);
        }
        let listed = match item.meta {
            Some(meta) => is_exe(&meta),
            None => false,
        };
        if listed {
            let ghost before = names@;
            names.push(item.name.clone());
            assert(str_views(names@) == str_views(before).push(item.name@));
        }
        i += 1;
    }
    assert(items@.take(items.len() as int) == items@);
    names
}

/// What an invocation asks for.
#[derive(Clone, Debug, PartialEq, Eq)]
pub enum Invocation {
    /// Print the version.
    Version,
    /// Print the usage text.
    Help,
    /// Write the manifests of the library directories.
    GenLibPath,
    /// Hand the arguments to the embedded script.
    Passthrough { args: Vec<String> },
    /// No target was named: list the private binaries and fail.
    ListBinaries,
    /// Run the bundle's application.
    AppRun { args: Vec<String> },
    /// Run the shared binary `name` through the loader.
    Managed { name: String, args: Vec<String> },
    /// Run under the alias `name`: the private binary directly where the
    /// precedence rule allows it, the shared one through the loader else.
    Alias { name: String, args: Vec<String> },
}

/// What an `Invocation` holds, as mathematical values.
pub enum InvocationView {
    Version,
    Help,
    GenLibPath,
    Passthrough { args: Seq<Seq<char>> },
    ListBinaries,
    AppRun { args: Seq<Seq<char>> },
    Managed { name: Seq<char>, args: Seq<Seq<char>> },
    Alias { name: Seq<char>, args: Seq<Seq<char>> },
}

impl View for Invocation {
    type V = InvocationView;

    open spec fn view(&self) -> InvocationView {
        match self {
            Invocation::Version => InvocationView::Version,
            Invocation::Help => InvocationView::Help,
            Invocation::GenLibPath => InvocationView::GenLibPath,
            Invocation::Passthrough { args } => InvocationView::Passthrough {
                args: str_views(args@),
            },
            Invocation::ListBinaries => InvocationView::ListBinaries,
            Invocation::AppRun { args } => InvocationView::AppRun { args: str_views(args@) },
            Invocation::Managed { name, args } => InvocationView::Managed {
                name: name@,
                args: str_views(args@),
            },
            Invocation::Alias { name, args } => InvocationView::Alias {
                name: name@,
                args: str_views(args@),
            },
        }
    }
}

/// What the launcher's own commands select, by their first argument: a
/// reserved word selects the command, and any other word names the shared
/// binary to run, with the arguments after it.
pub open spec fn self_command(args: Seq<Seq<char>>) -> InvocationView {
    if args.len() == 0 {
        InvocationView::ListBinaries
    } else if args[0] == "-v"@ || args[0] == "--version"@ {
        InvocationView::Version
    } else if args[0] == "-h"@ || args[0] == "--help"@ {
        InvocationView::Help
    } else if args[0] == "-g"@ || args[0] == "--gen-lib-path"@ {
        InvocationView::GenLibPath
    } else if args[0] == "l"@ || args[0] == "lib4bin"@ {
        InvocationView::Passthrough { args: args.skip(1) }
    } else {
        InvocationView::Managed { name: args[0], args: args.skip(1) }
    }
}

/// What an invocation under `alias` with the forwarded arguments `args` asks
/// for: the launcher's own name selects one of its commands, the reserved
/// name the application, and any other name runs under that alias.
pub open spec fn invocation_of(alias: Seq<char>, args: Seq<Seq<char>>) -> InvocationView {
    if alias == LAUNCHER_NAME@ {
        self_command(args)
    } else if alias == APPRUN_NAME@ {
        InvocationView::AppRun { args }
    } else {
        InvocationView::Alias { name: alias, args }
    }
}

/// Classifies an invocation by its alias and its forwarded arguments.
pub fn classify_invocation(alias: &str, args: &Vec<String>) -> (inv: Invocation)
    ensures
        inv@ == invocation_of(alias@, str_views(args@)),
{
    assert(str_views(args@).skip(0) == str_views(args@));
    if str_eq(alias, LAUNCHER_NAME) {
        if args.len() == 0 {
            return Invocation::ListBinaries;
        }
        let first = args[0].as_str();
        if str_eq(first, "-v") || str_eq(first, "--version") {
            Invocation::Version
        } else if str_eq(first, "-h") || str_eq(first, "--help") {
            Invocation::Help
        } else if str_eq(first, "-g") || str_eq(first, "--gen-lib-path") {
            Invocation::GenLibPath
        } else if str_eq(first, "l") || str_eq(first, "lib4bin") {
            Invocation::Passthrough { args: tail_strings(args, 1) }
        } else {
            Invocation::Managed { name: args[0].clone(), args: tail_strings(args, 1) }
        }
    } else if str_eq(alias, APPRUN_NAME) {
        Invocation::AppRun { args: tail_strings(args, 0) }
    } else {
        Invocation::Alias { name: alias.to_owned(), args: tail_strings(args, 0) }
    }
}

/// The alias of an invocation: the file name of argument zero where argument
/// zero is a symbolic link to the launcher's own executable, the file name
/// of that executable otherwise.
pub open spec fn alias_of(arg0: Seq<char>, exe_path: Seq<char>, links_to_launcher: bool) -> Seq<
    char,
> {
    if links_to_launcher {
        basename_of(arg0)
    } else {
        basename_of(exe_path)
    }
}

/// The alias of an invocation, from argument zero, the launcher's executable
/// and whether the one is a symbolic link to the other.
pub fn choose_alias(arg0: &str, exe_path: &str, links_to_launcher: bool) -> (alias: String)
    ensures
        alias@ == alias_of(arg0@, exe_path@, links_to_launcher),
{
    if links_to_launcher {
        basename(arg0)
    } else {
        basename(exe_path)
    }
}

/// The directory of argument zero: its canonical form where it has one,
/// else the directory of what a search for its file name found, else
/// nothing.
pub open spec fn arg0_dir_of(canonical: Option<Seq<char>>, searched: Option<Seq<char>>) -> Result<
    Seq<char>,
    LaunchError,
> {
    match canonical {
        Some(dir) => Ok(dir),
        None => match searched {
            Some(found) => Ok(dirname_of(found)),
            None => Err(LaunchError::Resolution),
        },
    }
}

/// The directory of argument zero, from the canonical form of its directory
/// and from what a search for its file name found.
pub fn choose_arg0_dir(canonical: Option<String>, searched: Option<String>) -> (r: Result<
    String,
    LaunchError,
>)
    ensures
        text_result(r) == arg0_dir_of(opt_text(canonical), opt_text(searched)),
{
    match canonical {
        Some(dir) => Ok(dir),
        None => match searched {
            Some(found) => Ok(dirname(found.as_str())),
            None => Err(LaunchError::Resolution),
        },
    }
}

/// Argument zero is a symbolic link whose target is the launcher's own
/// executable. A link whose target cannot be resolved leads nowhere.
pub open spec fn links_to(is_link: bool, target: Option<Seq<char>>, exe_path: Seq<char>) -> bool {
    is_link && target == Some(exe_path)
}

/// Whether argument zero is a symbolic link to the launcher's executable,
/// from whether it is a link and from the canonical form of its path.
pub fn links_to_launcher(is_link: bool, target: Option<String>, exe_path: &str) -> (r: bool)
    ensures
        r == links_to(is_link, opt_text(target), exe_path@),
{
    is_link && match target {
        Some(found) => str_eq(found.as_str(), exe_path),
        None => false,
    }
}

/// Looks `name` up with `which::which_in`: in the directories of
/// `search_path`, relative ones taken from `cwd`. Returns the path of the
/// executable that the crate finds, where it finds one and its path is
/// text. What is found depends on the file system, so nothing is claimed of
/// it.
#[verifier::external_body]
fn find_in_path(name: &str, search_path: Option<&str>, cwd: &str) -> (r: Option<String>)
{
    match which::which_in(name, search_path, cwd) {
        Ok(found) => found.to_str().map(|s| s.to_string()),
        Err(_) => None,
    }
}

/// Resolves the alias of an invocation. The directory of argument zero is
/// made canonical, or, where that fails, taken from a search for its file
/// name in `search_path`; a directory that cannot be had either way is a
/// resolution error. The file system then says whether argument zero, in
/// that directory, is a symbolic link whose target is `exe_path`.
pub fn resolve_alias(arg0: &str, exe_path: &str, search_path: Option<&str>, cwd: &str) -> (r: Result<
    String,
    LaunchError,
>)
    ensures
        r matches Err(e) ==> e == LaunchError::Resolution,
        r matches Ok(alias) ==> exists|links_to_launcher: bool|
            alias@ == #[trigger] alias_of(arg0@, exe_path@, links_to_launcher),
{
    let arg0_name = basename(arg0);
    let canonical = canonicalize(dirname(arg0).as_str());
    let searched = if canonical.is_none() {
        find_in_path(arg0_name.as_str(), search_path, cwd)
    } else {
        None
    };
    let arg0_dir = match choose_arg0_dir(canonical, searched) {
        Ok(dir) => dir,
        Err(e) => {
            return Err(e);
        },
    };
    let arg0_path = join_path(arg0_dir.as_str(), arg0_name.as_str());
    let is_link = is_symlink(arg0_path.as_str());
    let target = if is_link {
        canonicalize(arg0_path.as_str())
    } else {
        None
    };
    let links = links_to_launcher(is_link, target, exe_path);
    let alias = choose_alias(arg0, exe_path, links);
    assert(alias@ == alias_of(arg0@, exe_path@, links));
    Ok(alias)
}

} // verus!
