//! The handoff: the program, the arguments and the environment with which
//! the launcher's process image is replaced.

use vstd::prelude::*;
use crate::config::{config_applied, config_unresolved, read_dotenv};
use crate::elf::{has_elf_magic, header_is_elf32, is_elf32};
use crate::environ::{add_to_env, prepended, Env};
use crate::error::{text_result, LaunchError};
use crate::interp::{get_interpreter, interpreter_candidates, interpreter_found, Arch};
use crate::layout::BundleLayout;
use crate::path::{child_of, join_path};
use crate::text::{opt_str, str_views, tail_strings};

verus! {

/// The variable that the bundle's root is exported under.
pub const BUNDLE_DIR_VAR: &'static str = "SHARUN_DIR";

/// The variable that names the loader to take in place of the
/// architecture's own.
pub const LDNAME_VAR: &'static str = "SHARUN_LDNAME";

/// The variable that names the directory to change into before the handoff.
pub const WORKING_DIR_VAR: &'static str = "SHARUN_WORKING_DIR";

/// The search path for programs.
pub const PATH_VAR: &'static str = "PATH";

/// The variable that an application finds its bundle's root under.
pub const APPDIR_VAR: &'static str = "APPDIR";

/// The variable that an application finds the invocation's argument zero
/// under.
pub const ARGV0_VAR: &'static str = "ARGV0";

/// The option by which the loader is given the library directory.
pub const LIBRARY_PATH_FLAG: &'static str = "--library-path";

/// The name of the bundle's configuration file, in its root.
pub const CONFIG_NAME: &'static str = ".env";

/// The name of the marker file that names the bundle's application, in its
/// root.
pub const APP_MARKER_NAME: &'static str = ".app";

/// A handoff that is ready to be made. The new image's argument vector is
/// `program` followed by `args`.
#[derive(Clone, Debug)]
pub struct ExecPlan {
    /// The file whose image replaces the launcher's.
    pub program: String,
    /// The arguments after argument zero.
    pub args: Vec<String>,
    /// The environment of the new image.
    pub env: Env,
    /// The directory to change into first, if any.
    pub working_dir: Option<String>,
    /// Whether `program` is the dynamic loader, run on the target's behalf.
    pub through_loader: bool,
}

/// What an `ExecPlan` holds, as mathematical values.
pub struct ExecPlanView {
    pub program: Seq<char>,
    pub args: Seq<Seq<char>>,
    pub env: Map<Seq<char>, Seq<char>>,
    pub working_dir: Option<Seq<char>>,
    pub through_loader: bool,
}

impl View for ExecPlan {
    type V = ExecPlanView;

    open spec fn view(&self) -> ExecPlanView {
        ExecPlanView {
            program: self.program@,
            args: str_views(self.args@),
            env: self.env@,
            working_dir: match self.working_dir {
                Some(dir) => Some(dir@),
                None => None,
            },
            through_loader: self.through_loader,
        }
    }
}

/// The argument vector of the new image: the program, then its arguments.
pub open spec fn argv_of(plan: ExecPlanView) -> Seq<Seq<char>> {
    seq![plan.program] + plan.args
}

/// The environment with the private binary directory put first on the
/// search path.
pub open spec fn path_prepended(vars: Map<Seq<char>, Seq<char>>, bin_dir: Seq<char>) -> Map<
    Seq<char>,
    Seq<char>,
> {
    vars.insert(PATH_VAR@, prepended(vars, PATH_VAR@, bin_dir))
}

/// The handoff to a private binary: the binary itself with the forwarded
/// arguments, no loader and no library path, and the private binary
/// directory first on the search path.
pub open spec fn direct_plan(
    bin_dir: Seq<char>,
    name: Seq<char>,
    args: Seq<Seq<char>>,
    vars: Map<Seq<char>, Seq<char>>,
) -> ExecPlanView {
    ExecPlanView {
        program: child_of(bin_dir, name),
        args,
        env: path_prepended(vars, bin_dir),
        working_dir: None,
        through_loader: false,
    }
}

/// The environment of a bundle's application: the private binary directory
/// first on the search path, argument zero of the invocation unless the
/// variable for it is set already, and the bundle's root.
pub open spec fn app_env(
    vars: Map<Seq<char>, Seq<char>>,
    root: Seq<char>,
    bin_dir: Seq<char>,
    arg0: Seq<char>,
) -> Map<Seq<char>, Seq<char>> {
    let with_path = path_prepended(vars, bin_dir);
    let with_argv0 = if with_path.contains_key(ARGV0_VAR@) {
        with_path
    } else {
        with_path.insert(ARGV0_VAR@, arg0)
    };
    with_argv0.insert(APPDIR_VAR@, root)
}

/// The handoff to a bundle's application: the private binary of its name,
/// run directly, in the application's environment.
pub open spec fn app_plan(
    root: Seq<char>,
    bin_dir: Seq<char>,
    app: Seq<char>,
    arg0: Seq<char>,
    args: Seq<Seq<char>>,
    vars: Map<Seq<char>, Seq<char>>,
) -> ExecPlanView {
    ExecPlanView {
        program: child_of(bin_dir, app),
        args,
        env: app_env(vars, root, bin_dir, arg0),
        working_dir: None,
        through_loader: false,
    }
}

/// The directory to change into before the handoff: what the variable for
/// it holds, where it is set and not empty.
pub open spec fn working_dir_of(vars: Map<Seq<char>, Seq<char>>) -> Option<Seq<char>> {
    if vars.contains_key(WORKING_DIR_VAR@) && vars[WORKING_DIR_VAR@].len() > 0 {
        Some(vars[WORKING_DIR_VAR@])
    } else {
        None
    }
}

/// The handoff to a shared binary: the loader, told the library directory
/// and the target, then the forwarded arguments. The variable that named a
/// working directory is taken out of the environment, so that the target
/// does not see it.
pub open spec fn managed_plan(
    library_dir: Seq<char>,
    target: Seq<char>,
    loader: Seq<char>,
    args: Seq<Seq<char>>,
    vars: Map<Seq<char>, Seq<char>>,
) -> ExecPlanView {
    ExecPlanView {
        program: loader,
        args: seq![LIBRARY_PATH_FLAG@, library_dir, target] + args,
        env: if working_dir_of(vars) is Some {
            vars.remove(WORKING_DIR_VAR@)
        } else {
            vars
        },
        working_dir: working_dir_of(vars),
        through_loader: true,
    }
}

/// The value of a variable, where it is set.
pub open spec fn var_of(vars: Map<Seq<char>, Seq<char>>, name: Seq<char>) -> Option<Seq<char>> {
    if vars.contains_key(name) {
        Some(vars[name])
    } else {
        None
    }
}

/// The environment once the bundle's configuration, if it has one, has been
/// applied.
pub open spec fn configured(vars: Map<Seq<char>, Seq<char>>, config: Option<Seq<char>>) -> Map<
    Seq<char>,
    Seq<char>,
> {
    match config {
        Some(contents) => config_applied(vars, contents),
        None => vars,
    }
}

/// The variables at which expansions failed while the configuration was
/// applied.
pub open spec fn config_misses(vars: Map<Seq<char>, Seq<char>>, config: Option<Seq<char>>) -> Seq<
    Seq<char>,
> {
    match config {
        Some(contents) => config_unresolved(vars, contents),
        None => Seq::<Seq<char>>::empty(),
    }
}

/// The outcome of preparing a managed execution, given which loader
/// candidates exist: the library directory follows the target's word size,
/// the configuration is applied first, the loader is looked for under the
/// name that the configured environment gives, and a loader that is not
/// found ends the launch.
pub open spec fn managed_outcome(
    layout: BundleLayout,
    name: Seq<char>,
    elf32: bool,
    config: Option<Seq<char>>,
    args: Seq<Seq<char>>,
    vars: Map<Seq<char>, Seq<char>>,
    arch: Arch,
    present: Seq<bool>,
) -> Result<(ExecPlanView, Seq<Seq<char>>), LaunchError> {
    let library_dir = if elf32 {
        layout.shared_lib32@
    } else {
        layout.shared_lib@
    };
    let after = configured(vars, config);
    let candidates = interpreter_candidates(var_of(after, LDNAME_VAR@), arch);
    match interpreter_found(library_dir, candidates, present) {
        Ok(loader) => Ok(
            (
                managed_plan(library_dir, child_of(layout.shared_bin@, name), loader, args, after),
                config_misses(vars, config),
            ),
        ),
        Err(e) => Err(e),
    }
}

/// The view of a prepared handoff with its warnings, or of the error.
pub open spec fn prepared_view(r: Result<(ExecPlan, Vec<String>), LaunchError>) -> Result<
    (ExecPlanView, Seq<Seq<char>>),
    LaunchError,
> {
    match r {
        Ok((plan, misses)) => Ok((plan@, str_views(misses@))),
        Err(e) => Err(e),
    }
}

/// Exports the bundle's root to the environment.
pub fn export_bundle_dir(env: &mut Env, layout: &BundleLayout)
    ensures
        final(env)@ == old(env)@.insert(BUNDLE_DIR_VAR@, layout.root@),
{
    env.set(BUNDLE_DIR_VAR, layout.root.as_str());
}

/// The path of the shared binary `name`.
pub fn target_path(layout: &BundleLayout, name: &str) -> (path: String)
    ensures
        path@ == child_of(layout.shared_bin@, name@),
{
    join_path(layout.shared_bin.as_str(), name)
}

/// The path of the private binary `name`.
pub fn private_path(layout: &BundleLayout, name: &str) -> (path: String)
    ensures
        path@ == child_of(layout.bin_dir@, name@),
{
    join_path(layout.bin_dir.as_str(), name)
}

/// The path of the bundle's configuration file.
pub fn config_path(layout: &BundleLayout) -> (path: String)
    ensures
        path@ == child_of(layout.root@, CONFIG_NAME@),
{
    join_path(layout.root.as_str(), CONFIG_NAME)
}

/// The path of the marker file that names the bundle's application.
pub fn app_marker_path(layout: &BundleLayout) -> (path: String)
    ensures
        path@ == child_of(layout.root@, APP_MARKER_NAME@),
{
    join_path(layout.root.as_str(), APP_MARKER_NAME)
}

/// The handoff to the private binary `name`, run directly.
pub fn plan_direct(layout: &BundleLayout, name: &str, args: &Vec<String>, env: Env) -> (plan:
    ExecPlan)
    ensures
        plan@ == direct_plan(layout.bin_dir@, name@, str_views(args@), env@),
{
    let mut env = env;
    add_to_env(&mut env, PATH_VAR, layout.bin_dir.as_str());
    assert(str_views(args@).skip(0) == str_views(args@));
    ExecPlan {
        program: join_path(layout.bin_dir.as_str(), name),
        args: tail_strings(args, 0),
        env,
        working_dir: None,
        through_loader: false,
    }
}

/// The handoff to the bundle's application `app`: its private binary, run
/// directly, with the bundle's root and the invocation's argument zero in
/// its environment. A value that the environment holds for argument zero
/// already is never replaced.
pub fn plan_app_run(
    layout: &BundleLayout,
    app: &str,
    arg0: &str,
    args: &Vec<String>,
    env: Env,
) -> (plan: ExecPlan)
    ensures
        plan@ == app_plan(layout.root@, layout.bin_dir@, app@, arg0@, str_views(args@), env@),
{
    let mut env = env;
    add_to_env(&mut env, PATH_VAR, layout.bin_dir.as_str());
    if !env.contains(ARGV0_VAR) {
        env.set(ARGV0_VAR, arg0);
    }
    env.set(APPDIR_VAR, layout.root.as_str());
    assert(str_views(args@).skip(0) == str_views(args@));
    ExecPlan {
        program: join_path(layout.bin_dir.as_str(), app),
        args: tail_strings(args, 0),
        env,
        working_dir: None,
        through_loader: false,
    }
}

/// The handoff to the shared binary `target` through `loader`, with the
/// libraries of `library_dir`.
pub fn plan_managed(
    library_dir: &str,
    target: &str,
    loader: &str,
    args: &Vec<String>,
    env: Env,
) -> (plan: ExecPlan)
    ensures
        plan@ == managed_plan(library_dir@, target@, loader@, str_views(args@), env@),
{
    let mut env = env;
    let working_dir = match env.get(WORKING_DIR_VAR) {
        Some(dir) => {
            if dir.as_str().is_empty() {
                None
            } else {
                env.remove(WORKING_DIR_VAR);
                Some(dir)
            }
        },
        None => None,
    };
    let mut full: Vec<String> = Vec::new();
    full.push(LIBRARY_PATH_FLAG.to_owned());
    full.push(library_dir.to_owned());
    full.push(target.to_owned());
    let mut i: usize = 0;
    while i < args.len()
        invariant
            i <= args.len(),
            str_views(full@) == seq![LIBRARY_PATH_FLAG@, library_dir@, target@] + str_views(
                args@,
            ).take(i as int),
        decreases args.len() - i,
    {
        let ghost before = full@;
        full.push(args[i].clone());
        assert(str_views(full@) == str_views(before).push(args@[i as int]@));
        i += 1;
    }
    assert(str_views(args@).take(args.len() as int) == str_views(args@));
    ExecPlan { program: loader.to_owned(), args: full, env, working_dir, through_loader: true }
}

/// Prepares the managed execution of the shared binary `name`: classifies
/// it by `header`, the first bytes of its file; applies `config`, the
/// contents of the bundle's configuration file where it has one; finds the
/// loader in the library directory of the binary's word size; and plans the
/// handoff. With the plan come the variables at which expansions in the
/// configuration failed, to warn of. A header that is too short or does not
/// begin with the magic bytes is an I/O error, whatever else holds; which
/// loader candidates exist is for the file system to say.
pub fn prepare_managed(
    layout: &BundleLayout,
    name: &str,
    header: &[u8],
    config: Option<&str>,
    args: &Vec<String>,
    env: Env,
    arch: Arch,
) -> (r: Result<(ExecPlan, Vec<String>), LaunchError>)
    ensures
        !has_elf_magic(header@) ==> (r matches Err(e) && e == LaunchError::Io),
        has_elf_magic(header@) ==> exists|present: Seq<bool>|
            prepared_view(r) == #[trigger] managed_outcome(
                *layout,
                name@,
                header_is_elf32(header@),
                opt_str(config),
                str_views(args@),
                env@,
                arch,
                present,
            ),
{
    let elf32 = match is_elf32(header) {
        Ok(narrow) => narrow,
        Err(e) => {
            return Err(e);
        },
    };
    let library_dir = layout.library_dir(elf32);
    let mut env = env;
    let ghost vars = env@;
    let misses = match config {
        Some(contents) => read_dotenv(contents, &mut env),
        None => {
            let none: Vec<String> = Vec::new();
            assert(str_views(none@) =~= Seq::<Seq<char>>::empty());
            none
        },
    };
    let ldname = env.get(LDNAME_VAR);
    let found = match &ldname {
        Some(name) => get_interpreter(library_dir.as_str(), Some(name.as_str()), arch),
        None => get_interpreter(library_dir.as_str(), None, arch),
    };
    assert(env@ == configured(vars, opt_str(config)));
    assert(str_views(misses@) == config_misses(vars, opt_str(config)));
    let ghost present = choose|present: Seq<bool>|
        text_result(found) == #[trigger] interpreter_found(
            library_dir@,
            interpreter_candidates(var_of(env@, LDNAME_VAR@), arch),
            present,
        );
    let r = match found {
        Ok(loader) => {
            let target = target_path(layout, name);
            Ok((plan_managed(library_dir.as_str(), target.as_str(), loader.as_str(), args, env), misses))
        },
        Err(e) => Err(e),
    };
    assert(prepared_view(r) == managed_outcome(
        *layout,
        name@,
        header_is_elf32(header@),
        opt_str(config),
        str_views(args@),
        vars,
        arch,
        present,
    ));
    r
}

/// The image that a managed execution hands over to is the loader's, and
/// its argument vector is the loader, the option for the library path, the
/// library directory, the target, and then the forwarded arguments as they
/// came.
pub proof fn lemma_managed_argv(
    library_dir: Seq<char>,
    target: Seq<char>,
    loader: Seq<char>,
    args: Seq<Seq<char>>,
    vars: Map<Seq<char>, Seq<char>>,
)
    ensures
        argv_of(managed_plan(library_dir, target, loader, args, vars)) == seq![
            loader,
            LIBRARY_PATH_FLAG@,
            library_dir,
            target,
        ] + args,
{
    let plan = managed_plan(library_dir, target, loader, args, vars);
    assert(argv_of(plan) =~= seq![loader, LIBRARY_PATH_FLAG@, library_dir, target] + args);
}

/// The variable that named a working directory never reaches the target of
/// a managed execution.
pub proof fn lemma_working_dir_does_not_leak(
    library_dir: Seq<char>,
    target: Seq<char>,
    loader: Seq<char>,
    args: Seq<Seq<char>>,
    vars: Map<Seq<char>, Seq<char>>,
)
    requires
        working_dir_of(vars) is Some,
    ensures
        !managed_plan(library_dir, target, loader, args, vars).env.contains_key(WORKING_DIR_VAR@),
        managed_plan(library_dir, target, loader, args, vars).working_dir == Some(
            vars[WORKING_DIR_VAR@],
        ),
{
}

/// An application always finds its bundle's root in its environment, and a
/// value for argument zero that came from outside is never replaced; where
/// none came, the invocation's own argument zero is given.
pub proof fn lemma_app_env(
    vars: Map<Seq<char>, Seq<char>>,
    root: Seq<char>,
    bin_dir: Seq<char>,
    arg0: Seq<char>,
)
    ensures
        app_env(vars, root, bin_dir, arg0)[APPDIR_VAR@] == root,
        app_env(vars, root, bin_dir, arg0).contains_key(ARGV0_VAR@),
        vars.contains_key(ARGV0_VAR@) ==> app_env(vars, root, bin_dir, arg0)[ARGV0_VAR@]
            == vars[ARGV0_VAR@],
        !vars.contains_key(ARGV0_VAR@) ==> app_env(vars, root, bin_dir, arg0)[ARGV0_VAR@] == arg0,
{
    reveal_strlit("PATH");
    reveal_strlit("ARGV0");
    reveal_strlit("APPDIR");
    assert(PATH_VAR@.len() != ARGV0_VAR@.len());
    assert(APPDIR_VAR@.len() != ARGV0_VAR@.len());
}

} // verus!
