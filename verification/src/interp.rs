//! The dynamic loader: which file names are tried for it, in which order,
//! and which of them is taken.

use vstd::prelude::*;
use crate::error::{text_result, LaunchError};
use crate::path::{child_of, join_path, path_exists};
use crate::text::{opt_str, str_views};

verus! {

/// The architecture the launcher is built for.
#[derive(Clone, Copy, Debug, PartialEq, Eq, Structural)]
pub enum Arch {
    X86_64,
    Aarch64,
    /// An architecture for which no loader name is known.
    Other,
}

/// The loader names of an architecture, in the order of their priority: the
/// glibc loader, the musl loader, and for x86-64 the generic name last.
pub open spec fn default_interpreters(arch: Arch) -> Seq<Seq<char>> {
    match arch {
        Arch::X86_64 => seq!["ld-linux-x86-64.so.2"@, "ld-musl-x86_64.so.1"@, "ld-linux.so.2"@],
        Arch::Aarch64 => seq!["ld-linux-aarch64.so.1"@, "ld-musl-aarch64.so.1"@],
        Arch::Other => Seq::<Seq<char>>::empty(),
    }
}

/// The names to try: the configured name alone where one is given and not
/// empty, the architecture's own names otherwise.
pub open spec fn interpreter_candidates(ldname: Option<Seq<char>>, arch: Arch) -> Seq<Seq<char>> {
    match ldname {
        Some(name) => if name.len() > 0 {
            seq![name]
        } else {
            default_interpreters(arch)
        },
        None => default_interpreters(arch),
    }
}

/// The candidate at position `i` was found to exist. A position of which
/// nothing is known counts as absent.
pub open spec fn is_present(present: Seq<bool>, i: int) -> bool {
    0 <= i < present.len() && present[i]
}

/// The first position from `from` on, below `n`, whose candidate exists; `n`
/// if there is none.
pub open spec fn first_present(present: Seq<bool>, n: int, from: int) -> int
    decreases n - from,
{
    if from >= n {
        n
    } else if is_present(present, from) {
        from
    } else {
        first_present(present, n, from + 1)
    }
}

/// The loader that is taken: the first candidate that exists in the library
/// directory, by its path there. Where none exists, nothing is found.
pub open spec fn interpreter_found(
    library_path: Seq<char>,
    candidates: Seq<Seq<char>>,
    present: Seq<bool>,
) -> Result<Seq<char>, LaunchError> {
    let k = first_present(present, candidates.len() as int, 0);
    if k < candidates.len() {
        Ok(child_of(library_path, candidates[k]))
    } else {
        Err(LaunchError::NotFound)
    }
}

/// What `first_present` finds is a position from `from` on with no present
/// candidate between `from` and it.
pub proof fn lemma_first_present(present: Seq<bool>, n: int, from: int)
    requires
        0 <= from <= n,
    ensures
        from <= first_present(present, n, from) <= n,
        forall|j: int| from <= j < first_present(present, n, from) ==> !is_present(present, j),
        first_present(present, n, from) < n ==> is_present(
            present,
            first_present(present, n, from),
        ),
    decreases n - from,
{
    if from < n && !is_present(present, from) {
        lemma_first_present(present, n, from + 1);
    }
}

/// The loader names of an architecture, in the order of their priority.
pub fn default_interpreter_names(arch: Arch) -> (names: Vec<String>)
    ensures
        str_views(names@) == default_interpreters(arch),
{
    let mut names: Vec<String> = Vec::new();
    match arch {
        Arch::X86_64 => {
            names.push("ld-linux-x86-64.so.2".to_owned());
            names.push("ld-musl-x86_64.so.1".to_owned());
            names.push("ld-linux.so.2".to_owned());
        },
        Arch::Aarch64 => {
            names.push("ld-linux-aarch64.so.1".to_owned());
            names.push("ld-musl-aarch64.so.1".to_owned());
        },
        Arch::Other => {},
    }
    assert(str_views(names@) =~= default_interpreters(arch));
    names
}

/// The names to try for the loader, given the configured name, if any.
pub fn interpreter_names(ldname: Option<&str>, arch: Arch) -> (names: Vec<String>)
    ensures
        str_views(names@) == interpreter_candidates(opt_str(ldname), arch),
{
    match ldname {
        Some(name) => {
            if !name.is_empty() {
                let mut names: Vec<String> = Vec::new();
                names.push(name.to_owned());
                assert(str_views(names@) =~= seq![name@]);
                names
            } else {
                default_interpreter_names(arch)
            }
        },
        None => default_interpreter_names(arch),
    }
}

/// The loader that is taken, given for each candidate whether it exists in
/// the library directory.
pub fn select_interpreter(library_path: &str, candidates: &Vec<String>, present: &Vec<bool>) -> (r:
    Result<String, LaunchError>)
    ensures
        text_result(r) == interpreter_found(library_path@, str_views(candidates@), present@),
{
    let mut i: usize = 0;
    while i < candidates.len()
        invariant
            i <= candidates.len(),
            first_present(present@, candidates@.len() as int, 0) == first_present(
                present@,
                candidates@.len() as int,
                i as int,
            ),
        decreases candidates.len() - i,
    {
        if i < present.len() && present[i] {
            return Ok(join_path(library_path, candidates[i].as_str()));
        }
        i += 1;
    }
    Err(LaunchError::NotFound)
}

/// Finds the loader in `library_path`: asks the file system for each
/// candidate in turn, up to the first that exists, and takes what
/// `select_interpreter` gives for the answers. The candidates are the
/// configured name alone, or the architecture's names. Which of them exist
/// is for the file system to say; a candidate that was not asked for, after
/// one that exists, counts as absent.
pub fn get_interpreter(library_path: &str, ldname: Option<&str>, arch: Arch) -> (r: Result<
    String,
    LaunchError,
>)
    ensures
        exists|present: Seq<bool>|
            text_result(r) == #[trigger] interpreter_found(
                library_path@,
                interpreter_candidates(opt_str(ldname), arch),
                present,
            ),
{
    let candidates = interpreter_names(ldname, arch);
    let mut present: Vec<bool> = Vec::new();
    let mut found = false;
    while !found && present.len() < candidates.len()
        invariant
            present.len() <= candidates.len(),
        decreases candidates.len() - present.len() + (if found { 0int } else { 1int }),
    {
        let path = join_path(library_path, candidates[present.len()].as_str());
        found = path_exists(path.as_str());
        present.push(found);
    }
    let r = select_interpreter(library_path, &candidates, &present);
    assert(text_result(r) == interpreter_found(
        library_path@,
        interpreter_candidates(opt_str(ldname), arch),
        present@,
    ));
    r
}

/// Where exactly one candidate exists, it is the loader, whatever its
/// position.
pub proof fn lemma_only_candidate_is_found(
    library_path: Seq<char>,
    candidates: Seq<Seq<char>>,
    present: Seq<bool>,
    k: int,
)
    requires
        0 <= k < candidates.len(),
        is_present(present, k),
        forall|j: int| 0 <= j < candidates.len() && j != k ==> !is_present(present, j),
    ensures
        interpreter_found(library_path, candidates, present) == Ok::<Seq<char>, LaunchError>(
            child_of(library_path, candidates[k]),
        ),
{
    lemma_first_present(present, candidates.len() as int, 0);
}

/// Where several candidates exist, the earliest in the order of priority is
/// the loader.
pub proof fn lemma_earliest_candidate_is_found(
    library_path: Seq<char>,
    candidates: Seq<Seq<char>>,
    present: Seq<bool>,
    k: int,
)
    requires
        0 <= k < candidates.len(),
        is_present(present, k),
        forall|j: int| 0 <= j < k ==> !is_present(present, j),
    ensures
        interpreter_found(library_path, candidates, present) == Ok::<Seq<char>, LaunchError>(
            child_of(library_path, candidates[k]),
        ),
{
    lemma_first_present(present, candidates.len() as int, 0);
}

/// Where no candidate exists, no loader is found.
pub proof fn lemma_no_candidate_is_not_found(
    library_path: Seq<char>,
    candidates: Seq<Seq<char>>,
    present: Seq<bool>,
)
    requires
        forall|j: int| 0 <= j < candidates.len() ==> !is_present(present, j),
    ensures
        interpreter_found(library_path, candidates, present) == Err::<Seq<char>, LaunchError>(
            LaunchError::NotFound,
        ),
{
    lemma_first_present(present, candidates.len() as int, 0);
}

} // verus!
