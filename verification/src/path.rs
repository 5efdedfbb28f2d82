//! Paths as `/`-delimited text, and the questions the launcher asks of the
//! file system about them.

use vstd::prelude::*;
use crate::error::{text_result, LaunchError};
use crate::text::{
    append_text, chars_of, ends_with, join, join_text, lemma_join_first, lemma_join_split,
    lemma_split_nonempty, lemma_split_pieces, lemma_split_single, opt_text, split, split_text,
    string_of, views,
};

verus! {

/// The last `/`-delimited segment of a path.
pub open spec fn basename_of(path: Seq<char>) -> Seq<char> {
    split(path, '/').last()
}

/// A path that begins with none of `/`, `.` and `~`.
pub open spec fn looks_relative(path: Seq<char>) -> bool {
    path.len() == 0 || !(path[0] == '/' || path[0] == '.' || path[0] == '~')
}

/// All but the last segment of a path. A path that looks relative gets a
/// leading `.` segment, and a path of the form `/x` an empty leading segment,
/// so that its directory is `/`. A path of one segment has the empty
/// directory.
pub open spec fn dirname_of(path: Seq<char>) -> Seq<char> {
    let pieces = split(path, '/');
    let kept = if pieces.len() == 1 {
        pieces
    } else if looks_relative(path) {
        seq![seq!['.']] + pieces
    } else if pieces.len() == 2 && path[0] == '/' {
        seq![Seq::<char>::empty()] + pieces
    } else {
        pieces
    };
    join(kept.drop_last(), seq!['/'])
}

/// The path of `name` inside the directory `dir`: `dir`, a `/`, and `name`.
pub open spec fn child_of(dir: Seq<char>, name: Seq<char>) -> Seq<char> {
    dir + seq!['/'] + name
}

/// The last `/`-delimited segment of a path given by its characters.
pub fn basename_text(path: &Vec<char>) -> (name: Vec<char>)
    ensures
        name@ == basename_of(path@),
{
    let mut pieces = split_text(path, '/');
    proof {
        lemma_split_nonempty(path@, '/');
    }
    let ghost all = views(pieces@);
    let last = pieces.pop();
    match last {
        Some(name) => {
            assert(name@ == all.last());
            name
        },
        None => Vec::new(),
    }
}

/// The last `/`-delimited segment of `path`.
pub fn basename(path: &str) -> (name: String)
    ensures
        name@ == basename_of(path@),
{
    let chars = chars_of(path);
    string_of(&basename_text(&chars))
}

/// All but the last segment of `path`, as `dirname_of` defines it.
pub fn dirname(path: &str) -> (dir: String)
    ensures
        dir@ == dirname_of(path@),
{
    let chars = chars_of(path);
    let mut pieces = split_text(&chars, '/');
    let ghost parts = split(path@, '/');
    proof {
        lemma_split_nonempty(path@, '/');
    }
    if pieces.len() == 1 {
    } else if chars.len() == 0 || !(chars[0] == '/' || chars[0] == '.' || chars[0] == '~') {
        let dot: Vec<char> = vec!['.'];
        assert(dot@ == seq!['.']);
        pieces.insert(0, dot);
        assert(views(pieces@) == seq![seq!['.']] + parts);
    } else if pieces.len() == 2 && chars[0] == '/' {
        pieces.insert(0, Vec::new());
        assert(views(pieces@) == seq![Seq::<char>::empty()] + parts);
    }
    let ghost kept = views(pieces@);
    pieces.pop();
    assert(views(pieces@) == kept.drop_last());
    let slash: Vec<char> = vec!['/'];
    assert(slash@ == seq!['/']);
    let joined = join_text(&pieces, &slash);
    string_of(&joined)
}

/// The path of `name` inside the directory `dir`.
pub fn join_path(dir: &str, name: &str) -> (path: String)
    ensures
        path@ == child_of(dir@, name@),
{
    let mut chars = chars_of(dir);
    chars.push('/');
    let tail = chars_of(name);
    append_text(&mut chars, &tail);
    string_of(&chars)
}

/// Whether `path` names a regular file, as `std::path::Path::is_file` finds
/// it, following symbolic links. The answer is the file system's.
#[verifier::external_body]
pub fn is_file(path: &str) -> (r: bool)
{
    std::path::Path::new(path).is_file()
}

/// Whether anything exists at `path`, as `std::path::Path::exists` finds it.
#[verifier::external_body]
pub(crate) fn path_exists(path: &str) -> (r: bool)
{
    std::path::Path::new(path).exists()
}

/// Whether `path` itself is a symbolic link, as `std::path::Path::is_symlink`
/// finds it.
#[verifier::external_body]
pub(crate) fn is_symlink(path: &str) -> (r: bool)
{
    std::path::Path::new(path).is_symlink()
}

/// The canonical form of `path` from `std::path::Path::canonicalize`, where
/// there is one and it is text; `None` where the call fails, as it does for
/// a path that does not exist.
#[verifier::external_body]
pub(crate) fn canonicalize(path: &str) -> (r: Option<String>)
{
    match std::path::Path::new(path).canonicalize() {
        Ok(found) => found.to_str().map(|s| s.to_string()),
        Err(_) => None,
    }
}

/// What a resolution comes to: the canonical form that was found, or a
/// resolution error where none was.
pub open spec fn resolution_of(found: Option<Seq<char>>) -> Result<Seq<char>, LaunchError> {
    match found {
        Some(canonical) => Ok(canonical),
        None => Err(LaunchError::Resolution),
    }
}

/// What a resolution comes to, from the canonical form where one was found.
pub fn resolution(found: Option<String>) -> (r: Result<String, LaunchError>)
    ensures
        text_result(r) == resolution_of(opt_text(found)),
{
    match found {
        Some(canonical) => Ok(canonical),
        None => Err(LaunchError::Resolution),
    }
}

/// The canonical, absolute form of `path`, with symbolic links and relative
/// components resolved. Whether there is one is for the file system to say;
/// a path that cannot be resolved is a resolution error and nothing else.
pub fn realpath(path: &str) -> (r: Result<String, LaunchError>)
    ensures
        r matches Err(e) ==> e == LaunchError::Resolution,
{
    resolution(canonicalize(path))
}

/// A path ends with its last segment, which holds no `/`; where the path
/// holds a `/`, one stands right before the segment, and where it holds
/// none, the segment is the whole path.
pub proof fn lemma_basename_ends_path(path: Seq<char>)
    ensures
        ends_with(path, basename_of(path)),
        !basename_of(path).contains('/'),
        path.contains('/') ==> path[path.len() - basename_of(path).len() - 1] == '/',
        !path.contains('/') ==> basename_of(path) == path,
{
    let pieces = split(path, '/');
    let name = basename_of(path);
    lemma_split_nonempty(path, '/');
    lemma_split_pieces(path, '/');
    lemma_split_single(path, '/');
    lemma_join_split(path, '/');
    if pieces.len() == 1 {
        assert(path.subrange(0, path.len() as int) == path);
    } else {
        let before = join(pieces.drop_last(), seq!['/']);
        assert(path == before + seq!['/'] + name);
        assert(path.subrange(path.len() - name.len(), path.len() as int) == name);
    }
}

/// How a path with a `/` is made of its directory and its last segment: the
/// two joined by `/` give the path back, but that a path which looks
/// relative comes back behind `./`, and that the directory of `/x` is `/`
/// itself.
pub proof fn lemma_dirname_rejoins(path: Seq<char>)
    requires
        path.contains('/'),
    ensures
        looks_relative(path) ==> child_of(dirname_of(path), basename_of(path)) == seq!['.', '/']
            + path,
        !looks_relative(path) && split(path, '/').len() == 2 && path[0] == '/' ==> dirname_of(path)
            == seq!['/'] && path == seq!['/'] + basename_of(path),
        !looks_relative(path) && !(split(path, '/').len() == 2 && path[0] == '/') ==> child_of(
            dirname_of(path),
            basename_of(path),
        ) == path,
{
    let pieces = split(path, '/');
    let name = basename_of(path);
    let slash = seq!['/'];
    lemma_split_nonempty(path, '/');
    lemma_split_pieces(path, '/');
    lemma_split_single(path, '/');
    lemma_join_split(path, '/');
    let before = join(pieces.drop_last(), slash);
    assert(path == before + slash + name);
    if looks_relative(path) {
        let kept = seq![seq!['.']] + pieces;
        assert(kept.drop_last() == seq![seq!['.']] + pieces.drop_last());
        lemma_join_first(seq!['.'], pieces.drop_last(), slash);
        assert(seq!['.'] + slash + before + slash + name =~= seq!['.', '/'] + path);
    } else if pieces.len() == 2 && path[0] == '/' {
        let kept = seq![Seq::<char>::empty()] + pieces;
        let two = kept.drop_last();
        assert(two == seq![Seq::<char>::empty(), pieces[0]]);
        assert(pieces.drop_last() == seq![pieces[0]]);
        assert(before == pieces[0]);
        if pieces[0].len() > 0 {
            assert(path[0] == pieces[0][0]);
            assert(pieces[0].contains('/'));
        }
        assert(pieces[0] =~= Seq::<char>::empty());
        assert(two.drop_last() == seq![Seq::<char>::empty()]);
        assert(join(two.drop_last(), slash) == two.drop_last()[0]);
        assert(two.last() == pieces[0]);
        assert(join(two, slash) == join(two.drop_last(), slash) + slash + two.last());
        assert(join(two, slash) =~= slash);
        assert(path =~= slash + name);
    } else {
    }
}

} // verus!
