//! The manifest of library directories: which directories of a library tree
//! hold shared objects, and the text that lists them.

use vstd::prelude::*;
use crate::layout::BundleLayout;
use crate::path::{child_of, join_path, path_exists};
use crate::text::{
    append_text, chars_of, contains_text, ends_with, has_suffix, has_text, join, join_text,
    lemma_replace_across, lemma_replace_leaves_none, lemma_replace_pieces,
    lemma_replace_undone, replace, replace_text, starts_with, str_views, string_of, text_eq,
    views,
};

verus! {

/// One entry met while walking a directory tree.
#[derive(Clone, Debug, PartialEq, Eq)]
pub struct TreeEntry {
    /// The entry's own name, without its directory.
    pub file_name: String,
    /// The directory that holds the entry, where it has one that is text.
    pub parent: Option<String>,
    /// Whether the entry is a regular file.
    pub is_file: bool,
}

/// What a `TreeEntry` holds, as mathematical values.
pub struct TreeEntryView {
    pub file_name: Seq<char>,
    pub parent: Option<Seq<char>>,
    pub is_file: bool,
}

impl View for TreeEntry {
    type V = TreeEntryView;

    open spec fn view(&self) -> TreeEntryView {
        TreeEntryView {
            file_name: self.file_name@,
            parent: match self.parent {
                Some(p) => Some(p@),
                None => None,
            },
            is_file: self.is_file,
        }
    }
}

/// The views of some entries, in order.
pub open spec fn entry_views(v: Seq<TreeEntry>) -> Seq<TreeEntryView> {
    Seq::new(v.len(), |i: int| v[i]@)
}

/// The token that stands for the library root in a manifest: `+`.
pub open spec fn placeholder() -> Seq<char> {
    seq!['+']
}

/// The suffix of an unversioned shared object: `.so`.
pub open spec fn so_suffix() -> Seq<char> {
    seq!['.', 's', 'o']
}

/// What a versioned shared object's name holds: `.so.`.
pub open spec fn so_infix() -> Seq<char> {
    seq!['.', 's', 'o', '.']
}

/// A name as shared objects bear it: it ends with `.so`, or holds `.so.`
/// before a version.
pub open spec fn is_shared_object_name(name: Seq<char>) -> bool {
    ends_with(name, so_suffix()) || contains_text(name, so_infix())
}

/// The entry is a shared object in a directory other than the root.
pub open spec fn names_library(root: Seq<char>, e: TreeEntryView) -> bool {
    &&& e.is_file
    &&& is_shared_object_name(e.file_name)
    &&& e.parent is Some
    &&& e.parent->0 != root
}

/// The directories to record for a walk that met `entries` in this order:
/// each directory other than the root that holds a shared object, once, in
/// the order in which it was first seen.
pub open spec fn library_dirs(root: Seq<char>, entries: Seq<TreeEntryView>) -> Seq<Seq<char>>
    decreases entries.len(),
{
    if entries.len() == 0 {
        Seq::<Seq<char>>::empty()
    } else {
        let seen = library_dirs(root, entries.drop_last());
        let e = entries.last();
        if names_library(root, e) && !seen.contains(e.parent->0) {
            seen.push(e.parent->0)
        } else {
            seen
        }
    }
}

/// The lines that a manifest gives to its directories: each directory with
/// every occurrence of the root exchanged for the placeholder.
pub open spec fn manifest_lines(root: Seq<char>, dirs: Seq<Seq<char>>) -> Seq<Seq<char>> {
    Seq::new(dirs.len(), |i: int| replace(dirs[i], root, placeholder()))
}

/// The manifest's text: the placeholder on the first line, and after it one
/// line for each recorded directory, in order. A line break ends the first
/// line and stands between the others; none follows the last.
pub open spec fn manifest_text(root: Seq<char>, dirs: Seq<Seq<char>>) -> Seq<char> {
    seq!['+', '\n'] + join(manifest_lines(root, dirs), seq!['\n'])
}

/// Whether a name is one that shared objects bear.
pub fn is_library_name(name: &str) -> (r: bool)
    ensures
        r == is_shared_object_name(name@),
{
    let chars = chars_of(name);
    let suffix: Vec<char> = vec!['.', 's', 'o'];
    let infix: Vec<char> = vec!['.', 's', 'o', '.'];
    assert(suffix@ == so_suffix());
    assert(infix@ == so_infix());
    has_suffix(&chars, &suffix) || has_text(&chars, &infix)
}

/// The directories to record for a walk of the tree under `root` that met
/// `entries`.
pub fn collect_library_dirs(root: &str, entries: &Vec<TreeEntry>) -> (dirs: Vec<String>)
    ensures
        str_views(dirs@) == library_dirs(root@, entry_views(entries@)),
{
    let root_chars = chars_of(root);
    let mut dirs: Vec<String> = Vec::new();
    let mut i: usize = 0;
    while i < entries.len()
        invariant
            i <= entries.len(),
            root_chars@ == root@,
            str_views(dirs@) == library_dirs(root@, entry_views(entries@).take(i as int)),
        decreases entries.len() - i,
    {
        let e = &entries[i];
        proof {
            let t = entry_views(entries@).take(i + 1);
            assert(t.drop_last() == entry_views(entries@).take(i as int));
            assert(t.last() == e@);
        }
        if e.is_file && is_library_name(e.file_name.as_str()) {
            match &e.parent {
                Some(p) => {
                    let p_chars = chars_of(p.as_str());
                    if !text_eq(&p_chars, &root_chars) && !holds_string(&dirs, p) {
                        let ghost before = dirs@;
                        dirs.push(p.clone());
                        assert(str_views(dirs@) == str_views(before).push(p@));
                    }
                },
                None => {},
            }
        }
        i += 1;
    }
    assert(entry_views(entries@).take(entries.len() as int) == entry_views(entries@));
    dirs
}

/// Whether `s` is among `list`.
pub fn holds_string(list: &Vec<String>, s: &String) -> (r: bool)
    ensures
        r == str_views(list@).contains(s@),
{
    let mut i: usize = 0;
    while i < list.len()
        invariant
            i <= list.len(),
            forall|j: int| 0 <= j < i ==> str_views(list@)[j] != s@,
        decreases list.len() - i,
    {
        if list[i] == *s {
            assert(str_views(list@)[i as int] == s@);
            return true;
        }
        i += 1;
    }
    false
}

/// The manifest's text for a library root and the directories recorded
/// under it, built line by line.
pub fn render_manifest(root: &str, dirs: &Vec<String>) -> (text: String)
    ensures
        text@ == manifest_text(root@, str_views(dirs@)),
{
    let root_chars = chars_of(root);
    let plus: Vec<char> = vec!['+'];
    assert(plus@ == placeholder());
    let ghost all = manifest_lines(root@, str_views(dirs@));
    let mut lines: Vec<Vec<char>> = Vec::new();
    let mut i: usize = 0;
    while i < dirs.len()
        invariant
            i <= dirs.len(),
            root_chars@ == root@,
            plus@ == placeholder(),
            all == manifest_lines(root@, str_views(dirs@)),
            views(lines@) == all.take(i as int),
        decreases dirs.len() - i,
    {
        let dir = chars_of(dirs[i].as_str());
        let line = replace_text(&dir, &root_chars, &plus);
        let ghost before = lines@;
        assert(line@ == all[i as int]);
        lines.push(line);
        assert(views(lines@) == views(before).push(all[i as int]));
        i += 1;
    }
    assert(all.take(dirs.len() as int) == all);
    let line_break: Vec<char> = vec!['\n'];
    assert(line_break@ == seq!['\n']);
    let mut text: Vec<char> = vec!['+', '\n'];
    assert(text@ == seq!['+', '\n']);
    let below = join_text(&lines, &line_break);
    append_text(&mut text, &below);
    string_of(&text)
}

/// Every entry under `root` that `walkdir::WalkDir` yields without an error,
/// as the name, the parent directory and the file type that the entry
/// reports. What is found depends on the file system, so nothing is claimed
/// of it.
#[verifier::external_body]
fn walk_tree(root: &str) -> (entries: Vec<TreeEntry>)
{
    walkdir::WalkDir::new(root).into_iter().filter_map(|found| found.ok()).map(
        |e| TreeEntry {
            file_name: e.file_name().to_string_lossy().into_owned(),
            parent: e.path().parent().and_then(|p| p.to_str()).map(|p| p.to_string()),
            is_file: e.file_type().is_file(),
        },
    ).collect()
}

/// Walks the tree under `library_path` and returns the text of its manifest.
/// The order of the directories is that of the walk, which the file system
/// decides: two runs may list the same directories in another order.
pub fn gen_library_path(library_path: &str) -> (text: String)
    ensures
        exists|entries: Seq<TreeEntryView>|
            text@ == manifest_text(library_path@, #[trigger] library_dirs(library_path@, entries)),
{
    let entries = walk_tree(library_path);
    let dirs = collect_library_dirs(library_path, &entries);
    render_manifest(library_path, &dirs)
}

/// The name of the manifest file inside the library directory it describes.
pub const MANIFEST_NAME: &'static str = "lib.path";

/// A manifest to write: the file and its whole text.
#[derive(Clone, Debug, PartialEq, Eq)]
pub struct Manifest {
    /// The manifest file's path.
    pub file: String,
    /// The text that replaces whatever the file held.
    pub text: String,
}

/// `m` is the manifest of the library directory `dir`: it goes to the
/// manifest file in `dir`, and its text lists what some walk of `dir` met.
pub open spec fn is_manifest_of(m: Manifest, dir: Seq<char>) -> bool {
    &&& m.file@ == child_of(dir, MANIFEST_NAME@)
    &&& exists|entries: Seq<TreeEntryView>|
        m.text@ == manifest_text(dir, #[trigger] library_dirs(dir, entries))
}

/// The manifest of one library directory, from a walk of it.
pub fn gen_manifest(library_path: &str) -> (m: Manifest)
    ensures
        is_manifest_of(m, library_path@),
{
    Manifest {
        file: join_path(library_path, MANIFEST_NAME),
        text: gen_library_path(library_path),
    }
}

/// The library directories of a bundle that get a manifest, given which of
/// the two exist: the 64-bit directory first, then the 32-bit one, each only
/// if it exists.
pub open spec fn existing_library_dirs(layout: BundleLayout, has_lib: bool, has_lib32: bool) -> Seq<
    Seq<char>,
> {
    let first = if has_lib {
        seq![layout.shared_lib@]
    } else {
        Seq::<Seq<char>>::empty()
    };
    if has_lib32 {
        first.push(layout.shared_lib32@)
    } else {
        first
    }
}

/// `out` holds one manifest for each of `dirs`, in the same order.
pub open spec fn are_manifests_of(out: Seq<Manifest>, dirs: Seq<Seq<char>>) -> bool {
    &&& out.len() == dirs.len()
    &&& forall|i: int| 0 <= i < out.len() ==> is_manifest_of(#[trigger] out[i], dirs[i])
}

/// The library directories of a bundle that get a manifest, from whether
/// each of the two exists. A directory that is missing is passed over.
pub fn library_roots(layout: &BundleLayout, has_lib: bool, has_lib32: bool) -> (roots: Vec<String>)
    ensures
        str_views(roots@) == existing_library_dirs(*layout, has_lib, has_lib32),
{
    let mut roots: Vec<String> = Vec::new();
    if has_lib {
        roots.push(layout.shared_lib.clone());
    }
    if has_lib32 {
        roots.push(layout.shared_lib32.clone());
    }
    assert(str_views(roots@) =~= existing_library_dirs(*layout, has_lib, has_lib32));
    roots
}

/// One manifest for each of the library directories `roots`, in their
/// order, each from a walk of its directory.
pub fn gen_manifests(roots: &Vec<String>) -> (out: Vec<Manifest>)
    ensures
        are_manifests_of(out@, str_views(roots@)),
{
    let mut out: Vec<Manifest> = Vec::new();
    let mut i: usize = 0;
    while i < roots.len()
        invariant
            i <= roots.len(),
            are_manifests_of(out@, str_views(roots@).take(i as int)),
        decreases roots.len() - i,
    {
        let m = gen_manifest(roots[i].as_str());
        let ghost before = out@;
        out.push(m);
        assert forall|k: int| 0 <= k < out@.len() implies is_manifest_of(
            #[trigger] out@[k],
            str_views(roots@).take(i + 1)[k],
        ) by {
            if k < i {
                assert(out@[k] == before[k]);
                assert(str_views(roots@).take(i as int)[k] == str_views(roots@).take(i + 1)[k]);
            }
        }
        i += 1;
    }
    assert(str_views(roots@).take(roots.len() as int) == str_views(roots@));
    out
}

/// The manifests of a bundle: one for the 64-bit and one for the 32-bit
/// library directory, in this order, each only if its directory exists. A
/// directory that is missing is passed over; whether one exists is for the
/// file system to say, and the result is what `existing_library_dirs` gives
/// for its two answers: one manifest for each directory that exists.
pub fn gen_library_paths(layout: &BundleLayout) -> (out: Vec<Manifest>)
    ensures
        exists|has_lib: bool, has_lib32: bool|
            are_manifests_of(out@, #[trigger] existing_library_dirs(*layout, has_lib, has_lib32)),
{
    let has_lib = path_exists(layout.shared_lib.as_str());
    let has_lib32 = path_exists(layout.shared_lib32.as_str());
    let roots = library_roots(layout, has_lib, has_lib32);
    let out = gen_manifests(&roots);
    assert(are_manifests_of(out@, existing_library_dirs(*layout, has_lib, has_lib32)));
    out
}

/// Some entry of the walk is a shared object that lies in `dir`, and `dir`
/// is not the root.
pub open spec fn holds_library(root: Seq<char>, entries: Seq<TreeEntryView>, dir: Seq<char>) -> bool {
    exists|i: int|
        0 <= i < entries.len() && names_library(root, #[trigger] entries[i]) && entries[i].parent
            == Some(dir)
}

/// The recorded directories are exactly those, other than the root, in which
/// the walk met a shared object; none is recorded twice, and the root is
/// never among them.
pub proof fn lemma_library_dirs_members(root: Seq<char>, entries: Seq<TreeEntryView>)
    ensures
        forall|dir: Seq<char>|
            library_dirs(root, entries).contains(dir) <==> holds_library(root, entries, dir),
        library_dirs(root, entries).no_duplicates(),
        !library_dirs(root, entries).contains(root),
    decreases entries.len(),
{
    let dirs = library_dirs(root, entries);
    if entries.len() == 0 {
        assert forall|dir: Seq<char>| dirs.contains(dir) <==> holds_library(
            root,
            entries,
            dir,
        ) by {}
    } else {
        let init = entries.drop_last();
        let seen = library_dirs(root, init);
        let e = entries.last();
        lemma_library_dirs_members(root, init);
        let added = names_library(root, e) && !seen.contains(e.parent->0);
        assert forall|dir: Seq<char>| dirs.contains(dir) <==> holds_library(
            root,
            entries,
            dir,
        ) by {
            if dirs.contains(dir) {
                if seen.contains(dir) {
                    assert(holds_library(root, init, dir));
                    let i = choose|i: int|
                        0 <= i < init.len() && names_library(root, #[trigger] init[i])
                            && init[i].parent == Some(dir);
                    assert(entries[i] == init[i]);
                } else {
                    let k = choose|k: int| 0 <= k < dirs.len() && dirs[k] == dir;
                    if k < seen.len() {
                        assert(seen[k] == dir);
                    }
                    assert(added && dir == e.parent->0);
                    assert(entries[entries.len() - 1] == e);
                }
            }
            if holds_library(root, entries, dir) {
                let i = choose|i: int|
                    0 <= i < entries.len() && names_library(root, #[trigger] entries[i])
                        && entries[i].parent == Some(dir);
                if i < init.len() {
                    assert(init[i] == entries[i]);
                    assert(holds_library(root, init, dir));
                    let k = choose|k: int| 0 <= k < seen.len() && seen[k] == dir;
                    assert(dirs[k] == dir);
                } else {
                    if seen.contains(dir) {
                        let k = choose|k: int| 0 <= k < seen.len() && seen[k] == dir;
                        assert(dirs[k] == dir);
                    } else {
                        assert(dirs[dirs.len() - 1] == dir);
                    }
                }
            }
        }
        if added {
            assert forall|a: int, b: int| 0 <= a < dirs.len() && 0 <= b < dirs.len() && a
                != b implies dirs[a] != dirs[b] by {
                if a < seen.len() && b < seen.len() {
                    assert(seen[a] != seen[b]);
                } else if a < seen.len() {
                    assert(seen.contains(seen[a]));
                } else {
                    assert(seen.contains(seen[b]));
                }
            }
            if dirs.contains(root) {
                let k = choose|k: int| 0 <= k < dirs.len() && dirs[k] == root;
                if k < seen.len() {
                    assert(seen.contains(root));
                }
            }
        }
    }
}

/// A manifest never holds its library root as it is written: wherever the
/// root stood there is the placeholder. This is stated of roots that are not
/// empty and hold neither `+` nor a line break.
pub proof fn lemma_manifest_hides_root(root: Seq<char>, dirs: Seq<Seq<char>>)
    requires
        root.len() > 0,
        !root.contains('+'),
        !root.contains('\n'),
    ensures
        !contains_text(manifest_text(root, dirs), root),
{
    let plus = placeholder();
    let below = join(dirs, seq!['\n']);
    let raw = plus + seq!['\n'] + below;
    lemma_replace_across(plus, '\n', below, root, plus);
    lemma_replace_pieces(dirs, '\n', root, plus);
    assert(replace(plus, root, plus) =~= plus) by {
        assert(plus.skip(1) =~= Seq::<char>::empty());
        assert(replace(Seq::<char>::empty(), root, plus) =~= Seq::<char>::empty());
        if starts_with(plus, root) {
            assert(plus.subrange(0, 1)[0] == root[0]);
            assert(root.contains('+'));
        }
    }
    assert(manifest_text(root, dirs) =~= replace(raw, root, plus));
    lemma_replace_leaves_none(raw, root, plus);
}

/// A directory in which the walk met no shared object is not recorded.
pub proof fn lemma_plain_directory_is_absent(
    root: Seq<char>,
    entries: Seq<TreeEntryView>,
    dir: Seq<char>,
)
    requires
        forall|i: int|
            0 <= i < entries.len() && (#[trigger] entries[i]).parent == Some(dir)
                ==> !is_shared_object_name(entries[i].file_name),
    ensures
        !library_dirs(root, entries).contains(dir),
{
    lemma_library_dirs_members(root, entries);
    if library_dirs(root, entries).contains(dir) {
        assert(holds_library(root, entries, dir));
        let i = choose|i: int|
            0 <= i < entries.len() && names_library(root, #[trigger] entries[i])
                && entries[i].parent == Some(dir);
        assert(is_shared_object_name(entries[i].file_name));
    }
}

/// Two walks that met the same entries, in whatever order, record the same
/// directories.
pub proof fn lemma_walk_order_keeps_dirs(
    root: Seq<char>,
    first: Seq<TreeEntryView>,
    second: Seq<TreeEntryView>,
)
    requires
        forall|e: TreeEntryView| first.contains(e) <==> second.contains(e),
    ensures
        library_dirs(root, first).to_set() == library_dirs(root, second).to_set(),
{
    lemma_library_dirs_members(root, first);
    lemma_library_dirs_members(root, second);
    let a = library_dirs(root, first);
    let b = library_dirs(root, second);
    assert forall|dir: Seq<char>| holds_library(root, first, dir) implies holds_library(
        root,
        second,
        dir,
    ) by {
        let i = choose|i: int|
            0 <= i < first.len() && names_library(root, #[trigger] first[i]) && first[i].parent
                == Some(dir);
        assert(first.contains(first[i]));
        let j = choose|j: int| 0 <= j < second.len() && second[j] == first[i];
        assert(names_library(root, second[j]));
    }
    assert forall|dir: Seq<char>| holds_library(root, second, dir) implies holds_library(
        root,
        first,
        dir,
    ) by {
        let i = choose|i: int|
            0 <= i < second.len() && names_library(root, #[trigger] second[i])
                && second[i].parent == Some(dir);
        assert(second.contains(second[i]));
        let j = choose|j: int| 0 <= j < first.len() && first[j] == second[i];
        assert(names_library(root, first[j]));
    }
    assert forall|dir: Seq<char>| a.contains(dir) <==> b.contains(dir) by {
        assert(a.contains(dir) <==> holds_library(root, first, dir));
        assert(b.contains(dir) <==> holds_library(root, second, dir));
    }
    assert(a.to_set() =~= b.to_set());
}

/// A directory that begins with the root is listed with the placeholder in
/// the root's place.
pub proof fn lemma_root_becomes_placeholder(root: Seq<char>, rest: Seq<char>)
    requires
        root.len() > 0,
    ensures
        replace(root + rest, root, placeholder()) == placeholder() + replace(
            rest,
            root,
            placeholder(),
        ),
{
    let dir = root + rest;
    assert(dir.subrange(0, root.len() as int) =~= root);
    assert(dir.skip(root.len() as int) =~= rest);
}

/// A directory in which the walk met no shared object has no line in the
/// manifest: no line is that directory with the root exchanged for the
/// placeholder. This is stated of directories that do not hold the
/// placeholder `+` themselves, so that a line tells which directory it
/// stands for.
pub proof fn lemma_plain_directory_has_no_line(
    root: Seq<char>,
    entries: Seq<TreeEntryView>,
    dir: Seq<char>,
)
    requires
        root.len() > 0,
        !dir.contains('+'),
        forall|i: int|
            0 <= i < entries.len() && (#[trigger] entries[i]).parent is Some
                ==> !entries[i].parent->0.contains('+'),
        forall|i: int|
            0 <= i < entries.len() && (#[trigger] entries[i]).parent == Some(dir)
                ==> !is_shared_object_name(entries[i].file_name),
    ensures
        !manifest_lines(root, library_dirs(root, entries)).contains(
            replace(dir, root, placeholder()),
        ),
{
    let dirs = library_dirs(root, entries);
    let lines = manifest_lines(root, dirs);
    let line = replace(dir, root, placeholder());
    lemma_library_dirs_members(root, entries);
    lemma_plain_directory_is_absent(root, entries, dir);
    if lines.contains(line) {
        let k = choose|k: int| 0 <= k < lines.len() && lines[k] == line;
        assert(dirs.contains(dirs[k]));
        assert(holds_library(root, entries, dirs[k]));
        let i = choose|i: int|
            0 <= i < entries.len() && names_library(root, #[trigger] entries[i])
                && entries[i].parent == Some(dirs[k]);
        assert(!dirs[k].contains('+'));
        lemma_replace_undone(dirs[k], root, '+');
        lemma_replace_undone(dir, root, '+');
        assert(dirs[k] == dir);
    }
}

} // verus!
