//! The application entry point of a bundle: which binary the bundle names
//! as its application, in a marker file or in a desktop entry.

use vstd::prelude::*;
use crate::error::{text_result, LaunchError};
use crate::path::{basename_of, basename_text};
use crate::text::{
    chars_of, ends_with, find_char, first_token, first_token_text, has_prefix, has_suffix,
    index_of, opt_str, slice_text, split, split_text, starts_with, str_views, string_of,
    strip_quotes, strip_quotes_text, trim, trim_text, views,
};

verus! {

/// The key of the line that names a desktop entry's program.
pub const EXEC_KEY: &'static str = "Exec=";

/// The suffix by which a file in the bundle's root is known as a desktop
/// entry.
pub const DESKTOP_SUFFIX: &'static str = ".desktop";

/// Whether a file of this name is a desktop entry.
pub fn is_desktop_entry(file_name: &str) -> (r: bool)
    ensures
        r == ends_with(file_name@, DESKTOP_SUFFIX@),
{
    let name = chars_of(file_name);
    let suffix = chars_of(DESKTOP_SUFFIX);
    has_suffix(&name, &suffix)
}

/// The program that a line of a desktop entry names: for a line that begins
/// with the key, the first word after it, without the arguments that follow.
pub open spec fn exec_entry(line: Seq<char>) -> Option<Seq<char>> {
    if starts_with(line, EXEC_KEY@) {
        Some(first_token(line.skip(EXEC_KEY@.len() as int)))
    } else {
        None
    }
}

/// The program named by the first line, from `from` on, that begins with
/// the key; empty where no line does.
pub open spec fn first_exec_entry(lines: Seq<Seq<char>>, from: int) -> Seq<char>
    decreases lines.len() - from,
{
    if from < 0 || from >= lines.len() {
        Seq::<char>::empty()
    } else {
        match exec_entry(lines[from]) {
            Some(program) => program,
            None => first_exec_entry(lines, from + 1),
        }
    }
}

/// The program that a desktop entry names.
pub open spec fn desktop_exec(data: Seq<char>) -> Seq<char> {
    first_exec_entry(split(data, '\n'), 0)
}

/// The text up to its first line break.
pub open spec fn first_line(s: Seq<char>) -> Seq<char> {
    s.take(index_of(s, '\n'))
}

/// The application's name in what a marker file or a desktop entry gave:
/// its first line that is not blank, trimmed, without the directories before
/// the last segment and without quotation marks.
pub open spec fn app_name_in(raw: Seq<char>) -> Seq<char> {
    strip_quotes(basename_of(trim(first_line(trim(raw)))))
}

/// What names the application: the marker file where the bundle has one,
/// else the program of the desktop entry met last, else nothing.
pub open spec fn app_source(marker: Option<Seq<char>>, desktop_entries: Seq<Seq<char>>) -> Seq<char> {
    match marker {
        Some(contents) => contents,
        None => if desktop_entries.len() > 0 {
            desktop_exec(desktop_entries.last())
        } else {
            Seq::<char>::empty()
        },
    }
}

/// The application's name, or the error for a bundle that names none.
pub open spec fn app_name(marker: Option<Seq<char>>, desktop_entries: Seq<Seq<char>>) -> Result<
    Seq<char>,
    LaunchError,
> {
    let name = app_name_in(app_source(marker, desktop_entries));
    if name.len() == 0 {
        Err(LaunchError::NotFound)
    } else {
        Ok(name)
    }
}

/// The program that a desktop entry names.
pub fn desktop_exec_name(data: &str) -> (program: String)
    ensures
        program@ == desktop_exec(data@),
{
    let chars = chars_of(data);
    let lines = split_text(&chars, '\n');
    let key = chars_of(EXEC_KEY);
    let ghost all = views(lines@);
    let mut i: usize = 0;
    while i < lines.len()
        invariant
            i <= lines.len(),
            all == views(lines@),
            all == split(data@, '\n'),
            key@ == EXEC_KEY@,
            first_exec_entry(all, 0) == first_exec_entry(all, i as int),
        decreases lines.len() - i,
    {
        let line = &lines[i];
        assert(all[i as int] == line@);
        if has_prefix(line, &key) {
            let rest = slice_text(line, key.len(), line.len());
            assert(line@.skip(key@.len() as int) == line@.subrange(
                key@.len() as int,
                line@.len() as int,
            ));
            return string_of(&first_token_text(&rest));
        }
        i += 1;
    }
    String::new()
}

/// The application's name in what a marker file or a desktop entry gave.
pub fn app_name_of(raw: &str) -> (name: String)
    ensures
        name@ == app_name_in(raw@),
{
    let chars = chars_of(raw);
    let trimmed = trim_text(&chars);
    let end = find_char(&trimmed, '\n');
    let line = slice_text(&trimmed, 0, end);
    assert(trimmed@.take(end as int) == trimmed@.subrange(0, end as int));
    let word = trim_text(&line);
    let last = basename_text(&word);
    string_of(&strip_quotes_text(&last))
}

/// Resolves the application's name from the contents of the marker file,
/// where the bundle has one, and of the desktop entries in the bundle's
/// root, in the order in which they were met. A bundle in which neither
/// gives a name has no application.
pub fn resolve_app_name(marker: Option<&str>, desktop_entries: &Vec<String>) -> (r: Result<
    String,
    LaunchError,
>)
    ensures
        text_result(r) == app_name(opt_str(marker), str_views(desktop_entries@)),
{
    let name = match marker {
        Some(contents) => app_name_of(contents),
        None => {
            if desktop_entries.len() > 0 {
                let last = &desktop_entries[desktop_entries.len() - 1];
                assert(str_views(desktop_entries@).last() == last@);
                let program = desktop_exec_name(last.as_str());
                app_name_of(program.as_str())
            } else {
                let nothing = String::new();
                app_name_of(nothing.as_str())
            }
        },
    };
    if name.as_str().is_empty() {
        Err(LaunchError::NotFound)
    } else {
        Ok(name)
    }
}

} // verus!
