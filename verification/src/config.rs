//! The bundle's local configuration: lines `KEY=VALUE` whose values may name
//! other variables, applied to the environment one after another.

use vstd::prelude::*;
use crate::environ::{binding_line, Env};
use crate::text::{
    chars_of, find_char, index_of, is_whitespace, lemma_index_of, lemma_index_of_bounds,
    lemma_trim_is_part, opt_text, slice_text, split, split_text, str_views, string_of, trim,
    trim_text, views,
};

verus! {

/// What `shellexpand::env_with_context` makes of `input` when each variable
/// is looked up in `vars` and a variable that is not set is an error: the
/// expanded text, or the name of the variable at which the expansion
/// stopped.
pub uninterp spec fn shell_expansion(input: Seq<char>, vars: Map<Seq<char>, Seq<char>>) -> Result<
    Seq<char>,
    Seq<char>,
>;

/// The text holds a `$`, the sign that begins a variable reference.
pub open spec fn names_variable(input: Seq<char>) -> bool {
    input.contains('$')
}

/// The outcome of an expansion that succeeds and leaves the text as it is.
pub open spec fn unchanged(input: Seq<char>) -> Result<Seq<char>, Seq<char>> {
    Ok(input)
}

/// The view of an expansion's outcome.
pub open spec fn outcome_view(r: Result<String, String>) -> Result<Seq<char>, Seq<char>> {
    match r {
        Ok(text) => Ok(text@),
        Err(name) => Err(name@),
    }
}

/// Calls `shellexpand::env_with_context` on `input`, with a lookup in `env`
/// as its context. The result is the crate's, given a name here; that an
/// input without any `$` comes back as it is shows in the crate's source,
/// which returns such an input at once.
#[verifier::external_body]
fn expand_in(input: &str, env: &Env) -> (r: Result<String, String>)
    ensures
        outcome_view(r) == shell_expansion(input@, env@),
        !names_variable(input@) ==> outcome_view(r) == unchanged(input@),
{
    match shellexpand::env_with_context(input, |name: &str| env.lookup(name)) {
        Ok(text) => Ok(text.into_owned()),
        Err(failed) => Err(failed.var_name),
    }
}

/// The value to use after an expansion of `input` that ended in `outcome`:
/// the expanded text, or `input` as it is written where the expansion
/// failed.
pub open spec fn settled_text(input: Seq<char>, outcome: Result<Seq<char>, Seq<char>>) -> Seq<char> {
    match outcome {
        Ok(text) => text,
        Err(_) => input,
    }
}

/// The variable to warn of after an expansion that ended in `outcome`.
pub open spec fn settled_miss(outcome: Result<Seq<char>, Seq<char>>) -> Option<Seq<char>> {
    match outcome {
        Ok(_) => None,
        Err(name) => Some(name),
    }
}

/// A value with its variable references expanded against `vars`; a value
/// whose expansion fails stays as it is written.
pub open spec fn expanded(input: Seq<char>, vars: Map<Seq<char>, Seq<char>>) -> Seq<char> {
    if !names_variable(input) {
        input
    } else {
        settled_text(input, shell_expansion(input, vars))
    }
}

/// The variable at which the expansion of a value fails, if it fails.
pub open spec fn unresolved(input: Seq<char>, vars: Map<Seq<char>, Seq<char>>) -> Option<Seq<char>> {
    if !names_variable(input) {
        None
    } else {
        settled_miss(shell_expansion(input, vars))
    }
}

/// What becomes of a value once its expansion has ended in `outcome`: an
/// expansion that failed leaves the value as it is written, and names the
/// variable to warn of.
pub fn settle_expansion(input: &str, outcome: Result<String, String>) -> (r: (String, Option<String>))
    ensures
        r.0@ == settled_text(input@, outcome_view(outcome)),
        opt_text(r.1) == settled_miss(outcome_view(outcome)),
{
    match outcome {
        Ok(text) => (text, None),
        Err(name) => (input.to_owned(), Some(name)),
    }
}

/// Expands a value against `env` and says, where the expansion failed, at
/// which variable.
pub fn expand_or_keep(input: &str, env: &Env) -> (r: (String, Option<String>))
    ensures
        r.0@ == expanded(input@, env@),
        opt_text(r.1) == unresolved(input@, env@),
{
    settle_expansion(input, expand_in(input, env))
}

/// Expands the variable references in `input` against `env`. A reference
/// that cannot be expanded never fails the launch: the value then stays as
/// it is written.
pub fn expand_env_variables(input: &str, env: &Env) -> (r: String)
    ensures
        r@ == expanded(input@, env@),
{
    expand_or_keep(input, env).0
}

/// The name and the raw value that a configuration line binds, both trimmed.
/// A blank line, a line that starts with `#` and a line without `=` bind
/// nothing; the others are cut at their first `=`.
pub open spec fn binding_of(line: Seq<char>) -> Option<(Seq<char>, Seq<char>)> {
    if trim(line).len() == 0 || (line.len() > 0 && line[0] == '#') || !line.contains('=') {
        None
    } else {
        let at = index_of(line, '=');
        Some((trim(line.take(at)), trim(line.skip(at + 1))))
    }
}

/// The environment after one configuration line.
pub open spec fn line_applied(vars: Map<Seq<char>, Seq<char>>, line: Seq<char>) -> Map<
    Seq<char>,
    Seq<char>,
> {
    match binding_of(line) {
        Some((name, value)) => vars.insert(name, expanded(value, vars)),
        None => vars,
    }
}

/// The variable at which the expansion of a line's value fails, if the line
/// binds a value and its expansion fails.
pub open spec fn line_unresolved(vars: Map<Seq<char>, Seq<char>>, line: Seq<char>) -> Option<
    Seq<char>,
> {
    match binding_of(line) {
        Some((_, value)) => unresolved(value, vars),
        None => None,
    }
}

/// The environment after some configuration lines, each applied to what the
/// lines before it left.
pub open spec fn lines_applied(vars: Map<Seq<char>, Seq<char>>, lines: Seq<Seq<char>>) -> Map<
    Seq<char>,
    Seq<char>,
>
    decreases lines.len(),
{
    if lines.len() == 0 {
        vars
    } else {
        line_applied(lines_applied(vars, lines.drop_last()), lines.last())
    }
}

/// The variables at which expansions failed while the lines were applied.
pub open spec fn lines_unresolved(vars: Map<Seq<char>, Seq<char>>, lines: Seq<Seq<char>>) -> Seq<
    Seq<char>,
>
    decreases lines.len(),
{
    if lines.len() == 0 {
        Seq::<Seq<char>>::empty()
    } else {
        let before = lines_unresolved(vars, lines.drop_last());
        match line_unresolved(lines_applied(vars, lines.drop_last()), lines.last()) {
            Some(name) => before.push(name),
            None => before,
        }
    }
}

/// The environment after a whole configuration text.
pub open spec fn config_applied(vars: Map<Seq<char>, Seq<char>>, contents: Seq<char>) -> Map<
    Seq<char>,
    Seq<char>,
> {
    lines_applied(vars, split(contents, '\n'))
}

/// The variables at which expansions failed while a configuration text was
/// applied.
pub open spec fn config_unresolved(vars: Map<Seq<char>, Seq<char>>, contents: Seq<char>) -> Seq<
    Seq<char>,
> {
    lines_unresolved(vars, split(contents, '\n'))
}

/// The name and the raw value that a configuration line binds.
pub fn parse_binding(line: &Vec<char>) -> (r: Option<(Vec<char>, Vec<char>)>)
    ensures
        (match r {
            Some((name, value)) => binding_of(line@) == Some((name@, value@)),
            None => binding_of(line@) is None,
        }),
{
    if trim_text(line).len() == 0 {
        return None;
    }
    if line.len() > 0 && line[0] == '#' {
        return None;
    }
    let at = find_char(line, '=');
    proof {
        lemma_index_of_bounds(line@, '=');
    }
    if at == line.len() {
        return None;
    }
    let name = trim_text(&slice_text(line, 0, at));
    let value = trim_text(&slice_text(line, at + 1, line.len()));
    assert(line@.take(at as int) == line@.subrange(0, at as int));
    assert(line@.skip(at + 1) == line@.subrange(at + 1, line@.len() as int));
    Some((name, value))
}

/// Applies one configuration line to `env`. Returns the variable at which
/// the expansion of the line's value failed, if it did.
pub fn apply_config_line(env: &mut Env, line: &Vec<char>) -> (miss: Option<String>)
    ensures
        final(env)@ == line_applied(old(env)@, line@),
        opt_text(miss) == line_unresolved(old(env)@, line@),
{
    match parse_binding(line) {
        Some((name, value)) => {
            let raw = string_of(&value);
            let (text, miss) = expand_or_keep(raw.as_str(), env);
            let key = string_of(&name);
            env.set(key.as_str(), text.as_str());
            miss
        },
        None => None,
    }
}

/// Applies a configuration text to `env`, line by line, so that a later
/// line sees what an earlier one has set. Returns the variables at which
/// expansions failed, for the caller to warn of.
pub fn read_dotenv(contents: &str, env: &mut Env) -> (misses: Vec<String>)
    ensures
        final(env)@ == config_applied(old(env)@, contents@),
        str_views(misses@) == config_unresolved(old(env)@, contents@),
{
    let chars = chars_of(contents);
    let lines = split_text(&chars, '\n');
    let mut misses: Vec<String> = Vec::new();
    let ghost all = views(lines@);
    let mut i: usize = 0;
    while i < lines.len()
        invariant
            i <= lines.len(),
            all == views(lines@),
            env@ == lines_applied(old(env)@, all.take(i as int)),
            str_views(misses@) == lines_unresolved(old(env)@, all.take(i as int)),
        decreases lines.len() - i,
    {
        proof {
            let t = all.take(i + 1);
            assert(t.drop_last() == all.take(i as int));
            assert(t.last() == lines@[i as int]@);
        }
        match apply_config_line(env, &lines[i]) {
            Some(name) => {
                let ghost before = misses@;
                misses.push(name);
                assert(str_views(misses@) == str_views(before).push(name@));
            },
            None => {},
        }
        i += 1;
    }
    assert(all.take(lines.len() as int) == all);
    misses
}

/// A line without `=` changes nothing.
pub proof fn lemma_line_without_equals_is_ignored(vars: Map<Seq<char>, Seq<char>>, line: Seq<char>)
    requires
        !line.contains('='),
    ensures
        line_applied(vars, line) == vars,
{
}

/// A line that starts with `#` changes nothing, whatever else it holds.
pub proof fn lemma_comment_line_is_ignored(vars: Map<Seq<char>, Seq<char>>, line: Seq<char>)
    requires
        line.len() > 0,
        line[0] == '#',
    ensures
        line_applied(vars, line) == vars,
{
}

/// A line `name=value` whose name holds no `=` and does not start with `#`,
/// and whose value names no variable, sets the trimmed name to the trimmed
/// value, whether or not the name was set before.
pub proof fn lemma_plain_binding_is_set(
    vars: Map<Seq<char>, Seq<char>>,
    name: Seq<char>,
    value: Seq<char>,
)
    requires
        !name.contains('='),
        name.len() == 0 || name[0] != '#',
        !names_variable(value),
    ensures
        line_applied(vars, binding_line(name, value)) == vars.insert(trim(name), trim(value)),
{
    let line = binding_line(name, value);
    let at = name.len() as int;
    assert(line[at] == '=');
    assert(line.contains('='));
    assert forall|j: int| 0 <= j < at implies line[j] != '=' by {
        assert(line[j] == name[j]);
        if name[j] == '=' {
            assert(name.contains('='));
        }
    }
    lemma_index_of(line, '=', at);
    assert(line.take(at) == name);
    assert(line.skip(at + 1) == value);
    let ends = lemma_trim_is_part(line);
    assert(!is_whitespace('='));
    assert(ends.0 < ends.1);
    let inner = lemma_trim_is_part(value);
    if trim(value).contains('$') {
        let k = choose|k: int| 0 <= k < trim(value).len() && trim(value)[k] == '$';
        assert(value[inner.0 + k] == '$');
    }
}

} // verus!
