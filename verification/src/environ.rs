//! The process environment as an explicit value: a finite map from variable
//! names to values, handed through the launch and changed only at the points
//! the launch rules name.

use vstd::prelude::*;
use crate::text::{append_text, chars_of, str_views, string_of};

verus! {

/// A list of bindings: names with their values.
pub type Bindings = Seq<(Seq<char>, Seq<char>)>;

/// An environment: each variable once, in the order in which it was first
/// set.
#[derive(Debug)]
pub struct Env {
    vars: Vec<(String, String)>,
}

/// What a lookup answers for a variable that is not set.
#[derive(Clone, Copy, Debug)]
pub struct Unset;

/// The map that a list of bindings stands for; a later binding of a name
/// replaces an earlier one.
pub open spec fn bindings_map(pairs: Bindings) -> Map<Seq<char>, Seq<char>>
    decreases pairs.len(),
{
    if pairs.len() == 0 {
        Map::empty()
    } else {
        bindings_map(pairs.drop_last()).insert(pairs.last().0, pairs.last().1)
    }
}

/// No name is bound twice.
pub open spec fn names_distinct(pairs: Bindings) -> bool {
    forall|i: int, j: int|
        0 <= i < pairs.len() && 0 <= j < pairs.len() && i != j ==> pairs[i].0 != pairs[j].0
}

/// The list holds each variable of the map once, with its value, and nothing
/// else.
pub open spec fn enumerates(pairs: Bindings, vars: Map<Seq<char>, Seq<char>>) -> bool {
    &&& names_distinct(pairs)
    &&& forall|i: int|
        0 <= i < pairs.len() ==> vars.contains_key((#[trigger] pairs[i]).0) && vars[pairs[i].0]
            == pairs[i].1
    &&& forall|name: Seq<char>| #[trigger]
        vars.contains_key(name) ==> exists|i: int| 0 <= i < pairs.len() && (#[trigger] pairs[i]).0 == name
}

/// The line that hands one variable to a new process image: `name=value`.
pub open spec fn binding_line(name: Seq<char>, value: Seq<char>) -> Seq<char> {
    name + seq!['='] + value
}

/// The lines of some bindings, in order.
pub open spec fn binding_lines(pairs: Bindings) -> Seq<Seq<char>> {
    Seq::new(pairs.len(), |i: int| binding_line(pairs[i].0, pairs[i].1))
}

/// The views of some pairs of strings, in order.
pub open spec fn pair_views(v: Seq<(String, String)>) -> Bindings {
    Seq::new(v.len(), |i: int| (v[i].0@, v[i].1@))
}

/// A name is in the map exactly if some binding bears it.
proof fn lemma_bindings_keys(pairs: Bindings)
    ensures
        forall|name: Seq<char>| #[trigger]
            bindings_map(pairs).contains_key(name) <==> exists|i: int|
                0 <= i < pairs.len() && (#[trigger] pairs[i]).0 == name,
    decreases pairs.len(),
{
    if pairs.len() > 0 {
        let init = pairs.drop_last();
        lemma_bindings_keys(init);
        assert forall|name: Seq<char>| #[trigger]
            bindings_map(pairs).contains_key(name) <==> exists|i: int|
                0 <= i < pairs.len() && (#[trigger] pairs[i]).0 == name by {
            if bindings_map(pairs).contains_key(name) {
                if name == pairs.last().0 {
                    assert(pairs[pairs.len() - 1].0 == name);
                } else {
                    assert(bindings_map(init).contains_key(name));
                    let i = choose|i: int| 0 <= i < init.len() && (#[trigger] init[i]).0 == name;
                    assert(pairs[i].0 == name);
                }
            }
            if exists|i: int| 0 <= i < pairs.len() && (#[trigger] pairs[i]).0 == name {
                let i = choose|i: int| 0 <= i < pairs.len() && (#[trigger] pairs[i]).0 == name;
                if i < init.len() {
                    assert(init[i].0 == name);
                    assert(bindings_map(init).contains_key(name));
                }
            }
        }
    }
}

/// Where no name is bound twice, the map gives each binding's value.
proof fn lemma_bindings_lookup(pairs: Bindings, i: int)
    requires
        names_distinct(pairs),
        0 <= i < pairs.len(),
    ensures
        bindings_map(pairs).contains_key(pairs[i].0),
        bindings_map(pairs)[pairs[i].0] == pairs[i].1,
    decreases pairs.len(),
{
    let init = pairs.drop_last();
    if i < pairs.len() - 1 {
        assert(names_distinct(init)) by {
            assert forall|a: int, b: int|
                0 <= a < init.len() && 0 <= b < init.len() && a != b implies init[a].0
                != init[b].0 by {
                assert(init[a] == pairs[a] && init[b] == pairs[b]);
            }
        }
        assert(init[i] == pairs[i]);
        lemma_bindings_lookup(init, i);
        assert(pairs[pairs.len() - 1].0 != pairs[i].0);
    }
}

/// Where no name is bound twice, the list enumerates its map.
proof fn lemma_bindings_enumerate(pairs: Bindings)
    requires
        names_distinct(pairs),
    ensures
        enumerates(pairs, bindings_map(pairs)),
{
    lemma_bindings_keys(pairs);
    assert forall|i: int| 0 <= i < pairs.len() implies bindings_map(pairs).contains_key(
        (#[trigger] pairs[i]).0,
    ) && bindings_map(pairs)[pairs[i].0] == pairs[i].1 by {
        lemma_bindings_lookup(pairs, i);
    }
}

/// A new value at a binding's place is a new value in the map.
proof fn lemma_bindings_update(pairs: Bindings, i: int, value: Seq<char>)
    requires
        names_distinct(pairs),
        0 <= i < pairs.len(),
    ensures
        names_distinct(pairs.update(i, (pairs[i].0, value))),
        bindings_map(pairs.update(i, (pairs[i].0, value))) == bindings_map(pairs).insert(
            pairs[i].0,
            value,
        ),
    decreases pairs.len(),
{
    let name = pairs[i].0;
    let changed = pairs.update(i, (name, value));
    let init = pairs.drop_last();
    assert(names_distinct(changed)) by {
        assert forall|a: int, b: int|
            0 <= a < changed.len() && 0 <= b < changed.len() && a != b implies changed[a].0
            != changed[b].0 by {
            assert(changed[a].0 == pairs[a].0 && changed[b].0 == pairs[b].0);
        }
    }
    if i == pairs.len() - 1 {
        assert(changed.drop_last() == init);
        assert(bindings_map(changed) =~= bindings_map(pairs).insert(name, value));
    } else {
        assert(names_distinct(init)) by {
            assert forall|a: int, b: int|
                0 <= a < init.len() && 0 <= b < init.len() && a != b implies init[a].0
                != init[b].0 by {
                assert(init[a] == pairs[a] && init[b] == pairs[b]);
            }
        }
        assert(init[i] == pairs[i]);
        lemma_bindings_update(init, i, value);
        assert(changed.drop_last() == init.update(i, (name, value)));
        assert(changed.last() == pairs.last());
        assert(pairs[pairs.len() - 1].0 != pairs[i].0);
        assert(bindings_map(changed) =~= bindings_map(pairs).insert(name, value));
    }
}

/// Taking a binding out of the list takes its name out of the map.
proof fn lemma_bindings_remove(pairs: Bindings, i: int)
    requires
        names_distinct(pairs),
        0 <= i < pairs.len(),
    ensures
        names_distinct(pairs.remove(i)),
        bindings_map(pairs.remove(i)) == bindings_map(pairs).remove(pairs[i].0),
    decreases pairs.len(),
{
    let name = pairs[i].0;
    let fewer = pairs.remove(i);
    let init = pairs.drop_last();
    assert(names_distinct(fewer)) by {
        assert forall|a: int, b: int|
            0 <= a < fewer.len() && 0 <= b < fewer.len() && a != b implies fewer[a].0
            != fewer[b].0 by {
            let a0 = if a < i { a } else { a + 1 };
            let b0 = if b < i { b } else { b + 1 };
            assert(fewer[a] == pairs[a0] && fewer[b] == pairs[b0]);
        }
    }
    assert(names_distinct(init)) by {
        assert forall|a: int, b: int|
            0 <= a < init.len() && 0 <= b < init.len() && a != b implies init[a].0
            != init[b].0 by {
            assert(init[a] == pairs[a] && init[b] == pairs[b]);
        }
    }
    if i == pairs.len() - 1 {
        assert(fewer == init);
        lemma_bindings_keys(init);
        if bindings_map(init).contains_key(name) {
            let k = choose|k: int| 0 <= k < init.len() && (#[trigger] init[k]).0 == name;
            assert(pairs[k].0 == name);
        }
        assert(bindings_map(fewer) =~= bindings_map(pairs).remove(name));
    } else {
        assert(init[i] == pairs[i]);
        lemma_bindings_remove(init, i);
        assert(fewer.drop_last() == init.remove(i));
        assert(fewer.last() == pairs.last());
        assert(pairs[pairs.len() - 1].0 != pairs[i].0);
        assert(bindings_map(fewer) =~= bindings_map(pairs).remove(name));
    }
}

impl View for Env {
    type V = Map<Seq<char>, Seq<char>>;

    closed spec fn view(&self) -> Map<Seq<char>, Seq<char>> {
        bindings_map(self.entries())
    }
}

impl Clone for Env {
    /// An environment with the same variables and values.
    fn clone(&self) -> (copy: Env)
        ensures
            copy@ == self@,
    {
        proof {
            use_type_invariant(self);
        }
        Env { vars: self.copy_vars() }
    }
}

impl Env {
    /// The bindings in their order.
    pub closed spec fn entries(&self) -> Bindings {
        pair_views(self.vars@)
    }

    #[verifier::type_invariant]
    spec fn each_name_once(&self) -> bool {
        names_distinct(pair_views(self.vars@))
    }

    /// The environment without any variable.
    pub fn new() -> (env: Env)
        ensures
            env@ == Map::<Seq<char>, Seq<char>>::empty(),
    {
        let env = Env { vars: Vec::new() };
        assert(env.entries() =~= Seq::empty());
        env
    }

    /// The environment that results from setting the given variables in
    /// order: a name given twice keeps its later value.
    pub fn from_pairs(pairs: &Vec<(String, String)>) -> (env: Env)
        ensures
            env@ == bindings_map(pair_views(pairs@)),
    {
        let mut env = Env::new();
        let mut i: usize = 0;
        while i < pairs.len()
            invariant
                i <= pairs.len(),
                env@ == bindings_map(pair_views(pairs@).take(i as int)),
            decreases pairs.len() - i,
        {
            proof {
                let t = pair_views(pairs@).take(i + 1);
                assert(t.drop_last() == pair_views(pairs@).take(i as int));
                assert(t.last() == (pairs@[i as int].0@, pairs@[i as int].1@));
            }
            env.set(pairs[i].0.as_str(), pairs[i].1.as_str());
            i += 1;
        }
        assert(pair_views(pairs@).take(pairs.len() as int) == pair_views(pairs@));
        env
    }

    /// Hands out the bindings and leaves the environment empty.
    fn take_vars(&mut self) -> (vars: Vec<(String, String)>)
        ensures
            pair_views(vars@) == old(self).entries(),
    {
        let mut fresh = Env { vars: Vec::new() };
        std::mem::swap(self, &mut fresh);
        fresh.vars
    }

    /// The position of `name` among the bindings, if it is bound.
    fn position(&self, name: &str) -> (r: Option<usize>)
        ensures
            (match r {
                Some(i) => i < self.entries().len() && self.entries()[i as int].0 == name@,
                None => !self@.contains_key(name@),
            }),
    {
        let key = name.to_owned();
        let mut i: usize = 0;
        while i < self.vars.len()
            invariant
                i <= self.vars@.len(),
                key@ == name@,
                forall|j: int| 0 <= j < i ==> (#[trigger] self.entries()[j]).0 != name@,
            decreases self.vars@.len() - i,
        {
            if self.vars[i].0 == key {
                return Some(i);
            }
            i += 1;
        }
        proof {
            lemma_bindings_keys(self.entries());
        }
        None
    }

    /// The value of `name`, if it is set.
    pub fn get(&self, name: &str) -> (r: Option<String>)
        ensures
            (match r {
                Some(value) => self@.contains_key(name@) && self@[name@] == value@,
                None => !self@.contains_key(name@),
            }),
    {
        proof {
            use_type_invariant(self);
        }
        match self.position(name) {
            Some(i) => {
                proof {
                    lemma_bindings_lookup(self.entries(), i as int);
                }
                Some(self.vars[i].1.clone())
            },
            None => None,
        }
    }

    /// The value of `name` as a variable lookup gives it: found, or an error
    /// for a variable that is not set.
    pub fn lookup(&self, name: &str) -> (r: Result<Option<String>, Unset>)
        ensures
            (match r {
                Ok(found) => found matches Some(value) && self@.contains_key(name@)
                    && self@[name@] == value@,
                Err(_) => !self@.contains_key(name@),
            }),
    {
        match self.get(name) {
            Some(value) => Ok(Some(value)),
            None => Err(Unset),
        }
    }

    /// Whether `name` is set.
    pub fn contains(&self, name: &str) -> (r: bool)
        ensures
            r == self@.contains_key(name@),
    {
        proof {
            use_type_invariant(self);
        }
        match self.position(name) {
            Some(i) => {
                proof {
                    lemma_bindings_lookup(self.entries(), i as int);
                }
                true
            },
            None => false,
        }
    }

    /// Binds `name` to `value`, in place of what it was bound to before.
    pub fn set(&mut self, name: &str, value: &str)
        ensures
            final(self)@ == old(self)@.insert(name@, value@),
    {
        proof {
            use_type_invariant(&*self);
        }
        let found = self.position(name);
        match found {
            Some(i) => {
                proof {
                    lemma_bindings_update(self.entries(), i as int, value@);
                }
                let ghost before = self.entries();
                let mut vars = self.take_vars();
                vars.set(i, (name.to_owned(), value.to_owned()));
                assert(pair_views(vars@) == before.update(i as int, (name@, value@)));
                *self = Env { vars };
            },
            None => {
                let ghost before = self.entries();
                proof {
                    lemma_bindings_keys(before);
                }
                let mut vars = self.take_vars();
                vars.push((name.to_owned(), value.to_owned()));
                let ghost after = pair_views(vars@);
                assert(after == before.push((name@, value@)));
                assert(after.drop_last() == before);
                assert(names_distinct(after)) by {
                    assert forall|a: int, b: int|
                        0 <= a < after.len() && 0 <= b < after.len() && a != b implies after[a].0
                        != after[b].0 by {
                        if a < before.len() {
                            assert(before[a] == after[a]);
                        }
                        if b < before.len() {
                            assert(before[b] == after[b]);
                        }
                    }
                }
                *self = Env { vars };
            },
        }
    }

    /// Takes `name` out of the environment.
    pub fn remove(&mut self, name: &str)
        ensures
            final(self)@ == old(self)@.remove(name@),
    {
        proof {
            use_type_invariant(&*self);
        }
        let found = self.position(name);
        match found {
            Some(i) => {
                proof {
                    lemma_bindings_remove(self.entries(), i as int);
                }
                let ghost before = self.entries();
                let mut vars = self.take_vars();
                vars.remove(i);
                assert(pair_views(vars@) == before.remove(i as int));
                *self = Env { vars };
            },
            None => {
                assert(self@.remove(name@) =~= self@);
            },
        }
    }

    /// The variables with their values, each once.
    pub fn pairs(&self) -> (list: Vec<(String, String)>)
        ensures
            enumerates(pair_views(list@), self@),
    {
        proof {
            use_type_invariant(self);
            lemma_bindings_enumerate(self.entries());
        }
        self.copy_vars()
    }

    /// A copy of the bindings, in their order.
    fn copy_vars(&self) -> (list: Vec<(String, String)>)
        ensures
            pair_views(list@) == self.entries(),
    {
        let mut list: Vec<(String, String)> = Vec::new();
        let mut i: usize = 0;
        while i < self.vars.len()
            invariant
                i <= self.vars@.len(),
                pair_views(list@) == self.entries().take(i as int),
            decreases self.vars@.len() - i,
        {
            let ghost before = list@;
            list.push((self.vars[i].0.clone(), self.vars[i].1.clone()));
            assert(pair_views(list@) == pair_views(before).push(self.entries()[i as int]));
            i += 1;
        }
        assert(self.entries().take(self.vars@.len() as int) == self.entries());
        list
    }

    /// The environment block for a new process image: one line `name=value`
    /// for each variable.
    pub fn to_block(&self) -> (block: Vec<String>)
        ensures
            exists|pairs: Bindings| #[trigger]
                enumerates(pairs, self@) && str_views(block@) == binding_lines(pairs),
    {
        proof {
            use_type_invariant(self);
            lemma_bindings_enumerate(self.entries());
        }
        let mut block: Vec<String> = Vec::new();
        let mut i: usize = 0;
        while i < self.vars.len()
            invariant
                i <= self.vars@.len(),
                str_views(block@) == binding_lines(self.entries()).take(i as int),
            decreases self.vars@.len() - i,
        {
            let mut line = chars_of(self.vars[i].0.as_str());
            line.push('=');
            let value = chars_of(self.vars[i].1.as_str());
            append_text(&mut line, &value);
            let ghost before = block@;
            block.push(string_of(&line));
            assert(str_views(block@) == str_views(before).push(line@));
            assert(line@ == binding_lines(self.entries())[i as int]);
            i += 1;
        }
        assert(binding_lines(self.entries()).take(self.vars@.len() as int) == binding_lines(
            self.entries(),
        ));
        assert(enumerates(self.entries(), self@) && str_views(block@) == binding_lines(
            self.entries(),
        ));
        block
    }
}

/// The value of `var`, or the empty text where it is not set.
pub fn get_env_var(env: &Env, var: &str) -> (value: String)
    ensures
        value@ == (if env@.contains_key(var@) {
            env@[var@]
        } else {
            Seq::<char>::empty()
        }),
{
    match env.get(var) {
        Some(value) => value,
        None => String::new(),
    }
}

/// What `key` holds once `value` has been put before its present value,
/// with a `:` between the two.
pub open spec fn prepended(vars: Map<Seq<char>, Seq<char>>, key: Seq<char>, value: Seq<char>) -> Seq<
    char,
> {
    value + seq![':'] + if vars.contains_key(key) {
        vars[key]
    } else {
        Seq::<char>::empty()
    }
}

/// Puts `value` before what `key` holds, with a `:` between the two; a key
/// that is not set counts as empty.
pub fn add_to_env(env: &mut Env, key: &str, value: &str)
    ensures
        final(env)@ == old(env)@.insert(key@, prepended(old(env)@, key@, value@)),
{
    let current = get_env_var(env, key);
    let mut chars = chars_of(value);
    chars.push(':');
    let tail = chars_of(current.as_str());
    append_text(&mut chars, &tail);
    assert(chars@ =~= prepended(env@, key@, value@));
    let joined = string_of(&chars);
    env.set(key, joined.as_str());
}

} // verus!
