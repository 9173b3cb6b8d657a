//! The variables of a run: a table from names to texts.

use vstd::prelude::*;
use crate::text::{copy_chars, same_chars, texts};

verus! {

/// The table that binds each name of `names` to the value at its place in
/// `values`; of two bindings of one name the later one counts.
pub open spec fn bindings(names: Seq<Seq<char>>, values: Seq<Seq<char>>) -> Map<
    Seq<char>,
    Seq<char>,
>
    decreases names.len(),
{
    if names.len() == 0 || values.len() != names.len() {
        Map::empty()
    } else {
        bindings(names.drop_last(), values.drop_last()).insert(names.last(), values.last())
    }
}

/// A name that stands at `i` and not after `i` is bound to the value at `i`.
pub proof fn lemma_bound(names: Seq<Seq<char>>, values: Seq<Seq<char>>, i: int)
    requires
        names.len() == values.len(),
        0 <= i < names.len(),
        forall|j: int| i < j < names.len() ==> names[j] != names[i],
    ensures
        bindings(names, values).contains_key(names[i]),
        bindings(names, values)[names[i]] == values[i],
    decreases names.len(),
{
    if i < names.len() - 1 {
        assert(names.drop_last()[i] == names[i]);
        assert(forall|j: int|
            i < j < names.drop_last().len() ==> names.drop_last()[j] == names[j]);
        lemma_bound(names.drop_last(), values.drop_last(), i);
        assert(names.last() != names[i]);
        assert(values.drop_last()[i] == values[i]);
    }
}

/// A name that stands nowhere in the table is not bound.
pub proof fn lemma_unbound(names: Seq<Seq<char>>, values: Seq<Seq<char>>, key: Seq<char>)
    requires
        names.len() == values.len(),
        forall|j: int| 0 <= j < names.len() ==> names[j] != key,
    ensures
        !bindings(names, values).contains_key(key),
    decreases names.len(),
{
    if names.len() > 0 {
        assert(forall|j: int|
            0 <= j < names.drop_last().len() ==> names.drop_last()[j] == names[j]);
        lemma_unbound(names.drop_last(), values.drop_last(), key);
        assert(names.last() == names[names.len() - 1]);
    }
}

/// Changing the value at the last place of a name binds the name to the new
/// value and leaves the other bindings.
pub proof fn lemma_bindings_update(
    names: Seq<Seq<char>>,
    values: Seq<Seq<char>>,
    i: int,
    value: Seq<char>,
)
    requires
        names.len() == values.len(),
        0 <= i < names.len(),
        forall|j: int| i < j < names.len() ==> names[j] != names[i],
    ensures
        bindings(names, values.update(i, value)) == bindings(names, values).insert(
            names[i],
            value,
        ),
    decreases names.len(),
{
    let updated = values.update(i, value);
    if i == names.len() - 1 {
        assert(updated.drop_last() =~= values.drop_last());
        assert(bindings(names, updated) =~= bindings(names, values).insert(names[i], value));
    } else {
        assert(names.drop_last()[i] == names[i]);
        assert(forall|j: int|
            i < j < names.drop_last().len() ==> names.drop_last()[j] == names[j]);
        lemma_bindings_update(names.drop_last(), values.drop_last(), i, value);
        assert(updated.drop_last() =~= values.drop_last().update(i, value));
        assert(updated.last() == values.last());
        assert(names.last() != names[i]);
        assert(bindings(names, updated) =~= bindings(names, values).insert(names[i], value));
    }
}

/// The variables of a run. The table is kept as two lists side by side,
/// names and their values, so that what it holds is a plain [`Map`] that
/// every operation is proved against; a name is found by comparing texts.
#[derive(Debug)]
pub struct Variables {
    names: Vec<Vec<char>>,
    values: Vec<Vec<char>>,
}

impl View for Variables {
    type V = Map<Seq<char>, Seq<char>>;

    closed spec fn view(&self) -> Map<Seq<char>, Seq<char>> {
        bindings(texts(self.names@), texts(self.values@))
    }
}

/// The text that `table` binds `name` to, or the empty text.
pub open spec fn lookup(table: Map<Seq<char>, Seq<char>>, name: Seq<char>) -> Seq<char> {
    if table.contains_key(name) {
        table[name]
    } else {
        Seq::empty()
    }
}

impl Variables {
    /// Whether the table holds a value for each of its names.
    pub closed spec fn wf(&self) -> bool {
        self.names@.len() == self.values@.len()
    }

    /// A table without variables.
    pub fn new() -> (table: Variables)
        ensures
            table.wf(),
            table@ == Map::<Seq<char>, Seq<char>>::empty(),
    {
        Variables { names: Vec::new(), values: Vec::new() }
    }

    /// The last place at which `name` stands in the table.
    fn position(&self, name: &Vec<char>) -> (r: Option<usize>)
        requires
            self.wf(),
        ensures
            match r {
                Some(i) => i < self.names@.len() && self.names@[i as int]@ == name@ && forall|
                    j: int,
                |
                    i < j < self.names@.len() ==> self.names@[j]@ != name@,
                None => forall|j: int| 0 <= j < self.names@.len() ==> self.names@[j]@ != name@,
            },
    {
        let mut i: usize = self.names.len();
        while i > 0
            invariant
                i <= self.names@.len(),
                forall|j: int| i <= j < self.names@.len() ==> self.names@[j]@ != name@,
            decreases i,
        {
            i -= 1;
            if same_chars(&self.names[i], name) {
                return Some(i);
            }
        }
        None
    }

    /// The text that `name` is bound to, or the empty text.
    pub fn get(&self, name: &Vec<char>) -> (value: Vec<char>)
        requires
            self.wf(),
        ensures
            value@ == lookup(self@, name@),
    {
        match self.position(name) {
            Some(i) => {
                proof {
                    assert(texts(self.names@)[i as int] == name@);
                    assert(texts(self.values@)[i as int] == self.values@[i as int]@);
                    lemma_bound(texts(self.names@), texts(self.values@), i as int);
                }
                copy_chars(&self.values[i])
            },
            None => {
                proof {
                    lemma_unbound(texts(self.names@), texts(self.values@), name@);
                }
                Vec::new()
            },
        }
    }

    /// Binds `name` to `value`.
    pub fn set(&mut self, name: &Vec<char>, value: Vec<char>)
        requires
            old(self).wf(),
        ensures
            final(self).wf(),
            final(self)@ == old(self)@.insert(name@, value@),
    {
        let ghost names = texts(self.names@);
        let ghost values = texts(self.values@);
        match self.position(name) {
            Some(i) => {
                proof {
                    assert(names[i as int] == name@);
                    lemma_bindings_update(names, values, i as int, value@);
                }
                self.values[i] = value;
                assert(texts(self.values@) =~= values.update(i as int, value@));
            },
            None => {
                self.names.push(copy_chars(name));
                self.values.push(value);
                assert(texts(self.names@).drop_last() =~= names);
                assert(texts(self.values@).drop_last() =~= values);
                assert(texts(self.names@).last() == name@);
                assert(texts(self.values@).last() == value@);
            },
        }
    }
}

} // verus!
