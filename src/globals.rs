//! The global-variable table: names bound to values, each name once.
use crate::value::{chars_equal, Value, ValueModel};
use vstd::prelude::*;

verus! {

/// One binding of the table.
#[derive(Debug)]
pub struct Global {
    pub name: Vec<char>,
    pub value: Value,
}

/// A table of global variables, in the order they were first defined.
#[derive(Debug)]
pub struct Globals {
    pub entries: Vec<Global>,
}

/// The mapping that a sequence of bindings stands for; a later binding of a
/// name wins.
pub open spec fn globals_map(s: Seq<Global>) -> Map<Seq<char>, ValueModel>
    decreases s.len(),
{
    if s.len() == 0 {
        Map::empty()
    } else {
        globals_map(s.drop_last()).insert(s.last().name@, s.last().value@)
    }
}

/// No name is bound twice.
pub open spec fn unique_names(s: Seq<Global>) -> bool {
    forall|i: int, j: int| 0 <= i < j < s.len() ==> s[i].name@ != s[j].name@
}

proof fn lemma_map_contains(s: Seq<Global>, k: Seq<char>)
    ensures
        globals_map(s).contains_key(k) <==> exists|i: int| 0 <= i < s.len() && s[i].name@ == k,
    decreases s.len(),
{
    if s.len() > 0 {
        lemma_map_contains(s.drop_last(), k);
        if exists|i: int| 0 <= i < s.drop_last().len() && s.drop_last()[i].name@ == k {
            let i = choose|i: int| 0 <= i < s.drop_last().len() && s.drop_last()[i].name@ == k;
            assert(s[i].name@ == k);
        }
        if exists|i: int| 0 <= i < s.len() && s[i].name@ == k {
            let i = choose|i: int| 0 <= i < s.len() && s[i].name@ == k;
            if i < s.len() - 1 {
                assert(s.drop_last()[i].name@ == k);
            }
        }
    }
}

proof fn lemma_map_value(s: Seq<Global>, i: int)
    requires
        unique_names(s),
        0 <= i < s.len(),
    ensures
        globals_map(s).contains_key(s[i].name@),
        globals_map(s)[s[i].name@] == s[i].value@,
    decreases s.len(),
{
    if i < s.len() - 1 {
        let t = s.drop_last();
        assert(unique_names(t));
        lemma_map_value(t, i);
        assert(t[i] == s[i]);
    }
}

impl Globals {
    pub open spec fn wf(&self) -> bool {
        unique_names(self.entries@)
    }

    pub open spec fn model(&self) -> Map<Seq<char>, ValueModel> {
        globals_map(self.entries@)
    }

    pub fn new() -> (r: Globals)
        ensures
            r.wf(),
            r.model() == Map::<Seq<char>, ValueModel>::empty(),
    {
        Globals { entries: Vec::new() }
    }

    /// The position of the binding of `name`, if there is one.
    pub fn find(&self, name: &Vec<char>) -> (r: Option<usize>)
        requires
            self.wf(),
        ensures
            r is Some ==> r->Some_0 < self.entries@.len() && self.entries@[r->Some_0 as int].name@
                == name@,
            r is None <==> !self.model().contains_key(name@),
    {
        proof {
            lemma_map_contains(self.entries@, name@);
        }
        let mut i: usize = 0;
        while i < self.entries.len()
            invariant
                0 <= i <= self.entries@.len(),
                forall|k: int| 0 <= k < i ==> self.entries@[k].name@ != name@,
            decreases self.entries@.len() - i,
        {
            if chars_equal(&self.entries[i].name, name) {
                proof {
                    lemma_map_contains(self.entries@, name@);
                    assert(self.entries@[i as int].name@ == name@);
                }
                return Some(i);
            }
            i += 1;
        }
        None
    }

    /// The value bound to `name`, if any.
    pub fn get(&self, name: &Vec<char>) -> (r: Option<&Value>)
        requires
            self.wf(),
        ensures
            r is None <==> !self.model().contains_key(name@),
            r is Some ==> r->Some_0@ == self.model()[name@],
    {
        match self.find(name) {
            Some(i) => {
                proof {
                    lemma_map_value(self.entries@, i as int);
                }
                Some(&self.entries[i].value)
            },
            None => None,
        }
    }

    /// Binds `name` to `value`, replacing any earlier binding.
    pub fn insert(&mut self, name: Vec<char>, value: Value)
        requires
            old(self).wf(),
        ensures
            final(self).wf(),
            final(self).model() == old(self).model().insert(name@, value@),
    {
        match self.find(&name) {
            Some(i) => {
                let ghost s = self.entries@;
                let ghost vm = value@;
                self.entries[i].value = value;
                proof {
                    let t = self.entries@;
                    assert(forall|k: int| 0 <= k < t.len() ==> t[k].name@ == s[k].name@);
                    assert(unique_names(t));
                    assert forall|k: Seq<char>| #[trigger] globals_map(t).contains_key(k)
                        == old(self).model().insert(name@, vm).contains_key(k) by {
                        lemma_map_contains(t, k);
                        lemma_map_contains(s, k);
                    }
                    assert forall|k: Seq<char>| #[trigger] globals_map(t).contains_key(k)
                        implies globals_map(t)[k] == old(self).model().insert(name@, vm)[k] by {
                        lemma_map_contains(t, k);
                        let j = choose|j: int| 0 <= j < t.len() && t[j].name@ == k;
                        lemma_map_value(t, j);
                        if j != i {
                            lemma_map_value(s, j);
                        }
                    }
                    assert(globals_map(t) =~= old(self).model().insert(name@, vm));
                }
            },
            None => {
                let ghost s = self.entries@;
                self.entries.push(Global { name, value });
                proof {
                    lemma_map_contains(s, name@);
                    assert(self.entries@.drop_last() =~= s);
                }
            },
        }
    }
}

} // verus!
