use vstd::prelude::*;
use crate::lowering::find;
use crate::names::NameTable;

verus! {

/// The views of a sequence of variables.
pub open spec fn vars_view(v: Seq<(String, u16)>) -> Seq<(Seq<char>, u16)> {
    Seq::new(v.len(), |k: int| (v[k].0@, v[k].1))
}

/// The number of `name` in `table`, if it has one.
pub open spec fn entry(table: Map<Seq<char>, u16>, name: Seq<char>) -> Option<u16> {
    if table.contains_key(name) {
        Some(table[name])
    } else {
        None
    }
}

/// Whether no two variables of `vars` have the same name.
pub open spec fn distinct_names(vars: Seq<(Seq<char>, u16)>) -> bool {
    forall|i: int, j: int|
        0 <= i < j < vars.len() ==> (#[trigger] vars[i]).0 != (#[trigger] vars[j]).0
}

/// Whether `table` finds what `find` finds in `vars`, for every name.
pub open spec fn indexes(table: Map<Seq<char>, u16>, vars: Seq<(Seq<char>, u16)>) -> bool {
    forall|name: Seq<char>| #[trigger] entry(table, name) == find(vars, name)
}

/// A name that no variable has is not found.
pub proof fn lemma_absent_not_found(vars: Seq<(Seq<char>, u16)>, name: Seq<char>)
    requires
        forall|k: int| 0 <= k < vars.len() ==> (#[trigger] vars[k]).0 != name,
    ensures
        find(vars, name) is None,
    decreases vars.len(),
{
    if vars.len() > 0 {
        assert(vars.last() == vars[vars.len() - 1]);
        assert forall|k: int| 0 <= k < vars.drop_last().len() implies (#[trigger] vars.drop_last()[k]).0
            != name by {
            assert(vars.drop_last()[k] == vars[k]);
        }
        lemma_absent_not_found(vars.drop_last(), name);
    }
}

/// A name that is found is the name of a variable, and what is found is
/// its register.
pub proof fn lemma_found_is_held(vars: Seq<(Seq<char>, u16)>, name: Seq<char>)
    requires
        find(vars, name) is Some,
    ensures
        exists|k: int| 0 <= k < vars.len() && #[trigger] vars[k] == (name, find(vars, name)->0),
    decreases vars.len(),
{
    if vars.last().0 == name {
        assert(vars[vars.len() - 1] == (name, find(vars, name)->0));
    } else {
        lemma_found_is_held(vars.drop_last(), name);
        let k = choose|k: int|
            0 <= k < vars.drop_last().len() && #[trigger] vars.drop_last()[k] == (
                name,
                find(vars.drop_last(), name)->0,
            );
        assert(vars[k] == vars.drop_last()[k]);
    }
}

/// The variables in scope, in the order in which they came into it, each
/// with its register. No two have the same name. They are found through a
/// table that is keyed by their names.
pub struct Variables {
    list: Vec<(String, u16)>,
    index: NameTable,
}

impl View for Variables {
    type V = Seq<(Seq<char>, u16)>;

    closed spec fn view(&self) -> Seq<(Seq<char>, u16)> {
        vars_view(self.list@)
    }
}

impl Variables {
    #[verifier::type_invariant]
    spec fn inv(&self) -> bool {
        &&& distinct_names(vars_view(self.list@))
        &&& indexes(self.index@, vars_view(self.list@))
    }

    /// No variable.
    pub fn new() -> (r: Variables)
        ensures
            r@ == Seq::<(Seq<char>, u16)>::empty(),
    {
        let list: Vec<(String, u16)> = Vec::new();
        let index = NameTable::new();
        proof {
            assert(vars_view(list@) =~= Seq::empty());
            assert forall|name: Seq<char>| #[trigger]
                entry(index@, name) == find(vars_view(list@), name) by {}
        }
        Variables { list, index }
    }

    /// How many variables are in scope.
    pub fn len(&self) -> (r: usize)
        ensures
            r == self@.len(),
    {
        self.list.len()
    }

    /// The register of the variable `name`, if it is in scope.
    pub fn find(&self, name: &String) -> (r: Option<u16>)
        ensures
            r == find(self@, name@),
    {
        proof {
            use_type_invariant(self);
            assert(entry(self.index@, name@) == find(self@, name@));
        }
        self.index.get(name.as_str())
    }

    /// The variables with one more, `name` in the register `reg`, which
    /// comes last.
    pub fn with(self, name: String, reg: u16) -> (r: Variables)
        requires
            find(self@, name@) is None,
        ensures
            r@ == self@.push((name@, reg)),
    {
        proof {
            use_type_invariant(&self);
        }
        let ghost before = self@;
        let ghost key = name@;
        let Variables { list, index } = self;
        let mut list = list;
        let mut index = index;
        let ghost table = index@;
        index.insert(name.clone(), reg);
        list.push((name, reg));
        proof {
            let after = vars_view(list@);
            assert(after =~= before.push((key, reg)));
            assert(after.drop_last() =~= before);
            assert(entry(table, key) == find(before, key));
            assert forall|other: Seq<char>| #[trigger]
                entry(index@, other) == find(after, other) by {
                assert(entry(table, other) == find(before, other));
            }
            assert forall|i: int, j: int| 0 <= i < j < after.len() implies (#[trigger] after[i]).0
                != (#[trigger] after[j]).0 by {
                if j == after.len() - 1 {
                    if after[i].0 == key {
                        assert(before[i].0 == key);
                        lemma_held_is_found(before, i);
                    }
                } else {
                    assert(after[i] == before[i] && after[j] == before[j]);
                }
            }
        }
        Variables { list, index }
    }

    /// The first `count` of the variables.
    pub fn first(self, count: usize) -> (r: Variables)
        requires
            count <= self@.len(),
        ensures
            r@ == self@.subrange(0, count as int),
    {
        proof {
            use_type_invariant(&self);
        }
        let ghost before = self@;
        let Variables { list, index } = self;
        let mut list = list;
        let mut index = index;
        proof {
            assert(before.subrange(0, list@.len() as int) =~= before);
        }
        while list.len() > count
            invariant
                count <= list@.len() <= before.len(),
                vars_view(list@) == before.subrange(0, list@.len() as int),
                distinct_names(vars_view(list@)),
                indexes(index@, vars_view(list@)),
            decreases list@.len(),
        {
            let ghost longer = vars_view(list@);
            let ghost table = index@;
            match list.pop() {
                None => {},
                Some(last) => {
                    index.remove(last.0.as_str());
                    proof {
                        let shorter = vars_view(list@);
                        let key = last.0@;
                        assert(longer.last() == (key, last.1));
                        assert(shorter =~= longer.drop_last());
                        assert(shorter =~= before.subrange(0, list@.len() as int));
                        assert forall|k: int| 0 <= k < shorter.len() implies (#[trigger] shorter[k]).0
                            != key by {
                            assert(shorter[k] == longer[k]);
                            assert(longer[longer.len() - 1].0 == key);
                        }
                        lemma_absent_not_found(shorter, key);
                        assert forall|other: Seq<char>| #[trigger]
                            entry(index@, other) == find(shorter, other) by {
                            assert(entry(table, other) == find(longer, other));
                        }
                        assert forall|i: int, j: int| 0 <= i < j < shorter.len() implies (
                        #[trigger] shorter[i]).0 != (#[trigger] shorter[j]).0 by {
                            assert(shorter[i] == longer[i] && shorter[j] == longer[j]);
                        }
                    }
                },
            }
        }
        Variables { list, index }
    }
}

/// The name of a variable is found.
pub proof fn lemma_held_is_found(vars: Seq<(Seq<char>, u16)>, k: int)
    requires
        0 <= k < vars.len(),
    ensures
        find(vars, vars[k].0) is Some,
    decreases vars.len(),
{
    if vars.last().0 != vars[k].0 {
        assert(k < vars.len() - 1);
        assert(vars.drop_last()[k] == vars[k]);
        lemma_held_is_found(vars.drop_last(), k);
    }
}

} // verus!
