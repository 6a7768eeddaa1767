use vstd::prelude::*;
use rustc_hash::FxHashMap;
use crate::bytecode::{distinct, pool_view, same_constant, Constant, ConstantView};
use crate::lowering::index_of;

verus! {

/// What a map from constants to numbers holds: the number of each constant
/// in it, the constant taken by its view.
pub uninterp spec fn index_entries(map: FxHashMap<Constant, u16>) -> Map<ConstantView, u16>;

/// The map without a constant.
pub open spec fn no_numbers() -> Map<ConstantView, u16> {
    Map::empty()
}

/// Makes an empty map with `FxHashMap::default`.
#[verifier::external_body]
fn index_new() -> (map: FxHashMap<Constant, u16>)
    ensures
        index_entries(map) == no_numbers(),
{
    FxHashMap::default()
}

/// Calls `HashMap::insert`: the constant maps to the number from then on,
/// and the number that it mapped to before, if any, is handed back. Two
/// constants are one key where they are equal part by part, which is where
/// their views are equal.
#[verifier::external_body]
fn index_insert(map: &mut FxHashMap<Constant, u16>, key: Constant, number: u16) -> (before: Option<
    u16,
>)
    ensures
        index_entries(*final(map)) == index_entries(*old(map)).insert(key@, number),
        before == (if index_entries(*old(map)).contains_key(key@) {
            Some(index_entries(*old(map))[key@])
        } else {
            None::<u16>
        }),
{
    map.insert(key, number)
}

/// Calls `HashMap::get`: the number that the constant maps to, if any.
#[verifier::external_body]
fn index_get(map: &FxHashMap<Constant, u16>, key: &Constant) -> (number: Option<u16>)
    ensures
        number == (if index_entries(*map).contains_key(key@) {
            Some(index_entries(*map)[key@])
        } else {
            None::<u16>
        }),
{
    map.get(key).copied()
}

/// A constant is the same as itself.
pub proof fn lemma_same_as_itself(c: ConstantView)
    ensures
        same_constant(c, c),
{
}

/// Two constants that are no reals are the same only where they are equal.
pub proof fn lemma_same_is_equal(a: ConstantView, b: ConstantView)
    requires
        !(b is Real),
        same_constant(a, b),
    ensures
        a == b,
{
}

/// A pool that holds no constant that is the same as `c`, from the index
/// `k` on, gives no index for it.
pub proof fn lemma_absent_has_no_index(pool: Seq<ConstantView>, c: ConstantView, k: int)
    requires
        0 <= k,
        forall|j: int| k <= j < pool.len() ==> !same_constant(#[trigger] pool[j], c),
    ensures
        index_of(pool, c, k) is None,
    decreases pool.len() - k,
{
    if k < pool.len() {
        lemma_absent_has_no_index(pool, c, k + 1);
    }
}

/// A pool that gives no index for `c`, from the index `k` on, holds no
/// constant there that is the same as `c`.
pub proof fn lemma_no_index_is_absent(pool: Seq<ConstantView>, c: ConstantView, k: int)
    requires
        0 <= k,
        index_of(pool, c, k) is None,
    ensures
        forall|j: int| k <= j < pool.len() ==> !same_constant(#[trigger] pool[j], c),
    decreases pool.len() - k,
{
    if k < pool.len() {
        lemma_no_index_is_absent(pool, c, k + 1);
    }
}

/// The index that a pool gives for `c` is that of the first constant that
/// is the same as `c`.
pub proof fn lemma_first_same_is_index(pool: Seq<ConstantView>, c: ConstantView, k: int, m: int)
    requires
        0 <= k <= m < pool.len(),
        same_constant(pool[m], c),
        forall|j: int| k <= j < m ==> !same_constant(#[trigger] pool[j], c),
    ensures
        index_of(pool, c, k) == Some(m),
    decreases m - k,
{
    if k < m {
        lemma_first_same_is_index(pool, c, k + 1, m);
    }
}

/// The constants of a function, in the order of their registers. No two
/// are the same. They are found through a map that is keyed by the
/// constants themselves.
pub struct Pool {
    list: Vec<Constant>,
    index: FxHashMap<Constant, u16>,
}

impl View for Pool {
    type V = Seq<ConstantView>;

    closed spec fn view(&self) -> Seq<ConstantView> {
        pool_view(self.list@)
    }
}

/// Whether `table` gives each constant of `pool` its index, and no number
/// to anything else.
pub open spec fn numbers(table: Map<ConstantView, u16>, pool: Seq<ConstantView>) -> bool {
    &&& forall|c: ConstantView| #[trigger]
        table.contains_key(c) ==> table[c] < pool.len() && pool[table[c] as int] == c
    &&& forall|k: int| 0 <= k < pool.len() ==> table.contains_key(#[trigger] pool[k])
}

impl Pool {
    #[verifier::type_invariant]
    spec fn inv(&self) -> bool {
        &&& self.list@.len() <= 0x1_0000
        &&& distinct(pool_view(self.list@))
        &&& numbers(index_entries(self.index), pool_view(self.list@))
    }

    /// No constant.
    pub fn new() -> (r: Pool)
        ensures
            r@ == Seq::<ConstantView>::empty(),
    {
        let list: Vec<Constant> = Vec::new();
        let index = index_new();
        proof {
            assert(pool_view(list@) =~= Seq::empty());
        }
        Pool { list, index }
    }

    /// How many constants the pool holds: no two of them the same, and no
    /// more than there are registers.
    pub fn len(&self) -> (r: usize)
        ensures
            r == self@.len(),
            r <= 0x1_0000,
            distinct(self@),
    {
        proof {
            use_type_invariant(self);
        }
        self.list.len()
    }

    /// The constant at the index `k`.
    pub fn get(&self, k: usize) -> (r: &Constant)
        requires
            k < self@.len(),
        ensures
            r@ == self@[k as int],
    {
        &self.list[k]
    }

    /// The index of the constant of the pool that is the same as `c`, if
    /// there is one.
    pub fn find(&self, c: &Constant) -> (r: Option<usize>)
        ensures
            match r {
                Some(k) => k < self@.len() && same_constant(self@[k as int], c@) && index_of(
                    self@,
                    c@,
                    0,
                ) == Some(k as int),
                None => index_of(self@, c@, 0) is None,
            },
    {
        proof {
            use_type_invariant(self);
        }
        let ghost pool = self@;
        let ghost table = index_entries(self.index);
        match index_get(&self.index, c) {
            Some(m) => {
                proof {
                    assert(table.contains_key(c@));
                    lemma_same_as_itself(c@);
                    lemma_first_same_is_index(pool, c@, 0, m as int);
                }
                Some(m as usize)
            },
            None => {
                if let Constant::Real(_) = c {
                    let mut k: usize = 0;
                    while k < self.list.len()
                        invariant
                            pool == pool_view(self.list@),
                            k <= pool.len(),
                            forall|j: int| 0 <= j < k ==> !same_constant(#[trigger] pool[j], c@),
                        decreases pool.len() - k,
                    {
                        if self.list[k].same(c) {
                            proof {
                                lemma_first_same_is_index(pool, c@, 0, k as int);
                            }
                            return Some(k);
                        }
                        k += 1;
                    }
                    proof {
                        lemma_absent_has_no_index(pool, c@, 0);
                    }
                    None
                } else {
                    proof {
                        assert forall|j: int| 0 <= j < pool.len() implies !same_constant(
                            #[trigger] pool[j],
                            c@,
                        ) by {
                            if same_constant(pool[j], c@) {
                                lemma_same_is_equal(pool[j], c@);
                                assert(table.contains_key(pool[j]));
                            }
                        }
                        lemma_absent_has_no_index(pool, c@, 0);
                    }
                    None
                }
            },
        }
    }

    /// The pool with one more constant, `c`, which comes last.
    pub fn with(self, c: Constant) -> (r: Pool)
        requires
            index_of(self@, c@, 0) is None,
            self@.len() < 0x1_0000,
        ensures
            r@ == self@.push(c@),
    {
        proof {
            use_type_invariant(&self);
        }
        let ghost before = self@;
        let ghost key = c@;
        let Pool { list, index } = self;
        let mut list = list;
        let mut index = index;
        let ghost table = index_entries(index);
        let at = list.len() as u16;
        index_insert(&mut index, c.dup(), at);
        list.push(c);
        proof {
            let after = pool_view(list@);
            assert(after =~= before.push(key));
            lemma_no_index_is_absent(before, key, 0);
            assert forall|i: int, j: int| 0 <= i < j < after.len() implies !same_constant(
                #[trigger] after[i],
                #[trigger] after[j],
            ) by {
                assert(after[i] == before[i]);
                if j < before.len() {
                    assert(after[j] == before[j]);
                }
            }
            assert forall|x: ConstantView| #[trigger]
                index_entries(index).contains_key(x) implies index_entries(index)[x]
                < after.len() && after[index_entries(index)[x] as int] == x by {
                if x != key {
                    assert(table.contains_key(x));
                    assert(after[table[x] as int] == before[table[x] as int]);
                }
            }
            assert forall|k: int| 0 <= k < after.len() implies index_entries(index).contains_key(
                #[trigger] after[k],
            ) by {
                if k < before.len() {
                    assert(after[k] == before[k]);
                    assert(table.contains_key(before[k]));
                }
            }
        }
        Pool { list, index }
    }

    /// The constants, in the order of their registers.
    pub fn into_list(self) -> (r: Vec<Constant>)
        ensures
            pool_view(r@) == self@,
    {
        let Pool { list, index } = self;
        list
    }
}

} // verus!
