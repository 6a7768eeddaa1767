use vstd::prelude::*;
use rustc_hash::FxHashMap;

verus! {

/// The hasher of the crate `rustc_hash`, which an `FxHashMap` hashes its
/// keys with.
#[verifier::external_type_specification]
#[verifier::external_body]
pub struct ExFxHasher(rustc_hash::FxHasher);

/// What makes the hashers of a map: `std::hash::BuildHasherDefault`, which
/// makes each with `Default`.
#[verifier::external_type_specification]
#[verifier::external_body]
#[verifier::reject_recursive_types(H)]
pub struct ExBuildHasherDefault<H>(std::hash::BuildHasherDefault<H>);

/// A table from names to numbers, kept in an `FxHashMap` of the crate
/// `rustc_hash`: a `std::collections::HashMap` that hashes with `FxHasher`.
pub struct NameTable {
    map: FxHashMap<String, u16>,
}

/// What a map from names to numbers holds: the number of each name in it.
pub uninterp spec fn table_entries(map: FxHashMap<String, u16>) -> Map<Seq<char>, u16>;

/// The table without a name.
pub open spec fn no_entries() -> Map<Seq<char>, u16> {
    Map::empty()
}

/// Makes an empty map with `FxHashMap::default`.
#[verifier::external_body]
fn table_new() -> (map: FxHashMap<String, u16>)
    ensures
        table_entries(map) == no_entries(),
{
    FxHashMap::default()
}

/// Calls `HashMap::insert`: the name maps to the number from then on, and
/// the number that it mapped to before, if any, is handed back.
#[verifier::external_body]
fn table_insert(map: &mut FxHashMap<String, u16>, name: String, number: u16) -> (before: Option<
    u16,
>)
    ensures
        table_entries(*final(map)) == table_entries(*old(map)).insert(name@, number),
        before == (if table_entries(*old(map)).contains_key(name@) {
            Some(table_entries(*old(map))[name@])
        } else {
            None::<u16>
        }),
{
    map.insert(name, number)
}

/// Calls `HashMap::get`: the number that the name maps to, if any.
#[verifier::external_body]
fn table_get(map: &FxHashMap<String, u16>, name: &str) -> (number: Option<u16>)
    ensures
        number == (if table_entries(*map).contains_key(name@) {
            Some(table_entries(*map)[name@])
        } else {
            None::<u16>
        }),
{
    map.get(name).copied()
}

/// Calls `HashMap::remove`: the name maps to nothing from then on, and the
/// number that it mapped to before, if any, is handed back.
#[verifier::external_body]
fn table_remove(map: &mut FxHashMap<String, u16>, name: &str) -> (before: Option<u16>)
    ensures
        table_entries(*final(map)) == table_entries(*old(map)).remove(name@),
        before == (if table_entries(*old(map)).contains_key(name@) {
            Some(table_entries(*old(map))[name@])
        } else {
            None::<u16>
        }),
{
    map.remove(name)
}

impl View for NameTable {
    type V = Map<Seq<char>, u16>;

    closed spec fn view(&self) -> Map<Seq<char>, u16> {
        table_entries(self.map)
    }
}

impl NameTable {
    /// An empty table.
    pub fn new() -> (table: NameTable)
        ensures
            table@ == Map::<Seq<char>, u16>::empty(),
    {
        NameTable { map: table_new() }
    }

    /// Gives `name` the number `number` unless it has one. Says the number
    /// that it had.
    pub fn insert(&mut self, name: String, number: u16) -> (before: Option<u16>)
        ensures
            before == (if old(self)@.contains_key(name@) {
                Some(old(self)@[name@])
            } else {
                None::<u16>
            }),
            final(self)@ == (if old(self)@.contains_key(name@) {
                old(self)@
            } else {
                old(self)@.insert(name@, number)
            }),
    {
        match table_get(&self.map, name.as_str()) {
            Some(n) => Some(n),
            None => {
                table_insert(&mut self.map, name, number);
                None
            },
        }
    }

    /// Takes `name` out of the table. Says the number that it had.
    pub fn remove(&mut self, name: &str) -> (before: Option<u16>)
        ensures
            before == (if old(self)@.contains_key(name@) {
                Some(old(self)@[name@])
            } else {
                None::<u16>
            }),
            final(self)@ == old(self)@.remove(name@),
    {
        table_remove(&mut self.map, name)
    }

    /// The number of `name`, if it has one.
    pub fn get(&self, name: &str) -> (number: Option<u16>)
        ensures
            number == (if self@.contains_key(name@) {
                Some(self@[name@])
            } else {
                None::<u16>
            }),
    {
        table_get(&self.map, name)
    }
}

} // verus!
