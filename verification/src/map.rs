//! Maps from names to values that can be copied.
//!
//! The variables of a session are copied whenever an evaluation begins, which
//! may stop half way and must then have changed nothing, and whenever an action
//! goes into the history. The standard hash map cannot be walked under its
//! specification, so a map of variables keeps, beside the hash map in which it
//! looks names up, the names themselves in the order in which they came.

use crate::value::{RawValue, Value};
use crate::wire::texts;
use vstd::hash_map::StringHashMap;
use vstd::prelude::*;

verus! {

/// A map from names to values: a hash map, and its names in the order in which
/// they first came.
#[verifier::reject_recursive_types(V)]
pub struct NameMap<V> {
    map: StringHashMap<V>,
    names: Vec<String>,
}

/// A map from the name of a variable to its value.
pub type VarMap = NameMap<RawValue>;

/// Whether no name occurs twice.
pub open spec fn distinct(names: Seq<Seq<char>>) -> bool {
    forall|i: int, j: int|
        0 <= i < names.len() && 0 <= j < names.len() && i != j ==> names[i] != names[j]
}

/// Whether the names are those under which the map holds something.
pub open spec fn names_of<V>(names: Seq<Seq<char>>, map: Map<Seq<char>, V>) -> bool {
    &&& distinct(names)
    &&& forall|name: Seq<char>| map.dom().contains(name) <==> names.contains(name)
}

/// What each variable of a map holds.
pub open spec fn values_of(vars: Map<Seq<char>, RawValue>) -> Map<Seq<char>, Value> {
    vars.map_values(|v: RawValue| v@)
}

impl<V> View for NameMap<V> {
    type V = Map<Seq<char>, V>;

    closed spec fn view(&self) -> Map<Seq<char>, V> {
        self.map@
    }
}

impl<V> NameMap<V> {
    #[verifier::type_invariant]
    spec fn well_formed(self) -> bool {
        names_of(texts(self.names@), self.map@)
    }

    /// The map without entries.
    pub fn new() -> (r: NameMap<V>)
        ensures
            r@ == Map::<Seq<char>, V>::empty(),
    {
        NameMap { map: StringHashMap::new(), names: Vec::new() }
    }

    /// The value under `name`, if there is one.
    pub fn get(&self, name: &str) -> (r: Option<&V>)
        ensures
            r is Some <==> self@.dom().contains(name@),
            r matches Some(v) ==> *v == self@[name@],
    {
        self.map.get(name)
    }

    /// Whether there is a value under `name`.
    pub fn contains_key(&self, name: &str) -> (r: bool)
        ensures
            r == self@.dom().contains(name@),
    {
        self.map.contains_key(name)
    }

    /// Puts `value` under `name`, in place of what was there, and says whether
    /// something was there.
    pub fn insert(&mut self, name: String, value: V) -> (r: bool)
        ensures
            final(self)@ == old(self)@.insert(name@, value),
            r == old(self)@.dom().contains(name@),
    {
        proof {
            use_type_invariant(&*self);
        }
        let mut taken: NameMap<V> = NameMap::new();
        std::mem::swap(self, &mut taken);
        let NameMap { mut map, mut names } = taken;
        let ghost before = texts(names@);
        let had = map.contains_key(name.as_str());
        if !had {
            names.push(name.clone());
            proof {
                let after = texts(names@);
                assert(after =~= before.push(name@));
                assert forall|k: Seq<char>| after.contains(k) <==> before.contains(k) || k
                    == name@ by {
                    if before.contains(k) {
                        let i = choose|i: int| 0 <= i < before.len() && before[i] == k;
                        assert(after[i] == k);
                    }
                    if k == name@ {
                        assert(after[before.len() as int] == k);
                    }
                }
                assert(distinct(after)) by {
                    assert forall|i: int, j: int|
                        0 <= i < after.len() && 0 <= j < after.len() && i != j implies after[i]
                        != after[j] by {
                        if i < before.len() {
                            assert(before.contains(before[i]));
                        }
                        if j < before.len() {
                            assert(before.contains(before[j]));
                        }
                    }
                }
            }
        }
        map.insert(name, value);
        *self = NameMap { map, names };
        had
    }

    /// Takes every entry out.
    pub fn clear(&mut self)
        ensures
            final(self)@ == Map::<Seq<char>, V>::empty(),
    {
        *self = NameMap::new();
    }

    /// The number of entries.
    pub fn len(&self) -> (r: usize)
        ensures
            r == self@.len(),
    {
        self.map.len()
    }
}

impl NameMap<RawValue> {
    /// A map with the same variables and the same values.
    pub fn copy(&self) -> (r: VarMap)
        ensures
            values_of(r@) == values_of(self@),
    {
        proof {
            use_type_invariant(self);
        }
        let ghost all = texts(self.names@);
        let mut out: VarMap = NameMap::new();
        let mut i: usize = 0;
        while i < self.names.len()
            invariant
                i <= self.names@.len(),
                all == texts(self.names@),
                names_of(all, self.map@),
                forall|k: Seq<char>| out@.dom().contains(k) <==> all.take(i as int).contains(k),
                forall|k: Seq<char>| out@.dom().contains(k) ==> out@[k]@ == self.map@[k]@,
            decreases self.names@.len() - i,
        {
            let ghost name = all[i as int];
            proof {
                let shorter = all.take(i as int);
                let longer = all.take(i + 1);
                assert(all.contains(name));
                assert forall|k: Seq<char>| longer.contains(k) <==> shorter.contains(k) || k
                    == name by {
                    if shorter.contains(k) {
                        let j = choose|j: int| 0 <= j < shorter.len() && shorter[j] == k;
                        assert(longer[j] == k);
                    }
                    if k == name {
                        assert(longer[i as int] == k);
                    }
                    if longer.contains(k) {
                        let j = choose|j: int| 0 <= j < longer.len() && longer[j] == k;
                        if j < i {
                            assert(shorter[j] == k);
                        }
                    }
                }
            }
            match self.map.get(self.names[i].as_str()) {
                Some(value) => {
                    out.insert(self.names[i].clone(), value.clone());
                },
                None => {},
            }
            i += 1;
        }
        proof {
            assert(all.take(i as int) =~= all);
            assert(values_of(out@) =~= values_of(self.map@));
        }
        out
    }
}

/// Putting a value under a name shows as putting what the value is under it.
pub proof fn lemma_values_of_insert(vars: Map<Seq<char>, RawValue>, name: Seq<char>, value: RawValue)
    ensures
        values_of(vars.insert(name, value)) == values_of(vars).insert(name, value@),
{
    assert(values_of(vars.insert(name, value)) =~= values_of(vars).insert(name, value@));
}

} // verus!
