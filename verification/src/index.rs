//! An index from composite keys to positions, backed by `dashmap`.
//!
//! The values that the keys stand for live in a vector beside the index: the concurrent map
//! holds where each one is.

use crate::text::string_texts;
use dashmap::DashMap;
use vstd::prelude::*;

verus! {

/// `dashmap::DashMap`, a concurrent hash map.
#[verifier::external_type_specification]
#[verifier::external_body]
#[verifier::reject_recursive_types(K)]
#[verifier::reject_recursive_types(V)]
#[verifier::reject_recursive_types(S)]
pub struct ExDashMap<K, V, S>(DashMap<K, V, S>);

/// What a map from composite keys to positions holds: a key is told apart by the texts of its
/// parts. The maps named by it are owned by a [`KeyIndex`], which changes them through exclusive
/// references only, so that what a map holds is a function of the value.
pub uninterp spec fn index_contents(map: DashMap<Vec<String>, usize>) -> Map<Seq<Seq<char>>, usize>;

/// `DashMap::new`: the map is empty.
#[verifier::external_body]
fn index_new() -> (r: DashMap<Vec<String>, usize>)
    ensures
        index_contents(r).dom() =~= Set::empty(),
{
    DashMap::new()
}

/// `DashMap::get`, with the position copied out: the value under the key, if there is one.
#[verifier::external_body]
fn index_get(map: &DashMap<Vec<String>, usize>, key: &Vec<String>) -> (r: Option<usize>)
    ensures
        r == index_contents(*map).get(string_texts(key@)),
{
    map.get(key).map(|position| *position)
}

/// `DashMap::insert`: the key holds the value from now on; whatever it held before is replaced
/// and returned.
#[verifier::external_body]
fn index_insert(map: &mut DashMap<Vec<String>, usize>, key: Vec<String>, position: usize) -> (r:
    Option<usize>)
    ensures
        r == index_contents(*old(map)).get(string_texts(key@)),
        index_contents(*final(map)) == index_contents(*old(map)).insert(
            string_texts(key@),
            position,
        ),
{
    map.insert(key, position)
}

/// `DashMap::remove`: the key and its value are gone; the value is returned.
#[verifier::external_body]
fn index_remove(map: &mut DashMap<Vec<String>, usize>, key: &Vec<String>) -> (r: Option<usize>)
    ensures
        r == index_contents(*old(map)).get(string_texts(key@)),
        index_contents(*final(map)) == index_contents(*old(map)).remove(string_texts(key@)),
{
    map.remove(key).map(|entry| entry.1)
}

/// An index from composite keys to positions.
pub struct KeyIndex {
    map: DashMap<Vec<String>, usize>,
}

impl View for KeyIndex {
    type V = Map<Seq<Seq<char>>, usize>;

    closed spec fn view(&self) -> Map<Seq<Seq<char>>, usize> {
        index_contents(self.map)
    }
}

impl KeyIndex {
    /// An index without keys.
    pub fn new() -> (r: Self)
        ensures
            r@ == Map::<Seq<Seq<char>>, usize>::empty(),
    {
        let map = index_new();
        let r = KeyIndex { map };
        proof {
            assert(r@ =~= Map::<Seq<Seq<char>>, usize>::empty());
        }
        r
    }

    /// The position under `key`.
    pub fn get(&self, key: &Vec<String>) -> (r: Option<usize>)
        ensures
            r == self@.get(string_texts(key@)),
    {
        index_get(&self.map, key)
    }

    /// Puts `position` under `key`.
    pub fn insert(&mut self, key: Vec<String>, position: usize)
        ensures
            final(self)@ == old(self)@.insert(string_texts(key@), position),
    {
        index_insert(&mut self.map, key, position);
    }

    /// Removes `key`, and returns the position that was under it.
    pub fn remove(&mut self, key: &Vec<String>) -> (r: Option<usize>)
        ensures
            r == old(self)@.get(string_texts(key@)),
            final(self)@ == old(self)@.remove(string_texts(key@)),
    {
        index_remove(&mut self.map, key)
    }
}

/// A key with the same parts.
pub fn copy_key(key: &Vec<String>) -> (r: Vec<String>)
    ensures
        string_texts(r@) == string_texts(key@),
{
    let mut out: Vec<String> = Vec::new();
    let mut i: usize = 0;
    while i < key.len()
        invariant
            i <= key@.len(),
            out@.len() == i,
            forall|k: int| 0 <= k < i ==> (#[trigger] out@[k])@ == key@[k]@,
        decreases key@.len() - i,
    {
        out.push(key[i].clone());
        i += 1;
    }
    proof {
        assert(string_texts(out@) =~= string_texts(key@));
    }
    out
}

} // verus!
