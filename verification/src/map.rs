//! Hash maps and sets keyed by fixed-size byte strings.
//!
//! The tables themselves are `HashMap` and `HashSet` of `alloy_primitives::map` with that crate's
//! hasher for fixed-size byte arrays. What the proofs need of them is stated by the functions at the
//! top of this file; everything built on those is proved.
use alloy_primitives::map::{FbBuildHasher, HashMap, HashSet};
use vstd::prelude::*;

use crate::fixed::FixedBytes;

verus! {

/// The hasher builder of `alloy_primitives` for `N`-byte keys, carried through as it is.
#[verifier::external_type_specification]
#[verifier::external_body]
pub struct ExFbBuildHasher<const N: usize>(FbBuildHasher<N>);

/// The hash table of `alloy_primitives`, keyed by plain `N`-byte arrays.
pub type ByteMap<const N: usize, V> = HashMap<[u8; N], V, FbBuildHasher<N>>;

/// Calls `HashMap::get`: a reference to the value stored under `key`, if there is one.
#[verifier::external_body]
fn table_get<'m, const N: usize, V>(table: &'m ByteMap<N, V>, key: &[u8; N]) -> (r: Option<&'m V>)
    ensures
        r == (if table@.contains_key(*key) {
            Some(&table@[*key])
        } else {
            None
        }),
{
    table.get(key)
}

/// Calls `HashMap::get_mut`: a mutable reference to the value stored under `key`, if there is
/// one. What is left behind the reference is the only change to the table.
#[verifier::external_body]
fn table_get_mut<'m, const N: usize, V>(table: &'m mut ByteMap<N, V>, key: &[u8; N]) -> (r: Option<
    &'m mut V,
>)
    ensures
        match r {
            Some(value) => {
                &&& old(table)@.contains_key(*key)
                &&& *value == old(table)@[*key]
                &&& final(table)@ == old(table)@.insert(*key, *final(value))
            },
            None => !old(table)@.contains_key(*key) && final(table)@ == old(table)@,
        },
{
    table.get_mut(key)
}

/// Calls `HashMap::insert`: stores `value` under `key` and hands back the value it displaced.
#[verifier::external_body]
fn table_insert<const N: usize, V>(table: &mut ByteMap<N, V>, key: [u8; N], value: V) -> (r: Option<
    V,
>)
    ensures
        final(table)@ == old(table)@.insert(key, value),
        r == (if old(table)@.contains_key(key) {
            Some(old(table)@[key])
        } else {
            None
        }),
{
    table.insert(key, value)
}

/// Calls `HashMap::remove`: drops the entry of `key` and hands back the value it held.
#[verifier::external_body]
fn table_remove<const N: usize, V>(table: &mut ByteMap<N, V>, key: &[u8; N]) -> (r: Option<V>)
    ensures
        final(table)@ == old(table)@.remove(*key),
        r == (if old(table)@.contains_key(*key) {
            Some(old(table)@[*key])
        } else {
            None
        }),
{
    table.remove(key)
}

/// Calls `HashMap::keys` and collects what it yields: every key once, in an order about which
/// nothing is said.
#[verifier::external_body]
fn table_keys<const N: usize, V>(table: &ByteMap<N, V>) -> (r: Vec<[u8; N]>)
    ensures
        r@.no_duplicates(),
        forall|key: [u8; N]| #[trigger] r@.contains(key) <==> table@.contains_key(key),
{
    table.keys().copied().collect()
}

/// The hash set of `alloy_primitives` of plain `N`-byte arrays.
pub type ByteSet<const N: usize> = HashSet<[u8; N], FbBuildHasher<N>>;

/// Calls `HashSet::contains`: whether `key` is a member.
#[verifier::external_body]
fn set_contains<const N: usize>(set: &ByteSet<N>, key: &[u8; N]) -> (r: bool)
    ensures
        r == set@.contains(*key),
{
    set.contains(key)
}

/// Calls `HashSet::insert`: makes `key` a member and says whether it was none before.
#[verifier::external_body]
fn set_insert<const N: usize>(set: &mut ByteSet<N>, key: [u8; N]) -> (r: bool)
    ensures
        final(set)@ == old(set)@.insert(key),
        r == !old(set)@.contains(key),
{
    set.insert(key)
}

/// Calls `HashSet::remove`: makes `key` no member and says whether it was one before.
#[verifier::external_body]
fn set_remove<const N: usize>(set: &mut ByteSet<N>, key: &[u8; N]) -> (r: bool)
    ensures
        final(set)@ == old(set)@.remove(*key),
        r == old(set)@.contains(*key),
{
    set.remove(key)
}

/// Calls `HashSet::iter` and collects what it yields: every member once, in an order about which
/// nothing is said.
#[verifier::external_body]
fn set_members<const N: usize>(set: &ByteSet<N>) -> (r: Vec<[u8; N]>)
    ensures
        r@.no_duplicates(),
        forall|key: [u8; N]| #[trigger] r@.contains(key) <==> set@.contains(key),
{
    set.iter().copied().collect()
}

/// Whether `keys` lists every element of `set`, each once.
pub open spec fn enumerates<K>(keys: Seq<K>, set: Set<K>) -> bool {
    &&& keys.no_duplicates()
    &&& forall|k: K| #[trigger] keys.contains(k) <==> set.contains(k)
}

/// A value that can be copied without loss of anything its view shows.
pub trait Duplicate: View + Sized {
    /// A copy with the same view.
    fn duplicate(&self) -> (r: Self)
        ensures
            r@ == self@,
    ;
}

/// A map from `N`-byte strings.
#[verifier::reject_recursive_types(N)]
#[derive(Debug, PartialEq, Eq)]
pub struct FixedMap<const N: usize, V> {
    table: ByteMap<N, V>,
}

impl<const N: usize, V: View> View for FixedMap<N, V> {
    type V = Map<FixedBytes<N>, V::V>;

    closed spec fn view(&self) -> Map<FixedBytes<N>, V::V> {
        Map::new(
            |k: FixedBytes<N>| self.table@.contains_key(k.bytes),
            |k: FixedBytes<N>| self.table@[k.bytes]@,
        )
    }
}

impl<const N: usize, V: View> FixedMap<N, V> {
    /// The empty map.
    pub fn new() -> (r: Self)
        ensures
            r@ == Map::<FixedBytes<N>, V::V>::empty(),
    {
        let r = FixedMap { table: Default::default() };
        assert(r@ =~= Map::<FixedBytes<N>, V::V>::empty());
        r
    }

    /// The value stored under `key`.
    pub fn get(&self, key: &FixedBytes<N>) -> (r: Option<&V>)
        ensures
            match r {
                Some(v) => self@.contains_key(*key) && self@[*key] == v@,
                None => !self@.contains_key(*key),
            },
    {
        table_get(&self.table, &key.bytes)
    }

    /// Whether a value is stored under `key`.
    pub fn contains_key(&self, key: &FixedBytes<N>) -> (r: bool)
        ensures
            r == self@.contains_key(*key),
    {
        table_get(&self.table, &key.bytes).is_some()
    }

    /// The value stored under `key`, for changing in place.
    pub fn get_mut(&mut self, key: &FixedBytes<N>) -> (r: Option<&mut V>)
        ensures
            match r {
                Some(v) => {
                    &&& old(self)@.contains_key(*key)
                    &&& old(self)@[*key] == v@
                    &&& final(self)@ == old(self)@.insert(*key, final(v)@)
                },
                None => !old(self)@.contains_key(*key) && final(self)@ == old(self)@,
            },
    {
        table_get_mut(&mut self.table, &key.bytes)
    }

    /// Stores `value` under `key`.
    pub fn insert(&mut self, key: FixedBytes<N>, value: V)
        ensures
            final(self)@ == old(self)@.insert(key, value@),
    {
        let _ = table_insert(&mut self.table, key.bytes, value);
        assert(self@ =~= old(self)@.insert(key, value@));
    }

    /// Drops the entry of `key` and hands back its value.
    pub fn remove(&mut self, key: &FixedBytes<N>) -> (r: Option<V>)
        ensures
            final(self)@ == old(self)@.remove(*key),
            match r {
                Some(v) => old(self)@.contains_key(*key) && old(self)@[*key] == v@,
                None => !old(self)@.contains_key(*key),
            },
    {
        let r = table_remove(&mut self.table, &key.bytes);
        assert(self@ =~= old(self)@.remove(*key));
        r
    }

    /// Drops every entry.
    pub fn clear(&mut self)
        ensures
            final(self)@ == Map::<FixedBytes<N>, V::V>::empty(),
    {
        self.table.clear();
        assert(self@ =~= Map::<FixedBytes<N>, V::V>::empty());
    }

    /// The keys, each once, in no particular order.
    pub fn keys(&self) -> (r: Vec<FixedBytes<N>>)
        ensures
            enumerates(r@, self@.dom()),
    {
        let raw = table_keys(&self.table);
        let r = wrap_all(&raw);
        assert forall|k: FixedBytes<N>| #[trigger] r@.contains(k) <==> self@.dom().contains(k) by {
            assert(raw@.contains(k.bytes) <==> self.table@.contains_key(k.bytes));
        }
        r
    }
}

/// Plain byte arrays as fixed-size byte strings.
fn wrap_all<const N: usize>(raw: &Vec<[u8; N]>) -> (r: Vec<FixedBytes<N>>)
    ensures
        forall|k: FixedBytes<N>| #[trigger] r@.contains(k) <==> raw@.contains(k.bytes),
        raw@.no_duplicates() ==> r@.no_duplicates(),
{
    let mut r: Vec<FixedBytes<N>> = Vec::new();
    let mut i: usize = 0;
    while i < raw.len()
        invariant
            i <= raw.len(),
            r.len() == i,
            forall|j: int| 0 <= j < i ==> (#[trigger] r@[j]).bytes == raw@[j],
        decreases raw.len() - i,
    {
        r.push(FixedBytes { bytes: raw[i] });
        i += 1;
    }
    assert forall|k: FixedBytes<N>| #[trigger] r@.contains(k) <==> raw@.contains(k.bytes) by {
        if r@.contains(k) {
            let j = choose|j: int| 0 <= j < r.len() && r@[j] == k;
            assert(raw@[j] == k.bytes);
        }
        if raw@.contains(k.bytes) {
            let j = choose|j: int| 0 <= j < raw.len() && raw@[j] == k.bytes;
            assert(r@[j].bytes == k.bytes);
            assert(r@[j] == k);
        }
    }
    r
}

impl<const N: usize, V: Duplicate> Duplicate for FixedMap<N, V> {
    fn duplicate(&self) -> (r: Self) {
        let keys = self.keys();
        let mut r: Self = FixedMap::new();
        let mut i: usize = 0;
        while i < keys.len()
            invariant
                i <= keys.len(),
                enumerates(keys@, self@.dom()),
                forall|k: FixedBytes<N>| #[trigger]
                    r@.contains_key(k) ==> self@.contains_key(k) && r@[k] == self@[k],
                forall|j: int| 0 <= j < i ==> r@.contains_key(#[trigger] keys@[j]),
            decreases keys.len() - i,
        {
            let key = keys[i];
            assert(keys@.contains(key));
            match self.get(&key) {
                Some(value) => {
                    r.insert(key, value.duplicate());
                },
                None => {},
            }
            i += 1;
        }
        assert forall|k: FixedBytes<N>| self@.contains_key(k) implies #[trigger] r@.contains_key(k) by {
            assert(keys@.contains(k));
            let j = choose|j: int| 0 <= j < keys.len() && keys@[j] == k;
            assert(r@.contains_key(keys@[j]));
        }
        assert(r@ =~= self@);
        r
    }
}

impl<const N: usize> Duplicate for FixedBytes<N> {
    fn duplicate(&self) -> (r: Self) {
        *self
    }
}

/// A set of `N`-byte strings.
#[verifier::reject_recursive_types(N)]
#[derive(Debug, PartialEq, Eq)]
pub struct FixedSet<const N: usize> {
    table: ByteSet<N>,
}

impl<const N: usize> View for FixedSet<N> {
    type V = Set<FixedBytes<N>>;

    closed spec fn view(&self) -> Set<FixedBytes<N>> {
        Set::new(|k: FixedBytes<N>| self.table@.contains(k.bytes))
    }
}

impl<const N: usize> FixedSet<N> {
    /// The empty set.
    pub fn new() -> (r: Self)
        ensures
            r@ == Set::<FixedBytes<N>>::empty(),
    {
        let r = FixedSet { table: Default::default() };
        assert(r@ =~= Set::<FixedBytes<N>>::empty());
        r
    }

    /// Whether `key` is a member.
    pub fn contains(&self, key: &FixedBytes<N>) -> (r: bool)
        ensures
            r == self@.contains(*key),
    {
        set_contains(&self.table, &key.bytes)
    }

    /// Makes `key` a member.
    pub fn insert(&mut self, key: FixedBytes<N>)
        ensures
            final(self)@ == old(self)@.insert(key),
    {
        let _ = set_insert(&mut self.table, key.bytes);
        assert(self@ =~= old(self)@.insert(key));
    }

    /// Makes `key` no member.
    pub fn remove(&mut self, key: &FixedBytes<N>)
        ensures
            final(self)@ == old(self)@.remove(*key),
    {
        let _ = set_remove(&mut self.table, &key.bytes);
        assert(self@ =~= old(self)@.remove(*key));
    }

    /// Drops every member.
    pub fn clear(&mut self)
        ensures
            final(self)@ == Set::<FixedBytes<N>>::empty(),
    {
        self.table.clear();
        assert(self@ =~= Set::<FixedBytes<N>>::empty());
    }

    /// The members, each once, in no particular order.
    pub fn members(&self) -> (r: Vec<FixedBytes<N>>)
        ensures
            enumerates(r@, self@),
    {
        let raw = set_members(&self.table);
        let r = wrap_all(&raw);
        assert forall|k: FixedBytes<N>| #[trigger] r@.contains(k) <==> self@.contains(k) by {
            assert(raw@.contains(k.bytes) <==> self.table@.contains(k.bytes));
        }
        r
    }
}

impl<const N: usize> Duplicate for FixedSet<N> {
    fn duplicate(&self) -> (r: Self) {
        let members = self.members();
        let mut r: Self = FixedSet::new();
        let mut i: usize = 0;
        while i < members.len()
            invariant
                i <= members.len(),
                enumerates(members@, self@),
                forall|k: FixedBytes<N>| #[trigger] r@.contains(k) ==> self@.contains(k),
                forall|j: int| 0 <= j < i ==> r@.contains(#[trigger] members@[j]),
            decreases members.len() - i,
        {
            let member = members[i];
            assert(members@.contains(member));
            r.insert(member);
            i += 1;
        }
        assert forall|k: FixedBytes<N>| self@.contains(k) implies #[trigger] r@.contains(k) by {
            assert(members@.contains(k));
            let j = choose|j: int| 0 <= j < members.len() && members@[j] == k;
            assert(r@.contains(members@[j]));
        }
        assert(r@ =~= self@);
        r
    }
}

/// A map from account addresses.
pub type AddressMap<V> = FixedMap<20, V>;

/// A map from 256-bit words.
pub type WordMap<V> = FixedMap<32, V>;

/// A set of account addresses.
pub type AddressSet = FixedSet<20>;

/// A set of 256-bit words.
pub type WordSet = FixedSet<32>;

} // verus!
