//! The insertion-ordered map that holds the groups, as far as it is used
//! here. Nothing in this file is proved: each contract restates what the
//! `indexmap` crate documents for the method it calls.

use crate::group::Group;
use indexmap::IndexMap;
use vstd::prelude::*;

verus! {

/// `indexmap::IndexMap`, made known so that it can stand in fields and
/// signatures. Nothing is known of what is inside one but through the
/// functions below.
#[verifier::external_type_specification]
#[verifier::external_body]
#[verifier::reject_recursive_types(K)]
#[verifier::reject_recursive_types(V)]
#[verifier::reject_recursive_types(S)]
pub struct ExIndexMap<K, V, S>(IndexMap<K, V, S>);

/// The key-value pairs that a map holds, in its own order: the order in which
/// the keys were first inserted.
pub uninterp spec fn entries(m: IndexMap<usize, Group>) -> Seq<(usize, Group)>;

/// Whether `key` is among the keys of `s`.
pub open spec fn has_key(s: Seq<(usize, Group)>, key: usize) -> bool {
    exists|i: int| 0 <= i < s.len() && (#[trigger] s[i]).0 == key
}

/// Where `key` stands in `s`. A map holds no key twice, so among its entries
/// this is the one place of the key.
pub open spec fn position(s: Seq<(usize, Group)>, key: usize) -> int {
    choose|i: int| 0 <= i < s.len() && (#[trigger] s[i]).0 == key
}

/// `IndexMap::new`: a map without entries.
#[verifier::external_body]
pub(crate) fn map_new() -> (m: IndexMap<usize, Group>)
    ensures
        entries(m) == Seq::<(usize, Group)>::empty(),
{
    IndexMap::new()
}

/// `IndexMap::len`: the number of entries.
#[verifier::external_body]
pub(crate) fn map_len(m: &IndexMap<usize, Group>) -> (n: usize)
    ensures
        n == entries(*m).len(),
{
    m.len()
}

/// `IndexMap::insert`: under a key that the map already has, the value is
/// replaced where it stands and the old one handed back; a new key goes to
/// the end, and nothing is handed back.
#[verifier::external_body]
pub(crate) fn map_insert(m: &mut IndexMap<usize, Group>, key: usize, value: Group) -> (prev: Option<
    Group,
>)
    ensures
        has_key(entries(*old(m)), key) ==> prev == Some(
            entries(*old(m))[position(entries(*old(m)), key)].1,
        ) && entries(*final(m)) == entries(*old(m)).update(
            position(entries(*old(m)), key),
            (key, value),
        ),
        !has_key(entries(*old(m)), key) ==> prev is None && entries(*final(m)) == entries(
            *old(m),
        ).push((key, value)),
{
    m.insert(key, value)
}

/// `IndexMap::get`: the value stored under `key`, if the map has the key.
#[verifier::external_body]
pub(crate) fn map_get(m: &IndexMap<usize, Group>, key: usize) -> (r: Option<&Group>)
    ensures
        r is Some <==> has_key(entries(*m), key),
        r is Some ==> *r->0 == entries(*m)[position(entries(*m), key)].1,
{
    m.get(&key)
}

/// `IndexMap::get_mut`: the value stored under `key`, if the map has the
/// key, for changing in place. Nothing else in the map changes.
#[verifier::external_body]
pub(crate) fn map_get_mut(m: &mut IndexMap<usize, Group>, key: usize) -> (r: Option<&mut Group>)
    ensures
        r is Some <==> has_key(entries(*old(m)), key),
        r is None ==> entries(*final(m)) == entries(*old(m)),
        r is Some ==> *r.unwrap() == entries(*old(m))[position(entries(*old(m)), key)].1
            && entries(*final(m)) == entries(*old(m)).update(
            position(entries(*old(m)), key),
            (key, *final(r.unwrap())),
        ),
{
    m.get_mut(&key)
}

/// `IndexMap::get_index`: the entry at a position, if the position is below
/// the length.
#[verifier::external_body]
pub(crate) fn map_get_index(m: &IndexMap<usize, Group>, index: usize) -> (r: Option<
    (&usize, &Group),
>)
    ensures
        r is Some <==> index < entries(*m).len(),
        match r {
            Some(pair) => *pair.0 == entries(*m)[index as int].0 && *pair.1 == entries(
                *m,
            )[index as int].1,
            None => true,
        },
{
    m.get_index(index)
}

} // verus!
