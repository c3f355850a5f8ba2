//! Hash maps with integer keys, hashed by `rustc_hash`.

use vstd::prelude::*;

verus! {

/// `rustc_hash::FxBuildHasher`: the hasher of the maps below. It has no state.
#[verifier::external_type_specification]
#[verifier::external_body]
pub struct ExFxBuildHasher(rustc_hash::FxBuildHasher);

/// A map without entries.
pub(crate) fn fx_new<V>() -> (m: rustc_hash::FxHashMap<u128, V>)
    ensures
        m@ == Map::<u128, V>::empty(),
{
    rustc_hash::FxHashMap::default()
}

/// `HashMap::get`: a reference to the value under the key, if there is one.
#[verifier::external_body]
pub(crate) fn fx_get<V>(m: &rustc_hash::FxHashMap<u128, V>, key: u128) -> (r: Option<&V>)
    ensures
        match r {
            Some(v) => m@.contains_key(key) && *v == m@[key],
            None => !m@.contains_key(key),
        },
{
    m.get(&key)
}

/// `HashMap::insert`: puts a value under the key, in place of the one that was
/// there, which is handed back.
#[verifier::external_body]
pub(crate) fn fx_insert<V>(m: &mut rustc_hash::FxHashMap<u128, V>, key: u128, value: V) -> (r: Option<
    V,
>)
    ensures
        final(m)@ == old(m)@.insert(key, value),
        match r {
            Some(v) => old(m)@.contains_key(key) && v == old(m)@[key],
            None => !old(m)@.contains_key(key),
        },
{
    m.insert(key, value)
}

/// `HashMap::remove`: takes the key out; its value is handed back.
#[verifier::external_body]
pub(crate) fn fx_remove<V>(m: &mut rustc_hash::FxHashMap<u128, V>, key: u128) -> (r: Option<V>)
    ensures
        final(m)@ == old(m)@.remove(key),
        match r {
            Some(v) => old(m)@.contains_key(key) && v == old(m)@[key],
            None => !old(m)@.contains_key(key),
        },
{
    m.remove(&key)
}

/// `HashMap::len`: the number of entries.
#[verifier::external_body]
pub(crate) fn fx_len<V>(m: &rustc_hash::FxHashMap<u128, V>) -> (r: usize)
    ensures
        r == m@.dom().len(),
{
    m.len()
}

} // verus!
