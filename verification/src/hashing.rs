//! The hashed collections of the crate.
//!
//! Sets and maps are the standard ones, hashed by `rustc_hash`. The standard
//! library's guarantees for them are stated here for that hasher and believed
//! without proof.

use vstd::prelude::*;
use std::collections::{HashMap, HashSet};
use rustc_hash::FxBuildHasher;

verus! {

/// `rustc_hash::FxBuildHasher`, the state-free builder of the Fx hasher.
#[verifier::external_type_specification]
#[verifier::external_body]
pub struct ExFxBuildHasher(FxBuildHasher);

/// `HashSet::insert` on a set hashed by `FxBuildHasher`: the value joins the
/// set, and the result tells whether it was absent before.
#[verifier::external_body]
pub(crate) fn set_insert(set: &mut HashSet<u32, FxBuildHasher>, value: u32) -> (fresh: bool)
    ensures
        final(set)@ == old(set)@.insert(value),
        fresh == !old(set)@.contains(value),
{
    set.insert(value)
}

/// `HashMap::insert` on a map hashed by `FxBuildHasher`: the key is bound to
/// the value, and the result is the value it was bound to before, if any.
#[verifier::external_body]
pub(crate) fn map_insert(map: &mut HashMap<u128, u32, FxBuildHasher>, key: u128, value: u32) -> (previous:
    Option<u32>)
    ensures
        final(map)@ == old(map)@.insert(key, value),
        previous == if old(map)@.contains_key(key) {
            Some(old(map)@[key])
        } else {
            None
        },
{
    map.insert(key, value)
}

/// `HashMap::get` on a map hashed by `FxBuildHasher`: the value that the key
/// is bound to, if any.
#[verifier::external_body]
pub(crate) fn map_get<'a>(map: &'a HashMap<u128, u32, FxBuildHasher>, key: &u128) -> (found: Option<
    &'a u32,
>)
    ensures
        found == if map@.contains_key(*key) {
            Some(&map@[*key])
        } else {
            None
        },
{
    map.get(key)
}

} // verus!
