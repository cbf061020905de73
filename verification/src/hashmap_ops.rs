//! The two operations of `std::collections::HashMap` that the library uses
//! and that vstd gives no specification. Their contracts are taken on trust
//! from the standard library's documentation.

use std::collections::HashMap;
use std::hash::Hash;
use vstd::prelude::*;
use vstd::std_specs::hash::obeys_key_model;

verus! {

/// `HashMap::get_mut`: a mutable reference to the value that `key` is bound
/// to, or `None` where the map does not bind `key`.
///
/// Trusted: the reference starts out at the bound value, and whatever is
/// written through it becomes the value of `key`; no other binding changes.
#[verifier::external_body]
pub(crate) fn slot_mut<'a, K: Eq + Hash, V>(m: &'a mut HashMap<K, V>, key: &K) -> (slot: Option<
    &'a mut V,
>)
    ensures
        obeys_key_model::<K>() ==> match slot {
            Some(s) => old(m)@.contains_key(*key) && *s == old(m)@[*key] && final(m)@ == old(
                m,
            )@.insert(*key, *final(s)),
            None => !old(m)@.contains_key(*key) && final(m)@ == old(m)@,
        },
{
    m.get_mut(key)
}

/// `Extend::extend` of `HashMap`, fed with another map: every binding of
/// `top` is inserted into `base`, replacing the value of a key that `base`
/// already binds.
///
/// Trusted: afterwards `base` binds what it bound before and what `top`
/// binds, with the value of `top` where both bind a key.
#[verifier::external_body]
pub(crate) fn overlay<K: Eq + Hash, V>(base: &mut HashMap<K, V>, top: HashMap<K, V>)
    ensures
        obeys_key_model::<K>() ==> final(base)@ == old(base)@.union_prefer_right(top@),
{
    base.extend(top)
}

} // verus!
