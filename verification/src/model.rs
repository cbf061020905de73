//! The mathematical model: a sequence of levels, each with a link to a
//! level of smaller index, and the walks over them.

use vstd::prelude::*;
use crate::error::ChainError;

verus! {

/// What one level is, as a mathematical value.
#[verifier::reject_recursive_types(K)]
pub struct LevelView<K, V> {
    /// The level's own bindings.
    pub bindings: Map<K, V>,
    /// The index of the next level outward, if any.
    pub parent: Option<int>,
    /// Whether `local_lookup` walks on to the parent after a miss here.
    pub fallthrough: bool,
    /// Whether writes to this level are refused.
    pub locked: bool,
    /// Whether an update walk may look at this level and beyond.
    pub write_authorized: bool,
}

/// Every parent link points to a level that was made earlier, and a
/// fallthrough level always has a parent.
pub open spec fn well_formed<K, V>(levels: Seq<LevelView<K, V>>) -> bool {
    forall|i: int|
        0 <= i < levels.len() ==> match (#[trigger] levels[i]).parent {
            Some(p) => 0 <= p < i,
            None => !levels[i].fallthrough,
        }
}

/// The level outward of `at`; `None` at a root.
pub open spec fn parent_of<K, V>(levels: Seq<LevelView<K, V>>, at: int) -> Option<int> {
    if 0 <= at < levels.len() {
        match levels[at].parent {
            Some(p) => if 0 <= p < at {
                Some(p)
            } else {
                None
            },
            None => None,
        }
    } else {
        None
    }
}

/// The levels that a walk from `at` visits: `at` first, the root last.
pub open spec fn lineage<K, V>(levels: Seq<LevelView<K, V>>, at: int) -> Seq<int>
    decreases at,
{
    if 0 <= at < levels.len() {
        match parent_of(levels, at) {
            Some(p) => seq![at] + lineage(levels, p),
            None => seq![at],
        }
    } else {
        Seq::empty()
    }
}

/// The nearest level, from `at` outward, that binds `key`.
pub open spec fn binding_level<K, V>(levels: Seq<LevelView<K, V>>, at: int, key: K) -> Option<int>
    decreases at,
{
    if 0 <= at < levels.len() {
        if levels[at].bindings.contains_key(key) {
            Some(at)
        } else {
            match parent_of(levels, at) {
                Some(p) => binding_level(levels, p, key),
                None => None,
            }
        }
    } else {
        None
    }
}

/// The value that a full walk from `at` finds for `key`.
pub open spec fn lookup<K, V>(levels: Seq<LevelView<K, V>>, at: int, key: K) -> Option<V> {
    match binding_level(levels, at, key) {
        Some(i) => Some(levels[i].bindings[key]),
        None => None,
    }
}

/// The nearest level that binds `key`, for a walk that gives up at the first
/// level that misses and is not fallthrough.
pub open spec fn local_binding_level<K, V>(
    levels: Seq<LevelView<K, V>>,
    at: int,
    key: K,
) -> Option<int>
    decreases at,
{
    if 0 <= at < levels.len() {
        if levels[at].bindings.contains_key(key) {
            Some(at)
        } else if levels[at].fallthrough {
            match parent_of(levels, at) {
                Some(p) => local_binding_level(levels, p, key),
                None => None,
            }
        } else {
            None
        }
    } else {
        None
    }
}

/// The value that a local walk from `at` finds for `key`.
pub open spec fn local_lookup<K, V>(levels: Seq<LevelView<K, V>>, at: int, key: K) -> Option<V> {
    match local_binding_level(levels, at, key) {
        Some(i) => Some(levels[i].bindings[key]),
        None => None,
    }
}

/// Where an update of `key` that starts at `at` would write.
///
/// The walk stops at the first level that is not write-authorized, before it
/// looks into it: `Err(KeyNotFound)`. At the first authorized level that binds
/// the key it ends: `Ok` with that level if it is unlocked, `Err(LevelLocked)`
/// if it is locked. Past the root: `Err(KeyNotFound)`.
pub open spec fn update_target<K, V>(levels: Seq<LevelView<K, V>>, at: int, key: K) -> Result<
    int,
    ChainError,
>
    decreases at,
{
    if 0 <= at < levels.len() {
        if !levels[at].write_authorized {
            Err(ChainError::KeyNotFound)
        } else if levels[at].bindings.contains_key(key) {
            if levels[at].locked {
                Err(ChainError::LevelLocked)
            } else {
                Ok(at)
            }
        } else {
            match parent_of(levels, at) {
                Some(p) => update_target(levels, p, key),
                None => Err(ChainError::KeyNotFound),
            }
        }
    } else {
        Err(ChainError::KeyNotFound)
    }
}

/// All bindings that can be reached from `at`: each level's bindings laid
/// over those of the levels outward of it.
pub open spec fn collected<K, V>(levels: Seq<LevelView<K, V>>, at: int) -> Map<K, V>
    decreases at,
{
    if 0 <= at < levels.len() {
        let outer = match parent_of(levels, at) {
            Some(p) => collected(levels, p),
            None => Map::empty(),
        };
        outer.union_prefer_right(levels[at].bindings)
    } else {
        Map::empty()
    }
}

/// A level as it is made: unlocked and write-authorized.
pub open spec fn fresh_level<K, V>(
    bindings: Map<K, V>,
    parent: Option<int>,
    fallthrough: bool,
) -> LevelView<K, V> {
    LevelView { bindings, parent, fallthrough, locked: false, write_authorized: true }
}

/// `levels` after `key` is bound to `val` in level `at`.
pub open spec fn with_binding<K, V>(
    levels: Seq<LevelView<K, V>>,
    at: int,
    key: K,
    val: V,
) -> Seq<LevelView<K, V>> {
    levels.update(at, LevelView { bindings: levels[at].bindings.insert(key, val), ..levels[at] })
}

/// `levels` after the lock of level `at` is set to `locked`.
pub open spec fn with_lock<K, V>(levels: Seq<LevelView<K, V>>, at: int, locked: bool) -> Seq<
    LevelView<K, V>,
> {
    levels.update(at, LevelView { locked, ..levels[at] })
}

/// `levels` after level `at` is write-protected.
pub open spec fn with_write_protection<K, V>(levels: Seq<LevelView<K, V>>, at: int) -> Seq<
    LevelView<K, V>,
> {
    levels.update(at, LevelView { write_authorized: false, ..levels[at] })
}

/// `levels` after an insertion of `key` through a handle to level `at`: the
/// binding is made unless the level is locked.
pub open spec fn after_insert<K, V>(
    levels: Seq<LevelView<K, V>>,
    at: int,
    key: K,
    val: V,
) -> Seq<LevelView<K, V>> {
    if levels[at].locked {
        levels
    } else {
        with_binding(levels, at, key, val)
    }
}

/// `levels` after an update of `key` through a handle to level `at`: the
/// level that the walk ends at is rewritten, or nothing changes.
pub open spec fn after_update<K, V>(
    levels: Seq<LevelView<K, V>>,
    at: int,
    key: K,
    val: V,
) -> Seq<LevelView<K, V>> {
    match update_target(levels, at, key) {
        Ok(i) => with_binding(levels, i, key, val),
        Err(_) => levels,
    }
}

/// `levels` after an update of `key` through a handle to level `at` that
/// falls back to an insertion at `at` where the walk finds no level to write.
pub open spec fn after_update_or<K, V>(
    levels: Seq<LevelView<K, V>>,
    at: int,
    key: K,
    val: V,
) -> Seq<LevelView<K, V>> {
    match update_target(levels, at, key) {
        Ok(i) => with_binding(levels, i, key, val),
        Err(_) => after_insert(levels, at, key, val),
    }
}

/// `levels` after a fork at level `at`: a new branch seeded with `seed`, and
/// after it the fallthrough level that the forking handle moves to. Both
/// have `at` as their parent.
pub open spec fn after_fork<K, V>(levels: Seq<LevelView<K, V>>, at: int, seed: Map<K, V>) -> Seq<
    LevelView<K, V>,
> {
    levels.push(fresh_level(seed, Some(at), false)).push(
        fresh_level(Map::empty(), Some(at), true),
    )
}

} // verus!
