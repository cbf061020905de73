//! What holds of the walks, for every arena and every handle.
//!
//! The laws speak of the model of `crate::model`, in which the contracts of
//! the operations are written: a law about `lookup` is a law about `get`.

use vstd::prelude::*;
use crate::error::ChainError;
use crate::model::{
    LevelView,
    after_fork,
    after_insert,
    after_update,
    after_update_or,
    binding_level,
    collected,
    fresh_level,
    lineage,
    local_binding_level,
    local_lookup,
    lookup,
    parent_of,
    update_target,
    with_binding,
    with_lock,
    with_write_protection,
};

verus! {

/// A walk starts at its own level and only ever visits levels of smaller
/// index.
pub proof fn lineage_descends<K, V>(levels: Seq<LevelView<K, V>>, at: int)
    requires
        0 <= at < levels.len(),
    ensures
        lineage(levels, at).len() >= 1,
        lineage(levels, at)[0] == at,
        forall|n: int|
            0 <= n < lineage(levels, at).len() ==> 0 <= #[trigger] lineage(levels, at)[n] <= at,
    decreases at,
{
    match parent_of(levels, at) {
        Some(p) => lineage_descends(levels, p),
        None => {},
    }
}

/// Walks depend on nothing but the levels of their lineage: two arenas that
/// agree on the lineage of `at` give the same walks from `at`.
pub proof fn walks_read_their_lineage_only<K, V>(
    levels: Seq<LevelView<K, V>>,
    other: Seq<LevelView<K, V>>,
    at: int,
    key: K,
)
    requires
        0 <= at < levels.len(),
        at < other.len(),
        forall|n: int|
            0 <= n < lineage(levels, at).len() ==> other[#[trigger] lineage(levels, at)[n]]
                == levels[lineage(levels, at)[n]],
    ensures
        lineage(other, at) == lineage(levels, at),
        binding_level(other, at, key) == binding_level(levels, at, key),
        local_binding_level(other, at, key) == local_binding_level(levels, at, key),
        lookup(other, at, key) == lookup(levels, at, key),
        local_lookup(other, at, key) == local_lookup(levels, at, key),
        update_target(other, at, key) == update_target(levels, at, key),
        collected(other, at) == collected(levels, at),
    decreases at,
{
    lineage_descends(levels, at);
    match parent_of(levels, at) {
        Some(p) => {
            assert forall|n: int| 0 <= n < lineage(levels, p).len() implies other[
                #[trigger] lineage(levels, p)[n]
            ] == levels[lineage(levels, p)[n]] by {
                assert(lineage(levels, at)[n + 1] == lineage(levels, p)[n]);
            }
            walks_read_their_lineage_only(levels, other, p, key);
        },
        None => {},
    }
}

/// A lookup returns the binding of the nearest level of the lineage, the
/// handle's own included, that binds the key, and nothing if none binds it.
pub proof fn lookup_finds_nearest_binding<K, V>(levels: Seq<LevelView<K, V>>, at: int, key: K)
    requires
        0 <= at < levels.len(),
    ensures
        ({
            let line = lineage(levels, at);
            match lookup(levels, at, key) {
                Some(val) => exists|n: int|
                    {
                        &&& 0 <= n < line.len()
                        &&& (#[trigger] levels[line[n]]).bindings.contains_key(key)
                        &&& levels[line[n]].bindings[key] == val
                        &&& forall|m: int|
                            0 <= m < n ==> !(#[trigger] levels[line[m]]).bindings.contains_key(key)
                    },
                None => forall|n: int|
                    0 <= n < line.len() ==> !(#[trigger] levels[line[n]]).bindings.contains_key(key),
            }
        }),
    decreases at,
{
    let line = lineage(levels, at);
    lineage_descends(levels, at);
    if !levels[at].bindings.contains_key(key) {
        match parent_of(levels, at) {
            Some(p) => {
                lookup_finds_nearest_binding(levels, p, key);
                let rest = lineage(levels, p);
                assert(forall|n: int| 0 <= n < rest.len() ==> line[n + 1] == rest[n]);
                match lookup(levels, p, key) {
                    Some(val) => {
                        let n = choose|n: int|
                            {
                                &&& 0 <= n < rest.len()
                                &&& (#[trigger] levels[rest[n]]).bindings.contains_key(key)
                                &&& levels[rest[n]].bindings[key] == val
                                &&& forall|m: int|
                                    0 <= m < n ==> !(
                                        #[trigger] levels[rest[m]]
                                    ).bindings.contains_key(key)
                            };
                        assert forall|m: int| 0 <= m < n + 1 implies !(
                            #[trigger] levels[line[m]]
                        ).bindings.contains_key(key) by {}
                    },
                    None => {
                        assert forall|n: int| 0 <= n < line.len() implies !(
                            #[trigger] levels[line[n]]
                        ).bindings.contains_key(key) by {}
                    },
                }
            },
            None => {},
        }
    }
}

/// A level that is added changes no walk from a level that was there before,
/// and the lineage of a new child is the child followed by the lineage of its
/// parent.
pub proof fn new_level_leaves_old_walks<K, V>(
    levels: Seq<LevelView<K, V>>,
    level: LevelView<K, V>,
    at: int,
    key: K,
)
    requires
        0 <= at < levels.len(),
    ensures
        lineage(levels.push(level), at) == lineage(levels, at),
        lookup(levels.push(level), at, key) == lookup(levels, at, key),
        local_lookup(levels.push(level), at, key) == local_lookup(levels, at, key),
        update_target(levels.push(level), at, key) == update_target(levels, at, key),
        collected(levels.push(level), at) == collected(levels, at),
        level.parent == Some(at) ==> lineage(levels.push(level), levels.len() as int) == seq![
            levels.len() as int,
        ] + lineage(levels, at),
{
    lineage_descends(levels, at);
    walks_read_their_lineage_only(levels, levels.push(level), at, key);
}

/// A scope that `extend` or `extend_with` makes sees its own bindings laid
/// over what its parent sees, and locally its own bindings alone.
pub proof fn extension_view<K, V>(levels: Seq<LevelView<K, V>>, at: int, seed: Map<K, V>, key: K)
    requires
        0 <= at < levels.len(),
    ensures
        ({
            let grown = levels.push(fresh_level(seed, Some(at), false));
            let child = levels.len() as int;
            &&& lookup(grown, child, key) == if seed.contains_key(key) {
                Some(seed[key])
            } else {
                lookup(levels, at, key)
            }
            &&& local_lookup(grown, child, key) == if seed.contains_key(key) {
                Some(seed[key])
            } else {
                None
            }
        }),
{
    new_level_leaves_old_walks(levels, fresh_level(seed, Some(at), false), at, key);
}

/// A local lookup from a level that is not fallthrough sees that level's own
/// bindings and no others.
pub proof fn local_lookup_stops_at_opaque_level<K, V>(
    levels: Seq<LevelView<K, V>>,
    at: int,
    key: K,
)
    requires
        0 <= at < levels.len(),
        !levels[at].fallthrough,
    ensures
        local_lookup(levels, at, key) == if levels[at].bindings.contains_key(key) {
            Some(levels[at].bindings[key])
        } else {
            None
        },
{
}

/// What a local lookup finds, the full lookup finds too.
pub proof fn local_lookup_agrees_where_it_finds<K, V>(
    levels: Seq<LevelView<K, V>>,
    at: int,
    key: K,
)
    requires
        local_lookup(levels, at, key) is Some,
    ensures
        lookup(levels, at, key) == local_lookup(levels, at, key),
    decreases at,
{
    if 0 <= at < levels.len() && !levels[at].bindings.contains_key(key) {
        match parent_of(levels, at) {
            Some(p) => local_lookup_agrees_where_it_finds(levels, p, key),
            None => {},
        }
    }
}

/// The handle that forks keeps its view: on its new level it finds by either
/// lookup, and would update, what it did on the old one. In particular its
/// local lookup agrees with its full lookup wherever it did before the fork,
/// as on every key that the forked level binds.
pub proof fn fork_keeps_old_side_view<K, V>(
    levels: Seq<LevelView<K, V>>,
    at: int,
    seed: Map<K, V>,
    key: K,
)
    requires
        0 <= at < levels.len(),
    ensures
        ({
            let forked = after_fork(levels, at, seed);
            let old_side = levels.len() as int + 1;
            &&& lookup(forked, old_side, key) == lookup(levels, at, key)
            &&& local_lookup(forked, old_side, key) == local_lookup(levels, at, key)
            &&& update_target(forked, old_side, key) == update_target(levels, at, key)
            &&& collected(forked, old_side) == collected(levels, at)
            &&& local_lookup(levels, at, key) == lookup(levels, at, key) ==> local_lookup(
                forked,
                old_side,
                key,
            ) == lookup(forked, old_side, key)
            &&& levels[at].bindings.contains_key(key) ==> local_lookup(forked, old_side, key)
                == Some(levels[at].bindings[key]) && lookup(forked, old_side, key) == Some(
                levels[at].bindings[key],
            )
        }),
{
    lineage_descends(levels, at);
    walks_read_their_lineage_only(levels, after_fork(levels, at, seed), at, key);
}

/// The branch that a fork returns sees its seed laid over what the forked
/// level sees, and locally its seed alone.
pub proof fn fork_branch_view<K, V>(
    levels: Seq<LevelView<K, V>>,
    at: int,
    seed: Map<K, V>,
    key: K,
)
    requires
        0 <= at < levels.len(),
    ensures
        ({
            let forked = after_fork(levels, at, seed);
            let branch = levels.len() as int;
            &&& lookup(forked, branch, key) == if seed.contains_key(key) {
                Some(seed[key])
            } else {
                lookup(levels, at, key)
            }
            &&& local_lookup(forked, branch, key) == if seed.contains_key(key) {
                Some(seed[key])
            } else {
                None
            }
        }),
{
    lineage_descends(levels, at);
    walks_read_their_lineage_only(levels, after_fork(levels, at, seed), at, key);
}

/// A binding that is made in a level off the lineage of `at` changes no walk
/// from `at`: siblings do not see each other's insertions.
pub proof fn write_off_lineage_is_unseen<K, V>(
    levels: Seq<LevelView<K, V>>,
    written: int,
    key: K,
    val: V,
    at: int,
    probe: K,
)
    requires
        0 <= at < levels.len(),
        0 <= written < levels.len(),
        !lineage(levels, at).contains(written),
    ensures
        lookup(with_binding(levels, written, key, val), at, probe) == lookup(levels, at, probe),
        local_lookup(with_binding(levels, written, key, val), at, probe) == local_lookup(
            levels,
            at,
            probe,
        ),
        collected(with_binding(levels, written, key, val), at) == collected(levels, at),
{
    lineage_descends(levels, at);
    walks_read_their_lineage_only(levels, with_binding(levels, written, key, val), at, probe);
}

/// After a fork, what is inserted through the forking handle is out of
/// sight of the new branch, and what is inserted through the new branch is
/// out of sight of the forking handle.
pub proof fn fork_isolates_insertions<K, V>(
    levels: Seq<LevelView<K, V>>,
    at: int,
    seed: Map<K, V>,
    key: K,
    val: V,
    probe: K,
)
    requires
        0 <= at < levels.len(),
    ensures
        ({
            let forked = after_fork(levels, at, seed);
            let branch = levels.len() as int;
            let old_side = levels.len() as int + 1;
            let through_old = after_insert(forked, old_side, key, val);
            let through_branch = after_insert(forked, branch, key, val);
            &&& lookup(through_old, old_side, key) == Some(val)
            &&& lookup(through_old, branch, probe) == lookup(forked, branch, probe)
            &&& local_lookup(through_old, branch, probe) == local_lookup(forked, branch, probe)
            &&& lookup(through_branch, branch, key) == Some(val)
            &&& lookup(through_branch, old_side, probe) == lookup(forked, old_side, probe)
            &&& local_lookup(through_branch, old_side, probe) == local_lookup(
                forked,
                old_side,
                probe,
            )
        }),
{
    let forked = after_fork(levels, at, seed);
    let branch = levels.len() as int;
    let old_side = levels.len() as int + 1;
    lineage_descends(forked, branch);
    write_off_lineage_is_unseen(forked, old_side, key, val, branch, probe);
    lineage_descends(forked, at);
    assert forall|n: int| 0 <= n < lineage(forked, old_side).len() implies lineage(
        forked,
        old_side,
    )[n] != branch by {}
    write_off_lineage_is_unseen(forked, branch, key, val, old_side, probe);
}

/// After an insertion that is not refused, both lookups through the same
/// handle find the inserted value.
pub proof fn insert_then_lookup<K, V>(levels: Seq<LevelView<K, V>>, at: int, key: K, val: V)
    requires
        0 <= at < levels.len(),
        !levels[at].locked,
    ensures
        lookup(after_insert(levels, at, key, val), at, key) == Some(val),
        local_lookup(after_insert(levels, at, key, val), at, key) == Some(val),
{
}

/// An insertion changes the lookups of the inserted key alone.
pub proof fn insert_leaves_other_keys<K, V>(
    levels: Seq<LevelView<K, V>>,
    at: int,
    key: K,
    val: V,
    from: int,
    probe: K,
)
    requires
        0 <= at < levels.len(),
        0 <= from < levels.len(),
        probe != key,
    ensures
        lookup(after_insert(levels, at, key, val), from, probe) == lookup(levels, from, probe),
        local_lookup(after_insert(levels, at, key, val), from, probe) == local_lookup(
            levels,
            from,
            probe,
        ),
    decreases from,
{
    match parent_of(levels, from) {
        Some(p) => insert_leaves_other_keys(levels, at, key, val, p, probe),
        None => {},
    }
}

/// The level that an update writes lies between the root and the start of
/// the walk, binds the key and is unlocked.
pub proof fn update_target_is_writable<K, V>(levels: Seq<LevelView<K, V>>, at: int, key: K)
    requires
        update_target(levels, at, key) is Ok,
    ensures
        ({
            let i = update_target(levels, at, key)->Ok_0;
            &&& 0 <= i <= at
            &&& i < levels.len()
            &&& levels[i].bindings.contains_key(key)
            &&& !levels[i].locked
        }),
    decreases at,
{
    if 0 <= at < levels.len() && levels[at].write_authorized && !levels[at].bindings.contains_key(
        key,
    ) {
        match parent_of(levels, at) {
            Some(p) => update_target_is_writable(levels, p, key),
            None => {},
        }
    }
}

/// An update that succeeds writes the level at which the writer's own
/// lookup of the key ends.
pub proof fn update_writes_the_nearest_binding<K, V>(
    levels: Seq<LevelView<K, V>>,
    at: int,
    key: K,
)
    requires
        update_target(levels, at, key) is Ok,
    ensures
        binding_level(levels, at, key) == Some(update_target(levels, at, key)->Ok_0),
    decreases at,
{
    if 0 <= at < levels.len() && !levels[at].bindings.contains_key(key) {
        match parent_of(levels, at) {
            Some(p) => update_writes_the_nearest_binding(levels, p, key),
            None => {},
        }
    }
}

/// A new value for a key that a level binds already moves no walk: every
/// walk ends where it ended before.
proof fn lemma_rebinding_keeps_walks<K, V>(
    levels: Seq<LevelView<K, V>>,
    written: int,
    key: K,
    val: V,
    from: int,
    probe: K,
)
    requires
        0 <= written < levels.len(),
        levels[written].bindings.contains_key(key),
    ensures
        binding_level(with_binding(levels, written, key, val), from, probe) == binding_level(
            levels,
            from,
            probe,
        ),
        binding_level(levels, from, probe) matches Some(i) ==> 0 <= i < levels.len(),
    decreases from,
{
    if 0 <= from < levels.len() {
        match parent_of(levels, from) {
            Some(p) => lemma_rebinding_keeps_walks(levels, written, key, val, p, probe),
            None => {},
        }
    }
}

/// An update that succeeds is seen by every handle whose lookup of the key
/// ends at the level that was written: the writer itself, and whoever shares
/// that level as an ancestor, siblings included. Every other handle, and
/// every other key, finds what it found before.
pub proof fn update_is_seen_by_sharers<K, V>(
    levels: Seq<LevelView<K, V>>,
    at: int,
    key: K,
    val: V,
    from: int,
    probe: K,
)
    requires
        0 <= at < levels.len(),
        0 <= from < levels.len(),
        update_target(levels, at, key) is Ok,
    ensures
        ({
            let written = update_target(levels, at, key)->Ok_0;
            let after = after_update(levels, at, key, val);
            &&& lookup(after, at, key) == Some(val)
            &&& lookup(after, from, probe) == if probe == key && binding_level(levels, from, key)
                == Some(written) {
                Some(val)
            } else {
                lookup(levels, from, probe)
            }
        }),
{
    let written = update_target(levels, at, key)->Ok_0;
    update_target_is_writable(levels, at, key);
    update_writes_the_nearest_binding(levels, at, key);
    lemma_rebinding_keeps_walks(levels, written, key, val, from, probe);
    lemma_rebinding_keeps_walks(levels, written, key, val, at, key);
}

/// The collected map agrees with the lookup on every key.
pub proof fn collected_agrees_with_lookup<K, V>(levels: Seq<LevelView<K, V>>, at: int, key: K)
    requires
        0 <= at < levels.len(),
    ensures
        lookup(levels, at, key) == if collected(levels, at).contains_key(key) {
            Some(collected(levels, at)[key])
        } else {
            None
        },
    decreases at,
{
    match parent_of(levels, at) {
        Some(p) => collected_agrees_with_lookup(levels, p, key),
        None => {},
    }
}

/// Two arenas that differ in locks and write authorizations alone give the
/// same lookups.
pub proof fn flags_leave_lookups<K, V>(
    levels: Seq<LevelView<K, V>>,
    other: Seq<LevelView<K, V>>,
    at: int,
    key: K,
)
    requires
        other.len() == levels.len(),
        forall|i: int|
            0 <= i < levels.len() ==> (#[trigger] other[i]).bindings == levels[i].bindings
                && other[i].parent == levels[i].parent && other[i].fallthrough
                == levels[i].fallthrough,
    ensures
        lookup(other, at, key) == lookup(levels, at, key),
        local_lookup(other, at, key) == local_lookup(levels, at, key),
        collected(other, at) == collected(levels, at),
    decreases at,
{
    if 0 <= at < levels.len() {
        match parent_of(levels, at) {
            Some(p) => flags_leave_lookups(levels, other, p, key),
            None => {},
        }
    }
}

/// A lock stops insertions into its level and nothing else: while the level
/// is locked an insertion changes nothing, the lookups find what they found,
/// and once the level is unlocked the insertion is made.
pub proof fn lock_stops_insert_alone<K, V>(
    levels: Seq<LevelView<K, V>>,
    at: int,
    key: K,
    val: V,
    from: int,
    probe: K,
)
    requires
        0 <= at < levels.len(),
    ensures
        ({
            let shut = with_lock(levels, at, true);
            let open = with_lock(shut, at, false);
            &&& after_insert(shut, at, key, val) == shut
            &&& lookup(shut, from, probe) == lookup(levels, from, probe)
            &&& local_lookup(shut, from, probe) == local_lookup(levels, from, probe)
            &&& after_insert(open, at, key, val) == with_binding(open, at, key, val)
            &&& lookup(after_insert(open, at, key, val), at, key) == Some(val)
        }),
{
    flags_leave_lookups(levels, with_lock(levels, at, true), from, probe);
}

/// A write-protected level is a wall to updates: a walk that comes to it
/// without having met the key fails with `KeyNotFound`, whatever the levels
/// beyond it bind, and `update_or` then does what an insertion through the
/// same handle does.
pub proof fn write_protection_stops_update<K, V>(
    levels: Seq<LevelView<K, V>>,
    at: int,
    steps: int,
    key: K,
    val: V,
)
    requires
        0 <= at < levels.len(),
        0 <= steps < lineage(levels, at).len(),
        !levels[lineage(levels, at)[steps]].write_authorized,
        forall|m: int|
            0 <= m < steps ==> !(#[trigger] levels[lineage(levels, at)[m]]).bindings.contains_key(
                key,
            ),
    ensures
        update_target(levels, at, key) == Err::<int, ChainError>(ChainError::KeyNotFound),
        after_update(levels, at, key, val) == levels,
        after_update_or(levels, at, key, val) == after_insert(levels, at, key, val),
    decreases at,
{
    lineage_descends(levels, at);
    if steps > 0 && levels[at].write_authorized {
        let p = parent_of(levels, at)->0;
        assert forall|m: int| 0 <= m < steps - 1 implies !(#[trigger] levels[lineage(
            levels,
            p,
        )[m]]).bindings.contains_key(key) by {
            assert(lineage(levels, at)[m + 1] == lineage(levels, p)[m]);
        }
        write_protection_stops_update(levels, p, steps - 1, key, val);
    }
}

/// Write protection changes no lookup.
pub proof fn write_protection_leaves_lookups<K, V>(
    levels: Seq<LevelView<K, V>>,
    protected: int,
    at: int,
    key: K,
)
    requires
        0 <= protected < levels.len(),
    ensures
        lookup(with_write_protection(levels, protected), at, key) == lookup(levels, at, key),
        local_lookup(with_write_protection(levels, protected), at, key) == local_lookup(
            levels,
            at,
            key,
        ),
{
    flags_leave_lookups(levels, with_write_protection(levels, protected), at, key);
}

} // verus!
