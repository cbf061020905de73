//! Handles to levels, and the operations on a chain of levels.

use std::collections::HashMap;
use std::hash::Hash;
use vstd::prelude::*;
use crate::arena::Arena;
use crate::error::ChainError;
use crate::hashmap_ops::overlay;
use crate::laws::update_target_is_writable;
use crate::model::{
    after_fork,
    after_insert,
    after_update,
    after_update_or,
    binding_level,
    collected,
    fresh_level,
    local_binding_level,
    local_lookup,
    lookup,
    parent_of,
    update_target,
    with_lock,
    with_write_protection,
};

verus! {

/// A handle to one level of an [`Arena`].
///
/// Several handles may refer to one level, and a level is the parent of
/// every level that was extended or forked from it. A handle is used with
/// the arena in which it was made.
#[derive(Debug)]
pub struct ChainMap {
    head: usize,
}

impl View for ChainMap {
    type V = int;

    /// The index of the level that the handle refers to.
    closed spec fn view(&self) -> int {
        self.head as int
    }
}

impl ChainMap {
    /// The handle refers to a level of `arena`.
    pub open spec fn within<K, V>(&self, arena: &Arena<K, V>) -> bool {
        0 <= self@ < arena@.len()
    }

    /// Whether the handle refers to a level of `arena`. Code that is not
    /// verified can test with this what the other operations require.
    pub fn is_within<K: Eq + Hash, V>(&self, arena: &Arena<K, V>) -> (inside: bool)
        ensures
            inside == self.within(arena),
    {
        self.head < arena.len()
    }

    /// A handle to the parent of the handle's level; `None` at a root.
    pub fn tail<K: Eq + Hash, V>(&self, arena: &Arena<K, V>) -> (outer: Option<ChainMap>)
        requires
            arena.wf(),
            self.within(arena),
        ensures
            match outer {
                Some(handle) => parent_of(arena@, self@) == Some(handle@),
                None => parent_of(arena@, self@) is None,
            },
    {
        match arena.parent(self.head) {
            Some(p) => Some(ChainMap { head: p }),
            None => None,
        }
    }

    /// The bindings of the handle's own level.
    pub fn head<'a, K: Eq + Hash, V>(&self, arena: &'a Arena<K, V>) -> (own: &'a HashMap<K, V>)
        requires
            self.within(arena),
        ensures
            own@ == arena@[self@].bindings,
    {
        arena.bindings(self.head)
    }

    /// Makes a root: an empty, unlocked, write-authorized level without a
    /// parent.
    pub fn new<K: Eq + Hash, V>(arena: &mut Arena<K, V>) -> (root: ChainMap)
        requires
            old(arena).wf(),
        ensures
            final(arena).wf(),
            root@ == old(arena)@.len(),
            final(arena)@ == old(arena)@.push(fresh_level(Map::empty(), None, false)),
    {
        ChainMap { head: arena.push(HashMap::new(), None, false, false, true) }
    }

    /// Makes a root that holds the bindings of `h`.
    pub fn new_with<K: Eq + Hash, V>(arena: &mut Arena<K, V>, h: HashMap<K, V>) -> (root: ChainMap)
        requires
            old(arena).wf(),
        ensures
            final(arena).wf(),
            root@ == old(arena)@.len(),
            final(arena)@ == old(arena)@.push(fresh_level(h@, None, false)),
    {
        ChainMap { head: arena.push(h, None, false, false, true) }
    }

    /// Binds `key` to `val` in the handle's own level, and in no other.
    /// Refused with `LevelLocked`, and without effect, if that level is
    /// locked.
    pub fn insert<K: Eq + Hash, V>(&self, arena: &mut Arena<K, V>, key: K, val: V) -> (outcome:
        Result<(), ChainError>)
        requires
            old(arena).wf(),
            self.within(old(arena)),
        ensures
            final(arena).wf(),
            final(arena)@ == after_insert(old(arena)@, self@, key, val),
            outcome == if old(arena)@[self@].locked {
                Err::<(), ChainError>(ChainError::LevelLocked)
            } else {
                Ok::<(), ChainError>(())
            },
    {
        if arena.is_locked(self.head) {
            Err(ChainError::LevelLocked)
        } else {
            arena.bind(self.head, key, val);
            Ok(())
        }
    }

    /// Locks the handle's own level. Its parents and children are not
    /// touched.
    pub fn lock<K: Eq + Hash, V>(&self, arena: &mut Arena<K, V>)
        requires
            old(arena).wf(),
            self.within(old(arena)),
        ensures
            final(arena).wf(),
            final(arena)@ == with_lock(old(arena)@, self@, true),
    {
        arena.set_locked(self.head, true);
    }

    /// Unlocks the handle's own level.
    pub fn unlock<K: Eq + Hash, V>(&self, arena: &mut Arena<K, V>)
        requires
            old(arena).wf(),
            self.within(old(arena)),
        ensures
            final(arena).wf(),
            final(arena)@ == with_lock(old(arena)@, self@, false),
    {
        arena.set_locked(self.head, false);
    }

    /// Locks the handle's own level and hands the handle back.
    pub fn locked<K: Eq + Hash, V>(self, arena: &mut Arena<K, V>) -> (same: ChainMap)
        requires
            old(arena).wf(),
            self.within(old(arena)),
        ensures
            final(arena).wf(),
            same@ == self@,
            final(arena)@ == with_lock(old(arena)@, self@, true),
    {
        self.lock(arena);
        self
    }

    /// Unlocks the handle's own level and hands the handle back.
    pub fn unlocked<K: Eq + Hash, V>(self, arena: &mut Arena<K, V>) -> (same: ChainMap)
        requires
            old(arena).wf(),
            self.within(old(arena)),
        ensures
            final(arena).wf(),
            same@ == self@,
            final(arena)@ == with_lock(old(arena)@, self@, false),
    {
        self.unlock(arena);
        self
    }

    /// Whether the handle's own level accepts insertions.
    pub fn is_unlocked<K: Eq + Hash, V>(&self, arena: &Arena<K, V>) -> (open: bool)
        requires
            self.within(arena),
        ensures
            open == !arena@[self@].locked,
    {
        !arena.is_locked(self.head)
    }

    /// Whether the handle's own level refuses insertions.
    pub fn is_locked<K: Eq + Hash, V>(&self, arena: &Arena<K, V>) -> (shut: bool)
        requires
            self.within(arena),
        ensures
            shut == arena@[self@].locked,
    {
        arena.is_locked(self.head)
    }

    /// Write-protects the handle's own level and hands the handle back: no
    /// update walk looks at this level or goes beyond it any more.
    pub fn readonly<K: Eq + Hash, V>(self, arena: &mut Arena<K, V>) -> (same: ChainMap)
        requires
            old(arena).wf(),
            self.within(old(arena)),
        ensures
            final(arena).wf(),
            same@ == self@,
            final(arena)@ == with_write_protection(old(arena)@, self@),
    {
        arena.protect(self.head);
        self
    }

    /// A copy of the value that the nearest level, from the handle's own
    /// outward to the root, binds `key` to; `None` if no level binds it.
    pub fn get<K: Eq + Hash, V: Clone>(&self, arena: &Arena<K, V>, key: &K) -> (found: Option<V>)
        requires
            arena.wf(),
            self.within(arena),
        ensures
            match lookup(arena@, self@, *key) {
                Some(val) => found is Some && cloned(val, found->0),
                None => found is None,
            },
    {
        broadcast use vstd::std_specs::hash::group_hash_axioms;

        let mut cur: usize = self.head;
        loop
            invariant
                arena.wf(),
                cur < arena@.len(),
                binding_level(arena@, cur as int, *key) == binding_level(arena@, self@, *key),
            decreases cur,
        {
            match arena.bindings(cur).get(key) {
                Some(val) => {
                    return Some(val.clone());
                },
                None => match arena.parent(cur) {
                    Some(p) => {
                        cur = p;
                    },
                    None => {
                        return None;
                    },
                },
            }
        }
    }

    /// As `get`, but the walk gives up at the first level that does not bind
    /// `key` and is not fallthrough.
    pub fn local_get<K: Eq + Hash, V: Clone>(&self, arena: &Arena<K, V>, key: &K) -> (found:
        Option<V>)
        requires
            arena.wf(),
            self.within(arena),
        ensures
            match local_lookup(arena@, self@, *key) {
                Some(val) => found is Some && cloned(val, found->0),
                None => found is None,
            },
    {
        broadcast use vstd::std_specs::hash::group_hash_axioms;

        let mut cur: usize = self.head;
        loop
            invariant
                arena.wf(),
                cur < arena@.len(),
                local_binding_level(arena@, cur as int, *key) == local_binding_level(
                    arena@,
                    self@,
                    *key,
                ),
            decreases cur,
        {
            match arena.bindings(cur).get(key) {
                Some(val) => {
                    return Some(val.clone());
                },
                None => {
                    if !arena.is_fallthrough(cur) {
                        return None;
                    }
                    match arena.parent(cur) {
                        Some(p) => {
                            cur = p;
                        },
                        None => {
                            return None;
                        },
                    }
                },
            }
        }
    }

    /// The level that an update of `key` through this handle would write,
    /// or why there is none.
    fn write_target<K: Eq + Hash, V>(&self, arena: &Arena<K, V>, key: &K) -> (target: Result<
        usize,
        ChainError,
    >)
        requires
            arena.wf(),
            self.within(arena),
        ensures
            match target {
                Ok(i) => update_target(arena@, self@, *key) == Ok::<int, ChainError>(i as int),
                Err(e) => update_target(arena@, self@, *key) == Err::<int, ChainError>(e),
            },
    {
        broadcast use vstd::std_specs::hash::group_hash_axioms;

        let mut cur: usize = self.head;
        loop
            invariant
                arena.wf(),
                cur < arena@.len(),
                update_target(arena@, cur as int, *key) == update_target(arena@, self@, *key),
            decreases cur,
        {
            if !arena.is_write_authorized(cur) {
                return Err(ChainError::KeyNotFound);
            }
            if arena.bindings(cur).contains_key(key) {
                if arena.is_locked(cur) {
                    return Err(ChainError::LevelLocked);
                } else {
                    return Ok(cur);
                }
            }
            match arena.parent(cur) {
                Some(p) => {
                    cur = p;
                },
                None => {
                    return Err(ChainError::KeyNotFound);
                },
            }
        }
    }

    /// Replaces the value of `key` in the nearest level that binds it.
    ///
    /// The walk goes from the handle's own level outward. It fails with
    /// `KeyNotFound` at the first level that is write-protected, whatever lies
    /// beyond, and past the root; it fails with `LevelLocked` if the first
    /// level that binds `key` is locked. A failed update changes nothing.
    pub fn update<K: Eq + Hash, V>(&self, arena: &mut Arena<K, V>, key: &K, newval: V) -> (outcome:
        Result<(), ChainError>)
        requires
            old(arena).wf(),
            self.within(old(arena)),
        ensures
            final(arena).wf(),
            final(arena)@ == after_update(old(arena)@, self@, *key, newval),
            match update_target(old(arena)@, self@, *key) {
                Ok(_) => outcome is Ok,
                Err(e) => outcome == Err::<(), ChainError>(e),
            },
    {
        match self.write_target(arena, key) {
            Ok(i) => {
                proof {
                    update_target_is_writable(arena@, self@, *key);
                }
                arena.rebind(i, key, newval);
                Ok(())
            },
            Err(e) => Err(e),
        }
    }

    /// As `update`, but where the walk finds no level to write, `key` is
    /// bound in the handle's own level instead. Refused with `LevelLocked`,
    /// and without effect, only if it comes to that and the own level is
    /// locked.
    pub fn update_or<K: Eq + Hash, V>(
        &self,
        arena: &mut Arena<K, V>,
        key: K,
        newval: V,
    ) -> (outcome: Result<(), ChainError>)
        requires
            old(arena).wf(),
            self.within(old(arena)),
        ensures
            final(arena).wf(),
            final(arena)@ == after_update_or(old(arena)@, self@, key, newval),
            outcome == if update_target(old(arena)@, self@, key) is Err && old(
                arena,
            )@[self@].locked {
                Err::<(), ChainError>(ChainError::LevelLocked)
            } else {
                Ok::<(), ChainError>(())
            },
    {
        match self.write_target(arena, &key) {
            Ok(i) => {
                proof {
                    update_target_is_writable(arena@, self@, key);
                }
                arena.rebind(i, &key, newval);
                Ok(())
            },
            Err(_) => self.insert(arena, key, newval),
        }
    }

    /// Makes the fallthrough level of a fork: empty, with the handle's level
    /// as its parent, and transparent to local walks.
    fn extend_fallthrough<K: Eq + Hash, V>(&self, arena: &mut Arena<K, V>) -> (child: ChainMap)
        requires
            old(arena).wf(),
            self.within(old(arena)),
        ensures
            final(arena).wf(),
            child@ == old(arena)@.len(),
            final(arena)@ == old(arena)@.push(fresh_level(Map::empty(), Some(self@), true)),
    {
        ChainMap { head: arena.push(HashMap::new(), Some(self.head), true, false, true) }
    }

    /// Makes a new scope: an empty, unlocked, write-authorized level with the
    /// handle's level as its parent. The handle itself stays where it is.
    pub fn extend<K: Eq + Hash, V>(&self, arena: &mut Arena<K, V>) -> (child: ChainMap)
        requires
            old(arena).wf(),
            self.within(old(arena)),
        ensures
            final(arena).wf(),
            child@ == old(arena)@.len(),
            final(arena)@ == old(arena)@.push(fresh_level(Map::empty(), Some(self@), false)),
    {
        ChainMap { head: arena.push(HashMap::new(), Some(self.head), false, false, true) }
    }

    /// Makes a new scope that holds the bindings of `h`.
    pub fn extend_with<K: Eq + Hash, V>(&self, arena: &mut Arena<K, V>, h: HashMap<K, V>) -> (child:
        ChainMap)
        requires
            old(arena).wf(),
            self.within(old(arena)),
        ensures
            final(arena).wf(),
            child@ == old(arena)@.len(),
            final(arena)@ == old(arena)@.push(fresh_level(h@, Some(self@), false)),
    {
        ChainMap { head: arena.push(h, Some(self.head), false, false, true) }
    }

    /// Splits the chain at the handle's level: returns a handle to a new
    /// empty scope above it, and moves this handle to a new fallthrough level
    /// above it. What is inserted through either handle from now on stays
    /// out of sight of the other.
    pub fn fork<K: Eq + Hash, V>(&mut self, arena: &mut Arena<K, V>) -> (branch: ChainMap)
        requires
            old(arena).wf(),
            old(self).within(old(arena)),
        ensures
            final(arena).wf(),
            final(arena)@ == after_fork(old(arena)@, old(self)@, Map::empty()),
            branch@ == old(arena)@.len(),
            final(self)@ == old(arena)@.len() + 1,
    {
        let newlevel = self.extend(arena);
        let oldlevel = self.extend_fallthrough(arena);
        *self = oldlevel;
        newlevel
    }

    /// As `fork`, with the new scope holding the bindings of `h`.
    pub fn fork_with<K: Eq + Hash, V>(
        &mut self,
        arena: &mut Arena<K, V>,
        h: HashMap<K, V>,
    ) -> (branch: ChainMap)
        requires
            old(arena).wf(),
            old(self).within(old(arena)),
        ensures
            final(arena).wf(),
            final(arena)@ == after_fork(old(arena)@, old(self)@, h@),
            branch@ == old(arena)@.len(),
            final(self)@ == old(arena)@.len() + 1,
    {
        let newlevel = self.extend_with(arena, h);
        let oldlevel = self.extend_fallthrough(arena);
        *self = oldlevel;
        newlevel
    }

    /// Gathers every binding that can be reached from the handle in one map.
    /// A key that several levels bind has the value of the nearest of them,
    /// so the map agrees with `get` on every key.
    pub fn collect<K: Eq + Hash + Clone, V: Clone>(&self, arena: &Arena<K, V>) -> (all: HashMap<
        K,
        V,
    >)
        requires
            arena.wf(),
            self.within(arena),
        ensures
            all@ == collected(arena@, self@),
    {
        let mut layers: Vec<usize> = Vec::new();
        let mut cur: usize = self.head;
        layers.push(cur);
        loop
            invariant
                arena.wf(),
                cur < arena@.len(),
                layers.len() >= 1,
                layers[0] == self.head,
                layers[layers.len() - 1] == cur,
                forall|j: int| 0 <= j < layers.len() ==> layers[j] < arena@.len(),
                forall|j: int|
                    0 <= j < layers.len() - 1 ==> parent_of(arena@, #[trigger] layers[j] as int)
                        == Some(layers[j + 1] as int),
            ensures
                parent_of(arena@, layers[layers.len() - 1] as int) is None,
            decreases cur,
        {
            match arena.parent(cur) {
                Some(p) => {
                    cur = p;
                    layers.push(p);
                },
                None => {
                    break ;
                },
            }
        }
        let mut all: HashMap<K, V> = HashMap::new();
        let mut n: usize = layers.len();
        while n > 0
            invariant
                arena.wf(),
                n <= layers.len(),
                layers.len() >= 1,
                layers[0] == self.head,
                forall|j: int| 0 <= j < layers.len() ==> layers[j] < arena@.len(),
                forall|j: int|
                    0 <= j < layers.len() - 1 ==> parent_of(arena@, #[trigger] layers[j] as int)
                        == Some(layers[j + 1] as int),
                parent_of(arena@, layers[layers.len() - 1] as int) is None,
                all@ == if n == layers.len() {
                    Map::<K, V>::empty()
                } else {
                    collected(arena@, layers[n as int] as int)
                },
            decreases n,
        {
            n -= 1;
            overlay(&mut all, arena.bindings(layers[n]).clone());
        }
        all
    }

    /// Makes an independent copy of the handle's own level, with the same
    /// bindings, flags and parent, and returns a handle to it. What is
    /// written to either level from now on does not show in the other; what
    /// is written to their common ancestors shows in both.
    pub fn clone<K: Eq + Hash + Clone, V: Clone>(&self, arena: &mut Arena<K, V>) -> (copy: ChainMap)
        requires
            old(arena).wf(),
            self.within(old(arena)),
        ensures
            final(arena).wf(),
            copy@ == old(arena)@.len(),
            final(arena)@ == old(arena)@.push(old(arena)@[self@]),
    {
        let bindings = arena.bindings(self.head).clone();
        let parent = arena.parent(self.head);
        let fallthrough = arena.is_fallthrough(self.head);
        let locked = arena.is_locked(self.head);
        let write_authorized = arena.is_write_authorized(self.head);
        ChainMap { head: arena.push(bindings, parent, fallthrough, locked, write_authorized) }
    }
}

} // verus!
