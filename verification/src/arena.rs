//! The arena that holds every level of a tree of scopes.
//!
//! A level is addressed by its index, which never changes. Levels are only
//! ever added, and each new level links to one that is already there, so the
//! links form a tree that points towards its roots.

use std::collections::HashMap;
use std::hash::Hash;
use vstd::prelude::*;
use vstd::std_specs::hash::obeys_key_model;
use crate::hashmap_ops::slot_mut;
use crate::model::{LevelView, well_formed, with_binding, with_lock, with_write_protection};

verus! {

/// One mapping with its policy flags and its link outward.
struct Level<K, V> {
    bindings: HashMap<K, V>,
    parent: Option<usize>,
    fallthrough: bool,
    locked: bool,
    write_authorized: bool,
}

impl<K, V> View for Level<K, V> {
    type V = LevelView<K, V>;

    closed spec fn view(&self) -> LevelView<K, V> {
        LevelView {
            bindings: self.bindings@,
            parent: match self.parent {
                Some(p) => Some(p as int),
                None => None,
            },
            fallthrough: self.fallthrough,
            locked: self.locked,
            write_authorized: self.write_authorized,
        }
    }
}

/// The levels of one tree of scopes (or of several), shared by all the
/// handles into it. A level stays in the arena for as long as the arena
/// lives, whether or not a handle still refers to it.
pub struct Arena<K, V> {
    levels: Vec<Level<K, V>>,
}

impl<K, V> View for Arena<K, V> {
    type V = Seq<LevelView<K, V>>;

    closed spec fn view(&self) -> Seq<LevelView<K, V>> {
        self.levels@.map_values(|level: Level<K, V>| level@)
    }
}

impl<K: Eq + Hash, V> Arena<K, V> {
    /// The arena's invariant: keys hash and compare as the maps need, and the
    /// levels form a tree.
    pub open spec fn wf(&self) -> bool {
        &&& obeys_key_model::<K>()
        &&& well_formed(self@)
    }

    /// An arena without levels.
    pub fn new() -> (arena: Self)
        requires
            obeys_key_model::<K>(),
        ensures
            arena.wf(),
            arena@ == Seq::<LevelView<K, V>>::empty(),
    {
        Arena { levels: Vec::new() }
    }

    /// The number of levels.
    pub fn len(&self) -> (n: usize)
        ensures
            n == self@.len(),
    {
        self.levels.len()
    }

    /// Adds a level and returns its index.
    pub(crate) fn push(
        &mut self,
        bindings: HashMap<K, V>,
        parent: Option<usize>,
        fallthrough: bool,
        locked: bool,
        write_authorized: bool,
    ) -> (index: usize)
        requires
            old(self).wf(),
            match parent {
                Some(p) => p < old(self)@.len(),
                None => !fallthrough,
            },
        ensures
            final(self).wf(),
            index == old(self)@.len(),
            final(self)@ == old(self)@.push(
                LevelView {
                    bindings: bindings@,
                    parent: match parent {
                        Some(p) => Some(p as int),
                        None => None,
                    },
                    fallthrough,
                    locked,
                    write_authorized,
                },
            ),
    {
        let index = self.levels.len();
        let level = Level { bindings, parent, fallthrough, locked, write_authorized };
        self.levels.push(level);
        assert(self@ =~= old(self)@.push(level@));
        index
    }

    /// The bindings of level `at`.
    pub(crate) fn bindings(&self, at: usize) -> (own: &HashMap<K, V>)
        requires
            at < self@.len(),
        ensures
            own@ == self@[at as int].bindings,
    {
        &self.levels[at].bindings
    }

    /// The index of the level outward of `at`.
    pub(crate) fn parent(&self, at: usize) -> (outer: Option<usize>)
        requires
            self.wf(),
            at < self@.len(),
        ensures
            match outer {
                Some(p) => self@[at as int].parent == Some(p as int) && p < at,
                None => self@[at as int].parent is None,
            },
    {
        self.levels[at].parent
    }

    /// Whether a local walk goes on past level `at`.
    pub(crate) fn is_fallthrough(&self, at: usize) -> (flag: bool)
        requires
            at < self@.len(),
        ensures
            flag == self@[at as int].fallthrough,
    {
        self.levels[at].fallthrough
    }

    /// Whether level `at` is locked.
    pub(crate) fn is_locked(&self, at: usize) -> (flag: bool)
        requires
            at < self@.len(),
        ensures
            flag == self@[at as int].locked,
    {
        self.levels[at].locked
    }

    /// Whether an update walk may look at level `at`.
    pub(crate) fn is_write_authorized(&self, at: usize) -> (flag: bool)
        requires
            at < self@.len(),
        ensures
            flag == self@[at as int].write_authorized,
    {
        self.levels[at].write_authorized
    }

    /// Sets the lock of level `at`.
    pub(crate) fn set_locked(&mut self, at: usize, locked: bool)
        requires
            old(self).wf(),
            at < old(self)@.len(),
        ensures
            final(self).wf(),
            final(self)@ == with_lock(old(self)@, at as int, locked),
    {
        self.levels[at].locked = locked;
        assert(self@ =~= with_lock(old(self)@, at as int, locked));
    }

    /// Withdraws the write authorization of level `at`.
    pub(crate) fn protect(&mut self, at: usize)
        requires
            old(self).wf(),
            at < old(self)@.len(),
        ensures
            final(self).wf(),
            final(self)@ == with_write_protection(old(self)@, at as int),
    {
        self.levels[at].write_authorized = false;
        assert(self@ =~= with_write_protection(old(self)@, at as int));
    }

    /// Binds `key` to `val` in level `at`, whether or not the level binds
    /// `key` already.
    pub(crate) fn bind(&mut self, at: usize, key: K, val: V)
        requires
            old(self).wf(),
            at < old(self)@.len(),
        ensures
            final(self).wf(),
            final(self)@ == with_binding(old(self)@, at as int, key, val),
    {
        broadcast use vstd::std_specs::hash::group_hash_axioms;

        self.levels[at].bindings.insert(key, val);
        assert(self@ =~= with_binding(old(self)@, at as int, key, val));
    }

    /// Replaces the value of `key` in level `at`, which binds it.
    pub(crate) fn rebind(&mut self, at: usize, key: &K, val: V)
        requires
            old(self).wf(),
            at < old(self)@.len(),
            old(self)@[at as int].bindings.contains_key(*key),
        ensures
            final(self).wf(),
            final(self)@ == with_binding(old(self)@, at as int, *key, val),
    {
        match slot_mut(&mut self.levels[at].bindings, key) {
            Some(slot) => {
                *slot = val;
            },
            None => {},
        }
        assert(self@ =~= with_binding(old(self)@, at as int, *key, val));
    }
}

} // verus!
