use chainmap::{Arena, ChainError, ChainMap};
use std::collections::HashMap;

fn chars(pairs: Vec<(i32, char)>) -> HashMap<i32, char> {
    let mut h = HashMap::new();
    for (key, val) in pairs {
        h.insert(key, val);
    }
    h
}

#[test]
fn extend_with_shares_the_parent() {
    let mut arena = Arena::new();
    let root = ChainMap::new_with(&mut arena, chars(vec![(0, 'a')]));
    let layer = root.extend_with(&mut arena, chars(vec![(1, 'b')]));
    assert_eq!(root.insert(&mut arena, 2, 'c'), Ok(()));
    assert_eq!(layer.get(&arena, &0), Some('a'));
    assert_eq!(layer.get(&arena, &1), Some('b'));
    assert_eq!(layer.get(&arena, &2), Some('c'));
    assert_eq!(root.get(&arena, &1), None);
    assert_eq!(layer.local_get(&arena, &2), None);
}

#[test]
fn fork_with_splits_the_chain() {
    let mut arena = Arena::new();
    let mut root = ChainMap::new_with(&mut arena, chars(vec![(0, 'a')]));
    let branch = root.fork_with(&mut arena, chars(vec![(1, 'b')]));
    assert_eq!(root.insert(&mut arena, 2, 'c'), Ok(()));
    assert_eq!(root.update(&mut arena, &0, 'd'), Ok(()));
    assert_eq!(root.get(&arena, &0), Some('d'));
    assert_eq!(branch.get(&arena, &0), Some('d'));
    assert_eq!(branch.get(&arena, &1), Some('b'));
    assert_eq!(root.get(&arena, &1), None);
    assert_eq!(branch.get(&arena, &2), None);
    assert_eq!(root.get(&arena, &2), Some('c'));
    assert_eq!(root.local_get(&arena, &0), Some('d'));
    assert_eq!(root.local_get(&arena, &2), Some('c'));
    assert_eq!(root.local_get(&arena, &1), None);
    assert_eq!(branch.local_get(&arena, &1), Some('b'));
    assert_eq!(branch.local_get(&arena, &0), None);
    assert_eq!(branch.local_get(&arena, &2), None);
}

#[test]
fn scopes_of_an_extended_chain() {
    let mut arena = Arena::new();
    let root = ChainMap::new_with(&mut arena, chars(vec![(0, 'a'), (1, 'b')]));
    let layer = root.extend_with(&mut arena, chars(vec![(2, 'c')]));
    assert_eq!(root.insert(&mut arena, 3, 'd'), Ok(()));
    assert_eq!(root.update(&mut arena, &0, 'e'), Ok(()));
    assert_eq!(layer.update(&mut arena, &1, 'f'), Ok(()));
    assert_eq!(layer.update(&mut arena, &2, 'g'), Ok(()));
    assert_eq!(root.get(&arena, &0), Some('e'));
    assert_eq!(layer.get(&arena, &0), Some('e'));
    assert_eq!(root.get(&arena, &1), Some('f'));
    assert_eq!(layer.get(&arena, &1), Some('f'));
    assert_eq!(root.get(&arena, &2), None);
    assert_eq!(layer.get(&arena, &2), Some('g'));
    assert_eq!(root.get(&arena, &3), Some('d'));
    assert_eq!(layer.get(&arena, &3), Some('d'));
    assert_eq!(root.local_get(&arena, &0), Some('e'));
    assert_eq!(root.local_get(&arena, &1), Some('f'));
    assert_eq!(root.local_get(&arena, &3), Some('d'));
    assert_eq!(root.local_get(&arena, &2), None);
    assert_eq!(layer.local_get(&arena, &2), Some('g'));
    assert_eq!(layer.local_get(&arena, &0), None);
    assert_eq!(layer.local_get(&arena, &1), None);
    assert_eq!(layer.local_get(&arena, &3), None);
}

#[test]
fn a_new_root_is_empty_and_open() {
    let mut arena: Arena<i32, char> = Arena::new();
    assert_eq!(arena.len(), 0);
    let root = ChainMap::new(&mut arena);
    assert_eq!(arena.len(), 1);
    assert!(root.head(&arena).is_empty());
    assert!(root.tail(&arena).is_none());
    assert!(root.is_unlocked(&arena));
    assert!(!root.is_locked(&arena));
    assert_eq!(root.get(&arena, &0), None);
    assert_eq!(root.local_get(&arena, &0), None);
    assert_eq!(root.collect(&arena), HashMap::new());
}

#[test]
fn every_branching_call_adds_its_levels() {
    let mut arena: Arena<i32, char> = Arena::new();
    let mut root = ChainMap::new_with(&mut arena, chars(vec![(0, 'a')]));
    assert_eq!(arena.len(), 1);
    let child = root.extend(&mut arena);
    assert_eq!(arena.len(), 2);
    let _seeded = child.extend_with(&mut arena, chars(vec![(1, 'b')]));
    assert_eq!(arena.len(), 3);
    let _branch = root.fork(&mut arena);
    assert_eq!(arena.len(), 5);
    let _other = root.fork_with(&mut arena, chars(vec![(2, 'c')]));
    assert_eq!(arena.len(), 7);
    let _copy = child.clone(&mut arena);
    assert_eq!(arena.len(), 8);
}

#[test]
fn get_takes_the_nearest_binding() {
    let mut arena = Arena::new();
    let root = ChainMap::new_with(&mut arena, chars(vec![(0, 'r'), (1, 'r'), (2, 'r')]));
    let mid = root.extend_with(&mut arena, chars(vec![(1, 'm'), (2, 'm')]));
    let tip = mid.extend_with(&mut arena, chars(vec![(2, 't')]));
    assert_eq!(tip.get(&arena, &0), Some('r'));
    assert_eq!(tip.get(&arena, &1), Some('m'));
    assert_eq!(tip.get(&arena, &2), Some('t'));
    assert_eq!(tip.get(&arena, &3), None);
    assert_eq!(mid.get(&arena, &2), Some('m'));
    assert_eq!(root.get(&arena, &2), Some('r'));
}

#[test]
fn local_get_of_an_extension_sees_its_own_level_only() {
    let mut arena = Arena::new();
    let root = ChainMap::new_with(&mut arena, chars(vec![(0, 'r')]));
    let child = root.extend_with(&mut arena, chars(vec![(1, 'c')]));
    assert_eq!(child.local_get(&arena, &0), None);
    assert_eq!(child.local_get(&arena, &1), Some('c'));
    assert_eq!(child.get(&arena, &0), Some('r'));
}

#[test]
fn fork_of_an_extension_keeps_the_local_view() {
    let mut arena = Arena::new();
    let root = ChainMap::new_with(&mut arena, chars(vec![(0, 'r')]));
    let mut layer = root.extend_with(&mut arena, chars(vec![(1, 'l')]));
    assert_eq!(layer.local_get(&arena, &0), None);
    assert_eq!(layer.local_get(&arena, &1), Some('l'));
    let branch = layer.fork(&mut arena);
    assert_eq!(layer.local_get(&arena, &1), Some('l'));
    assert_eq!(layer.get(&arena, &1), Some('l'));
    assert_eq!(layer.local_get(&arena, &0), None);
    assert_eq!(layer.get(&arena, &0), Some('r'));
    assert_eq!(branch.local_get(&arena, &1), None);
    assert_eq!(branch.get(&arena, &1), Some('l'));
    assert_eq!(branch.insert(&mut arena, 7, 'b'), Ok(()));
    assert_eq!(layer.get(&arena, &7), None);
    assert_eq!(layer.insert(&mut arena, 8, 'o'), Ok(()));
    assert_eq!(branch.get(&arena, &8), None);
    assert_eq!(layer.local_get(&arena, &8), Some('o'));
}

#[test]
fn a_second_fork_still_falls_through() {
    let mut arena = Arena::new();
    let mut root = ChainMap::new_with(&mut arena, chars(vec![(0, 'a')]));
    let first = root.fork(&mut arena);
    assert_eq!(root.insert(&mut arena, 1, 'b'), Ok(()));
    let second = root.fork(&mut arena);
    assert_eq!(root.local_get(&arena, &0), Some('a'));
    assert_eq!(root.local_get(&arena, &1), Some('b'));
    assert_eq!(second.get(&arena, &1), Some('b'));
    assert_eq!(second.local_get(&arena, &1), None);
    assert_eq!(first.get(&arena, &1), None);
}

#[test]
fn insert_is_found_by_both_lookups() {
    let mut arena = Arena::new();
    let root = ChainMap::new_with(&mut arena, chars(vec![(0, 'a')]));
    let child = root.extend(&mut arena);
    assert_eq!(child.insert(&mut arena, 0, 'z'), Ok(()));
    assert_eq!(child.get(&arena, &0), Some('z'));
    assert_eq!(child.local_get(&arena, &0), Some('z'));
    assert_eq!(root.get(&arena, &0), Some('a'));
    assert_eq!(child.insert(&mut arena, 0, 'y'), Ok(()));
    assert_eq!(child.get(&arena, &0), Some('y'));
    assert_eq!(child.head(&arena).len(), 1);
}

#[test]
fn update_of_an_ancestor_shows_to_siblings() {
    let mut arena = Arena::new();
    let root = ChainMap::new_with(&mut arena, chars(vec![(0, 'a')]));
    let left = root.extend(&mut arena);
    let right = root.extend(&mut arena);
    let below = right.extend(&mut arena);
    assert_eq!(left.update(&mut arena, &0, 'b'), Ok(()));
    assert_eq!(root.get(&arena, &0), Some('b'));
    assert_eq!(left.get(&arena, &0), Some('b'));
    assert_eq!(right.get(&arena, &0), Some('b'));
    assert_eq!(below.get(&arena, &0), Some('b'));
    assert!(left.head(&arena).is_empty());
    assert_eq!(root.head(&arena).get(&0), Some(&'b'));
}

#[test]
fn collect_agrees_with_get() {
    let mut arena = Arena::new();
    let root = ChainMap::new_with(&mut arena, chars(vec![(0, 'a'), (1, 'b'), (4, 'x')]));
    let mid = root.extend_with(&mut arena, chars(vec![(1, 'c'), (2, 'd')]));
    let other = root.extend_with(&mut arena, chars(vec![(9, 'o')]));
    let mut tip = mid.extend_with(&mut arena, chars(vec![(2, 'e'), (3, 'f')]));
    let _branch = tip.fork_with(&mut arena, chars(vec![(5, 'g')]));
    assert_eq!(tip.insert(&mut arena, 4, 'y'), Ok(()));
    for handle in [&root, &mid, &other, &tip] {
        let all = handle.collect(&arena);
        for key in -1..11 {
            assert_eq!(all.get(&key).copied(), handle.get(&arena, &key));
        }
    }
    assert_eq!(
        tip.collect(&arena),
        chars(vec![(0, 'a'), (1, 'c'), (2, 'e'), (3, 'f'), (4, 'y')])
    );
}

#[test]
fn insert_into_a_locked_level_is_refused() {
    let mut arena = Arena::new();
    let root = ChainMap::new_with(&mut arena, chars(vec![(0, 'a')]));
    let child = root.extend(&mut arena);
    root.lock(&mut arena);
    assert!(root.is_locked(&arena));
    assert!(!root.is_unlocked(&arena));
    assert!(child.is_unlocked(&arena));
    assert_eq!(root.insert(&mut arena, 1, 'b'), Err(ChainError::LevelLocked));
    assert_eq!(root.insert(&mut arena, 0, 'b'), Err(ChainError::LevelLocked));
    assert_eq!(root.get(&arena, &0), Some('a'));
    assert_eq!(root.local_get(&arena, &0), Some('a'));
    assert_eq!(root.get(&arena, &1), None);
    assert_eq!(child.get(&arena, &0), Some('a'));
    assert_eq!(child.insert(&mut arena, 1, 'c'), Ok(()));
    root.unlock(&mut arena);
    assert!(root.is_unlocked(&arena));
    assert_eq!(root.insert(&mut arena, 1, 'b'), Ok(()));
    assert_eq!(root.get(&arena, &1), Some('b'));
}

#[test]
fn update_of_a_missing_key_is_refused() {
    let mut arena = Arena::new();
    let root = ChainMap::new(&mut arena);
    let child = root.extend_with(&mut arena, chars(vec![(0, 'a')]));
    assert_eq!(root.update(&mut arena, &0, 'b'), Err(ChainError::KeyNotFound));
    assert_eq!(child.update(&mut arena, &1, 'b'), Err(ChainError::KeyNotFound));
    assert_eq!(root.get(&arena, &0), None);
    assert_eq!(child.get(&arena, &0), Some('a'));
    assert_eq!(child.get(&arena, &1), None);
}

#[test]
fn update_stops_at_the_first_binding_if_it_is_locked() {
    let mut arena = Arena::new();
    let root = ChainMap::new_with(&mut arena, chars(vec![(0, 'a')]));
    let mid = root
        .extend_with(&mut arena, chars(vec![(0, 'b')]))
        .locked(&mut arena);
    let tip = mid.extend(&mut arena);
    assert_eq!(tip.update(&mut arena, &0, 'c'), Err(ChainError::LevelLocked));
    assert_eq!(mid.update(&mut arena, &0, 'c'), Err(ChainError::LevelLocked));
    assert_eq!(tip.get(&arena, &0), Some('b'));
    assert_eq!(root.get(&arena, &0), Some('a'));
    let mid = mid.unlocked(&mut arena);
    assert_eq!(tip.update(&mut arena, &0, 'c'), Ok(()));
    assert_eq!(mid.get(&arena, &0), Some('c'));
    assert_eq!(root.get(&arena, &0), Some('a'));
}

#[test]
fn a_lock_on_a_level_without_the_key_lets_the_update_pass() {
    let mut arena = Arena::new();
    let root = ChainMap::new_with(&mut arena, chars(vec![(0, 'a')]));
    let mid = root.extend(&mut arena).locked(&mut arena);
    let tip = mid.extend(&mut arena);
    assert_eq!(tip.update(&mut arena, &0, 'b'), Ok(()));
    assert_eq!(root.get(&arena, &0), Some('b'));
}

#[test]
fn update_does_not_pass_a_write_protected_level() {
    let mut arena = Arena::new();
    let root = ChainMap::new_with(&mut arena, chars(vec![(0, 'a')]));
    let wall = root.extend(&mut arena).readonly(&mut arena);
    let tip = wall.extend(&mut arena);
    assert_eq!(tip.update(&mut arena, &0, 'b'), Err(ChainError::KeyNotFound));
    assert_eq!(wall.update(&mut arena, &0, 'b'), Err(ChainError::KeyNotFound));
    assert_eq!(tip.get(&arena, &0), Some('a'));
    assert_eq!(tip.local_get(&arena, &0), None);
    assert_eq!(tip.update_or(&mut arena, 0, 'b'), Ok(()));
    assert_eq!(tip.get(&arena, &0), Some('b'));
    assert_eq!(tip.local_get(&arena, &0), Some('b'));
    assert_eq!(wall.get(&arena, &0), Some('a'));
    assert_eq!(root.get(&arena, &0), Some('a'));
}

#[test]
fn a_write_protected_level_hides_its_own_bindings_from_update() {
    let mut arena = Arena::new();
    let root = ChainMap::new(&mut arena);
    let wall = root
        .extend_with(&mut arena, chars(vec![(0, 'a')]))
        .readonly(&mut arena);
    assert_eq!(wall.update(&mut arena, &0, 'b'), Err(ChainError::KeyNotFound));
    assert_eq!(wall.get(&arena, &0), Some('a'));
    assert_eq!(wall.insert(&mut arena, 0, 'c'), Ok(()));
    assert_eq!(wall.get(&arena, &0), Some('c'));
    assert_eq!(wall.update_or(&mut arena, 0, 'd'), Ok(()));
    assert_eq!(wall.get(&arena, &0), Some('d'));
}

#[test]
fn update_above_a_write_protected_level_still_works() {
    let mut arena = Arena::new();
    let root = ChainMap::new_with(&mut arena, chars(vec![(0, 'a')]));
    let wall = root.extend(&mut arena).readonly(&mut arena);
    let tip = wall.extend_with(&mut arena, chars(vec![(1, 'b')]));
    assert_eq!(tip.update(&mut arena, &1, 'c'), Ok(()));
    assert_eq!(tip.get(&arena, &1), Some('c'));
}

#[test]
fn update_or_inserts_where_the_key_is_nowhere() {
    let mut arena = Arena::new();
    let root = ChainMap::new(&mut arena);
    let child = root.extend(&mut arena);
    assert_eq!(child.update_or(&mut arena, 0, 'a'), Ok(()));
    assert_eq!(child.local_get(&arena, &0), Some('a'));
    assert_eq!(root.get(&arena, &0), None);
}

#[test]
fn update_or_updates_an_ancestor_where_it_can() {
    let mut arena = Arena::new();
    let root = ChainMap::new_with(&mut arena, chars(vec![(0, 'a')]));
    let child = root.extend(&mut arena).locked(&mut arena);
    assert_eq!(child.update_or(&mut arena, 0, 'b'), Ok(()));
    assert_eq!(root.get(&arena, &0), Some('b'));
    assert_eq!(child.local_get(&arena, &0), None);
}

#[test]
fn update_or_is_refused_only_by_a_lock_on_the_own_level() {
    let mut arena = Arena::new();
    let root = ChainMap::new_with(&mut arena, chars(vec![(0, 'a')])).locked(&mut arena);
    let child = root.extend(&mut arena).locked(&mut arena);
    assert_eq!(
        child.update_or(&mut arena, 0, 'b'),
        Err(ChainError::LevelLocked)
    );
    assert_eq!(
        child.update_or(&mut arena, 1, 'b'),
        Err(ChainError::LevelLocked)
    );
    assert_eq!(
        root.update_or(&mut arena, 0, 'b'),
        Err(ChainError::LevelLocked)
    );
    assert_eq!(child.get(&arena, &0), Some('a'));
    assert_eq!(child.get(&arena, &1), None);
    assert!(child.head(&arena).is_empty());
}

#[test]
fn clone_keeps_flags_and_parent() {
    let mut arena = Arena::new();
    let root = ChainMap::new_with(&mut arena, chars(vec![(0, 'a')]));
    let shut = root
        .extend_with(&mut arena, chars(vec![(1, 'b')]))
        .locked(&mut arena);
    let copy = shut.clone(&mut arena);
    assert!(copy.is_locked(&arena));
    assert_eq!(copy.insert(&mut arena, 2, 'c'), Err(ChainError::LevelLocked));
    assert_eq!(copy.get(&arena, &0), Some('a'));
    assert_eq!(copy.get(&arena, &1), Some('b'));
    let copy = copy.unlocked(&mut arena);
    assert!(shut.is_locked(&arena));
    assert_eq!(copy.insert(&mut arena, 1, 'z'), Ok(()));
    assert_eq!(shut.get(&arena, &1), Some('b'));
    assert_eq!(copy.get(&arena, &1), Some('z'));

    let wall = root.extend(&mut arena).readonly(&mut arena);
    let wall_copy = wall.clone(&mut arena);
    assert_eq!(
        wall_copy.update(&mut arena, &0, 'q'),
        Err(ChainError::KeyNotFound)
    );

    let mut forked = ChainMap::new_with(&mut arena, chars(vec![(5, 'f')]));
    let _branch = forked.fork(&mut arena);
    let through = forked.clone(&mut arena);
    assert_eq!(through.local_get(&arena, &5), Some('f'));
}

#[test]
fn tail_leads_to_the_parent() {
    let mut arena = Arena::new();
    let root = ChainMap::new_with(&mut arena, chars(vec![(0, 'a')]));
    let child = root.extend_with(&mut arena, chars(vec![(1, 'b')]));
    let parent = child.tail(&arena).unwrap();
    assert_eq!(parent.local_get(&arena, &0), Some('a'));
    assert_eq!(parent.local_get(&arena, &1), None);
    assert!(parent.tail(&arena).is_none());
    assert_eq!(parent.insert(&mut arena, 2, 'c'), Ok(()));
    assert_eq!(root.get(&arena, &2), Some('c'));
}

#[test]
fn values_that_are_not_copy_come_back_as_clones() {
    let mut arena: Arena<String, String> = Arena::new();
    let root = ChainMap::new(&mut arena);
    assert_eq!(
        root.insert(&mut arena, "name".to_string(), "outer".to_string()),
        Ok(())
    );
    let child = root.extend(&mut arena);
    assert_eq!(
        child.get(&arena, &"name".to_string()),
        Some("outer".to_string())
    );
    assert_eq!(
        child.update(&mut arena, &"name".to_string(), "changed".to_string()),
        Ok(())
    );
    assert_eq!(
        root.get(&arena, &"name".to_string()),
        Some("changed".to_string())
    );
    assert_eq!(
        child.update_or(&mut arena, "other".to_string(), "inner".to_string()),
        Ok(())
    );
    let all = child.collect(&arena);
    assert_eq!(all.len(), 2);
    assert_eq!(all.get("name"), Some(&"changed".to_string()));
    assert_eq!(all.get("other"), Some(&"inner".to_string()));
}

#[test]
fn two_trees_in_one_arena_do_not_meet() {
    let mut arena = Arena::new();
    let one = ChainMap::new_with(&mut arena, chars(vec![(0, 'a')]));
    let two = ChainMap::new_with(&mut arena, chars(vec![(1, 'b')]));
    let above_one = one.extend(&mut arena);
    assert_eq!(above_one.get(&arena, &1), None);
    assert_eq!(two.get(&arena, &0), None);
    assert_eq!(above_one.update(&mut arena, &1, 'c'), Err(ChainError::KeyNotFound));
    assert_eq!(two.get(&arena, &1), Some('b'));
}

#[test]
fn a_handle_is_within_the_arena_that_made_it() {
    let mut arena: Arena<i32, char> = Arena::new();
    let root = ChainMap::new(&mut arena);
    let child = root.extend(&mut arena);
    assert!(root.is_within(&arena));
    assert!(child.is_within(&arena));
    let mut small: Arena<i32, char> = Arena::new();
    assert!(!child.is_within(&small));
    let _ = ChainMap::new(&mut small);
    assert!(!child.is_within(&small));
    assert!(root.is_within(&small));
}

#[test]
fn errors_describe_themselves() {
    assert_eq!(
        ChainError::KeyNotFound.message(),
        "key does not exist, failed to update"
    );
    assert_eq!(
        ChainError::LevelLocked.message(),
        "level is locked, failed to write"
    );
    assert_ne!(ChainError::KeyNotFound, ChainError::LevelLocked);
}
