use hook_state::error::HookError;
use hook_state::hook::Hook;
use hook_state::tree::StateTree;
use hook_state::value::Value;

#[test]
fn tree_starts_with_the_root_alone() {
    let tree = StateTree::default();
    assert!(tree.auto_grow());
    assert!(tree.contains(&[]));
    assert!(!tree.contains(&[0]));
    assert_eq!(tree.get_state(&[]).unwrap().len(), 0);
    assert!(tree.get_state(&[0]).is_none());

    let fixed = StateTree::new(false);
    assert!(!fixed.auto_grow());
    assert!(fixed.contains(&[]));
}

#[test]
fn tree_empty_path_is_the_root_store() {
    let mut tree = StateTree::default();
    tree.use_state_at(&[], Value::Int(1), 0).unwrap();
    tree.use_state_at(&[], Value::Int(2), 1).unwrap();
    assert_eq!(tree.get_state(&[]).unwrap().len(), 2);
}

#[test]
fn tree_register_creates_what_is_on_the_way() {
    let mut tree = StateTree::new(false);
    tree.register(&[2, 1]);
    for path in [&[][..], &[0], &[1], &[2], &[2, 0], &[2, 1]] {
        assert!(tree.contains(path), "{:?}", path);
        assert_eq!(tree.get_state(path).unwrap().len(), 0);
    }
    for path in [&[3][..], &[0, 0], &[1, 0], &[2, 2], &[2, 1, 0]] {
        assert!(!tree.contains(path), "{:?}", path);
    }
}

#[test]
fn tree_register_keeps_what_exists() {
    let mut tree = StateTree::new(false);
    tree.register(&[1]);
    tree.use_state_at(&[0], Value::Int(10), 0).unwrap();
    tree.use_state_at(&[1], Value::text("one"), 0).unwrap();
    tree.register(&[1]);
    tree.register(&[0, 3]);
    tree.register(&[]);
    assert_eq!(tree.use_state_at(&[0], Value::Int(0), 0), Ok(Value::Int(10)));
    assert_eq!(tree.use_state_at(&[1], Value::text(""), 0), Ok(Value::text("one")));
    assert!(tree.contains(&[0, 3]));
    assert!(!tree.contains(&[2]));
}

#[test]
fn tree_resolve_grows_on_demand() {
    let mut tree = StateTree::default();
    assert_eq!(tree.resolve(&[1, 1]).map(|s| s.len()), Ok(0));
    assert!(tree.contains(&[0]));
    assert!(tree.contains(&[1, 0]));
    assert!(tree.contains(&[1, 1]));
    assert!(!tree.contains(&[0, 0]));
}

#[test]
fn tree_resolve_fails_where_growth_is_off() {
    let mut tree = StateTree::new(false);
    assert_eq!(tree.resolve(&[0]).err(), Some(HookError::UnknownPath));
    assert!(!tree.contains(&[0]));
    assert_eq!(tree.use_state_at(&[0], Value::Int(1), 0), Err(HookError::UnknownPath));
    assert_eq!(tree.set_at(&[0], 0, Value::Int(1)), Err(HookError::UnknownPath));
    assert!(tree.resolve(&[]).is_ok());

    tree.register(&[0]);
    assert!(tree.resolve(&[0]).is_ok());
    assert_eq!(tree.resolve(&[0, 0]).err(), Some(HookError::UnknownPath));
}

#[test]
fn tree_get_state_mut_writes_through() {
    let mut tree = StateTree::default();
    tree.register(&[0, 1]);
    {
        let state = tree.get_state_mut(&[0, 1]).unwrap();
        state.use_state(Value::Int(5), 0).unwrap();
    }
    assert!(tree.get_state_mut(&[0, 2]).is_none());
    assert_eq!(tree.get_state(&[0, 1]).unwrap().len(), 1);
    assert_eq!(tree.get_state(&[0, 0]).unwrap().len(), 0);
    assert_eq!(tree.use_state_at(&[0, 1], Value::Int(0), 0), Ok(Value::Int(5)));
}

#[test]
fn tree_set_at_reaches_one_slot_only() {
    let mut tree = StateTree::default();
    tree.use_state_at(&[0], Value::Int(1), 0).unwrap();
    tree.use_state_at(&[0], Value::Int(2), 1).unwrap();
    tree.use_state_at(&[1], Value::Int(3), 0).unwrap();
    tree.use_state_at(&[0, 0], Value::Int(4), 0).unwrap();
    assert_eq!(tree.set_at(&[0], 1, Value::Int(20)), Ok(()));
    assert_eq!(tree.use_state_at(&[0], Value::Int(0), 0), Ok(Value::Int(1)));
    assert_eq!(tree.use_state_at(&[0], Value::Int(0), 1), Ok(Value::Int(20)));
    assert_eq!(tree.use_state_at(&[1], Value::Int(0), 0), Ok(Value::Int(3)));
    assert_eq!(tree.use_state_at(&[0, 0], Value::Int(0), 0), Ok(Value::Int(4)));
}

#[test]
fn tree_set_at_unknown_slot() {
    let mut tree = StateTree::default();
    assert_eq!(tree.set_at(&[], 0, Value::Int(1)), Err(HookError::UnknownSlot));
    // Where the hierarchy grows on demand, a missing position resolves to an
    // empty store, in which no slot is known.
    assert_eq!(tree.set_at(&[5], 0, Value::Int(1)), Err(HookError::UnknownSlot));
    assert_eq!(tree.get_state(&[5]).unwrap().len(), 0);
}

#[test]
fn tree_failed_request_changes_no_slot() {
    let mut tree = StateTree::default();
    tree.use_state_at(&[0], Value::text("what"), 0).unwrap();
    assert_eq!(tree.use_state_at(&[0], Value::Int(1), 0), Err(HookError::TypeMismatch));
    assert_eq!(tree.use_state_at(&[0], Value::Int(1), 2), Err(HookError::OrderViolation));
    assert_eq!(tree.set_at(&[0], 0, Value::Bool(true)), Err(HookError::TypeMismatch));
    assert_eq!(tree.set_at(&[0], 1, Value::text("x")), Err(HookError::UnknownSlot));
    assert_eq!(tree.get_state(&[0]).unwrap().len(), 1);
    assert_eq!(tree.use_state_at(&[0], Value::text(""), 0), Ok(Value::text("what")));
}

#[test]
fn tree_prune_forgets_the_position_and_all_below() {
    let mut tree = StateTree::default();
    tree.use_state_at(&[], Value::text("root"), 0).unwrap();
    tree.use_state_at(&[0], Value::Int(1), 0).unwrap();
    tree.use_state_at(&[1], Value::Int(2), 0).unwrap();
    tree.use_state_at(&[1, 0], Value::Int(3), 0).unwrap();
    tree.use_state_at(&[1, 0, 2], Value::Int(4), 0).unwrap();
    tree.use_state_at(&[2], Value::Int(5), 0).unwrap();

    assert!(tree.prune(&[1]));

    // The position stays, without slots and without children.
    assert_eq!(tree.get_state(&[1]).unwrap().len(), 0);
    assert!(!tree.contains(&[1, 0]));
    assert!(!tree.contains(&[1, 0, 2]));
    // Its siblings and the root keep what they held.
    assert_eq!(tree.use_state_at(&[], Value::text(""), 0), Ok(Value::text("root")));
    assert_eq!(tree.use_state_at(&[0], Value::Int(0), 0), Ok(Value::Int(1)));
    assert_eq!(tree.use_state_at(&[2], Value::Int(0), 0), Ok(Value::Int(5)));
    // The path can serve another component, with slots of other kinds.
    assert_eq!(tree.use_state_at(&[1], Value::text("new"), 0), Ok(Value::text("new")));
}

#[test]
fn tree_prune_of_a_missing_position_changes_nothing() {
    let mut tree = StateTree::default();
    tree.use_state_at(&[0, 1], Value::Int(1), 0).unwrap();
    assert!(!tree.prune(&[1]));
    assert!(!tree.prune(&[0, 2]));
    assert!(!tree.prune(&[0, 1, 0]));
    assert!(tree.contains(&[0, 0]));
    assert_eq!(tree.use_state_at(&[0, 1], Value::Int(0), 0), Ok(Value::Int(1)));
}

#[test]
fn tree_prune_of_the_root_empties_the_hierarchy() {
    let mut tree = StateTree::new(false);
    tree.register(&[2, 2]);
    tree.use_state_at(&[], Value::Int(1), 0).unwrap();
    assert!(tree.prune(&[]));
    assert!(tree.contains(&[]));
    assert!(!tree.contains(&[0]));
    assert_eq!(tree.get_state(&[]).unwrap().len(), 0);
    assert!(!tree.auto_grow());
}

#[test]
fn tree_prune_leaves_setters_without_their_slot() {
    let mut tree = StateTree::default();
    let (_, setter) = Hook::new(vec![0]).use_state(&mut tree, Value::Int(1)).unwrap();
    assert!(tree.prune(&[0]));
    assert_eq!(setter.set(&mut tree, Value::Int(2)), Err(HookError::UnknownSlot));
    assert_eq!(tree.get_state(&[0]).unwrap().len(), 0);
}

#[test]
fn tree_policy_can_be_decided_anew() {
    let mut tree = StateTree::new(false);
    tree.use_state_at(&[], Value::Int(1), 0).unwrap();
    assert_eq!(tree.use_state_at(&[1], Value::Int(2), 0), Err(HookError::UnknownPath));

    tree.set_auto_grow(true);
    assert!(tree.auto_grow());
    assert!(!tree.contains(&[1]));
    assert_eq!(tree.use_state_at(&[], Value::Int(0), 0), Ok(Value::Int(1)));
    assert_eq!(tree.use_state_at(&[1], Value::Int(2), 0), Ok(Value::Int(2)));

    tree.set_auto_grow(false);
    assert!(!tree.auto_grow());
    assert_eq!(tree.use_state_at(&[2], Value::Int(3), 0), Err(HookError::UnknownPath));
    assert_eq!(tree.use_state_at(&[1], Value::Int(0), 0), Ok(Value::Int(2)));
}
