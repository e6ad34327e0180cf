use hook_state::error::HookError;
use hook_state::hooks::Hooks;
use hook_state::registry::Registry;
use hook_state::setter::SharedSetter;
use hook_state::tree::StateTree;
use hook_state::value::Value;

fn float(x: f64) -> Value {
    Value::Real(x.to_bits())
}

fn as_float(v: &Value) -> f64 {
    f64::from_bits(v.as_real_bits().expect("a real number"))
}

fn root(registry: &Registry) -> Hooks {
    Hooks::new(registry.clone(), Vec::new())
}

#[test]
fn hooks_recover_state() {
    let registry = Registry::default();

    let mut hooks = root(&registry);
    let (_, _) = hooks.use_state(Value::text("what")).unwrap();
    let (_, _) = hooks.use_state(Value::Int(123)).unwrap();
    let (_, _) = hooks.use_state(float(3.145)).unwrap();
    let (_, _) = hooks.use_state(Value::Bool(true)).unwrap();

    let mut hooks = root(&registry);

    let (a, _) = hooks.use_state(Value::text("no")).unwrap();
    let (b, _) = hooks.use_state(Value::Int(1231)).unwrap();
    let (c, _) = hooks.use_state(float(3.14325)).unwrap();
    let (d, _) = hooks.use_state(Value::Bool(false)).unwrap();

    assert_eq!(a.as_text(), Some("what"));
    assert_eq!(b.as_int(), Some(123));
    assert_eq!(as_float(&c), 3.145);
    assert_eq!(d.as_bool(), Some(true));
}

#[test]
fn hooks_set_state() {
    let registry = Registry::default();

    let mut hooks = root(&registry);
    let (_, set_a) = hooks.use_state(Value::text("what")).unwrap();
    let (_, set_b) = hooks.use_state(Value::Int(123)).unwrap();
    let (_, set_c) = hooks.use_state(float(3.145)).unwrap();
    let (_, set_d) = hooks.use_state(Value::Bool(true)).unwrap();
    set_a.set(Value::text("möp")).unwrap();
    set_b.set(Value::Int(314)).unwrap();
    set_c.set(float(0.0)).unwrap();
    set_d.set(Value::Bool(false)).unwrap();

    let mut hooks = root(&registry);

    let (a, _) = hooks.use_state(Value::text("what")).unwrap();
    let (b, _) = hooks.use_state(Value::Int(123)).unwrap();
    let (c, _) = hooks.use_state(float(3.145)).unwrap();
    let (d, _) = hooks.use_state(Value::Bool(true)).unwrap();

    assert_eq!(a.as_text(), Some("möp"));
    assert_eq!(b.as_int(), Some(314));
    assert_eq!(as_float(&c), 0.0);
    assert_eq!(d.as_bool(), Some(false));
}

#[test]
fn hooks_first_request_returns_what_it_offered() {
    let registry = Registry::default();
    let mut hooks = root(&registry);
    let (a, _) = hooks.use_state(Value::text("what")).unwrap();
    let (b, _) = hooks.use_state(Value::Int(123)).unwrap();
    assert_eq!(a, Value::text("what"));
    assert_eq!(b, Value::Int(123));
}

#[test]
fn hooks_counts_every_request() {
    let registry = Registry::default();
    let mut hooks = root(&registry);
    assert_eq!(hooks.counter(), 0);
    hooks.use_state(Value::Int(1)).unwrap();
    assert_eq!(hooks.counter(), 1);
    hooks.use_state(Value::Int(2)).unwrap();
    assert_eq!(hooks.counter(), 2);

    // A refused request counts as well.
    let mut again = root(&registry);
    assert_eq!(
        again.use_state(Value::Bool(true)).err(),
        Some(HookError::TypeMismatch)
    );
    assert_eq!(again.counter(), 1);
    let (second, _) = again.use_state(Value::Int(0)).unwrap();
    assert_eq!(second, Value::Int(2));
}

#[test]
fn hooks_setter_names_the_slot_it_was_made_for() {
    let registry = Registry::default();
    let mut hooks = Hooks::new(registry.clone(), vec![1, 0]);
    assert_eq!(hooks.cursor(), &[1, 0]);
    let (_, first) = hooks.use_state(Value::Int(1)).unwrap();
    let (_, second) = hooks.use_state(Value::Int(2)).unwrap();
    assert_eq!(first.cursor(), &[1, 0]);
    assert_eq!(first.index(), 0);
    assert_eq!(second.cursor(), &[1, 0]);
    assert_eq!(second.index(), 1);
}

#[test]
fn hooks_setter_outlives_its_binding_and_works_repeatedly() {
    let registry = Registry::default();
    let setter = {
        let mut hooks = Hooks::new(registry.clone(), vec![3]);
        let (_, setter) = hooks.use_state(Value::Int(1)).unwrap();
        setter
    };
    setter.set(Value::Int(2)).unwrap();
    setter.set(Value::Int(3)).unwrap();
    let copy = setter.clone();
    drop(setter);
    copy.set(Value::Int(4)).unwrap();

    let mut hooks = Hooks::new(registry.clone(), vec![3]);
    let (v, _) = hooks.use_state(Value::Int(0)).unwrap();
    assert_eq!(v, Value::Int(4));
}

#[test]
fn hooks_setter_keeps_the_registry_alive() {
    let setter = {
        let registry = Registry::default();
        let mut hooks = Hooks::new(registry.clone(), vec![0, 1]);
        hooks.use_state(Value::text("a")).unwrap().1
    };
    assert_eq!(setter.set(Value::text("b")), Ok(()));
    assert_eq!(setter.set(Value::Int(1)), Err(HookError::TypeMismatch));
}

#[test]
fn hooks_positions_are_independent() {
    let registry = Registry::default();
    root(&registry).use_state(Value::text("root")).unwrap();
    let (_, set_left) = Hooks::new(registry.clone(), vec![0])
        .use_state(Value::Int(10))
        .unwrap();
    Hooks::new(registry.clone(), vec![1]).use_state(Value::Int(20)).unwrap();
    Hooks::new(registry.clone(), vec![1, 2]).use_state(Value::Bool(true)).unwrap();
    set_left.set(Value::Int(11)).unwrap();

    let (r, _) = root(&registry).use_state(Value::text("")).unwrap();
    let (l, _) = Hooks::new(registry.clone(), vec![0]).use_state(Value::Int(0)).unwrap();
    let (g, _) = Hooks::new(registry.clone(), vec![1]).use_state(Value::Int(0)).unwrap();
    let (d, _) = Hooks::new(registry.clone(), vec![1, 2])
        .use_state(Value::Bool(false))
        .unwrap();
    assert_eq!(r, Value::text("root"));
    assert_eq!(l, Value::Int(11));
    assert_eq!(g, Value::Int(20));
    assert_eq!(d, Value::Bool(true));
}

#[test]
fn hooks_registries_are_independent() {
    let one = Registry::default();
    let other = Registry::default();
    root(&one).use_state(Value::Int(1)).unwrap();
    let (v, _) = root(&other).use_state(Value::Int(2)).unwrap();
    assert_eq!(v, Value::Int(2));
    let (v, _) = root(&one).use_state(Value::Int(3)).unwrap();
    assert_eq!(v, Value::Int(1));
}

#[test]
fn hooks_order_violation() {
    let registry = Registry::default();
    let mut hooks = root(&registry);
    hooks.use_state(Value::Int(1)).unwrap();
    hooks.use_state(Value::Int(2)).unwrap();

    // A binding that has counted three requests elsewhere is one ahead of
    // what this registry holds.
    let other = Registry::default();
    let mut ahead = root(&other);
    ahead.use_state(Value::Int(1)).unwrap();
    ahead.use_state(Value::Int(2)).unwrap();
    ahead.use_state(Value::Int(3)).unwrap();
    assert_eq!(
        registry.use_state(ahead.cursor(), Value::Int(4), ahead.counter()),
        Err(HookError::OrderViolation)
    );
    // No slot was made for it: the next free slot is still the third.
    assert_eq!(registry.use_state(&[], Value::Int(5), 2), Ok(Value::Int(5)));
}

#[test]
fn hooks_type_mismatch() {
    let registry = Registry::default();
    let mut hooks = root(&registry);
    let (_, setter) = hooks.use_state(Value::text("what")).unwrap();

    let mut again = root(&registry);
    assert_eq!(
        again.use_state(Value::Int(123)).err(),
        Some(HookError::TypeMismatch)
    );
    assert_eq!(setter.set(Value::Int(123)), Err(HookError::TypeMismatch));

    let (v, _) = root(&registry).use_state(Value::text("")).unwrap();
    assert_eq!(v, Value::text("what"));
}

#[test]
fn hooks_unknown_path_without_growth() {
    let registry = Registry::new(StateTree::new(false));
    let mut hooks = Hooks::new(registry.clone(), vec![0]);
    assert_eq!(
        hooks.use_state(Value::Int(1)).err(),
        Some(HookError::UnknownPath)
    );
    assert_eq!(registry.set(&[0], 0, Value::Int(1)), Err(HookError::UnknownPath));

    registry.register(&[0]);
    let mut hooks = Hooks::new(registry.clone(), vec![0]);
    let (v, _) = hooks.use_state(Value::Int(1)).unwrap();
    assert_eq!(v, Value::Int(1));
    assert_eq!(registry.set(&[0], 0, Value::Int(2)), Ok(()));
    assert_eq!(registry.set(&[0], 1, Value::Int(2)), Err(HookError::UnknownSlot));
    assert_eq!(registry.use_state(&[0], Value::Int(0), 0), Ok(Value::Int(2)));
}

#[test]
fn hooks_setters_may_cross_threads() {
    fn sendable<T: Send + Sync + 'static>(_: &T) {}
    let registry = Registry::default();
    let (_, setter): (Value, SharedSetter) = root(&registry).use_state(Value::Int(0)).unwrap();
    sendable(&setter);
    sendable(&registry);
}

#[test]
fn hooks_prune_makes_room_for_another_component() {
    let registry = Registry::default();
    let mut hooks = Hooks::new(registry.clone(), vec![2]);
    let (_, setter) = hooks.use_state(Value::text("what")).unwrap();
    Hooks::new(registry.clone(), vec![2, 0]).use_state(Value::Int(1)).unwrap();

    assert!(registry.prune(&[2]));
    assert!(!registry.prune(&[7]));

    assert_eq!(setter.set(Value::text("late")), Err(HookError::UnknownSlot));
    let (v, _) = Hooks::new(registry.clone(), vec![2]).use_state(Value::Int(5)).unwrap();
    assert_eq!(v, Value::Int(5));
    let (w, _) = Hooks::new(registry.clone(), vec![2, 0]).use_state(Value::Bool(true)).unwrap();
    assert_eq!(w, Value::Bool(true));
}

#[test]
fn hooks_registry_keeps_the_policy_of_its_hierarchy() {
    let growing = Registry::default();
    assert!(growing.auto_grow());
    assert!(growing.clone().auto_grow());
    assert_eq!(growing.use_state(&[4, 4], Value::Int(1), 0), Ok(Value::Int(1)));

    let fixed = Registry::new(StateTree::new(false));
    assert!(!fixed.auto_grow());
    assert!(!fixed.clone().auto_grow());
    assert_eq!(fixed.use_state(&[4, 4], Value::Int(1), 0), Err(HookError::UnknownPath));
    assert_eq!(fixed.use_state(&[], Value::Int(1), 0), Ok(Value::Int(1)));

    let mut tree = StateTree::new(false);
    tree.set_auto_grow(true);
    assert!(Registry::new(tree).auto_grow());
}

#[test]
fn hooks_prune_at_the_root_always_finds_it() {
    let registry = Registry::new(StateTree::new(false));
    assert!(registry.prune(&[]));
    registry.register(&[1]);
    registry.use_state(&[], Value::Int(1), 0).unwrap();
    assert!(registry.prune(&[]));
    assert!(!registry.prune(&[1]));
    assert_eq!(registry.use_state(&[], Value::text("new"), 0), Ok(Value::text("new")));
    assert!(!registry.auto_grow());
}
