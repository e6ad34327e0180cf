use hook_state::value::{Kind, Value};

#[test]
fn value_kinds() {
    assert_eq!(Value::Bool(true).kind(), Kind::Bool);
    assert_eq!(Value::Int(-1).kind(), Kind::Int);
    assert_eq!(Value::Real(3.145f64.to_bits()).kind(), Kind::Real);
    assert_eq!(Value::text("what").kind(), Kind::Text);
    assert_ne!(Value::Int(1).kind(), Value::Real(1).kind());
}

#[test]
fn value_accessors() {
    assert_eq!(Value::Bool(true).as_bool(), Some(true));
    assert_eq!(Value::Bool(true).as_int(), None);
    assert_eq!(Value::Int(123).as_int(), Some(123));
    assert_eq!(Value::Int(123).as_text(), None);
    assert_eq!(Value::text("möp").as_text(), Some("möp"));
    assert_eq!(Value::text("möp").as_real_bits(), None);
    assert_eq!(Value::Text(String::from("what")).as_text(), Some("what"));
    let bits = Value::Real(3.145f64.to_bits()).as_real_bits().unwrap();
    assert_eq!(f64::from_bits(bits), 3.145);
    assert_eq!(Value::Real(bits).as_bool(), None);
}

#[test]
fn value_equality() {
    assert_eq!(Value::Int(1), Value::Int(1));
    assert_ne!(Value::Int(1), Value::Int(2));
    assert_ne!(Value::Int(1), Value::Real(1));
    assert_ne!(Value::Bool(false), Value::Int(0));
    assert_eq!(Value::text("what"), Value::Text(String::from("what")));
    assert_ne!(Value::text("what"), Value::text("no"));
    assert_eq!(Value::Real(0.0f64.to_bits()), Value::Real(0));
}

#[test]
fn value_duplicate_is_equal_and_independent() {
    let source = Value::text("what");
    let copy = source.duplicate();
    drop(source);
    assert_eq!(copy, Value::text("what"));
    assert_eq!(Value::Int(123).duplicate(), Value::Int(123));
    assert_eq!(Value::Bool(true).duplicate(), Value::Bool(true));
    assert_eq!(Value::Real(7).duplicate(), Value::Real(7));
}
