use deskc::value::Value;

fn truth(b: bool) -> Value {
    Value::Variant { id: if b { 0 } else { 1 }, value: Box::new(Value::Tuple(vec![])) }
}

fn same(a: &Value, b: &Value) -> bool {
    a.same(b)
}

#[test]
fn equal_integers() {
    assert!(same(&deskc::value::calc(&Value::Int(3), &Value::Int(3)).unwrap(), &truth(true)));
    assert!(same(&deskc::value::calc(&Value::Int(3), &Value::Int(4)).unwrap(), &truth(false)));
}

#[test]
fn rationals_by_cross_product() {
    assert!(same(&deskc::value::calc(&Value::Rational(1, 2), &Value::Rational(2, 4)).unwrap(), &truth(true)));
    assert!(same(&deskc::value::calc(&Value::Rational(1, 2), &Value::Rational(1, 3)).unwrap(), &truth(false)));
}

#[test]
fn equal_structures() {
    let a = Value::Tuple(vec![Value::String("x".to_string()), Value::Int(1)]);
    let b = Value::Tuple(vec![Value::String("x".to_string()), Value::Int(1)]);
    assert!(same(&deskc::value::calc(&a, &b).unwrap(), &truth(true)));
}

#[test]
fn floats_are_left_to_the_caller() {
    assert!(deskc::value::calc(&Value::Float(1.5f64.to_bits()), &Value::Int(1)).is_none());
    assert!(deskc::value::calc(&Value::Int(1), &Value::Rational(2, 2)).is_none());
    let t = Value::Tuple(vec![Value::Float(0.0f64.to_bits())]);
    assert!(deskc::value::calc(&t, &t.clone_value()).is_none());
}

#[test]
fn has_float_finds_nested_floats() {
    let v = Value::Variant { id: 3, value: Box::new(Value::Tuple(vec![Value::Int(1), Value::Float(2.0f64.to_bits())])) };
    assert!(v.has_float());
    assert!(!Value::Tuple(vec![Value::Int(1)]).has_float());
}
