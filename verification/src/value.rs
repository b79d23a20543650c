//! Values of the evaluator and the equality operator on them.
//!
//! A floating-point number is held by its bits; comparisons that need
//! floating-point arithmetic are left to the caller.
use vstd::prelude::*;

use crate::sorted::views;

verus! {

/// A value computed by the evaluator.
#[derive(Debug)]
pub enum Value {
    Int(i64),
    /// The bits of a double-precision number.
    Float(u64),
    Rational(i64, i64),
    String(String),
    Tuple(Vec<Value>),
    Variant { id: usize, value: Box<Value> },
}

/// Mathematical model of [`Value`].
pub enum SpecValue {
    Int(i64),
    Float(u64),
    Rational(i64, i64),
    String(Seq<char>),
    Tuple(Seq<SpecValue>),
    Variant { id: usize, value: Box<SpecValue> },
}

pub open spec fn value_view(v: Value) -> SpecValue
    decreases v,
{
    match v {
        Value::Int(i) => SpecValue::Int(i),
        Value::Float(f) => SpecValue::Float(f),
        Value::Rational(a, b) => SpecValue::Rational(a, b),
        Value::String(s) => SpecValue::String(s@),
        Value::Tuple(vs) => SpecValue::Tuple(
            Seq::new(vs@.len(), |i: int| if 0 <= i < vs@.len() { value_view(vs@[i]) } else { SpecValue::Int(0) }),
        ),
        Value::Variant { id, value } => SpecValue::Variant { id, value: Box::new(value_view(*value)) },
    }
}

impl View for Value {
    type V = SpecValue;

    open spec fn view(&self) -> SpecValue {
        value_view(*self)
    }
}

proof fn lemma_view_tuple(vs: Vec<Value>)
    ensures
        Value::Tuple(vs)@ == SpecValue::Tuple(views(vs@)),
{
    assert(Value::Tuple(vs)@->Tuple_0 =~= views(vs@));
}

/// A floating-point number occurs in `v`.
pub open spec fn has_float(v: SpecValue) -> bool
    decreases v,
{
    match v {
        SpecValue::Float(_) => true,
        SpecValue::Tuple(s) => has_float_seq(s),
        SpecValue::Variant { id: _, value } => has_float(*value),
        _ => false,
    }
}

pub open spec fn has_float_seq(s: Seq<SpecValue>) -> bool
    decreases s,
{
    if s.len() == 0 { false } else { has_float(s[0]) || has_float_seq(s.subrange(1, s.len() as int)) }
}

proof fn lemma_has_float_skip(s: Seq<SpecValue>, i: int)
    requires
        0 <= i <= s.len(),
        forall|j: int| 0 <= j < i ==> !has_float(s[j]),
    ensures
        has_float_seq(s) == has_float_seq(s.subrange(i, s.len() as int)),
    decreases i,
{
    if i > 0 {
        let s1 = s.subrange(1, s.len() as int);
        assert forall|j: int| 0 <= j < i - 1 implies !has_float(s1[j]) by {
            assert(s1[j] == s[j + 1]);
        }
        lemma_has_float_skip(s1, i - 1);
        assert(s1.subrange(i - 1, s1.len() as int) =~= s.subrange(i, s.len() as int));
    } else {
        assert(s.subrange(0, s.len() as int) =~= s);
    }
}

/// The truth value `b`: the first variant for true, the second for false,
/// each around the empty tuple.
pub open spec fn bool_value(b: bool) -> SpecValue {
    SpecValue::Variant { id: if b { 0 } else { 1 }, value: Box::new(SpecValue::Tuple(seq![])) }
}

/// The pair is one that [`calc`] compares: equal values, or two numbers.
pub open spec fn comparable(a: SpecValue, b: SpecValue) -> bool {
    a == b || ((a is Int || a is Float || a is Rational) && (b is Int || b is Float || b is Rational))
}

/// The comparison needs floating-point arithmetic: a float occurs in one of
/// the values, or an integer is compared with a rational.
pub open spec fn needs_float(a: SpecValue, b: SpecValue) -> bool {
    has_float(a) || has_float(b) || (a is Int && b is Rational) || (a is Rational && b is Int)
}

/// The rational products of a comparison of two rationals fit in `i64`.
pub open spec fn rationals_fit(a: SpecValue, b: SpecValue) -> bool {
    (a is Rational && b is Rational) ==> {
        &&& i64::MIN <= a->Rational_0 * b->Rational_1 <= i64::MAX
        &&& i64::MIN <= b->Rational_0 * a->Rational_1 <= i64::MAX
    }
}

/// Equality of two numbers, or of two equal values, as a truth value.
pub open spec fn calc_spec(a: SpecValue, b: SpecValue) -> SpecValue {
    if a == b {
        bool_value(true)
    } else {
        match (a, b) {
            (SpecValue::Int(x), SpecValue::Int(y)) => bool_value(x == y),
            (SpecValue::Rational(x, y), SpecValue::Rational(z, w)) => bool_value(x * w == z * y),
            _ => bool_value(false),
        }
    }
}

impl Value {
    /// A copy with the same model.
    pub fn clone_value(&self) -> (r: Value)
        ensures
            r@ == self@,
        decreases self,
    {
        match self {
            Value::Int(i) => Value::Int(*i),
            Value::Float(f) => Value::Float(*f),
            Value::Rational(a, b) => Value::Rational(*a, *b),
            Value::String(s) => Value::String(s.clone()),
            Value::Tuple(vs) => {
                let mut r: Vec<Value> = Vec::new();
                let mut i: usize = 0;
                while i < vs.len()
                    invariant
                        i <= vs@.len(),
                        *self == Value::Tuple(*vs),
                        r@.len() == i,
                        forall|j: int| 0 <= j < i ==> r@[j]@ == vs@[j]@,
                    decreases vs@.len() - i,
                {
                    proof {
                        vstd::std_specs::vec::axiom_vec_index_decreases(*vs, i as int);
                        assert(decreases_to!(*self => self->Tuple_0));
                    }
                    r.push(vs[i].clone_value());
                    i += 1;
                }
                proof {
                    lemma_view_tuple(*vs);
                    lemma_view_tuple(r);
                    assert(views(r@) =~= views(vs@));
                }
                Value::Tuple(r)
            },
            Value::Variant { id, value } => Value::Variant { id: *id, value: Box::new(value.clone_value()) },
        }
    }

    /// Whether a floating-point number occurs in the value.
    pub fn has_float(&self) -> (r: bool)
        ensures
            r == has_float(self@),
        decreases self,
    {
        match self {
            Value::Float(_) => true,
            Value::Tuple(vs) => {
                proof {
                    lemma_view_tuple(*vs);
                    assert(*self == Value::Tuple(*vs));
                }
                let ghost s = views(vs@);
                let mut i: usize = 0;
                while i < vs.len()
                    invariant
                        i <= vs@.len(),
                        s == views(vs@),
                        *self == Value::Tuple(*vs),
                        self@ == SpecValue::Tuple(s),
                        forall|j: int| 0 <= j < i ==> !has_float(s[j]),
                    decreases vs@.len() - i,
                {
                    proof {
                        vstd::std_specs::vec::axiom_vec_index_decreases(*vs, i as int);
                        assert(decreases_to!(*self => self->Tuple_0));
                    }
                    if vs[i].has_float() {
                        proof {
                            lemma_has_float_skip(s, i as int);
                            assert(s.subrange(i as int, s.len() as int)[0] == s[i as int]);
                            assert(self@ == SpecValue::Tuple(s));
                        }
                        return true;
                    }
                    i += 1;
                }
                proof {
                    lemma_has_float_skip(s, i as int);
                    assert(self@ == SpecValue::Tuple(s));
                }
                false
            },
            Value::Variant { id: _, value } => value.has_float(),
            _ => false,
        }
    }

    /// Whether the two values have the same model.
    pub fn same(&self, other: &Value) -> (r: bool)
        ensures
            r == (self@ == other@),
        decreases self,
    {
        match (self, other) {
            (Value::Int(a), Value::Int(b)) => *a == *b,
            (Value::Float(a), Value::Float(b)) => *a == *b,
            (Value::Rational(a, b), Value::Rational(c, d)) => *a == *c && *b == *d,
            (Value::String(a), Value::String(b)) => *a == *b,
            (Value::Tuple(xs), Value::Tuple(ys)) => {
                proof {
                    lemma_view_tuple(*xs);
                    lemma_view_tuple(*ys);
                    assert(*self == Value::Tuple(*xs));
                    assert(*other == Value::Tuple(*ys));
                }
                if xs.len() != ys.len() {
                    assert(views(xs@).len() != views(ys@).len());
                    return false;
                }
                let mut i: usize = 0;
                while i < xs.len()
                    invariant
                        i <= xs@.len(),
                        xs@.len() == ys@.len(),
                        *self == Value::Tuple(*xs),
                        self@ == SpecValue::Tuple(views(xs@)),
                        other@ == SpecValue::Tuple(views(ys@)),
                        forall|j: int| 0 <= j < i ==> xs@[j]@ == ys@[j]@,
                    decreases xs@.len() - i,
                {
                    proof {
                        vstd::std_specs::vec::axiom_vec_index_decreases(*xs, i as int);
                        assert(decreases_to!(*self => self->Tuple_0));
                    }
                    if !xs[i].same(&ys[i]) {
                        assert(views(xs@)[i as int] != views(ys@)[i as int]);
                        return false;
                    }
                    i += 1;
                }
                assert(views(xs@) =~= views(ys@));
                true
            },
            (Value::Variant { id: a, value: v }, Value::Variant { id: b, value: w }) => *a == *b && v.same(w),
            _ => false,
        }
    }
}

/// Equality of two values, as the truth value [`bool_value`]; `None` where
/// the comparison needs floating-point arithmetic, which is left to the
/// caller.
pub fn calc(lhs: &Value, rhs: &Value) -> (r: Option<Value>)
    requires
        comparable(lhs@, rhs@),
        rationals_fit(lhs@, rhs@),
    ensures
        match r {
            Some(v) => !needs_float(lhs@, rhs@) && v@ == calc_spec(lhs@, rhs@),
            None => needs_float(lhs@, rhs@),
        },
{
    if lhs.has_float() || rhs.has_float() {
        return None;
    }
    let eq = |pred: bool| -> (v: Value)
        ensures
            v@ == bool_value(pred),
        {
            let none: Vec<Value> = Vec::new();
            proof {
                lemma_view_tuple(none);
                assert(views(none@) =~= seq![]);
            }
            Value::Variant { id: if pred { 0 } else { 1 }, value: Box::new(Value::Tuple(none)) }
        };
    if lhs.same(rhs) {
        return Some(eq(true));
    }
    match (lhs, rhs) {
        (Value::Int(a), Value::Int(b)) => Some(eq(*a == *b)),
        (Value::Rational(a, b), Value::Rational(a2, b2)) => Some(eq(*a * *b2 == *a2 * *b)),
        (Value::Int(_), Value::Rational(_, _)) => None,
        (Value::Rational(_, _), Value::Int(_)) => None,
        _ => Some(eq(false)),
    }
}

/// Every value is equal to itself.
pub proof fn law_calc_reflexive(v: SpecValue)
    ensures
        calc_spec(v, v) == bool_value(true),
{
}

/// Equality does not depend on the order of its operands.
pub proof fn law_calc_symmetric(a: SpecValue, b: SpecValue)
    ensures
        calc_spec(a, b) == calc_spec(b, a),
{
}

/// Two rationals are equal when their cross products are, so a rational and
/// its multiple by the same factor are equal.
pub proof fn law_calc_rational_scaling(x: i64, y: i64, k: i64)
    requires
        i64::MIN <= x * k <= i64::MAX,
        i64::MIN <= y * k <= i64::MAX,
        k != 0,
    ensures
        calc_spec(SpecValue::Rational(x, y), SpecValue::Rational((x * k) as i64, (y * k) as i64)) == bool_value(true),
{
    assert(x * (y * k) == (x * k) * y) by (nonlinear_arith);
}

} // verus!
