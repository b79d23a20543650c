//! The total order on types, effects and effect expressions: variants in
//! declaration order, then fields left to right, sequences
//! lexicographically, strings by their UTF-8 bytes.
use vstd::prelude::*;
use vstd::std_specs::cmp::PartialEqSpecImpl;
use vstd::utf8::encode_utf8;

use crate::sorted::Ordered;

use crate::ty::{
    effects_view, exprs_view, lemma_view_add, lemma_view_apply, lemma_view_effects,
    lemma_view_product, types_view, Effect, EffectExpr, SpecEffect, SpecEffectExpr, SpecType, Type,
};

verus! {

/// Combines the comparison of a first component with that of the rest.
pub open spec fn then_order(first: int, rest: int) -> int {
    if first != 0 { first } else { rest }
}

pub open spec fn id_order(a: usize, b: usize) -> int {
    if a < b { -1 } else if a == b { 0 } else { 1 }
}

pub open spec fn bytes_order(a: Seq<u8>, b: Seq<u8>) -> int
    decreases a.len(),
{
    if a.len() == 0 {
        if b.len() == 0 { 0 } else { -1 }
    } else if b.len() == 0 {
        1
    } else {
        then_order(
            if a[0] < b[0] { -1 } else if a[0] == b[0] { 0 } else { 1 },
            bytes_order(a.subrange(1, a.len() as int), b.subrange(1, b.len() as int)),
        )
    }
}

pub open spec fn string_order(a: Seq<char>, b: Seq<char>) -> int {
    bytes_order(encode_utf8(a), encode_utf8(b))
}

pub open spec fn type_rank(t: SpecType) -> int {
    match t {
        SpecType::Number => 0,
        SpecType::String => 1,
        SpecType::Product(_) => 2,
        SpecType::Sum(_) => 3,
        SpecType::Function { .. } => 4,
        SpecType::Array(_) => 5,
        SpecType::SetOf(_) => 6,
        SpecType::Variable(_) => 7,
        SpecType::ForAll { .. } => 8,
        SpecType::Existential(_) => 9,
        SpecType::Infer(_) => 10,
        SpecType::Effectful { .. } => 11,
        SpecType::Brand { .. } => 12,
        SpecType::Label { .. } => 13,
    }
}

pub open spec fn expr_rank(e: SpecEffectExpr) -> int {
    match e {
        SpecEffectExpr::Effects(_) => 0,
        SpecEffectExpr::Add(_) => 1,
        SpecEffectExpr::Sub { .. } => 2,
        SpecEffectExpr::Apply { .. } => 3,
    }
}

pub open spec fn type_order(a: SpecType, b: SpecType) -> int
    decreases a,
{
    if type_rank(a) < type_rank(b) {
        -1
    } else if type_rank(a) > type_rank(b) {
        1
    } else {
        match a {
            SpecType::Product(x) => match b {
                SpecType::Product(y) => types_order(x, y),
                _ => 0,
            },
            SpecType::Sum(x) => match b {
                SpecType::Sum(y) => types_order(x, y),
                _ => 0,
            },
            SpecType::Function { parameter, body } => match b {
                SpecType::Function { parameter: p2, body: b2 } => then_order(
                    type_order(*parameter, *p2),
                    type_order(*body, *b2),
                ),
                _ => 0,
            },
            SpecType::Array(x) => match b {
                SpecType::Array(y) => type_order(*x, *y),
                _ => 0,
            },
            SpecType::SetOf(x) => match b {
                SpecType::SetOf(y) => type_order(*x, *y),
                _ => 0,
            },
            SpecType::Variable(x) => match b {
                SpecType::Variable(y) => id_order(x, y),
                _ => 0,
            },
            SpecType::ForAll { variable, body } => match b {
                SpecType::ForAll { variable: v2, body: b2 } => then_order(
                    id_order(variable, v2),
                    type_order(*body, *b2),
                ),
                _ => 0,
            },
            SpecType::Existential(x) => match b {
                SpecType::Existential(y) => id_order(x, y),
                _ => 0,
            },
            SpecType::Infer(x) => match b {
                SpecType::Infer(y) => id_order(x, y),
                _ => 0,
            },
            SpecType::Effectful { ty, effects } => match b {
                SpecType::Effectful { ty: t2, effects: e2 } => then_order(
                    type_order(*ty, *t2),
                    expr_order(effects, e2),
                ),
                _ => 0,
            },
            SpecType::Brand { brand, item } => match b {
                SpecType::Brand { brand: s2, item: i2 } => then_order(
                    string_order(brand, s2),
                    type_order(*item, *i2),
                ),
                _ => 0,
            },
            SpecType::Label { label, item } => match b {
                SpecType::Label { label: s2, item: i2 } => then_order(
                    string_order(label, s2),
                    type_order(*item, *i2),
                ),
                _ => 0,
            },
            _ => 0,
        }
    }
}

pub open spec fn types_order(a: Seq<SpecType>, b: Seq<SpecType>) -> int
    decreases a,
{
    if a.len() == 0 {
        if b.len() == 0 { 0 } else { -1 }
    } else if b.len() == 0 {
        1
    } else {
        then_order(
            type_order(a[0], b[0]),
            types_order(a.subrange(1, a.len() as int), b.subrange(1, b.len() as int)),
        )
    }
}

pub open spec fn effect_order(a: SpecEffect, b: SpecEffect) -> int
    decreases a,
{
    then_order(type_order(a.input, b.input), type_order(a.output, b.output))
}

pub open spec fn effects_order(a: Seq<SpecEffect>, b: Seq<SpecEffect>) -> int
    decreases a,
{
    if a.len() == 0 {
        if b.len() == 0 { 0 } else { -1 }
    } else if b.len() == 0 {
        1
    } else {
        then_order(
            effect_order(a[0], b[0]),
            effects_order(a.subrange(1, a.len() as int), b.subrange(1, b.len() as int)),
        )
    }
}

pub open spec fn expr_order(a: SpecEffectExpr, b: SpecEffectExpr) -> int
    decreases a,
{
    if expr_rank(a) < expr_rank(b) {
        -1
    } else if expr_rank(a) > expr_rank(b) {
        1
    } else {
        match a {
            SpecEffectExpr::Effects(x) => match b {
                SpecEffectExpr::Effects(y) => effects_order(x, y),
                _ => 0,
            },
            SpecEffectExpr::Add(x) => match b {
                SpecEffectExpr::Add(y) => exprs_order(x, y),
                _ => 0,
            },
            SpecEffectExpr::Sub { minuend, subtrahend } => match b {
                SpecEffectExpr::Sub { minuend: m2, subtrahend: s2 } => then_order(
                    expr_order(*minuend, *m2),
                    expr_order(*subtrahend, *s2),
                ),
                _ => 0,
            },
            SpecEffectExpr::Apply { function, arguments } => match b {
                SpecEffectExpr::Apply { function: f2, arguments: a2 } => then_order(
                    type_order(*function, *f2),
                    types_order(arguments, a2),
                ),
                _ => 0,
            },
        }
    }
}

pub open spec fn exprs_order(a: Seq<SpecEffectExpr>, b: Seq<SpecEffectExpr>) -> int
    decreases a,
{
    if a.len() == 0 {
        if b.len() == 0 { 0 } else { -1 }
    } else if b.len() == 0 {
        1
    } else {
        then_order(
            expr_order(a[0], b[0]),
            exprs_order(a.subrange(1, a.len() as int), b.subrange(1, b.len() as int)),
        )
    }
}


/// The order on strings is a total order.
pub proof fn lemma_string_order(a: Seq<char>, b: Seq<char>, c: Seq<char>)
    ensures
        -1 <= string_order(a, b) <= 1,
        string_order(a, b) == -string_order(b, a),
        string_order(a, b) == 0 <==> a == b,
        string_order(a, b) < 0 && string_order(b, c) < 0 ==> string_order(a, c) < 0,
{
    lemma_bytes_order(encode_utf8(a), encode_utf8(b), encode_utf8(c));
    vstd::utf8::encode_utf8_decode_utf8(a);
    vstd::utf8::encode_utf8_decode_utf8(b);
}

/// The order on byte strings is a total order.
pub proof fn lemma_bytes_order(a: Seq<u8>, b: Seq<u8>, c: Seq<u8>)
    ensures
        -1 <= bytes_order(a, b) <= 1,
        bytes_order(a, b) == -bytes_order(b, a),
        bytes_order(a, b) == 0 <==> a == b,
        bytes_order(a, b) < 0 && bytes_order(b, c) < 0 ==> bytes_order(a, c) < 0,
    decreases a.len(),
{
    if a.len() == 0 && b.len() == 0 {
        assert(a =~= b);
    }
    if a.len() > 0 && b.len() > 0 {
        let a1 = a.subrange(1, a.len() as int);
        let b1 = b.subrange(1, b.len() as int);
        let c1 = if c.len() > 0 { c.subrange(1, c.len() as int) } else { b1 };
        lemma_bytes_order(a1, b1, c1);
        if a[0] == b[0] && a1 == b1 {
            assert forall|i: int| 0 <= i < a.len() implies a[i] == b[i] by {
                if i > 0 {
                    assert(a[i] == a1[i - 1]);
                    assert(b[i] == b1[i - 1]);
                }
            }
            assert(a =~= b);
        }
    }
}


/// Basic properties of the order on sequences of types.
pub proof fn lemma_types_basic(a: Seq<SpecType>, b: Seq<SpecType>)
    ensures
        -1 <= types_order(a, b) <= 1,
        types_order(a, b) == -types_order(b, a),
        types_order(a, b) == 0 <==> a == b,
    decreases a,
{
    if a.len() == 0 && b.len() == 0 {
        assert(a =~= b);
    }
    if a.len() > 0 && b.len() > 0 {
        let a1 = a.subrange(1, a.len() as int);
        let b1 = b.subrange(1, b.len() as int);
        lemma_type_basic(a[0], b[0]);
        lemma_types_basic(a1, b1);
        if a[0] == b[0] && a1 == b1 {
            assert forall|i: int| 0 <= i < a.len() implies a[i] == b[i] by {
                if i > 0 {
                    assert(a[i] == a1[i - 1]);
                    assert(b[i] == b1[i - 1]);
                }
            }
            assert(a =~= b);
        }
    }
}

/// Transitivity of the order on sequences of types.
pub proof fn lemma_types_trans(a: Seq<SpecType>, b: Seq<SpecType>, c: Seq<SpecType>)
    requires
        types_order(a, b) < 0,
        types_order(b, c) < 0,
    ensures
        types_order(a, c) < 0,
    decreases a,
{
    let a1 = a.subrange(1, a.len() as int);
    let b1 = b.subrange(1, b.len() as int);
    let c1 = c.subrange(1, c.len() as int);
    if a.len() > 0 {
        lemma_type_basic(a[0], b[0]);
        lemma_type_basic(b[0], c[0]);
        lemma_types_basic(a1, b1);
        lemma_types_basic(b1, c1);
        if type_order(a[0], b[0]) < 0 && type_order(b[0], c[0]) < 0 {
            lemma_type_trans(a[0], b[0], c[0]);
        }
        if type_order(a[0], b[0]) == 0 && type_order(b[0], c[0]) == 0 {
            lemma_types_trans(a1, b1, c1);
        }
    }
}

/// Basic properties of the order on sequences of effects.
pub proof fn lemma_effects_basic(a: Seq<SpecEffect>, b: Seq<SpecEffect>)
    ensures
        -1 <= effects_order(a, b) <= 1,
        effects_order(a, b) == -effects_order(b, a),
        effects_order(a, b) == 0 <==> a == b,
    decreases a,
{
    if a.len() == 0 && b.len() == 0 {
        assert(a =~= b);
    }
    if a.len() > 0 && b.len() > 0 {
        let a1 = a.subrange(1, a.len() as int);
        let b1 = b.subrange(1, b.len() as int);
        lemma_effect_basic(a[0], b[0]);
        lemma_effects_basic(a1, b1);
        if a[0] == b[0] && a1 == b1 {
            assert forall|i: int| 0 <= i < a.len() implies a[i] == b[i] by {
                if i > 0 {
                    assert(a[i] == a1[i - 1]);
                    assert(b[i] == b1[i - 1]);
                }
            }
            assert(a =~= b);
        }
    }
}

/// Transitivity of the order on sequences of effects.
pub proof fn lemma_effects_trans(a: Seq<SpecEffect>, b: Seq<SpecEffect>, c: Seq<SpecEffect>)
    requires
        effects_order(a, b) < 0,
        effects_order(b, c) < 0,
    ensures
        effects_order(a, c) < 0,
    decreases a,
{
    let a1 = a.subrange(1, a.len() as int);
    let b1 = b.subrange(1, b.len() as int);
    let c1 = c.subrange(1, c.len() as int);
    if a.len() > 0 {
        lemma_effect_basic(a[0], b[0]);
        lemma_effect_basic(b[0], c[0]);
        lemma_effects_basic(a1, b1);
        lemma_effects_basic(b1, c1);
        if effect_order(a[0], b[0]) < 0 && effect_order(b[0], c[0]) < 0 {
            lemma_effect_trans(a[0], b[0], c[0]);
        }
        if effect_order(a[0], b[0]) == 0 && effect_order(b[0], c[0]) == 0 {
            lemma_effects_trans(a1, b1, c1);
        }
    }
}

/// Basic properties of the order on sequences of effect expressions.
pub proof fn lemma_exprs_basic(a: Seq<SpecEffectExpr>, b: Seq<SpecEffectExpr>)
    ensures
        -1 <= exprs_order(a, b) <= 1,
        exprs_order(a, b) == -exprs_order(b, a),
        exprs_order(a, b) == 0 <==> a == b,
    decreases a,
{
    if a.len() == 0 && b.len() == 0 {
        assert(a =~= b);
    }
    if a.len() > 0 && b.len() > 0 {
        let a1 = a.subrange(1, a.len() as int);
        let b1 = b.subrange(1, b.len() as int);
        lemma_expr_basic(a[0], b[0]);
        lemma_exprs_basic(a1, b1);
        if a[0] == b[0] && a1 == b1 {
            assert forall|i: int| 0 <= i < a.len() implies a[i] == b[i] by {
                if i > 0 {
                    assert(a[i] == a1[i - 1]);
                    assert(b[i] == b1[i - 1]);
                }
            }
            assert(a =~= b);
        }
    }
}

/// Transitivity of the order on sequences of effect expressions.
pub proof fn lemma_exprs_trans(a: Seq<SpecEffectExpr>, b: Seq<SpecEffectExpr>, c: Seq<SpecEffectExpr>)
    requires
        exprs_order(a, b) < 0,
        exprs_order(b, c) < 0,
    ensures
        exprs_order(a, c) < 0,
    decreases a,
{
    let a1 = a.subrange(1, a.len() as int);
    let b1 = b.subrange(1, b.len() as int);
    let c1 = c.subrange(1, c.len() as int);
    if a.len() > 0 {
        lemma_expr_basic(a[0], b[0]);
        lemma_expr_basic(b[0], c[0]);
        lemma_exprs_basic(a1, b1);
        lemma_exprs_basic(b1, c1);
        if expr_order(a[0], b[0]) < 0 && expr_order(b[0], c[0]) < 0 {
            lemma_expr_trans(a[0], b[0], c[0]);
        }
        if expr_order(a[0], b[0]) == 0 && expr_order(b[0], c[0]) == 0 {
            lemma_exprs_trans(a1, b1, c1);
        }
    }
}

/// Basic properties of the order on types: its values, antisymmetry, and
/// that it is zero exactly on equal types.
pub proof fn lemma_type_basic(a: SpecType, b: SpecType)
    ensures
        -1 <= type_order(a, b) <= 1,
        type_order(a, b) == -type_order(b, a),
        type_order(a, b) == 0 <==> a == b,
    decreases a,
{
    if type_rank(a) == type_rank(b) {
        match a {
            SpecType::Product(x) => lemma_types_basic(x, b->Product_0),
            SpecType::Sum(x) => lemma_types_basic(x, b->Sum_0),
            SpecType::Function { parameter, body } => {
                lemma_type_basic(*parameter, *b->Function_parameter);
                lemma_type_basic(*body, *b->Function_body);
            },
            SpecType::Array(x) => lemma_type_basic(*x, *b->Array_0),
            SpecType::SetOf(x) => lemma_type_basic(*x, *b->SetOf_0),
            SpecType::ForAll { variable, body } => lemma_type_basic(*body, *b->ForAll_body),
            SpecType::Effectful { ty, effects } => {
                lemma_type_basic(*ty, *b->Effectful_ty);
                lemma_expr_basic(effects, b->Effectful_effects);
            },
            SpecType::Brand { brand, item } => {
                lemma_string_order(brand, b->Brand_brand, brand);
                lemma_type_basic(*item, *b->Brand_item);
            },
            SpecType::Label { label, item } => {
                lemma_string_order(label, b->Label_label, label);
                lemma_type_basic(*item, *b->Label_item);
            },
            _ => {},
        }
    }
}

/// Transitivity of the order on types.
pub proof fn lemma_type_trans(a: SpecType, b: SpecType, c: SpecType)
    requires
        type_order(a, b) < 0,
        type_order(b, c) < 0,
    ensures
        type_order(a, c) < 0,
    decreases a,
{
    lemma_type_basic(a, b);
    lemma_type_basic(b, c);
    if type_rank(a) == type_rank(b) && type_rank(b) == type_rank(c) {
        match a {
            SpecType::Product(x) => lemma_types_trans(x, b->Product_0, c->Product_0),
            SpecType::Sum(x) => lemma_types_trans(x, b->Sum_0, c->Sum_0),
            SpecType::Function { parameter, body } => {
                let (p2, p3) = (*b->Function_parameter, *c->Function_parameter);
                let (q2, q3) = (*b->Function_body, *c->Function_body);
                lemma_type_basic(*parameter, p2);
                lemma_type_basic(p2, p3);
                lemma_type_basic(*body, q2);
                lemma_type_basic(q2, q3);
                if type_order(*parameter, p2) < 0 && type_order(p2, p3) < 0 {
                    lemma_type_trans(*parameter, p2, p3);
                }
                if type_order(*parameter, p2) == 0 && type_order(p2, p3) == 0 {
                    lemma_type_trans(*body, q2, q3);
                }
            },
            SpecType::Array(x) => lemma_type_trans(*x, *b->Array_0, *c->Array_0),
            SpecType::SetOf(x) => lemma_type_trans(*x, *b->SetOf_0, *c->SetOf_0),
            SpecType::ForAll { variable, body } => {
                lemma_type_basic(*body, *b->ForAll_body);
                lemma_type_basic(*b->ForAll_body, *c->ForAll_body);
                if id_order(variable, b->ForAll_variable) == 0 && id_order(b->ForAll_variable, c->ForAll_variable) == 0 {
                    lemma_type_trans(*body, *b->ForAll_body, *c->ForAll_body);
                }
            },
            SpecType::Effectful { ty, effects } => {
                let (t2, t3) = (*b->Effectful_ty, *c->Effectful_ty);
                let (e2, e3) = (b->Effectful_effects, c->Effectful_effects);
                lemma_type_basic(*ty, t2);
                lemma_type_basic(t2, t3);
                lemma_expr_basic(effects, e2);
                lemma_expr_basic(e2, e3);
                if type_order(*ty, t2) < 0 && type_order(t2, t3) < 0 {
                    lemma_type_trans(*ty, t2, t3);
                }
                if type_order(*ty, t2) == 0 && type_order(t2, t3) == 0 {
                    lemma_expr_trans(effects, e2, e3);
                }
            },
            SpecType::Brand { brand, item } => {
                let (s2, s3) = (b->Brand_brand, c->Brand_brand);
                let (i2, i3) = (*b->Brand_item, *c->Brand_item);
                lemma_string_order(brand, s2, s3);
                lemma_string_order(s2, s3, s3);
                lemma_type_basic(*item, i2);
                lemma_type_basic(i2, i3);
                if string_order(brand, s2) == 0 && string_order(s2, s3) == 0 {
                    lemma_type_trans(*item, i2, i3);
                }
            },
            SpecType::Label { label, item } => {
                let (s2, s3) = (b->Label_label, c->Label_label);
                let (i2, i3) = (*b->Label_item, *c->Label_item);
                lemma_string_order(label, s2, s3);
                lemma_string_order(s2, s3, s3);
                lemma_type_basic(*item, i2);
                lemma_type_basic(i2, i3);
                if string_order(label, s2) == 0 && string_order(s2, s3) == 0 {
                    lemma_type_trans(*item, i2, i3);
                }
            },
            _ => {},
        }
    }
}

/// Basic properties of the order on effects.
pub proof fn lemma_effect_basic(a: SpecEffect, b: SpecEffect)
    ensures
        -1 <= effect_order(a, b) <= 1,
        effect_order(a, b) == -effect_order(b, a),
        effect_order(a, b) == 0 <==> a == b,
    decreases a,
{
    lemma_type_basic(a.input, b.input);
    lemma_type_basic(a.output, b.output);
}

/// Transitivity of the order on effects.
pub proof fn lemma_effect_trans(a: SpecEffect, b: SpecEffect, c: SpecEffect)
    requires
        effect_order(a, b) < 0,
        effect_order(b, c) < 0,
    ensures
        effect_order(a, c) < 0,
    decreases a,
{
    lemma_type_basic(a.input, b.input);
    lemma_type_basic(b.input, c.input);
    lemma_type_basic(a.output, b.output);
    lemma_type_basic(b.output, c.output);
    if type_order(a.input, b.input) < 0 && type_order(b.input, c.input) < 0 {
        lemma_type_trans(a.input, b.input, c.input);
    }
    if type_order(a.input, b.input) == 0 && type_order(b.input, c.input) == 0 {
        lemma_type_trans(a.output, b.output, c.output);
    }
}

/// Basic properties of the order on effect expressions.
pub proof fn lemma_expr_basic(a: SpecEffectExpr, b: SpecEffectExpr)
    ensures
        -1 <= expr_order(a, b) <= 1,
        expr_order(a, b) == -expr_order(b, a),
        expr_order(a, b) == 0 <==> a == b,
    decreases a,
{
    if expr_rank(a) == expr_rank(b) {
        match a {
            SpecEffectExpr::Effects(x) => lemma_effects_basic(x, b->Effects_0),
            SpecEffectExpr::Add(x) => lemma_exprs_basic(x, b->Add_0),
            SpecEffectExpr::Sub { minuend, subtrahend } => {
                lemma_expr_basic(*minuend, *b->minuend);
                lemma_expr_basic(*subtrahend, *b->subtrahend);
            },
            SpecEffectExpr::Apply { function, arguments } => {
                lemma_type_basic(*function, *b->function);
                lemma_types_basic(arguments, b->arguments);
            },
        }
    }
}

/// Transitivity of the order on effect expressions.
pub proof fn lemma_expr_trans(a: SpecEffectExpr, b: SpecEffectExpr, c: SpecEffectExpr)
    requires
        expr_order(a, b) < 0,
        expr_order(b, c) < 0,
    ensures
        expr_order(a, c) < 0,
    decreases a,
{
    lemma_expr_basic(a, b);
    lemma_expr_basic(b, c);
    if expr_rank(a) == expr_rank(b) && expr_rank(b) == expr_rank(c) {
        match a {
            SpecEffectExpr::Effects(x) => lemma_effects_trans(x, b->Effects_0, c->Effects_0),
            SpecEffectExpr::Add(x) => lemma_exprs_trans(x, b->Add_0, c->Add_0),
            SpecEffectExpr::Sub { minuend, subtrahend } => {
                let (m2, m3) = (*b->minuend, *c->minuend);
                let (s2, s3) = (*b->subtrahend, *c->subtrahend);
                lemma_expr_basic(*minuend, m2);
                lemma_expr_basic(m2, m3);
                lemma_expr_basic(*subtrahend, s2);
                lemma_expr_basic(s2, s3);
                if expr_order(*minuend, m2) < 0 && expr_order(m2, m3) < 0 {
                    lemma_expr_trans(*minuend, m2, m3);
                }
                if expr_order(*minuend, m2) == 0 && expr_order(m2, m3) == 0 {
                    lemma_expr_trans(*subtrahend, s2, s3);
                }
            },
            SpecEffectExpr::Apply { function, arguments } => {
                let (f2, f3) = (*b->function, *c->function);
                let (a2, a3) = (b->arguments, c->arguments);
                lemma_type_basic(*function, f2);
                lemma_type_basic(f2, f3);
                lemma_types_basic(arguments, a2);
                lemma_types_basic(a2, a3);
                if type_order(*function, f2) < 0 && type_order(f2, f3) < 0 {
                    lemma_type_trans(*function, f2, f3);
                }
                if type_order(*function, f2) == 0 && type_order(f2, f3) == 0 {
                    lemma_types_trans(arguments, a2, a3);
                }
            },
        }
    }
}

/// Comparing sequences that agree on their first `i` elements compares
/// what follows.
pub proof fn lemma_bytes_prefix(x: Seq<u8>, y: Seq<u8>, i: int)
    requires
        0 <= i <= x.len(),
        i <= y.len(),
        forall|j: int| 0 <= j < i ==> x[j] == y[j],
    ensures
        bytes_order(x, y) == bytes_order(x.subrange(i, x.len() as int), y.subrange(i, y.len() as int)),
    decreases i,
{
    if i > 0 {
        assert(x[0] == y[0]);
        let x1 = x.subrange(1, x.len() as int);
        let y1 = y.subrange(1, y.len() as int);
        lemma_bytes_prefix(x1, y1, i - 1);
        assert(x1.subrange(i - 1, x1.len() as int) =~= x.subrange(i, x.len() as int));
        assert(y1.subrange(i - 1, y1.len() as int) =~= y.subrange(i, y.len() as int));
    } else {
        assert(x.subrange(0, x.len() as int) =~= x);
        assert(y.subrange(0, y.len() as int) =~= y);
    }
}

/// Comparing sequences that agree on their first `i` elements compares
/// what follows.
pub proof fn lemma_types_prefix(x: Seq<SpecType>, y: Seq<SpecType>, i: int)
    requires
        0 <= i <= x.len(),
        i <= y.len(),
        forall|j: int| 0 <= j < i ==> x[j] == y[j],
    ensures
        types_order(x, y) == types_order(x.subrange(i, x.len() as int), y.subrange(i, y.len() as int)),
    decreases i,
{
    if i > 0 {
        lemma_type_basic(x[0], y[0]);
        let x1 = x.subrange(1, x.len() as int);
        let y1 = y.subrange(1, y.len() as int);
        lemma_types_prefix(x1, y1, i - 1);
        assert(x1.subrange(i - 1, x1.len() as int) =~= x.subrange(i, x.len() as int));
        assert(y1.subrange(i - 1, y1.len() as int) =~= y.subrange(i, y.len() as int));
    } else {
        assert(x.subrange(0, x.len() as int) =~= x);
        assert(y.subrange(0, y.len() as int) =~= y);
    }
}

/// Comparing sequences that agree on their first `i` elements compares
/// what follows.
pub proof fn lemma_effects_prefix(x: Seq<SpecEffect>, y: Seq<SpecEffect>, i: int)
    requires
        0 <= i <= x.len(),
        i <= y.len(),
        forall|j: int| 0 <= j < i ==> x[j] == y[j],
    ensures
        effects_order(x, y) == effects_order(x.subrange(i, x.len() as int), y.subrange(i, y.len() as int)),
    decreases i,
{
    if i > 0 {
        lemma_effect_basic(x[0], y[0]);
        let x1 = x.subrange(1, x.len() as int);
        let y1 = y.subrange(1, y.len() as int);
        lemma_effects_prefix(x1, y1, i - 1);
        assert(x1.subrange(i - 1, x1.len() as int) =~= x.subrange(i, x.len() as int));
        assert(y1.subrange(i - 1, y1.len() as int) =~= y.subrange(i, y.len() as int));
    } else {
        assert(x.subrange(0, x.len() as int) =~= x);
        assert(y.subrange(0, y.len() as int) =~= y);
    }
}

/// Comparing sequences that agree on their first `i` elements compares
/// what follows.
pub proof fn lemma_exprs_prefix(x: Seq<SpecEffectExpr>, y: Seq<SpecEffectExpr>, i: int)
    requires
        0 <= i <= x.len(),
        i <= y.len(),
        forall|j: int| 0 <= j < i ==> x[j] == y[j],
    ensures
        exprs_order(x, y) == exprs_order(x.subrange(i, x.len() as int), y.subrange(i, y.len() as int)),
    decreases i,
{
    if i > 0 {
        lemma_expr_basic(x[0], y[0]);
        let x1 = x.subrange(1, x.len() as int);
        let y1 = y.subrange(1, y.len() as int);
        lemma_exprs_prefix(x1, y1, i - 1);
        assert(x1.subrange(i - 1, x1.len() as int) =~= x.subrange(i, x.len() as int));
        assert(y1.subrange(i - 1, y1.len() as int) =~= y.subrange(i, y.len() as int));
    } else {
        assert(x.subrange(0, x.len() as int) =~= x);
        assert(y.subrange(0, y.len() as int) =~= y);
    }
}

/// Compares two sequences of types lexicographically.
pub fn compare_types_vecs(a: &Vec<Type>, b: &Vec<Type>) -> (r: i8)
    ensures
        r == types_order(types_view(a@), types_view(b@)),
    decreases a, 0nat,
{
    let ghost x = types_view(a@);
    let ghost y = types_view(b@);
    let mut i: usize = 0;
    while i < a.len() && i < b.len()
        invariant
            i <= a.len(),
            i <= b.len(),
            x == types_view(a@),
            y == types_view(b@),
            forall|j: int| 0 <= j < i ==> x[j] == y[j],
        decreases a.len() - i,
    {
        proof { vstd::std_specs::vec::axiom_vec_index_decreases(*a, i as int); }
        let c = compare_types(&a[i], &b[i]);
        if c != 0 {
            proof {
                lemma_types_prefix(x, y, i as int);
                assert(x.subrange(i as int, x.len() as int)[0] == x[i as int]);
                assert(y.subrange(i as int, y.len() as int)[0] == y[i as int]);
            }
            return c;
        }
        proof { lemma_type_basic(x[i as int], y[i as int]); }
        i += 1;
    }
    proof { lemma_types_prefix(x, y, i as int); }
    if a.len() == b.len() {
        0
    } else if i == a.len() {
        -1
    } else {
        1
    }
}

/// Compares two sequences of effects lexicographically.
pub fn compare_effects_vecs(a: &Vec<Effect>, b: &Vec<Effect>) -> (r: i8)
    ensures
        r == effects_order(effects_view(a@), effects_view(b@)),
    decreases a, 0nat,
{
    let ghost x = effects_view(a@);
    let ghost y = effects_view(b@);
    let mut i: usize = 0;
    while i < a.len() && i < b.len()
        invariant
            i <= a.len(),
            i <= b.len(),
            x == effects_view(a@),
            y == effects_view(b@),
            forall|j: int| 0 <= j < i ==> x[j] == y[j],
        decreases a.len() - i,
    {
        proof { vstd::std_specs::vec::axiom_vec_index_decreases(*a, i as int); }
        let c = compare_effects(&a[i], &b[i]);
        if c != 0 {
            proof {
                lemma_effects_prefix(x, y, i as int);
                assert(x.subrange(i as int, x.len() as int)[0] == x[i as int]);
                assert(y.subrange(i as int, y.len() as int)[0] == y[i as int]);
            }
            return c;
        }
        proof { lemma_effect_basic(x[i as int], y[i as int]); }
        i += 1;
    }
    proof { lemma_effects_prefix(x, y, i as int); }
    if a.len() == b.len() {
        0
    } else if i == a.len() {
        -1
    } else {
        1
    }
}

/// Compares two sequences of effect expressions lexicographically.
pub fn compare_exprs_vecs(a: &Vec<EffectExpr>, b: &Vec<EffectExpr>) -> (r: i8)
    ensures
        r == exprs_order(exprs_view(a@), exprs_view(b@)),
    decreases a, 0nat,
{
    let ghost x = exprs_view(a@);
    let ghost y = exprs_view(b@);
    let mut i: usize = 0;
    while i < a.len() && i < b.len()
        invariant
            i <= a.len(),
            i <= b.len(),
            x == exprs_view(a@),
            y == exprs_view(b@),
            forall|j: int| 0 <= j < i ==> x[j] == y[j],
        decreases a.len() - i,
    {
        proof { vstd::std_specs::vec::axiom_vec_index_decreases(*a, i as int); }
        let c = compare_exprs(&a[i], &b[i]);
        if c != 0 {
            proof {
                lemma_exprs_prefix(x, y, i as int);
                assert(x.subrange(i as int, x.len() as int)[0] == x[i as int]);
                assert(y.subrange(i as int, y.len() as int)[0] == y[i as int]);
            }
            return c;
        }
        proof { lemma_expr_basic(x[i as int], y[i as int]); }
        i += 1;
    }
    proof { lemma_exprs_prefix(x, y, i as int); }
    if a.len() == b.len() {
        0
    } else if i == a.len() {
        -1
    } else {
        1
    }
}

fn compare_ids(a: usize, b: usize) -> (r: i8)
    ensures
        r == id_order(a, b),
{
    if a < b {
        -1
    } else if a == b {
        0
    } else {
        1
    }
}

/// Compares two strings by their UTF-8 bytes.
pub fn compare_strings(a: &String, b: &String) -> (r: i8)
    ensures
        r == string_order(a@, b@),
{
    let x = a.as_str().as_bytes();
    let y = b.as_str().as_bytes();
    let mut i: usize = 0;
    while i < x.len() && i < y.len()
        invariant
            i <= x@.len(),
            i <= y@.len(),
            x@ == encode_utf8(a@),
            y@ == encode_utf8(b@),
            forall|j: int| 0 <= j < i ==> x@[j] == y@[j],
        decreases x.len() - i,
    {
        if x[i] != y[i] {
            proof {
                lemma_bytes_prefix(x@, y@, i as int);
                assert(x@.subrange(i as int, x@.len() as int)[0] == x@[i as int]);
                assert(y@.subrange(i as int, y@.len() as int)[0] == y@[i as int]);
            }
            if x[i] < y[i] {
                return -1;
            } else {
                return 1;
            }
        }
        i += 1;
    }
    proof { lemma_bytes_prefix(x@, y@, i as int); }
    if x.len() == y.len() {
        0
    } else if i == x.len() {
        -1
    } else {
        1
    }
}

fn rank_of_type(t: &Type) -> (r: u8)
    ensures
        r == type_rank(t@),
{
    match t {
        Type::Number => 0,
        Type::String => 1,
        Type::Product(_) => 2,
        Type::Sum(_) => 3,
        Type::Function { .. } => 4,
        Type::Array(_) => 5,
        Type::SetOf(_) => 6,
        Type::Variable(_) => 7,
        Type::ForAll { .. } => 8,
        Type::Existential(_) => 9,
        Type::Infer(_) => 10,
        Type::Effectful { .. } => 11,
        Type::Brand { .. } => 12,
        Type::Label { .. } => 13,
    }
}

fn rank_of_expr(e: &EffectExpr) -> (r: u8)
    ensures
        r == expr_rank(e@),
{
    match e {
        EffectExpr::Effects(_) => 0,
        EffectExpr::Add(_) => 1,
        EffectExpr::Sub { .. } => 2,
        EffectExpr::Apply { .. } => 3,
    }
}

/// Compares two types in the order of [`type_order`].
pub fn compare_types(a: &Type, b: &Type) -> (r: i8)
    ensures
        r == type_order(a@, b@),
    decreases a, 1nat,
{
    let ra = rank_of_type(a);
    let rb = rank_of_type(b);
    if ra < rb {
        return -1;
    }
    if ra > rb {
        return 1;
    }
    match a {
        Type::Product(x) => match b {
            Type::Product(y) => {
                proof {
                    assert(decreases_to!(*a => a->Product_0));
                    lemma_view_product(*x);
                    lemma_view_product(*y);
                }
                compare_types_vecs(x, y)
            },
            _ => 0,
        },
        Type::Sum(x) => match b {
            Type::Sum(y) => {
                proof {
                    assert(decreases_to!(*a => a->Sum_0));
                    lemma_view_product(*x);
                    lemma_view_product(*y);
                }
                compare_types_vecs(x, y)
            },
            _ => 0,
        },
        Type::Function { parameter, body } => match b {
            Type::Function { parameter: p2, body: b2 } => {
                let c = compare_types(parameter, p2);
                if c != 0 {
                    c
                } else {
                    compare_types(body, b2)
                }
            },
            _ => 0,
        },
        Type::Array(x) => match b {
            Type::Array(y) => compare_types(x, y),
            _ => 0,
        },
        Type::SetOf(x) => match b {
            Type::SetOf(y) => compare_types(x, y),
            _ => 0,
        },
        Type::Variable(x) => match b {
            Type::Variable(y) => compare_ids(*x, *y),
            _ => 0,
        },
        Type::ForAll { variable, body } => match b {
            Type::ForAll { variable: v2, body: b2 } => {
                let c = compare_ids(*variable, *v2);
                if c != 0 {
                    c
                } else {
                    compare_types(body, b2)
                }
            },
            _ => 0,
        },
        Type::Existential(x) => match b {
            Type::Existential(y) => compare_ids(*x, *y),
            _ => 0,
        },
        Type::Infer(x) => match b {
            Type::Infer(y) => compare_ids(*x, *y),
            _ => 0,
        },
        Type::Effectful { ty, effects } => match b {
            Type::Effectful { ty: t2, effects: e2 } => {
                let c = compare_types(ty, t2);
                if c != 0 {
                    c
                } else {
                    compare_exprs(effects, e2)
                }
            },
            _ => 0,
        },
        Type::Brand { brand, item } => match b {
            Type::Brand { brand: s2, item: i2 } => {
                let c = compare_strings(brand, s2);
                if c != 0 {
                    c
                } else {
                    compare_types(item, i2)
                }
            },
            _ => 0,
        },
        Type::Label { label, item } => match b {
            Type::Label { label: s2, item: i2 } => {
                let c = compare_strings(label, s2);
                if c != 0 {
                    c
                } else {
                    compare_types(item, i2)
                }
            },
            _ => 0,
        },
        _ => 0,
    }
}

/// Compares two effects in the order of [`effect_order`].
pub fn compare_effects(a: &Effect, b: &Effect) -> (r: i8)
    ensures
        r == effect_order(a@, b@),
    decreases a, 1nat,
{
    let c = compare_types(&a.input, &b.input);
    if c != 0 {
        c
    } else {
        compare_types(&a.output, &b.output)
    }
}

/// Compares two effect expressions in the order of [`expr_order`].
pub fn compare_exprs(a: &EffectExpr, b: &EffectExpr) -> (r: i8)
    ensures
        r == expr_order(a@, b@),
    decreases a, 1nat,
{
    let ra = rank_of_expr(a);
    let rb = rank_of_expr(b);
    if ra < rb {
        return -1;
    }
    if ra > rb {
        return 1;
    }
    match a {
        EffectExpr::Effects(x) => match b {
            EffectExpr::Effects(y) => {
                proof {
                    assert(decreases_to!(*a => a->Effects_0));
                    lemma_view_effects(*x);
                    lemma_view_effects(*y);
                }
                compare_effects_vecs(x, y)
            },
            _ => 0,
        },
        EffectExpr::Add(x) => match b {
            EffectExpr::Add(y) => {
                proof {
                    assert(decreases_to!(*a => a->Add_0));
                    lemma_view_add(*x);
                    lemma_view_add(*y);
                }
                compare_exprs_vecs(x, y)
            },
            _ => 0,
        },
        EffectExpr::Sub { minuend, subtrahend } => match b {
            EffectExpr::Sub { minuend: m2, subtrahend: s2 } => {
                let c = compare_exprs(minuend, m2);
                if c != 0 {
                    c
                } else {
                    compare_exprs(subtrahend, s2)
                }
            },
            _ => 0,
        },
        EffectExpr::Apply { function, arguments } => match b {
            EffectExpr::Apply { function: f2, arguments: a2 } => {
                let c = compare_types(function, f2);
                if c != 0 {
                    c
                } else {
                    proof {
                        assert(decreases_to!(*a => a->arguments));
                        lemma_view_apply(*function, *arguments);
                        lemma_view_apply(*f2, *a2);
                    }
                    compare_types_vecs(arguments, a2)
                }
            },
            _ => 0,
        },
    }
}

impl PartialEq for Type {
    fn eq(&self, other: &Self) -> (r: bool) {
        proof { lemma_type_basic(self@, other@); }
        compare_types(self, other) == 0
    }
}

impl PartialEqSpecImpl for Type {
    open spec fn obeys_eq_spec() -> bool {
        true
    }

    open spec fn eq_spec(&self, other: &Self) -> bool {
        self@ == other@
    }
}

impl Eq for Type {
}

impl PartialEq for Effect {
    fn eq(&self, other: &Self) -> (r: bool) {
        proof { lemma_effect_basic(self@, other@); }
        compare_effects(self, other) == 0
    }
}

impl PartialEqSpecImpl for Effect {
    open spec fn obeys_eq_spec() -> bool {
        true
    }

    open spec fn eq_spec(&self, other: &Self) -> bool {
        self@ == other@
    }
}

impl Eq for Effect {
}

impl PartialEq for EffectExpr {
    fn eq(&self, other: &Self) -> (r: bool) {
        proof { lemma_expr_basic(self@, other@); }
        compare_exprs(self, other) == 0
    }
}

impl PartialEqSpecImpl for EffectExpr {
    open spec fn obeys_eq_spec() -> bool {
        true
    }

    open spec fn eq_spec(&self, other: &Self) -> bool {
        self@ == other@
    }
}

impl Eq for EffectExpr {
}

impl Ordered for Type {
    open spec fn order(a: Self::V, b: Self::V) -> int {
        type_order(a, b)
    }

    proof fn lemma_order_basic(a: Self::V, b: Self::V) {
        lemma_type_basic(a, b);
    }

    proof fn lemma_order_trans(a: Self::V, b: Self::V, c: Self::V) {
        lemma_type_trans(a, b, c);
    }

    fn compare(&self, other: &Self) -> (r: i8) {
        compare_types(self, other)
    }
}

impl Ordered for Effect {
    open spec fn order(a: Self::V, b: Self::V) -> int {
        effect_order(a, b)
    }

    proof fn lemma_order_basic(a: Self::V, b: Self::V) {
        lemma_effect_basic(a, b);
    }

    proof fn lemma_order_trans(a: Self::V, b: Self::V, c: Self::V) {
        lemma_effect_trans(a, b, c);
    }

    fn compare(&self, other: &Self) -> (r: i8) {
        compare_effects(self, other)
    }
}

impl Ordered for EffectExpr {
    open spec fn order(a: Self::V, b: Self::V) -> int {
        expr_order(a, b)
    }

    proof fn lemma_order_basic(a: Self::V, b: Self::V) {
        lemma_expr_basic(a, b);
    }

    proof fn lemma_order_trans(a: Self::V, b: Self::V, c: Self::V) {
        lemma_expr_trans(a, b, c);
    }

    fn compare(&self, other: &Self) -> (r: i8) {
        compare_exprs(self, other)
    }
}
} // verus!
