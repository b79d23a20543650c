//! The types that inference hands to the later stages: functions take a list
//! of parameters, and no existential or hole is left.
use vstd::prelude::*;

use crate::sorted::views;
use crate::ty::Id;

verus! {

/// A type as the later stages see it.
#[derive(Debug)]
pub enum Type {
    Number,
    String,
    Product(Vec<Type>),
    Sum(Vec<Type>),
    Function { parameters: Vec<Type>, body: Box<Type> },
    Vector(Box<Type>),
    SetOf(Box<Type>),
    Variable(Id),
    ForAll { variable: Id, body: Box<Type> },
    Effectful { ty: Box<Type>, effects: EffectExpr },
    Brand { brand: String, item: Box<Type> },
    Label { label: String, item: Box<Type> },
}

/// An effect: performing `input` yields `output`.
#[derive(Debug)]
pub struct Effect {
    pub input: Type,
    pub output: Type,
}

/// An expression over sets of effects.
#[derive(Debug)]
pub enum EffectExpr {
    Effects(Vec<Effect>),
    Add(Vec<EffectExpr>),
    Sub { minuend: Box<EffectExpr>, subtrahend: Box<EffectExpr> },
    Apply { function: Box<Type>, arguments: Vec<Type> },
}

/// Mathematical model of [`Type`].
pub enum SpecType {
    Number,
    String,
    Product(Seq<SpecType>),
    Sum(Seq<SpecType>),
    Function { parameters: Seq<SpecType>, body: Box<SpecType> },
    Vector(Box<SpecType>),
    SetOf(Box<SpecType>),
    Variable(Id),
    ForAll { variable: Id, body: Box<SpecType> },
    Effectful { ty: Box<SpecType>, effects: SpecEffectExpr },
    Brand { brand: Seq<char>, item: Box<SpecType> },
    Label { label: Seq<char>, item: Box<SpecType> },
}

/// Mathematical model of [`Effect`].
pub struct SpecEffect {
    pub input: SpecType,
    pub output: SpecType,
}

/// Mathematical model of [`EffectExpr`].
pub enum SpecEffectExpr {
    Effects(Seq<SpecEffect>),
    Add(Seq<SpecEffectExpr>),
    Sub { minuend: Box<SpecEffectExpr>, subtrahend: Box<SpecEffectExpr> },
    Apply { function: Box<SpecType>, arguments: Seq<SpecType> },
}

pub open spec fn type_view(t: Type) -> SpecType
    decreases t,
{
    match t {
        Type::Number => SpecType::Number,
        Type::String => SpecType::String,
        Type::Product(v) => SpecType::Product(
            Seq::new(v@.len(), |i: int| if 0 <= i < v@.len() { type_view(v@[i]) } else { SpecType::Number }),
        ),
        Type::Sum(v) => SpecType::Sum(
            Seq::new(v@.len(), |i: int| if 0 <= i < v@.len() { type_view(v@[i]) } else { SpecType::Number }),
        ),
        Type::Function { parameters, body } => SpecType::Function {
            parameters: Seq::new(
                parameters@.len(),
                |i: int| if 0 <= i < parameters@.len() { type_view(parameters@[i]) } else { SpecType::Number },
            ),
            body: Box::new(type_view(*body)),
        },
        Type::Vector(t) => SpecType::Vector(Box::new(type_view(*t))),
        Type::SetOf(t) => SpecType::SetOf(Box::new(type_view(*t))),
        Type::Variable(id) => SpecType::Variable(id),
        Type::ForAll { variable, body } => SpecType::ForAll { variable, body: Box::new(type_view(*body)) },
        Type::Effectful { ty, effects } => SpecType::Effectful {
            ty: Box::new(type_view(*ty)),
            effects: expr_view(effects),
        },
        Type::Brand { brand, item } => SpecType::Brand { brand: brand@, item: Box::new(type_view(*item)) },
        Type::Label { label, item } => SpecType::Label { label: label@, item: Box::new(type_view(*item)) },
    }
}

pub open spec fn effect_view(e: Effect) -> SpecEffect
    decreases e,
{
    SpecEffect { input: type_view(e.input), output: type_view(e.output) }
}

pub open spec fn expr_view(e: EffectExpr) -> SpecEffectExpr
    decreases e,
{
    match e {
        EffectExpr::Effects(v) => SpecEffectExpr::Effects(
            Seq::new(
                v@.len(),
                |i: int| if 0 <= i < v@.len() {
                    effect_view(v@[i])
                } else {
                    SpecEffect { input: SpecType::Number, output: SpecType::Number }
                },
            ),
        ),
        EffectExpr::Add(v) => SpecEffectExpr::Add(
            Seq::new(v@.len(), |i: int| if 0 <= i < v@.len() { expr_view(v@[i]) } else { SpecEffectExpr::Add(seq![]) }),
        ),
        EffectExpr::Sub { minuend, subtrahend } => SpecEffectExpr::Sub {
            minuend: Box::new(expr_view(*minuend)),
            subtrahend: Box::new(expr_view(*subtrahend)),
        },
        EffectExpr::Apply { function, arguments } => SpecEffectExpr::Apply {
            function: Box::new(type_view(*function)),
            arguments: Seq::new(
                arguments@.len(),
                |i: int| if 0 <= i < arguments@.len() { type_view(arguments@[i]) } else { SpecType::Number },
            ),
        },
    }
}

impl View for Type {
    type V = SpecType;

    open spec fn view(&self) -> SpecType {
        type_view(*self)
    }
}

impl View for Effect {
    type V = SpecEffect;

    open spec fn view(&self) -> SpecEffect {
        effect_view(*self)
    }
}

impl View for EffectExpr {
    type V = SpecEffectExpr;

    open spec fn view(&self) -> SpecEffectExpr {
        expr_view(*self)
    }
}

pub proof fn lemma_view_list(v: Vec<Type>)
    ensures
        Type::Product(v)@ == SpecType::Product(views(v@)),
        Type::Sum(v)@ == SpecType::Sum(views(v@)),
{
    assert(Type::Product(v)@->Product_0 =~= views(v@));
    assert(Type::Sum(v)@->Sum_0 =~= views(v@));
}

pub proof fn lemma_view_function(v: Vec<Type>, b: Box<Type>)
    ensures
        (Type::Function { parameters: v, body: b })@ == (SpecType::Function { parameters: views(v@), body: Box::new((*b)@) }),
        (EffectExpr::Apply { function: b, arguments: v })@ == (SpecEffectExpr::Apply { function: Box::new((*b)@), arguments: views(v@) }),
{
    assert((Type::Function { parameters: v, body: b })@->parameters =~= views(v@));
    assert((EffectExpr::Apply { function: b, arguments: v })@->arguments =~= views(v@));
}

pub proof fn lemma_view_effect_list(e: Vec<Effect>)
    ensures
        EffectExpr::Effects(e)@ == SpecEffectExpr::Effects(views(e@)),
{
    assert(EffectExpr::Effects(e)@->Effects_0 =~= views(e@));
}

pub proof fn lemma_view_expr_list(x: Vec<EffectExpr>)
    ensures
        EffectExpr::Add(x)@ == SpecEffectExpr::Add(views(x@)),
{
    assert(EffectExpr::Add(x)@->Add_0 =~= views(x@));
}

fn same_types(a: &Vec<Type>, b: &Vec<Type>) -> (r: bool)
    ensures
        r == (views(a@) == views(b@)),
    decreases a, 0nat,
{
    if a.len() != b.len() {
        assert(views(a@).len() != views(b@).len());
        return false;
    }
    let mut i: usize = 0;
    while i < a.len()
        invariant
            i <= a@.len(),
            a@.len() == b@.len(),
            forall|j: int| 0 <= j < i ==> a@[j]@ == b@[j]@,
        decreases a@.len() - i,
    {
        proof { vstd::std_specs::vec::axiom_vec_index_decreases(*a, i as int); }
        if !a[i].same(&b[i]) {
            assert(views(a@)[i as int] != views(b@)[i as int]);
            return false;
        }
        i += 1;
    }
    assert(views(a@) =~= views(b@));
    true
}

fn same_effects(a: &Vec<Effect>, b: &Vec<Effect>) -> (r: bool)
    ensures
        r == (views(a@) == views(b@)),
    decreases a, 0nat,
{
    if a.len() != b.len() {
        assert(views(a@).len() != views(b@).len());
        return false;
    }
    let mut i: usize = 0;
    while i < a.len()
        invariant
            i <= a@.len(),
            a@.len() == b@.len(),
            forall|j: int| 0 <= j < i ==> a@[j]@ == b@[j]@,
        decreases a@.len() - i,
    {
        proof { vstd::std_specs::vec::axiom_vec_index_decreases(*a, i as int); }
        if !(a[i].input.same(&b[i].input) && a[i].output.same(&b[i].output)) {
            assert(views(a@)[i as int] != views(b@)[i as int]);
            return false;
        }
        i += 1;
    }
    assert(views(a@) =~= views(b@));
    true
}

fn same_exprs(a: &Vec<EffectExpr>, b: &Vec<EffectExpr>) -> (r: bool)
    ensures
        r == (views(a@) == views(b@)),
    decreases a, 0nat,
{
    if a.len() != b.len() {
        assert(views(a@).len() != views(b@).len());
        return false;
    }
    let mut i: usize = 0;
    while i < a.len()
        invariant
            i <= a@.len(),
            a@.len() == b@.len(),
            forall|j: int| 0 <= j < i ==> a@[j]@ == b@[j]@,
        decreases a@.len() - i,
    {
        proof { vstd::std_specs::vec::axiom_vec_index_decreases(*a, i as int); }
        if !a[i].same(&b[i]) {
            assert(views(a@)[i as int] != views(b@)[i as int]);
            return false;
        }
        i += 1;
    }
    assert(views(a@) =~= views(b@));
    true
}

impl Type {
    /// Whether the two types have the same model.
    pub fn same(&self, other: &Type) -> (r: bool)
        ensures
            r == (self@ == other@),
        decreases self, 1nat,
    {
        match (self, other) {
            (Type::Number, Type::Number) => true,
            (Type::String, Type::String) => true,
            (Type::Product(a), Type::Product(b)) => {
                proof {
                    assert(decreases_to!(*self => self->Product_0));
                    lemma_view_list(*a);
                    lemma_view_list(*b);
                }
                same_types(a, b)
            },
            (Type::Sum(a), Type::Sum(b)) => {
                proof {
                    assert(decreases_to!(*self => self->Sum_0));
                    lemma_view_list(*a);
                    lemma_view_list(*b);
                }
                same_types(a, b)
            },
            (Type::Function { parameters: a, body: x }, Type::Function { parameters: b, body: y }) => {
                proof {
                    assert(decreases_to!(*self => self->parameters));
                    lemma_view_function(*a, *x);
                    lemma_view_function(*b, *y);
                }
                same_types(a, b) && x.same(y)
            },
            (Type::Vector(x), Type::Vector(y)) => x.same(y),
            (Type::SetOf(x), Type::SetOf(y)) => x.same(y),
            (Type::Variable(x), Type::Variable(y)) => *x == *y,
            (Type::ForAll { variable: v, body: x }, Type::ForAll { variable: w, body: y }) => *v == *w && x.same(y),
            (Type::Effectful { ty: x, effects: e }, Type::Effectful { ty: y, effects: f }) => x.same(y) && e.same(f),
            (Type::Brand { brand: a, item: x }, Type::Brand { brand: b, item: y }) => *a == *b && x.same(y),
            (Type::Label { label: a, item: x }, Type::Label { label: b, item: y }) => *a == *b && x.same(y),
            _ => false,
        }
    }

    /// A copy with the same model.
    pub fn clone_type(&self) -> (r: Type)
        ensures
            r@ == self@,
        decreases self, 1nat,
    {
        match self {
            Type::Number => Type::Number,
            Type::String => Type::String,
            Type::Product(v) => {
                proof {
                    assert(decreases_to!(*self => self->Product_0));
                    lemma_view_list(*v);
                }
                let r = clone_types(v);
                proof { lemma_view_list(r); }
                Type::Product(r)
            },
            Type::Sum(v) => {
                proof {
                    assert(decreases_to!(*self => self->Sum_0));
                    lemma_view_list(*v);
                }
                let r = clone_types(v);
                proof { lemma_view_list(r); }
                Type::Sum(r)
            },
            Type::Function { parameters, body } => {
                proof {
                    assert(decreases_to!(*self => self->parameters));
                    lemma_view_function(*parameters, *body);
                }
                let p = clone_types(parameters);
                let b = Box::new(body.clone_type());
                proof { lemma_view_function(p, b); }
                Type::Function { parameters: p, body: b }
            },
            Type::Vector(x) => Type::Vector(Box::new(x.clone_type())),
            Type::SetOf(x) => Type::SetOf(Box::new(x.clone_type())),
            Type::Variable(x) => Type::Variable(*x),
            Type::ForAll { variable, body } => Type::ForAll { variable: *variable, body: Box::new(body.clone_type()) },
            Type::Effectful { ty, effects } => Type::Effectful {
                ty: Box::new(ty.clone_type()),
                effects: effects.clone_expr(),
            },
            Type::Brand { brand, item } => Type::Brand { brand: brand.clone(), item: Box::new(item.clone_type()) },
            Type::Label { label, item } => Type::Label { label: label.clone(), item: Box::new(item.clone_type()) },
        }
    }
}

fn clone_types(v: &Vec<Type>) -> (r: Vec<Type>)
    ensures
        views(r@) == views(v@),
    decreases v, 0nat,
{
    let mut r: Vec<Type> = Vec::new();
    let mut i: usize = 0;
    while i < v.len()
        invariant
            i <= v@.len(),
            r@.len() == i,
            forall|j: int| 0 <= j < i ==> r@[j]@ == v@[j]@,
        decreases v@.len() - i,
    {
        proof { vstd::std_specs::vec::axiom_vec_index_decreases(*v, i as int); }
        r.push(v[i].clone_type());
        i += 1;
    }
    assert(views(r@) =~= views(v@));
    r
}

impl EffectExpr {
    /// Whether the two expressions have the same model.
    pub fn same(&self, other: &EffectExpr) -> (r: bool)
        ensures
            r == (self@ == other@),
        decreases self, 1nat,
    {
        match (self, other) {
            (EffectExpr::Effects(a), EffectExpr::Effects(b)) => {
                proof {
                    assert(decreases_to!(*self => self->Effects_0));
                    lemma_view_effect_list(*a);
                    lemma_view_effect_list(*b);
                }
                same_effects(a, b)
            },
            (EffectExpr::Add(a), EffectExpr::Add(b)) => {
                proof {
                    assert(decreases_to!(*self => self->Add_0));
                    lemma_view_expr_list(*a);
                    lemma_view_expr_list(*b);
                }
                same_exprs(a, b)
            },
            (EffectExpr::Sub { minuend: a, subtrahend: x }, EffectExpr::Sub { minuend: b, subtrahend: y }) => a.same(b) && x.same(y),
            (EffectExpr::Apply { function: f, arguments: a }, EffectExpr::Apply { function: g, arguments: b }) => {
                proof {
                    assert(decreases_to!(*self => self->arguments));
                    lemma_view_function(*a, *f);
                    lemma_view_function(*b, *g);
                }
                f.same(g) && same_types(a, b)
            },
            _ => false,
        }
    }

    /// A copy with the same model.
    pub fn clone_expr(&self) -> (r: EffectExpr)
        ensures
            r@ == self@,
        decreases self, 1nat,
    {
        match self {
            EffectExpr::Effects(v) => {
                proof {
                    assert(decreases_to!(*self => self->Effects_0));
                    lemma_view_effect_list(*v);
                }
                let mut r: Vec<Effect> = Vec::new();
                let mut i: usize = 0;
                while i < v.len()
                    invariant
                        i <= v@.len(),
                        *self == EffectExpr::Effects(*v),
                        r@.len() == i,
                        forall|j: int| 0 <= j < i ==> r@[j]@ == v@[j]@,
                    decreases v@.len() - i,
                {
                    proof {
                        vstd::std_specs::vec::axiom_vec_index_decreases(*v, i as int);
                        assert(decreases_to!(*self => self->Effects_0));
                    }
                    r.push(Effect { input: v[i].input.clone_type(), output: v[i].output.clone_type() });
                    i += 1;
                }
                proof {
                    assert(views(r@) =~= views(v@));
                    lemma_view_effect_list(r);
                }
                EffectExpr::Effects(r)
            },
            EffectExpr::Add(v) => {
                proof {
                    assert(decreases_to!(*self => self->Add_0));
                    lemma_view_expr_list(*v);
                }
                let mut r: Vec<EffectExpr> = Vec::new();
                let mut i: usize = 0;
                while i < v.len()
                    invariant
                        i <= v@.len(),
                        *self == EffectExpr::Add(*v),
                        r@.len() == i,
                        forall|j: int| 0 <= j < i ==> r@[j]@ == v@[j]@,
                    decreases v@.len() - i,
                {
                    proof {
                        vstd::std_specs::vec::axiom_vec_index_decreases(*v, i as int);
                        assert(decreases_to!(*self => self->Add_0));
                    }
                    r.push(v[i].clone_expr());
                    i += 1;
                }
                proof {
                    assert(views(r@) =~= views(v@));
                    lemma_view_expr_list(r);
                }
                EffectExpr::Add(r)
            },
            EffectExpr::Sub { minuend, subtrahend } => EffectExpr::Sub {
                minuend: Box::new(minuend.clone_expr()),
                subtrahend: Box::new(subtrahend.clone_expr()),
            },
            EffectExpr::Apply { function, arguments } => {
                proof {
                    assert(decreases_to!(*self => self->arguments));
                    lemma_view_function(*arguments, *function);
                }
                let f = Box::new(function.clone_type());
                let a = clone_types(arguments);
                proof { lemma_view_function(a, f); }
                EffectExpr::Apply { function: f, arguments: a }
            },
        }
    }
}

} // verus!
