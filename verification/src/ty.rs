//! Types of the type inferencer: the executable representation and its
//! mathematical model.
use vstd::prelude::*;

verus! {

/// Identifier of a type variable, an existential, an inference hole or an expression.
pub type Id = usize;

/// A type as the inferencer manipulates it.
#[derive(Debug)]
pub enum Type {
    Number,
    String,
    Product(Vec<Type>),
    Sum(Vec<Type>),
    Function { parameter: Box<Type>, body: Box<Type> },
    Array(Box<Type>),
    SetOf(Box<Type>),
    Variable(Id),
    ForAll { variable: Id, body: Box<Type> },
    Existential(Id),
    Infer(Id),
    Effectful { ty: Box<Type>, effects: EffectExpr },
    Brand { brand: String, item: Box<Type> },
    Label { label: String, item: Box<Type> },
}

/// An effect: performing `input` yields `output`.
#[derive(Debug)]
pub struct Effect {
    pub input: Type,
    pub output: Type,
}

/// An expression over sets of effects.
#[derive(Debug)]
pub enum EffectExpr {
    Effects(Vec<Effect>),
    Add(Vec<EffectExpr>),
    Sub { minuend: Box<EffectExpr>, subtrahend: Box<EffectExpr> },
    Apply { function: Box<Type>, arguments: Vec<Type> },
}

/// A handler of an effect.
#[derive(Debug)]
pub struct Handler {
    pub input: Type,
    pub output: Type,
}

/// The types inferred for expressions, by expression id.
#[derive(Debug)]
pub struct ExprTypes {
    pub types: Vec<(Id, Type)>,
}

/// Mathematical model of [`Type`].
pub enum SpecType {
    Number,
    String,
    Product(Seq<SpecType>),
    Sum(Seq<SpecType>),
    Function { parameter: Box<SpecType>, body: Box<SpecType> },
    Array(Box<SpecType>),
    SetOf(Box<SpecType>),
    Variable(Id),
    ForAll { variable: Id, body: Box<SpecType> },
    Existential(Id),
    Infer(Id),
    Effectful { ty: Box<SpecType>, effects: SpecEffectExpr },
    Brand { brand: Seq<char>, item: Box<SpecType> },
    Label { label: Seq<char>, item: Box<SpecType> },
}

/// Mathematical model of [`Effect`].
pub struct SpecEffect {
    pub input: SpecType,
    pub output: SpecType,
}

/// Mathematical model of [`EffectExpr`].
pub enum SpecEffectExpr {
    Effects(Seq<SpecEffect>),
    Add(Seq<SpecEffectExpr>),
    Sub { minuend: Box<SpecEffectExpr>, subtrahend: Box<SpecEffectExpr> },
    Apply { function: Box<SpecType>, arguments: Seq<SpecType> },
}

pub open spec fn type_view(t: Type) -> SpecType
    decreases t,
{
    match t {
        Type::Number => SpecType::Number,
        Type::String => SpecType::String,
        Type::Product(v) => SpecType::Product(
            Seq::new(v@.len(), |i: int| if 0 <= i < v@.len() { type_view(v@[i]) } else { SpecType::Number }),
        ),
        Type::Sum(v) => SpecType::Sum(
            Seq::new(v@.len(), |i: int| if 0 <= i < v@.len() { type_view(v@[i]) } else { SpecType::Number }),
        ),
        Type::Function { parameter, body } => SpecType::Function {
            parameter: Box::new(type_view(*parameter)),
            body: Box::new(type_view(*body)),
        },
        Type::Array(t) => SpecType::Array(Box::new(type_view(*t))),
        Type::SetOf(t) => SpecType::SetOf(Box::new(type_view(*t))),
        Type::Variable(id) => SpecType::Variable(id),
        Type::ForAll { variable, body } => SpecType::ForAll {
            variable,
            body: Box::new(type_view(*body)),
        },
        Type::Existential(id) => SpecType::Existential(id),
        Type::Infer(id) => SpecType::Infer(id),
        Type::Effectful { ty, effects } => SpecType::Effectful {
            ty: Box::new(type_view(*ty)),
            effects: expr_view(effects),
        },
        Type::Brand { brand, item } => SpecType::Brand { brand: brand@, item: Box::new(type_view(*item)) },
        Type::Label { label, item } => SpecType::Label { label: label@, item: Box::new(type_view(*item)) },
    }
}

pub open spec fn effect_view(e: Effect) -> SpecEffect
    decreases e,
{
    SpecEffect { input: type_view(e.input), output: type_view(e.output) }
}

pub open spec fn expr_view(e: EffectExpr) -> SpecEffectExpr
    decreases e,
{
    match e {
        EffectExpr::Effects(v) => SpecEffectExpr::Effects(
            Seq::new(v@.len(), |i: int| if 0 <= i < v@.len() { effect_view(v@[i]) } else { SpecEffect { input: SpecType::Number, output: SpecType::Number } }),
        ),
        EffectExpr::Add(v) => SpecEffectExpr::Add(
            Seq::new(v@.len(), |i: int| if 0 <= i < v@.len() { expr_view(v@[i]) } else { SpecEffectExpr::Add(seq![]) }),
        ),
        EffectExpr::Sub { minuend, subtrahend } => SpecEffectExpr::Sub {
            minuend: Box::new(expr_view(*minuend)),
            subtrahend: Box::new(expr_view(*subtrahend)),
        },
        EffectExpr::Apply { function, arguments } => SpecEffectExpr::Apply {
            function: Box::new(type_view(*function)),
            arguments: Seq::new(arguments@.len(), |i: int| if 0 <= i < arguments@.len() { type_view(arguments@[i]) } else { SpecType::Number }),
        },
    }
}

impl View for Type {
    type V = SpecType;

    open spec fn view(&self) -> SpecType {
        type_view(*self)
    }
}

impl View for Effect {
    type V = SpecEffect;

    open spec fn view(&self) -> SpecEffect {
        effect_view(*self)
    }
}

impl View for EffectExpr {
    type V = SpecEffectExpr;

    open spec fn view(&self) -> SpecEffectExpr {
        expr_view(*self)
    }
}

/// The models of a sequence of types.
pub open spec fn types_view(v: Seq<Type>) -> Seq<SpecType> {
    Seq::new(v.len(), |i: int| v[i]@)
}

/// The models of a sequence of effects.
pub open spec fn effects_view(v: Seq<Effect>) -> Seq<SpecEffect> {
    Seq::new(v.len(), |i: int| v[i]@)
}

/// The models of a sequence of effect expressions.
pub open spec fn exprs_view(v: Seq<EffectExpr>) -> Seq<SpecEffectExpr> {
    Seq::new(v.len(), |i: int| v[i]@)
}

pub proof fn lemma_view_product(v: Vec<Type>)
    ensures
        Type::Product(v)@ == SpecType::Product(types_view(v@)),
        Type::Sum(v)@ == SpecType::Sum(types_view(v@)),
{
    let p = Type::Product(v)@;
    let s = Type::Sum(v)@;
    assert(p->Product_0 =~= types_view(v@));
    assert(s->Sum_0 =~= types_view(v@));
}

pub proof fn lemma_view_effects(v: Vec<Effect>)
    ensures
        EffectExpr::Effects(v)@ == SpecEffectExpr::Effects(effects_view(v@)),
{
    let p = EffectExpr::Effects(v)@;
    assert(p->Effects_0 =~= effects_view(v@));
}

pub proof fn lemma_view_add(v: Vec<EffectExpr>)
    ensures
        EffectExpr::Add(v)@ == SpecEffectExpr::Add(exprs_view(v@)),
{
    let p = EffectExpr::Add(v)@;
    assert(p->Add_0 =~= exprs_view(v@));
}

pub proof fn lemma_view_apply(f: Box<Type>, v: Vec<Type>)
    ensures
        (EffectExpr::Apply { function: f, arguments: v })@ == (SpecEffectExpr::Apply { function: Box::new((*f)@), arguments: types_view(v@) }),
{
    let p = (EffectExpr::Apply { function: f, arguments: v })@;
    assert(p->arguments =~= types_view(v@));
}

/// Copies a sequence of types.
pub fn clone_types(v: &Vec<Type>) -> (r: Vec<Type>)
    ensures
        types_view(r@) == types_view(v@),
    decreases v, 0nat,
{
    let mut r: Vec<Type> = Vec::new();
    let mut i: usize = 0;
    while i < v.len()
        invariant
            i <= v.len(),
            r@.len() == i,
            forall|j: int| 0 <= j < i ==> r@[j]@ == v@[j]@,
        decreases v.len() - i,
    {
        proof { vstd::std_specs::vec::axiom_vec_index_decreases(*v, i as int); }
        r.push(v[i].clone_type());
        i += 1;
    }
    assert(types_view(r@) =~= types_view(v@));
    r
}

/// Copies a sequence of effects.
pub fn clone_effects(v: &Vec<Effect>) -> (r: Vec<Effect>)
    ensures
        effects_view(r@) == effects_view(v@),
    decreases v, 0nat,
{
    let mut r: Vec<Effect> = Vec::new();
    let mut i: usize = 0;
    while i < v.len()
        invariant
            i <= v.len(),
            r@.len() == i,
            forall|j: int| 0 <= j < i ==> r@[j]@ == v@[j]@,
        decreases v.len() - i,
    {
        proof { vstd::std_specs::vec::axiom_vec_index_decreases(*v, i as int); }
        r.push(v[i].clone_effect());
        i += 1;
    }
    assert(effects_view(r@) =~= effects_view(v@));
    r
}

/// Copies a sequence of effect expressions.
pub fn clone_exprs(v: &Vec<EffectExpr>) -> (r: Vec<EffectExpr>)
    ensures
        exprs_view(r@) == exprs_view(v@),
    decreases v, 0nat,
{
    let mut r: Vec<EffectExpr> = Vec::new();
    let mut i: usize = 0;
    while i < v.len()
        invariant
            i <= v.len(),
            r@.len() == i,
            forall|j: int| 0 <= j < i ==> r@[j]@ == v@[j]@,
        decreases v.len() - i,
    {
        proof { vstd::std_specs::vec::axiom_vec_index_decreases(*v, i as int); }
        r.push(v[i].clone_expr());
        i += 1;
    }
    assert(exprs_view(r@) =~= exprs_view(v@));
    r
}

impl Type {
    /// A copy of the type with the same model.
    pub fn clone_type(&self) -> (r: Type)
        ensures
            r@ == self@,
        decreases self, 1nat,
    {
        match self {
            Type::Number => Type::Number,
            Type::String => Type::String,
            Type::Product(v) => {
                proof { assert(decreases_to!(*self => self->Product_0)); }
                let r = clone_types(v);
                proof { lemma_view_product(*v); lemma_view_product(r); }
                Type::Product(r)
            },
            Type::Sum(v) => {
                proof { assert(decreases_to!(*self => self->Sum_0)); }
                let r = clone_types(v);
                proof { lemma_view_product(*v); lemma_view_product(r); }
                Type::Sum(r)
            },
            Type::Function { parameter, body } => Type::Function {
                parameter: Box::new(parameter.clone_type()),
                body: Box::new(body.clone_type()),
            },
            Type::Array(t) => Type::Array(Box::new(t.clone_type())),
            Type::SetOf(t) => Type::SetOf(Box::new(t.clone_type())),
            Type::Variable(id) => Type::Variable(*id),
            Type::ForAll { variable, body } => Type::ForAll { variable: *variable, body: Box::new(body.clone_type()) },
            Type::Existential(id) => Type::Existential(*id),
            Type::Infer(id) => Type::Infer(*id),
            Type::Effectful { ty, effects } => Type::Effectful {
                ty: Box::new(ty.clone_type()),
                effects: effects.clone_expr(),
            },
            Type::Brand { brand, item } => Type::Brand { brand: brand.clone(), item: Box::new(item.clone_type()) },
            Type::Label { label, item } => Type::Label { label: label.clone(), item: Box::new(item.clone_type()) },
        }
    }
}

impl Clone for Type {
    fn clone(&self) -> (r: Type)
        ensures
            r@ == self@,
    {
        self.clone_type()
    }
}

impl Clone for Effect {
    fn clone(&self) -> (r: Effect)
        ensures
            r@ == self@,
    {
        self.clone_effect()
    }
}

impl Clone for EffectExpr {
    fn clone(&self) -> (r: EffectExpr)
        ensures
            r@ == self@,
    {
        self.clone_expr()
    }
}

impl Effect {
    /// A copy of the effect with the same model.
    pub fn clone_effect(&self) -> (r: Effect)
        ensures
            r@ == self@,
        decreases self, 1nat,
    {
        Effect { input: self.input.clone_type(), output: self.output.clone_type() }
    }
}

impl EffectExpr {
    /// A copy of the effect expression with the same model.
    pub fn clone_expr(&self) -> (r: EffectExpr)
        ensures
            r@ == self@,
        decreases self, 1nat,
    {
        match self {
            EffectExpr::Effects(v) => {
                proof { assert(decreases_to!(*self => self->Effects_0)); }
                let r = clone_effects(v);
                proof { lemma_view_effects(*v); lemma_view_effects(r); }
                EffectExpr::Effects(r)
            },
            EffectExpr::Add(v) => {
                proof { assert(decreases_to!(*self => self->Add_0)); }
                let r = clone_exprs(v);
                proof { lemma_view_add(*v); lemma_view_add(r); }
                EffectExpr::Add(r)
            },
            EffectExpr::Sub { minuend, subtrahend } => EffectExpr::Sub {
                minuend: Box::new(minuend.clone_expr()),
                subtrahend: Box::new(subtrahend.clone_expr()),
            },
            EffectExpr::Apply { function, arguments } => {
                proof { assert(decreases_to!(*self => self->arguments)); }
                let f = Box::new(function.clone_type());
                let a = clone_types(arguments);
                proof { lemma_view_apply(*function, *arguments); lemma_view_apply(f, a); }
                EffectExpr::Apply { function: f, arguments: a }
            },
        }
    }
}

} // verus!
