//! Concrete types: the types of the intermediate representation, where sums
//! are enums and products tuples, and brands are labels.
use vstd::prelude::*;

use crate::sorted::views;
use crate::ty::Id;

verus! {

/// A concrete type.
#[derive(Debug)]
pub enum ConcType {
    Number,
    String,
    Tuple(Vec<ConcType>),
    Enum(Vec<ConcType>),
    Function { parameters: Vec<ConcType>, body: Box<ConcType> },
    Array(Box<ConcType>),
    SetOf(Box<ConcType>),
    Variable(Id),
    ForAll { variable: Id, body: Box<ConcType> },
    Effectful { ty: Box<ConcType>, effects: ConcEffectExpr },
    Label { label: String, item: Box<ConcType> },
}

/// A concrete effect.
#[derive(Debug)]
pub struct ConcEffect {
    pub input: ConcType,
    pub output: ConcType,
}

/// A concrete effect expression.
#[derive(Debug)]
pub enum ConcEffectExpr {
    Effects(Vec<ConcEffect>),
    Add(Vec<ConcEffectExpr>),
    Sub { minuend: Box<ConcEffectExpr>, subtrahend: Box<ConcEffectExpr> },
    Apply { function: Box<ConcType>, arguments: Vec<ConcType> },
}

/// Mathematical model of [`ConcType`].
pub enum SpecConcType {
    Number,
    String,
    Tuple(Seq<SpecConcType>),
    Enum(Seq<SpecConcType>),
    Function { parameters: Seq<SpecConcType>, body: Box<SpecConcType> },
    Array(Box<SpecConcType>),
    SetOf(Box<SpecConcType>),
    Variable(Id),
    ForAll { variable: Id, body: Box<SpecConcType> },
    Effectful { ty: Box<SpecConcType>, effects: SpecConcEffectExpr },
    Label { label: Seq<char>, item: Box<SpecConcType> },
}

/// Mathematical model of [`ConcEffect`].
pub struct SpecConcEffect {
    pub input: SpecConcType,
    pub output: SpecConcType,
}

/// Mathematical model of [`ConcEffectExpr`].
pub enum SpecConcEffectExpr {
    Effects(Seq<SpecConcEffect>),
    Add(Seq<SpecConcEffectExpr>),
    Sub { minuend: Box<SpecConcEffectExpr>, subtrahend: Box<SpecConcEffectExpr> },
    Apply { function: Box<SpecConcType>, arguments: Seq<SpecConcType> },
}

pub open spec fn conc_type_view(t: ConcType) -> SpecConcType
    decreases t,
{
    match t {
        ConcType::Number => SpecConcType::Number,
        ConcType::String => SpecConcType::String,
        ConcType::Tuple(v) => SpecConcType::Tuple(
            Seq::new(v@.len(), |i: int| if 0 <= i < v@.len() { conc_type_view(v@[i]) } else { SpecConcType::Number }),
        ),
        ConcType::Enum(v) => SpecConcType::Enum(
            Seq::new(v@.len(), |i: int| if 0 <= i < v@.len() { conc_type_view(v@[i]) } else { SpecConcType::Number }),
        ),
        ConcType::Function { parameters, body } => SpecConcType::Function {
            parameters: Seq::new(
                parameters@.len(),
                |i: int| if 0 <= i < parameters@.len() { conc_type_view(parameters@[i]) } else { SpecConcType::Number },
            ),
            body: Box::new(conc_type_view(*body)),
        },
        ConcType::Array(t) => SpecConcType::Array(Box::new(conc_type_view(*t))),
        ConcType::SetOf(t) => SpecConcType::SetOf(Box::new(conc_type_view(*t))),
        ConcType::Variable(id) => SpecConcType::Variable(id),
        ConcType::ForAll { variable, body } => SpecConcType::ForAll { variable, body: Box::new(conc_type_view(*body)) },
        ConcType::Effectful { ty, effects } => SpecConcType::Effectful {
            ty: Box::new(conc_type_view(*ty)),
            effects: conc_expr_view(effects),
        },
        ConcType::Label { label, item } => SpecConcType::Label { label: label@, item: Box::new(conc_type_view(*item)) },
    }
}

pub open spec fn conc_effect_view(e: ConcEffect) -> SpecConcEffect
    decreases e,
{
    SpecConcEffect { input: conc_type_view(e.input), output: conc_type_view(e.output) }
}

pub open spec fn conc_expr_view(e: ConcEffectExpr) -> SpecConcEffectExpr
    decreases e,
{
    match e {
        ConcEffectExpr::Effects(v) => SpecConcEffectExpr::Effects(
            Seq::new(
                v@.len(),
                |i: int| if 0 <= i < v@.len() {
                    conc_effect_view(v@[i])
                } else {
                    SpecConcEffect { input: SpecConcType::Number, output: SpecConcType::Number }
                },
            ),
        ),
        ConcEffectExpr::Add(v) => SpecConcEffectExpr::Add(
            Seq::new(v@.len(), |i: int| if 0 <= i < v@.len() { conc_expr_view(v@[i]) } else { SpecConcEffectExpr::Add(seq![]) }),
        ),
        ConcEffectExpr::Sub { minuend, subtrahend } => SpecConcEffectExpr::Sub {
            minuend: Box::new(conc_expr_view(*minuend)),
            subtrahend: Box::new(conc_expr_view(*subtrahend)),
        },
        ConcEffectExpr::Apply { function, arguments } => SpecConcEffectExpr::Apply {
            function: Box::new(conc_type_view(*function)),
            arguments: Seq::new(
                arguments@.len(),
                |i: int| if 0 <= i < arguments@.len() { conc_type_view(arguments@[i]) } else { SpecConcType::Number },
            ),
        },
    }
}

impl View for ConcType {
    type V = SpecConcType;

    open spec fn view(&self) -> SpecConcType {
        conc_type_view(*self)
    }
}

impl View for ConcEffect {
    type V = SpecConcEffect;

    open spec fn view(&self) -> SpecConcEffect {
        conc_effect_view(*self)
    }
}

impl View for ConcEffectExpr {
    type V = SpecConcEffectExpr;

    open spec fn view(&self) -> SpecConcEffectExpr {
        conc_expr_view(*self)
    }
}

pub proof fn lemma_conc_view_list(v: Vec<ConcType>)
    ensures
        ConcType::Tuple(v)@ == SpecConcType::Tuple(views(v@)),
        ConcType::Enum(v)@ == SpecConcType::Enum(views(v@)),
{
    assert(ConcType::Tuple(v)@->Tuple_0 =~= views(v@));
    assert(ConcType::Enum(v)@->Enum_0 =~= views(v@));
}

pub proof fn lemma_conc_view_function(v: Vec<ConcType>, b: Box<ConcType>)
    ensures
        (ConcType::Function { parameters: v, body: b })@ == (SpecConcType::Function {
            parameters: views(v@),
            body: Box::new((*b)@),
        }),
        (ConcEffectExpr::Apply { function: b, arguments: v })@ == (SpecConcEffectExpr::Apply {
            function: Box::new((*b)@),
            arguments: views(v@),
        }),
{
    assert((ConcType::Function { parameters: v, body: b })@->parameters =~= views(v@));
    assert((ConcEffectExpr::Apply { function: b, arguments: v })@->arguments =~= views(v@));
}

pub proof fn lemma_conc_view_effect_list(e: Vec<ConcEffect>)
    ensures
        ConcEffectExpr::Effects(e)@ == SpecConcEffectExpr::Effects(views(e@)),
{
    assert(ConcEffectExpr::Effects(e)@->Effects_0 =~= views(e@));
}

pub proof fn lemma_conc_view_expr_list(x: Vec<ConcEffectExpr>)
    ensures
        ConcEffectExpr::Add(x)@ == SpecConcEffectExpr::Add(views(x@)),
{
    assert(ConcEffectExpr::Add(x)@->Add_0 =~= views(x@));
}

} // verus!
