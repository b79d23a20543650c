//! From the types of inference to concrete types.
use vstd::prelude::*;

use crate::conc_types::{
    lemma_conc_view_effect_list, lemma_conc_view_expr_list, lemma_conc_view_function, lemma_conc_view_list, ConcEffect, ConcEffectExpr, ConcType, SpecConcEffect, SpecConcEffectExpr, SpecConcType,
};
use crate::sorted::views;
use crate::types::{lemma_view_effect_list, lemma_view_expr_list, lemma_view_function, lemma_view_list, Effect, EffectExpr, SpecEffect, SpecEffectExpr, SpecType, Type};

verus! {

/// The concrete type of `t`: products become tuples, sums enums, vectors
/// arrays, and brands labels; the rest keeps its shape.
pub open spec fn conc_of(t: SpecType) -> SpecConcType
    decreases t,
{
    match t {
        SpecType::Number => SpecConcType::Number,
        SpecType::String => SpecConcType::String,
        SpecType::Product(s) => SpecConcType::Tuple(
            Seq::new(s.len(), |i: int| if 0 <= i < s.len() { conc_of(s[i]) } else { SpecConcType::Number }),
        ),
        SpecType::Sum(s) => SpecConcType::Enum(
            Seq::new(s.len(), |i: int| if 0 <= i < s.len() { conc_of(s[i]) } else { SpecConcType::Number }),
        ),
        SpecType::Function { parameters, body } => SpecConcType::Function {
            parameters: Seq::new(
                parameters.len(),
                |i: int| if 0 <= i < parameters.len() { conc_of(parameters[i]) } else { SpecConcType::Number },
            ),
            body: Box::new(conc_of(*body)),
        },
        SpecType::Vector(x) => SpecConcType::Array(Box::new(conc_of(*x))),
        SpecType::SetOf(x) => SpecConcType::SetOf(Box::new(conc_of(*x))),
        SpecType::Variable(id) => SpecConcType::Variable(id),
        SpecType::ForAll { variable, body } => SpecConcType::ForAll { variable, body: Box::new(conc_of(*body)) },
        SpecType::Effectful { ty, effects } => SpecConcType::Effectful {
            ty: Box::new(conc_of(*ty)),
            effects: conc_of_expr(effects),
        },
        SpecType::Brand { brand, item } => SpecConcType::Label { label: brand, item: Box::new(conc_of(*item)) },
        SpecType::Label { label, item } => SpecConcType::Label { label, item: Box::new(conc_of(*item)) },
    }
}

pub open spec fn conc_of_effect(e: SpecEffect) -> SpecConcEffect
    decreases e,
{
    SpecConcEffect { input: conc_of(e.input), output: conc_of(e.output) }
}

/// The concrete effect expression of `e`, by [`conc_of`] on its types.
pub open spec fn conc_of_expr(e: SpecEffectExpr) -> SpecConcEffectExpr
    decreases e,
{
    match e {
        SpecEffectExpr::Effects(s) => SpecConcEffectExpr::Effects(
            Seq::new(s.len(), |i: int| if 0 <= i < s.len() { conc_of_effect(s[i]) } else { SpecConcEffect { input: SpecConcType::Number, output: SpecConcType::Number } }),
        ),
        SpecEffectExpr::Add(s) => SpecConcEffectExpr::Add(
            Seq::new(s.len(), |i: int| if 0 <= i < s.len() { conc_of_expr(s[i]) } else { SpecConcEffectExpr::Add(seq![]) }),
        ),
        SpecEffectExpr::Sub { minuend, subtrahend } => SpecConcEffectExpr::Sub {
            minuend: Box::new(conc_of_expr(*minuend)),
            subtrahend: Box::new(conc_of_expr(*subtrahend)),
        },
        SpecEffectExpr::Apply { function, arguments } => SpecConcEffectExpr::Apply {
            function: Box::new(conc_of(*function)),
            arguments: Seq::new(
                arguments.len(),
                |i: int| if 0 <= i < arguments.len() { conc_of(arguments[i]) } else { SpecConcType::Number },
            ),
        },
    }
}

pub open spec fn conc_of_types(s: Seq<SpecType>) -> Seq<SpecConcType> {
    Seq::new(s.len(), |i: int| conc_of(s[i]))
}

proof fn lemma_conc_of_unfold(t: SpecType, e: SpecEffectExpr)
    ensures
        t is Product ==> conc_of(t) == SpecConcType::Tuple(conc_of_types(t->Product_0)),
        t is Sum ==> conc_of(t) == SpecConcType::Enum(conc_of_types(t->Sum_0)),
        t is Function ==> conc_of(t) == (SpecConcType::Function {
            parameters: conc_of_types(t->parameters),
            body: Box::new(conc_of(*t->Function_body)),
        }),
        e is Effects ==> conc_of_expr(e) == SpecConcEffectExpr::Effects(
            Seq::new(e->Effects_0.len(), |i: int| conc_of_effect(e->Effects_0[i])),
        ),
        e is Add ==> conc_of_expr(e) == SpecConcEffectExpr::Add(
            Seq::new(e->Add_0.len(), |i: int| conc_of_expr(e->Add_0[i])),
        ),
        e is Apply ==> conc_of_expr(e) == (SpecConcEffectExpr::Apply {
            function: Box::new(conc_of(*e->function)),
            arguments: conc_of_types(e->arguments),
        }),
{
    if t is Product {
        assert(conc_of(t)->Tuple_0 =~= conc_of_types(t->Product_0));
    }
    if t is Sum {
        assert(conc_of(t)->Enum_0 =~= conc_of_types(t->Sum_0));
    }
    if t is Function {
        assert(conc_of(t)->parameters =~= conc_of_types(t->parameters));
    }
    if e is Effects {
        assert(conc_of_expr(e)->Effects_0 =~= Seq::new(e->Effects_0.len(), |i: int| conc_of_effect(e->Effects_0[i])));
    }
    if e is Add {
        assert(conc_of_expr(e)->Add_0 =~= Seq::new(e->Add_0.len(), |i: int| conc_of_expr(e->Add_0[i])));
    }
    if e is Apply {
        assert(conc_of_expr(e)->arguments =~= conc_of_types(e->arguments));
    }
}

/// A brand and a label with the same name concretize alike.
pub proof fn law_brand_concretizes_as_label(name: Seq<char>, item: SpecType)
    ensures
        conc_of(SpecType::Brand { brand: name, item: Box::new(item) })
            == conc_of(SpecType::Label { label: name, item: Box::new(item) }),
{
}

/// Turns types into concrete types.
#[derive(Debug)]
pub struct TypeConcretizer {}

impl TypeConcretizer {
    fn gen_conc_types(&mut self, v: &Vec<Type>) -> (r: Vec<ConcType>)
        ensures
            views(r@) == conc_of_types(views(v@)),
        decreases v, 0nat,
    {
        let mut r: Vec<ConcType> = Vec::new();
        let mut i: usize = 0;
        while i < v.len()
            invariant
                i <= v@.len(),
                r@.len() == i,
                forall|j: int| 0 <= j < i ==> r@[j]@ == conc_of(v@[j]@),
            decreases v@.len() - i,
        {
            proof { vstd::std_specs::vec::axiom_vec_index_decreases(*v, i as int); }
            r.push(self.gen_conc_type(&v[i]));
            i += 1;
        }
        assert(views(r@) =~= conc_of_types(views(v@)));
        r
    }

    /// The concrete type of `ty`, as [`conc_of`] says.
    pub fn gen_conc_type(&mut self, ty: &Type) -> (r: ConcType)
        ensures
            r@ == conc_of(ty@),
        decreases ty, 1nat,
    {
        proof { lemma_conc_of_unfold(ty@, SpecEffectExpr::Add(seq![])); }
        match ty {
            Type::Number => ConcType::Number,
            Type::String => ConcType::String,
            Type::Product(types) => {
                proof {
                    assert(decreases_to!(*ty => ty->Product_0));
                    lemma_view_list(*types);
                }
                let r = self.gen_conc_types(types);
                proof { lemma_conc_view_list(r); }
                ConcType::Tuple(r)
            },
            Type::Sum(types) => {
                proof {
                    assert(decreases_to!(*ty => ty->Sum_0));
                    lemma_view_list(*types);
                }
                let r = self.gen_conc_types(types);
                proof { lemma_conc_view_list(r); }
                ConcType::Enum(r)
            },
            Type::Function { parameters, body } => {
                proof {
                    assert(decreases_to!(*ty => ty->parameters));
                    lemma_view_function(*parameters, *body);
                }
                let p = self.gen_conc_types(parameters);
                let b = Box::new(self.gen_conc_type(body));
                proof { lemma_conc_view_function(p, b); }
                ConcType::Function { parameters: p, body: b }
            },
            Type::Vector(x) => ConcType::Array(Box::new(self.gen_conc_type(x))),
            Type::SetOf(x) => ConcType::SetOf(Box::new(self.gen_conc_type(x))),
            Type::Variable(id) => ConcType::Variable(*id),
            Type::ForAll { variable, body } => ConcType::ForAll {
                variable: *variable,
                body: Box::new(self.gen_conc_type(body)),
            },
            Type::Effectful { ty: inner, effects } => ConcType::Effectful {
                ty: Box::new(self.gen_conc_type(inner)),
                effects: self.gen_conc_effect_expr(effects),
            },
            Type::Brand { brand, item } => ConcType::Label {
                label: brand.clone(),
                item: Box::new(self.gen_conc_type(item)),
            },
            Type::Label { label, item } => ConcType::Label {
                label: label.clone(),
                item: Box::new(self.gen_conc_type(item)),
            },
        }
    }

    /// The concrete effect of `effect`.
    pub fn gen_conc_effect(&mut self, effect: &Effect) -> (r: ConcEffect)
        ensures
            r@ == conc_of_effect(effect@),
        decreases effect, 1nat,
    {
        ConcEffect { input: self.gen_conc_type(&effect.input), output: self.gen_conc_type(&effect.output) }
    }

    /// The concrete effect expression of `expr`, as [`conc_of_expr`] says.
    pub fn gen_conc_effect_expr(&mut self, expr: &EffectExpr) -> (r: ConcEffectExpr)
        ensures
            r@ == conc_of_expr(expr@),
        decreases expr, 1nat,
    {
        proof { lemma_conc_of_unfold(SpecType::Number, expr@); }
        match expr {
            EffectExpr::Effects(effects) => {
                proof {
                    assert(decreases_to!(*expr => expr->Effects_0));
                    lemma_view_effect_list(*effects);
                }
                let mut r: Vec<ConcEffect> = Vec::new();
                let mut i: usize = 0;
                while i < effects.len()
                    invariant
                        i <= effects@.len(),
                        *expr == EffectExpr::Effects(*effects),
                        r@.len() == i,
                        forall|j: int| 0 <= j < i ==> r@[j]@ == conc_of_effect(effects@[j]@),
                    decreases effects@.len() - i,
                {
                    proof {
                        vstd::std_specs::vec::axiom_vec_index_decreases(*effects, i as int);
                        assert(decreases_to!(*expr => expr->Effects_0));
                    }
                    r.push(self.gen_conc_effect(&effects[i]));
                    i += 1;
                }
                proof {
                    lemma_conc_view_effect_list(r);
                    assert(views(r@) =~= Seq::new(views(effects@).len(), |k: int| conc_of_effect(views(effects@)[k])));
                }
                ConcEffectExpr::Effects(r)
            },
            EffectExpr::Add(exprs) => {
                proof {
                    assert(decreases_to!(*expr => expr->Add_0));
                    lemma_view_expr_list(*exprs);
                }
                let mut r: Vec<ConcEffectExpr> = Vec::new();
                let mut i: usize = 0;
                while i < exprs.len()
                    invariant
                        i <= exprs@.len(),
                        *expr == EffectExpr::Add(*exprs),
                        r@.len() == i,
                        forall|j: int| 0 <= j < i ==> r@[j]@ == conc_of_expr(exprs@[j]@),
                    decreases exprs@.len() - i,
                {
                    proof {
                        vstd::std_specs::vec::axiom_vec_index_decreases(*exprs, i as int);
                        assert(decreases_to!(*expr => expr->Add_0));
                    }
                    r.push(self.gen_conc_effect_expr(&exprs[i]));
                    i += 1;
                }
                proof {
                    lemma_conc_view_expr_list(r);
                    assert(views(r@) =~= Seq::new(views(exprs@).len(), |k: int| conc_of_expr(views(exprs@)[k])));
                }
                ConcEffectExpr::Add(r)
            },
            EffectExpr::Sub { minuend, subtrahend } => ConcEffectExpr::Sub {
                minuend: Box::new(self.gen_conc_effect_expr(minuend)),
                subtrahend: Box::new(self.gen_conc_effect_expr(subtrahend)),
            },
            EffectExpr::Apply { function, arguments } => {
                proof {
                    assert(decreases_to!(*expr => expr->arguments));
                    lemma_view_function(*arguments, *function);
                }
                let f = Box::new(self.gen_conc_type(function));
                let a = self.gen_conc_types(arguments);
                proof { lemma_conc_view_function(a, f); }
                ConcEffectExpr::Apply { function: f, arguments: a }
            },
        }
    }
}

} // verus!
