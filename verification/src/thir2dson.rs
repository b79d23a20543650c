//! Converting a typed expression that denotes data into that data.
use vstd::prelude::*;

use crate::dson::{self, Dson, MapElem, SpecDson, SpecDsonLiteral};
use crate::thir::{Expr, Literal, SpecExpr, SpecLiteral, TypedHir};

verus! {

/// Why a typed expression does not denote data.
#[derive(Debug)]
pub enum HirToJsonError {
    /// The named form of expression is not data.
    NotAllowed(String),
}

/// Mathematical model of [`HirToJsonError`].
pub enum SpecHirToJsonError {
    NotAllowed(Seq<char>),
}

impl View for HirToJsonError {
    type V = SpecHirToJsonError;

    open spec fn view(&self) -> SpecHirToJsonError {
        match self {
            HirToJsonError::NotAllowed(s) => SpecHirToJsonError::NotAllowed(s@),
        }
    }
}

pub open spec fn literal_to_dson(l: SpecLiteral) -> SpecDsonLiteral {
    match l {
        SpecLiteral::Int(i) => SpecDsonLiteral::Integer(i),
        SpecLiteral::Rational(a, b) => SpecDsonLiteral::Rational(a, b),
        SpecLiteral::Float(f) => SpecDsonLiteral::Float(f),
        SpecLiteral::String(s) => SpecDsonLiteral::String(s),
    }
}

/// The datum that `e` denotes: literals, products, vectors, maps and labels
/// convert part by part, the first part that fails giving the error; any
/// other form is not allowed, and the error names it.
pub open spec fn to_dson_spec(e: SpecExpr) -> Result<SpecDson, SpecHirToJsonError>
    decreases e, 0nat,
{
    match e {
        SpecExpr::Literal(l) => Ok(SpecDson::Literal(literal_to_dson(l))),
        SpecExpr::Product(s) => match to_dsons_spec(s) {
            Ok(d) => Ok(SpecDson::Product(d)),
            Err(x) => Err(x),
        },
        SpecExpr::Vector(s) => match to_dsons_spec(s) {
            Ok(d) => Ok(SpecDson::Vector(d)),
            Err(x) => Err(x),
        },
        SpecExpr::MapOf(s) => match to_dson_pairs_spec(s) {
            Ok(d) => Ok(SpecDson::MapOf(d)),
            Err(x) => Err(x),
        },
        SpecExpr::Label { label, item } => match to_dson_spec(*item) {
            Ok(d) => Ok(SpecDson::Labeled { label: Box::new(label), expr: Box::new(d) }),
            Err(x) => Err(x),
        },
        SpecExpr::Do => Err(SpecHirToJsonError::NotAllowed("do"@)),
        SpecExpr::Let => Err(SpecHirToJsonError::NotAllowed("let"@)),
        SpecExpr::Perform => Err(SpecHirToJsonError::NotAllowed("perform"@)),
        SpecExpr::Handle => Err(SpecHirToJsonError::NotAllowed("handle"@)),
        SpecExpr::Apply => Err(SpecHirToJsonError::NotAllowed("apply"@)),
        SpecExpr::Match => Err(SpecHirToJsonError::NotAllowed("match"@)),
        SpecExpr::Function => Err(SpecHirToJsonError::NotAllowed("function"@)),
    }
}

/// [`to_dson_spec`] of each expression of `s`, or the first error.
pub open spec fn to_dsons_spec(s: Seq<SpecExpr>) -> Result<Seq<SpecDson>, SpecHirToJsonError>
    decreases s, s.len(),
{
    if s.len() == 0 {
        Ok(seq![])
    } else {
        match to_dsons_spec(s.drop_last()) {
            Ok(a) => match to_dson_spec(s.last()) {
                Ok(d) => Ok(a.push(d)),
                Err(x) => Err(x),
            },
            Err(x) => Err(x),
        }
    }
}

/// [`to_dson_spec`] of the key and then the value of each entry of `s`, or
/// the first error.
pub open spec fn to_dson_pairs_spec(s: Seq<(SpecExpr, SpecExpr)>) -> Result<Seq<(SpecDson, SpecDson)>, SpecHirToJsonError>
    decreases s, s.len(),
{
    if s.len() == 0 {
        Ok(seq![])
    } else {
        match to_dson_pairs_spec(s.drop_last()) {
            Ok(a) => match to_dson_spec(s.last().0) {
                Ok(k) => match to_dson_spec(s.last().1) {
                    Ok(v) => Ok(a.push((k, v))),
                    Err(x) => Err(x),
                },
                Err(x) => Err(x),
            },
            Err(x) => Err(x),
        }
    }
}

fn not_allowed(name: &str) -> (r: HirToJsonError)
    ensures
        r@ == SpecHirToJsonError::NotAllowed(name@),
{
    HirToJsonError::NotAllowed(name.to_string())
}

/// The datum that the typed expression denotes, as [`to_dson_spec`] says.
pub fn thir_to_dson(thir: &TypedHir) -> (r: Result<Dson, HirToJsonError>)
    ensures
        match r {
            Ok(d) => to_dson_spec(thir@) == Ok::<SpecDson, SpecHirToJsonError>(d@),
            Err(e) => to_dson_spec(thir@) == Err::<SpecDson, SpecHirToJsonError>(e@),
        },
    decreases thir, 1nat,
{
    proof {
        reveal_strlit("do");
        reveal_strlit("let");
        reveal_strlit("perform");
        reveal_strlit("handle");
        reveal_strlit("apply");
        reveal_strlit("match");
        reveal_strlit("function");
    }
    match &thir.expr {
        Expr::Literal(l) => Ok(Dson::Literal(
            match l {
                Literal::Int(i) => dson::Literal::Integer(*i),
                Literal::Rational(a, b) => dson::Literal::Rational(*a, *b),
                Literal::Float(f) => dson::Literal::Float(*f),
                Literal::String(s) => dson::Literal::String(s.clone()),
            },
        )),
        Expr::Product(values) => match thir_to_dsons(thir, values) {
            Ok(d) => {
                assert(thir@->Product_0 =~= crate::sorted::views(values@));
                proof { assert(Dson::Product(d)@->Product_0 =~= crate::sorted::views(d@)); }
                Ok(Dson::Product(d))
            },
            Err(e) => {
                assert(thir@->Product_0 =~= crate::sorted::views(values@));
                Err(e)
            },
        },
        Expr::Vector(values) => match thir_to_dsons(thir, values) {
            Ok(d) => {
                assert(thir@->Vector_0 =~= crate::sorted::views(values@));
                proof { assert(Dson::Vector(d)@->Vector_0 =~= crate::sorted::views(d@)); }
                Ok(Dson::Vector(d))
            },
            Err(e) => {
                assert(thir@->Vector_0 =~= crate::sorted::views(values@));
                Err(e)
            },
        },
        Expr::MapOf(elems) => {
            let ghost s = thir@->MapOf_0;
            let mut r: Vec<MapElem> = Vec::new();
            let mut i: usize = 0;
            proof {
                assert(s.subrange(0, 0) =~= Seq::<(SpecExpr, SpecExpr)>::empty());
                assert(Seq::new(0nat, |j: int| (r@[j].key@, r@[j].value@)) =~= Seq::<(SpecDson, SpecDson)>::empty());
            }
            while i < elems.len()
                invariant
                    i <= elems@.len(),
                    thir.expr == Expr::MapOf(*elems),
                    s == thir@->MapOf_0,
                    s.len() == elems@.len(),
                    r@.len() == i,
                    forall|j: int| 0 <= j < elems@.len() ==> s[j] == (elems@[j].key@, elems@[j].value@),
                    to_dson_pairs_spec(s.subrange(0, i as int)) == Ok::<Seq<(SpecDson, SpecDson)>, SpecHirToJsonError>(
                        Seq::new(i as nat, |j: int| (r@[j].key@, r@[j].value@)),
                    ),
                decreases elems@.len() - i,
            {
                proof {
                    vstd::std_specs::vec::axiom_vec_index_decreases(*elems, i as int);
                    assert(decreases_to!(thir.expr => thir.expr->MapOf_0));
                    assert(s.subrange(0, i + 1).drop_last() =~= s.subrange(0, i as int));
                    assert(s.subrange(0, i + 1).last() == s[i as int]);
                }
                let key = match thir_to_dson(&elems[i].key) {
                    Ok(k) => k,
                    Err(e) => {
                        proof { lemma_pairs_err_prefix(s, i + 1); }
                        return Err(e);
                    },
                };
                let value = match thir_to_dson(&elems[i].value) {
                    Ok(v) => v,
                    Err(e) => {
                        proof { lemma_pairs_err_prefix(s, i + 1); }
                        return Err(e);
                    },
                };
                let ghost before = Seq::new(i as nat, |j: int| (r@[j].key@, r@[j].value@));
                r.push(MapElem { key, value });
                proof {
                    assert(Seq::new((i + 1) as nat, |j: int| (r@[j].key@, r@[j].value@)) =~= before.push(
                        (r@[i as int].key@, r@[i as int].value@),
                    ));
                }
                i += 1;
            }
            proof {
                assert(s.subrange(0, s.len() as int) =~= s);
                assert(Dson::MapOf(r)@->MapOf_0 =~= Seq::new(i as nat, |j: int| (r@[j].key@, r@[j].value@)));
            }
            Ok(Dson::MapOf(r))
        },
        Expr::Label { label, item } => match thir_to_dson(item) {
            Ok(d) => Ok(Dson::Labeled { label: Box::new(label.clone_dson()), expr: Box::new(d) }),
            Err(e) => Err(e),
        },
        Expr::Do => Err(not_allowed("do")),
        Expr::Let => Err(not_allowed("let")),
        Expr::Perform => Err(not_allowed("perform")),
        Expr::Handle => Err(not_allowed("handle")),
        Expr::Apply => Err(not_allowed("apply")),
        Expr::Match => Err(not_allowed("match")),
        Expr::Function => Err(not_allowed("function")),
    }
}

/// An error of a prefix is the error of the whole sequence.
proof fn lemma_dsons_err_prefix(s: Seq<SpecExpr>, i: int)
    requires
        0 <= i <= s.len(),
        to_dsons_spec(s.subrange(0, i)) is Err,
    ensures
        to_dsons_spec(s) == to_dsons_spec(s.subrange(0, i)),
    decreases s.len() - i,
{
    if i < s.len() {
        assert(s.subrange(0, i + 1).drop_last() =~= s.subrange(0, i));
        lemma_dsons_err_prefix(s, i + 1);
    } else {
        assert(s.subrange(0, i) =~= s);
    }
}

proof fn lemma_pairs_err_prefix(s: Seq<(SpecExpr, SpecExpr)>, i: int)
    requires
        0 <= i <= s.len(),
        to_dson_pairs_spec(s.subrange(0, i)) is Err,
    ensures
        to_dson_pairs_spec(s) == to_dson_pairs_spec(s.subrange(0, i)),
    decreases s.len() - i,
{
    if i < s.len() {
        assert(s.subrange(0, i + 1).drop_last() =~= s.subrange(0, i));
        lemma_pairs_err_prefix(s, i + 1);
    } else {
        assert(s.subrange(0, i) =~= s);
    }
}

fn thir_to_dsons(whole: &TypedHir, values: &Vec<TypedHir>) -> (r: Result<Vec<Dson>, HirToJsonError>)
    requires
        whole.expr == Expr::Product(*values) || whole.expr == Expr::Vector(*values),
    ensures
        match r {
            Ok(d) => to_dsons_spec(crate::sorted::views(values@)) == Ok::<Seq<SpecDson>, SpecHirToJsonError>(
                crate::sorted::views(d@),
            ),
            Err(e) => to_dsons_spec(crate::sorted::views(values@)) == Err::<Seq<SpecDson>, SpecHirToJsonError>(e@),
        },
    decreases whole, 0nat,
{
    let ghost s = crate::sorted::views(values@);
    let mut r: Vec<Dson> = Vec::new();
    let mut i: usize = 0;
    proof {
        assert(s.subrange(0, 0) =~= Seq::<SpecExpr>::empty());
        assert(crate::sorted::views(r@) =~= Seq::<SpecDson>::empty());
    }
    while i < values.len()
        invariant
            i <= values@.len(),
            r@.len() == i,
            whole.expr == Expr::Product(*values) || whole.expr == Expr::Vector(*values),
            s == crate::sorted::views(values@),
            to_dsons_spec(s.subrange(0, i as int)) == Ok::<Seq<SpecDson>, SpecHirToJsonError>(crate::sorted::views(r@)),
        decreases values@.len() - i,
    {
        proof {
            vstd::std_specs::vec::axiom_vec_index_decreases(*values, i as int);
            if whole.expr == Expr::Product(*values) {
                assert(decreases_to!(whole.expr => whole.expr->Product_0));
            } else {
                assert(decreases_to!(whole.expr => whole.expr->Vector_0));
            }
            assert(s.subrange(0, i + 1).drop_last() =~= s.subrange(0, i as int));
            assert(s.subrange(0, i + 1).last() == s[i as int]);
        }
        match thir_to_dson(&values[i]) {
            Ok(d) => {
                let ghost before = crate::sorted::views(r@);
                r.push(d);
                proof { assert(crate::sorted::views(r@) =~= before.push(r@[i as int]@)); }
            },
            Err(e) => {
                proof { lemma_dsons_err_prefix(s, i + 1); }
                return Err(e);
            },
        }
        i += 1;
    }
    proof { assert(s.subrange(0, s.len() as int) =~= s); }
    Ok(r)
}

/// `e` is built from literals, products, vectors, maps and labels only.
pub open spec fn is_data(e: SpecExpr) -> bool
    decreases e, 0nat,
{
    match e {
        SpecExpr::Literal(_) => true,
        SpecExpr::Product(s) => all_data(s),
        SpecExpr::Vector(s) => all_data(s),
        SpecExpr::MapOf(s) => all_data_pairs(s),
        SpecExpr::Label { label: _, item } => is_data(*item),
        _ => false,
    }
}

pub open spec fn all_data(s: Seq<SpecExpr>) -> bool
    decreases s, s.len(),
{
    if s.len() == 0 { true } else { all_data(s.drop_last()) && is_data(s.last()) }
}

pub open spec fn all_data_pairs(s: Seq<(SpecExpr, SpecExpr)>) -> bool
    decreases s, s.len(),
{
    if s.len() == 0 { true } else { all_data_pairs(s.drop_last()) && is_data(s.last().0) && is_data(s.last().1) }
}

/// A typed expression converts to a datum exactly when it is built from
/// literals, products, vectors, maps and labels only.
pub proof fn law_converts_iff_data(e: SpecExpr)
    ensures
        to_dson_spec(e) is Ok <==> is_data(e),
    decreases e, 0nat,
{
    match e {
        SpecExpr::Product(s) => lemma_all_data(s),
        SpecExpr::Vector(s) => lemma_all_data(s),
        SpecExpr::MapOf(s) => lemma_all_data_pairs(s),
        SpecExpr::Label { label: _, item } => law_converts_iff_data(*item),
        _ => {},
    }
}

proof fn lemma_all_data(s: Seq<SpecExpr>)
    ensures
        to_dsons_spec(s) is Ok <==> all_data(s),
    decreases s, s.len(),
{
    if s.len() > 0 {
        lemma_all_data(s.drop_last());
        law_converts_iff_data(s.last());
    }
}

proof fn lemma_all_data_pairs(s: Seq<(SpecExpr, SpecExpr)>)
    ensures
        to_dson_pairs_spec(s) is Ok <==> all_data_pairs(s),
    decreases s, s.len(),
{
    if s.len() > 0 {
        lemma_all_data_pairs(s.drop_last());
        law_converts_iff_data(s.last().0);
        law_converts_iff_data(s.last().1);
    }
}

/// Where every part converts, the parts convert to the data in order.
proof fn lemma_dsons_all_ok(s: Seq<SpecExpr>, d: Seq<SpecDson>)
    requires
        d.len() == s.len(),
        forall|i: int| 0 <= i < s.len() ==> to_dson_spec(#[trigger] s[i]) == Ok::<SpecDson, SpecHirToJsonError>(d[i]),
    ensures
        to_dsons_spec(s) == Ok::<Seq<SpecDson>, SpecHirToJsonError>(d),
    decreases s.len(),
{
    if s.len() > 0 {
        let s0 = s.drop_last();
        let d0 = d.drop_last();
        assert forall|i: int| 0 <= i < s0.len() implies to_dson_spec(#[trigger] s0[i]) == Ok::<SpecDson, SpecHirToJsonError>(d0[i]) by {
            assert(s0[i] == s[i]);
        }
        lemma_dsons_all_ok(s0, d0);
        assert(to_dson_spec(s[s.len() - 1]) == Ok::<SpecDson, SpecHirToJsonError>(d[s.len() - 1]));
        assert(d0.push(d.last()) =~= d);
    } else {
        assert(d =~= seq![]);
    }
}

/// Where a part fails and every earlier part converts, the error is that
/// part's.
proof fn lemma_dsons_first_err(s: Seq<SpecExpr>, i: int)
    requires
        0 <= i < s.len(),
        to_dson_spec(s[i]) is Err,
        forall|j: int| 0 <= j < i ==> to_dson_spec(#[trigger] s[j]) is Ok,
    ensures
        to_dsons_spec(s) == Err::<Seq<SpecDson>, SpecHirToJsonError>(to_dson_spec(s[i])->Err_0),
    decreases s.len(),
{
    let s0 = s.drop_last();
    if i == s.len() - 1 {
        let d0 = Seq::new(s0.len(), |j: int| to_dson_spec(s0[j])->Ok_0);
        assert forall|j: int| 0 <= j < s0.len() implies to_dson_spec(#[trigger] s0[j]) == Ok::<SpecDson, SpecHirToJsonError>(d0[j]) by {
            assert(s0[j] == s[j]);
        }
        lemma_dsons_all_ok(s0, d0);
    } else {
        assert forall|j: int| 0 <= j < i implies to_dson_spec(#[trigger] s0[j]) is Ok by {
            assert(s0[j] == s[j]);
        }
        assert(s0[i] == s[i]);
        lemma_dsons_first_err(s0, i);
    }
}

/// A product (and likewise a vector) converts part by part: where every
/// part converts, it becomes the product of the parts' data, in the same
/// order; otherwise the conversion fails with the error of the first part
/// that fails.
pub proof fn law_product_converts_part_by_part(s: Seq<SpecExpr>, d: Seq<SpecDson>, i: int)
    ensures
        d.len() == s.len() && (forall|k: int| 0 <= k < s.len() ==> to_dson_spec(#[trigger] s[k]) == Ok::<SpecDson, SpecHirToJsonError>(d[k]))
            ==> to_dson_spec(SpecExpr::Product(s)) == Ok::<SpecDson, SpecHirToJsonError>(SpecDson::Product(d))
            && to_dson_spec(SpecExpr::Vector(s)) == Ok::<SpecDson, SpecHirToJsonError>(SpecDson::Vector(d)),
        0 <= i < s.len() && to_dson_spec(s[i]) is Err && (forall|j: int| 0 <= j < i ==> to_dson_spec(#[trigger] s[j]) is Ok)
            ==> to_dson_spec(SpecExpr::Product(s)) == Err::<SpecDson, SpecHirToJsonError>(to_dson_spec(s[i])->Err_0)
            && to_dson_spec(SpecExpr::Vector(s)) == Err::<SpecDson, SpecHirToJsonError>(to_dson_spec(s[i])->Err_0),
{
    if d.len() == s.len() && (forall|k: int| 0 <= k < s.len() ==> to_dson_spec(#[trigger] s[k]) == Ok::<SpecDson, SpecHirToJsonError>(d[k])) {
        lemma_dsons_all_ok(s, d);
    }
    if 0 <= i < s.len() && to_dson_spec(s[i]) is Err && (forall|j: int| 0 <= j < i ==> to_dson_spec(#[trigger] s[j]) is Ok) {
        lemma_dsons_first_err(s, i);
    }
}

} // verus!
