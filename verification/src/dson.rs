//! Data values: literals, products, vectors, maps and labelled values.
use vstd::prelude::*;

verus! {

/// A literal datum; a floating-point number is held by its bits.
#[derive(Debug)]
pub enum Literal {
    Integer(i64),
    Rational(i64, i64),
    Float(u64),
    String(String),
}

/// An entry of a map.
#[derive(Debug)]
pub struct MapElem {
    pub key: Dson,
    pub value: Dson,
}

/// A datum.
#[derive(Debug)]
pub enum Dson {
    Literal(Literal),
    Product(Vec<Dson>),
    Vector(Vec<Dson>),
    MapOf(Vec<MapElem>),
    Labeled { label: Box<Dson>, expr: Box<Dson> },
}

/// Mathematical model of [`Literal`].
pub enum SpecDsonLiteral {
    Integer(i64),
    Rational(i64, i64),
    Float(u64),
    String(Seq<char>),
}

/// Mathematical model of [`Dson`].
pub enum SpecDson {
    Literal(SpecDsonLiteral),
    Product(Seq<SpecDson>),
    Vector(Seq<SpecDson>),
    MapOf(Seq<(SpecDson, SpecDson)>),
    Labeled { label: Box<SpecDson>, expr: Box<SpecDson> },
}

pub open spec fn dson_literal_view(l: Literal) -> SpecDsonLiteral {
    match l {
        Literal::Integer(i) => SpecDsonLiteral::Integer(i),
        Literal::Rational(a, b) => SpecDsonLiteral::Rational(a, b),
        Literal::Float(f) => SpecDsonLiteral::Float(f),
        Literal::String(s) => SpecDsonLiteral::String(s@),
    }
}

pub open spec fn dson_view(d: Dson) -> SpecDson
    decreases d,
{
    match d {
        Dson::Literal(l) => SpecDson::Literal(dson_literal_view(l)),
        Dson::Product(v) => SpecDson::Product(
            Seq::new(v@.len(), |i: int| if 0 <= i < v@.len() { dson_view(v@[i]) } else { SpecDson::Product(seq![]) }),
        ),
        Dson::Vector(v) => SpecDson::Vector(
            Seq::new(v@.len(), |i: int| if 0 <= i < v@.len() { dson_view(v@[i]) } else { SpecDson::Product(seq![]) }),
        ),
        Dson::MapOf(v) => SpecDson::MapOf(
            Seq::new(
                v@.len(),
                |i: int| if 0 <= i < v@.len() {
                    (dson_view(v@[i].key), dson_view(v@[i].value))
                } else {
                    (SpecDson::Product(seq![]), SpecDson::Product(seq![]))
                },
            ),
        ),
        Dson::Labeled { label, expr } => SpecDson::Labeled {
            label: Box::new(dson_view(*label)),
            expr: Box::new(dson_view(*expr)),
        },
    }
}

impl View for Dson {
    type V = SpecDson;

    open spec fn view(&self) -> SpecDson {
        dson_view(*self)
    }
}

impl Dson {
    /// A copy with the same model.
    pub fn clone_dson(&self) -> (r: Dson)
        ensures
            r@ == self@,
        decreases self, 1nat,
    {
        match self {
            Dson::Literal(l) => Dson::Literal(
                match l {
                    Literal::Integer(i) => Literal::Integer(*i),
                    Literal::Rational(a, b) => Literal::Rational(*a, *b),
                    Literal::Float(f) => Literal::Float(*f),
                    Literal::String(s) => Literal::String(s.clone()),
                },
            ),
            Dson::Product(v) => {
                let r = clone_dsons(self, v);
                proof { assert(Dson::Product(r)@->Product_0 =~= Dson::Product(*v)@->Product_0); }
                Dson::Product(r)
            },
            Dson::Vector(v) => {
                let r = clone_dsons(self, v);
                proof { assert(Dson::Vector(r)@->Vector_0 =~= Dson::Vector(*v)@->Vector_0); }
                Dson::Vector(r)
            },
            Dson::MapOf(v) => {
                let mut r: Vec<MapElem> = Vec::new();
                let mut i: usize = 0;
                while i < v.len()
                    invariant
                        i <= v@.len(),
                        *self == Dson::MapOf(*v),
                        r@.len() == i,
                        forall|j: int| 0 <= j < i ==> r@[j].key@ == v@[j].key@ && r@[j].value@ == v@[j].value@,
                    decreases v@.len() - i,
                {
                    proof {
                        vstd::std_specs::vec::axiom_vec_index_decreases(*v, i as int);
                        assert(decreases_to!(*self => self->MapOf_0));
                    }
                    r.push(MapElem { key: v[i].key.clone_dson(), value: v[i].value.clone_dson() });
                    i += 1;
                }
                proof { assert(Dson::MapOf(r)@->MapOf_0 =~= Dson::MapOf(*v)@->MapOf_0); }
                Dson::MapOf(r)
            },
            Dson::Labeled { label, expr } => Dson::Labeled {
                label: Box::new(label.clone_dson()),
                expr: Box::new(expr.clone_dson()),
            },
        }
    }
}

impl Dson {
    /// Whether the two data have the same model.
    pub fn same(&self, other: &Dson) -> (r: bool)
        ensures
            r == (self@ == other@),
        decreases self, 1nat,
    {
        match (self, other) {
            (Dson::Literal(a), Dson::Literal(b)) => match (a, b) {
                (Literal::Integer(x), Literal::Integer(y)) => *x == *y,
                (Literal::Rational(x, y), Literal::Rational(z, w)) => *x == *z && *y == *w,
                (Literal::Float(x), Literal::Float(y)) => *x == *y,
                (Literal::String(x), Literal::String(y)) => *x == *y,
                _ => false,
            },
            (Dson::Product(a), Dson::Product(b)) => {
                let r = same_dsons(self, a, b);
                proof {
                    if r {
                        assert(self@->Product_0 =~= other@->Product_0);
                    } else if a@.len() == b@.len() {
                        let j = choose|j: int| 0 <= j < a@.len() && a@[j]@ != b@[j]@;
                        assert(self@->Product_0[j] != other@->Product_0[j]);
                    } else {
                        assert(self@->Product_0.len() != other@->Product_0.len());
                    }
                }
                r
            },
            (Dson::Vector(a), Dson::Vector(b)) => {
                let r = same_dsons(self, a, b);
                proof {
                    if r {
                        assert(self@->Vector_0 =~= other@->Vector_0);
                    } else if a@.len() == b@.len() {
                        let j = choose|j: int| 0 <= j < a@.len() && a@[j]@ != b@[j]@;
                        assert(self@->Vector_0[j] != other@->Vector_0[j]);
                    } else {
                        assert(self@->Vector_0.len() != other@->Vector_0.len());
                    }
                }
                r
            },
            (Dson::MapOf(a), Dson::MapOf(b)) => {
                if a.len() != b.len() {
                    assert(self@->MapOf_0.len() != other@->MapOf_0.len());
                    return false;
                }
                let mut i: usize = 0;
                while i < a.len()
                    invariant
                        i <= a@.len(),
                        a@.len() == b@.len(),
                        *self == Dson::MapOf(*a),
                        *other == Dson::MapOf(*b),
                        forall|j: int| 0 <= j < i ==> a@[j].key@ == b@[j].key@ && a@[j].value@ == b@[j].value@,
                    decreases a@.len() - i,
                {
                    proof {
                        vstd::std_specs::vec::axiom_vec_index_decreases(*a, i as int);
                        assert(decreases_to!(*self => self->MapOf_0));
                    }
                    if !a[i].key.same(&b[i].key) || !a[i].value.same(&b[i].value) {
                        assert(self@->MapOf_0[i as int] != other@->MapOf_0[i as int]);
                        return false;
                    }
                    i += 1;
                }
                assert(self@->MapOf_0 =~= other@->MapOf_0);
                true
            },
            (Dson::Labeled { label: a, expr: x }, Dson::Labeled { label: b, expr: y }) => a.same(b) && x.same(y),
            _ => false,
        }
    }
}

fn same_dsons(whole: &Dson, a: &Vec<Dson>, b: &Vec<Dson>) -> (r: bool)
    requires
        *whole == Dson::Product(*a) || *whole == Dson::Vector(*a),
    ensures
        r == (a@.len() == b@.len() && forall|j: int| 0 <= j < a@.len() ==> a@[j]@ == b@[j]@),
    decreases whole, 0nat,
{
    if a.len() != b.len() {
        return false;
    }
    let mut i: usize = 0;
    while i < a.len()
        invariant
            i <= a@.len(),
            a@.len() == b@.len(),
            *whole == Dson::Product(*a) || *whole == Dson::Vector(*a),
            forall|j: int| 0 <= j < i ==> a@[j]@ == b@[j]@,
        decreases a@.len() - i,
    {
        proof {
            vstd::std_specs::vec::axiom_vec_index_decreases(*a, i as int);
            if *whole == Dson::Product(*a) {
                assert(decreases_to!(*whole => whole->Product_0));
            } else {
                assert(decreases_to!(*whole => whole->Vector_0));
            }
        }
        if !a[i].same(&b[i]) {
            return false;
        }
        i += 1;
    }
    true
}

fn clone_dsons(whole: &Dson, v: &Vec<Dson>) -> (r: Vec<Dson>)
    requires
        *whole == Dson::Product(*v) || *whole == Dson::Vector(*v),
    ensures
        r@.len() == v@.len(),
        forall|j: int| 0 <= j < v@.len() ==> r@[j]@ == v@[j]@,
    decreases whole, 0nat,
{
    let mut r: Vec<Dson> = Vec::new();
    let mut i: usize = 0;
    while i < v.len()
        invariant
            i <= v@.len(),
            *whole == Dson::Product(*v) || *whole == Dson::Vector(*v),
            r@.len() == i,
            forall|j: int| 0 <= j < i ==> r@[j]@ == v@[j]@,
        decreases v@.len() - i,
    {
        proof {
            vstd::std_specs::vec::axiom_vec_index_decreases(*v, i as int);
            if *whole == Dson::Product(*v) {
                assert(decreases_to!(*whole => whole->Product_0));
            } else {
                assert(decreases_to!(*whole => whole->Vector_0));
            }
        }
        r.push(v[i].clone_dson());
        i += 1;
    }
    r
}

} // verus!
