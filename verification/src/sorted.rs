//! Sorting with removal of duplicates, for values with a total order on
//! their models.
use vstd::prelude::*;

verus! {

/// Values whose models are totally ordered by `order`.
pub trait Ordered: View + Sized {
    spec fn order(a: Self::V, b: Self::V) -> int;

    proof fn lemma_order_basic(a: Self::V, b: Self::V)
        ensures
            -1 <= Self::order(a, b) <= 1,
            Self::order(a, b) == -Self::order(b, a),
            Self::order(a, b) == 0 <==> a == b,
    ;

    proof fn lemma_order_trans(a: Self::V, b: Self::V, c: Self::V)
        requires
            Self::order(a, b) < 0,
            Self::order(b, c) < 0,
        ensures
            Self::order(a, c) < 0,
    ;

    fn compare(&self, other: &Self) -> (r: i8)
        ensures
            r == Self::order(self@, other@),
    ;
}

/// The models of a sequence of values.
pub open spec fn views<T: View>(s: Seq<T>) -> Seq<T::V> {
    Seq::new(s.len(), |i: int| s[i]@)
}

/// Every element is smaller than every later one.
pub open spec fn strictly_sorted<T: Ordered>(s: Seq<T::V>) -> bool {
    forall|i: int, j: int| 0 <= i < j < s.len() ==> T::order(s[i], s[j]) < 0
}

/// The two sequences hold the same elements.
pub open spec fn same_elements<A>(a: Seq<A>, b: Seq<A>) -> bool {
    forall|x: A| a.contains(x) <==> b.contains(x)
}

/// Two strictly sorted sequences with the same elements are equal: the
/// result of sorting and removing duplicates is determined by the elements.
pub proof fn lemma_sorted_unique<T: Ordered>(a: Seq<T::V>, b: Seq<T::V>)
    requires
        strictly_sorted::<T>(a),
        strictly_sorted::<T>(b),
        same_elements(a, b),
    ensures
        a == b,
    decreases a.len(),
{
    if a.len() == 0 {
        if b.len() > 0 {
            assert(b.contains(b[0]));
        }
        assert(a =~= b);
    } else {
        assert(a.contains(a[0]));
        assert(b.len() > 0);
        assert(b.contains(b[0]));
        let i = choose|i: int| 0 <= i < b.len() && b[i] == a[0];
        let j = choose|j: int| 0 <= j < a.len() && a[j] == b[0];
        if i > 0 {
            T::lemma_order_basic(b[0], a[0]);
            if j > 0 {
                T::lemma_order_basic(a[0], a[j]);
            } else {
                T::lemma_order_basic(a[0], b[0]);
            }
        }
        assert(b[0] == a[0]) by {
            T::lemma_order_basic(a[0], b[0]);
            if i > 0 && j > 0 {
                T::lemma_order_basic(a[0], b[0]);
            }
        }
        let a1 = a.subrange(1, a.len() as int);
        let b1 = b.subrange(1, b.len() as int);
        assert forall|x: T::V| a1.contains(x) <==> b1.contains(x) by {
            if a1.contains(x) {
                let k = choose|k: int| 0 <= k < a1.len() && a1[k] == x;
                assert(a[k + 1] == x);
                T::lemma_order_basic(a[0], x);
                assert(b.contains(x));
                let m = choose|m: int| 0 <= m < b.len() && b[m] == x;
                assert(m != 0);
                assert(b1[m - 1] == x);
            }
            if b1.contains(x) {
                let k = choose|k: int| 0 <= k < b1.len() && b1[k] == x;
                assert(b[k + 1] == x);
                T::lemma_order_basic(b[0], x);
                assert(a.contains(x));
                let m = choose|m: int| 0 <= m < a.len() && a[m] == x;
                assert(m != 0);
                assert(a1[m - 1] == x);
            }
        }
        lemma_sorted_unique::<T>(a1, b1);
        assert(a =~= b) by {
            assert forall|k: int| 0 <= k < a.len() implies a[k] == b[k] by {
                if k > 0 {
                    assert(a[k] == a1[k - 1]);
                    assert(b[k] == b1[k - 1]);
                }
            }
        }
    }
}

/// `r` with `x` inserted before the first element not smaller than it,
/// unless an equal element is there.
pub open spec fn insert_unique<T: Ordered>(r: Seq<T::V>, x: T::V) -> Seq<T::V>
    decreases r.len(),
{
    if r.len() == 0 {
        seq![x]
    } else if T::order(x, r[0]) < 0 {
        seq![x] + r
    } else if T::order(x, r[0]) == 0 {
        r
    } else {
        seq![r[0]] + insert_unique::<T>(r.subrange(1, r.len() as int), x)
    }
}

/// The elements of `s` in increasing order, each once: what sorting and
/// then removing duplicates gives.
pub open spec fn canonical<T: Ordered>(s: Seq<T::V>) -> Seq<T::V>
    decreases s.len(),
{
    if s.len() == 0 {
        seq![]
    } else {
        insert_unique::<T>(canonical::<T>(s.drop_last()), s.last())
    }
}

pub proof fn lemma_insert_unique<T: Ordered>(r: Seq<T::V>, x: T::V)
    requires
        strictly_sorted::<T>(r),
    ensures
        strictly_sorted::<T>(insert_unique::<T>(r, x)),
        forall|y: T::V| #[trigger] insert_unique::<T>(r, x).contains(y) <==> (r.contains(y) || y == x),
        r.len() > 0 && insert_unique::<T>(r, x).len() > 0 ==> (insert_unique::<T>(r, x)[0] == r[0] || insert_unique::<T>(r, x)[0] == x),
    decreases r.len(),
{
    let q = insert_unique::<T>(r, x);
    if r.len() == 0 {
        assert(q =~= seq![x]);
        assert forall|y: T::V| q.contains(y) <==> (r.contains(y) || y == x) by {
            if q.contains(y) {
                assert(q[0] == y);
            }
            if y == x {
                assert(q[0] == y);
            }
        }
    } else {
        T::lemma_order_basic(x, r[0]);
        let r1 = r.subrange(1, r.len() as int);
        if T::order(x, r[0]) < 0 {
            assert forall|i: int, j: int| 0 <= i < j < q.len() implies T::order(q[i], q[j]) < 0 by {
                if i == 0 {
                    assert(q[j] == r[j - 1]);
                    if j > 1 {
                        T::lemma_order_trans(x, r[0], r[j - 1]);
                    }
                } else {
                    assert(q[i] == r[i - 1]);
                    assert(q[j] == r[j - 1]);
                }
            }
            assert forall|y: T::V| q.contains(y) <==> (r.contains(y) || y == x) by {
                if q.contains(y) {
                    let k = choose|k: int| 0 <= k < q.len() && q[k] == y;
                    if k > 0 {
                        assert(r[k - 1] == y);
                    }
                }
                if r.contains(y) {
                    let k = choose|k: int| 0 <= k < r.len() && r[k] == y;
                    assert(q[k + 1] == y);
                }
                if y == x {
                    assert(q[0] == y);
                }
            }
        } else if T::order(x, r[0]) == 0 {
        } else {
            assert forall|i: int, j: int| 0 <= i < j < r1.len() implies T::order(r1[i], r1[j]) < 0 by {
                assert(r1[i] == r[i + 1]);
                assert(r1[j] == r[j + 1]);
            }
            lemma_insert_unique::<T>(r1, x);
            let q1 = insert_unique::<T>(r1, x);
            assert(q1.contains(x));
            assert(q =~= seq![r[0]] + q1);
            assert forall|k: int| 0 <= k < q1.len() implies T::order(r[0], q1[k]) < 0 by {
                assert(q1.contains(q1[k]));
                if q1[k] == x {
                    T::lemma_order_basic(x, r[0]);
                } else {
                    assert(r1.contains(q1[k]));
                    let m = choose|m: int| 0 <= m < r1.len() && r1[m] == q1[k];
                    assert(r[m + 1] == q1[k]);
                }
            }
            assert forall|i: int, j: int| 0 <= i < j < q.len() implies T::order(q[i], q[j]) < 0 by {
                if i == 0 {
                    assert(q[j] == q1[j - 1]);
                } else {
                    assert(q[i] == q1[i - 1]);
                    assert(q[j] == q1[j - 1]);
                }
            }
            assert forall|y: T::V| q.contains(y) <==> (r.contains(y) || y == x) by {
                if q.contains(y) {
                    let k = choose|k: int| 0 <= k < q.len() && q[k] == y;
                    if k > 0 {
                        assert(q1[k - 1] == y);
                        assert(q1.contains(y));
                        if r1.contains(y) {
                            let m = choose|m: int| 0 <= m < r1.len() && r1[m] == y;
                            assert(r[m + 1] == y);
                        }
                    }
                }
                if r.contains(y) {
                    let k = choose|k: int| 0 <= k < r.len() && r[k] == y;
                    if k > 0 {
                        assert(r1[k - 1] == y);
                        assert(r1.contains(y));
                        assert(q1.contains(y));
                        let m = choose|m: int| 0 <= m < q1.len() && q1[m] == y;
                        assert(q[m + 1] == y);
                    } else {
                        assert(q[0] == y);
                    }
                }
                if y == x {
                    assert(q1.contains(x));
                    let m = choose|m: int| 0 <= m < q1.len() && q1[m] == x;
                    assert(q[m + 1] == y);
                }
            }
        }
    }
}

/// The canonical form is strictly sorted and has the elements of `s`.
pub proof fn lemma_canonical<T: Ordered>(s: Seq<T::V>)
    ensures
        strictly_sorted::<T>(canonical::<T>(s)),
        same_elements(canonical::<T>(s), s),
    decreases s.len(),
{
    if s.len() > 0 {
        lemma_canonical::<T>(s.drop_last());
        lemma_insert_unique::<T>(canonical::<T>(s.drop_last()), s.last());
        assert forall|y: T::V| canonical::<T>(s).contains(y) <==> s.contains(y) by {
            if s.drop_last().contains(y) {
                let k = choose|k: int| 0 <= k < s.drop_last().len() && s.drop_last()[k] == y;
                assert(s[k] == y);
            }
            if s.contains(y) {
                let k = choose|k: int| 0 <= k < s.len() && s[k] == y;
                if k < s.len() - 1 {
                    assert(s.drop_last()[k] == y);
                }
            }
        }
    } else {
        assert forall|y: T::V| canonical::<T>(s).contains(y) <==> s.contains(y) by {}
    }
}

/// Sorting and removing duplicates gives the canonical form, whatever the
/// order of the input.
pub proof fn lemma_canonical_of_same_elements<T: Ordered>(r: Seq<T::V>, s: Seq<T::V>)
    requires
        strictly_sorted::<T>(r),
        same_elements(r, s),
    ensures
        r == canonical::<T>(s),
{
    lemma_canonical::<T>(s);
    lemma_sorted_unique::<T>(r, canonical::<T>(s));
}

proof fn lemma_push_contains<A>(s: Seq<A>, x: A, y: A)
    ensures
        s.push(x).contains(y) <==> (s.contains(y) || y == x),
{
    if s.push(x).contains(y) {
        let k = choose|k: int| 0 <= k < s.push(x).len() && s.push(x)[k] == y;
        if k < s.len() {
            assert(s[k] == y);
        }
    }
    if s.contains(y) {
        let k = choose|k: int| 0 <= k < s.len() && s[k] == y;
        assert(s.push(x)[k] == y);
    }
    if y == x {
        assert(s.push(x)[s.len() as int] == y);
    }
}

proof fn lemma_insert_contains<A>(s: Seq<A>, j: int, x: A, y: A)
    requires
        0 <= j <= s.len(),
    ensures
        s.insert(j, x).contains(y) <==> (s.contains(y) || y == x),
{
    let q = s.insert(j, x);
    if q.contains(y) {
        let k = choose|k: int| 0 <= k < q.len() && q[k] == y;
        if k < j {
            assert(s[k] == y);
        } else if k > j {
            assert(s[k - 1] == y);
        }
    }
    if s.contains(y) {
        let k = choose|k: int| 0 <= k < s.len() && s[k] == y;
        if k < j {
            assert(q[k] == y);
        } else {
            assert(q[k + 1] == y);
        }
    }
    if y == x {
        assert(q[j] == y);
    }
}

/// Sorts the values by their order and keeps one of each model.
pub fn sort_dedup<T: Ordered>(v: Vec<T>) -> (r: Vec<T>)
    ensures
        views(r@) == canonical::<T>(views(v@)),
        strictly_sorted::<T>(views(r@)),
        same_elements(views(r@), views(v@)),
{
    let ghost orig = views(v@);
    let mut v = v;
    let mut r: Vec<T> = Vec::new();
    while v.len() > 0
        invariant
            strictly_sorted::<T>(views(r@)),
            forall|x: T::V| (views(r@).contains(x) || views(v@).contains(x)) <==> orig.contains(x),
        decreases v.len(),
    {
        let ghost before_v = views(v@);
        let ghost before_r = views(r@);
        let x = v.pop().unwrap();
        assert(views(v@) =~= before_v.drop_last());
        assert(before_v =~= views(v@).push(x@));
        let mut j: usize = 0;
        while j < r.len() && r[j].compare(&x) < 0
            invariant
                j <= r.len(),
                forall|k: int| 0 <= k < j ==> T::order(r@[k]@, x@) < 0,
            decreases r.len() - j,
        {
            j += 1;
        }
        if j < r.len() && r[j].compare(&x) == 0 {
            proof { T::lemma_order_basic(r@[j as int]@, x@); }
            assert(views(r@)[j as int] == x@);
        } else {
            proof {
                if j < r.len() {
                    T::lemma_order_basic(r@[j as int]@, x@);
                }
            }
            r.insert(j, x);
            assert(views(r@) =~= before_r.insert(j as int, x@));
            let ghost s = views(r@);
            assert forall|b: int| j < b < s.len() implies T::order(s[j as int], s[b]) < 0 by {
                T::lemma_order_basic(s[j + 1], s[j as int]);
                if b > j + 1 {
                    T::lemma_order_trans(s[j as int], s[j + 1], s[b]);
                }
            }
            assert forall|a: int, b: int| 0 <= a < b < s.len() implies T::order(s[a], s[b]) < 0 by {
                if a < j && b > j {
                    T::lemma_order_trans(s[a], s[j as int], s[b]);
                }
            }
        }
        assert forall|y: T::V| (views(r@).contains(y) || views(v@).contains(y)) <==> (before_r.contains(y) || before_v.contains(y)) by {
            lemma_push_contains(views(v@), x@, y);
            if views(r@).len() == before_r.len() {
                assert(views(r@) == before_r);
                assert(before_r[j as int] == x@);
            } else {
                lemma_insert_contains(before_r, j as int, x@, y);
            }
        }
    }
    proof {
        assert(views(v@).len() == 0);
        assert forall|y: T::V| views(r@).contains(y) <==> orig.contains(y) by {
            assert(!views(v@).contains(y));
        }
        lemma_canonical_of_same_elements::<T>(views(r@), orig);
    }
    r
}

/// Identifiers and other unsigned numbers, by their value.
impl Ordered for usize {
    open spec fn order(a: usize, b: usize) -> int {
        if a < b { -1 } else if a == b { 0 } else { 1 }
    }

    proof fn lemma_order_basic(a: usize, b: usize) {
    }

    proof fn lemma_order_trans(a: usize, b: usize, c: usize) {
    }

    fn compare(&self, other: &Self) -> (r: i8) {
        if *self < *other { -1 } else if *self == *other { 0 } else { 1 }
    }
}

} // verus!
