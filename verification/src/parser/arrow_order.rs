//! The order of an arrow's attributes: applying the attribute segments
//! in any order gives the same attributes.

use vstd::prelude::*;
use super::arrow::{ArrowAttrOutcome, ArrowAttrsModel, lemma_arrow_attrs_commute, spec_arrow_attr, spec_arrow_attrs};

verus! {

/// The attributes `segs` applied to `m` in order, empty ones skipped.
pub open spec fn spec_attrs_fold(m: ArrowAttrsModel, s: Seq<char>, segs: Seq<(int, int)>) -> ArrowAttrOutcome
    decreases segs.len(),
{
    if segs.len() == 0 {
        ArrowAttrOutcome::Applied(m)
    } else if segs[0].0 >= segs[0].1 {
        spec_attrs_fold(m, s, segs.drop_first())
    } else {
        match spec_arrow_attr(m, s, segs[0].0, segs[0].1) {
            ArrowAttrOutcome::Applied(m2) => spec_attrs_fold(m2, s, segs.drop_first()),
            other => other,
        }
    }
}

/// Both outcomes apply every attribute, to the same result, or neither does.
pub open spec fn spec_same_applied(a: ArrowAttrOutcome, b: ArrowAttrOutcome) -> bool {
    &&& (a is Applied <==> b is Applied)
    &&& (a is Applied ==> a == b)
}

proof fn lemma_attrs_fold_from(m: ArrowAttrsModel, s: Seq<char>, segs: Seq<(int, int)>, k: int)
    requires
        0 <= k <= segs.len(),
    ensures
        spec_arrow_attrs(m, s, segs, k).0 == spec_attrs_fold(m, s, segs.subrange(k, segs.len() as int)),
    decreases segs.len() - k,
{
    let rest = segs.subrange(k, segs.len() as int);
    if k < segs.len() {
        assert(rest.drop_first() =~= segs.subrange(k + 1, segs.len() as int));
        lemma_attrs_fold_from(m, s, segs, k + 1);
        match spec_arrow_attr(m, s, segs[k].0, segs[k].1) {
            ArrowAttrOutcome::Applied(m2) => lemma_attrs_fold_from(m2, s, segs, k + 1),
            _ => {},
        }
    }
}

proof fn lemma_attrs_fold_swap(m: ArrowAttrsModel, s: Seq<char>, x: (int, int), y: (int, int), rest: Seq<(int, int)>)
    ensures
        spec_same_applied(spec_attrs_fold(m, s, seq![x, y] + rest), spec_attrs_fold(m, s, seq![y, x] + rest)),
{
    let a = seq![x, y] + rest;
    let b = seq![y, x] + rest;
    reveal_with_fuel(spec_attrs_fold, 3);
    assert(a.drop_first() =~= seq![y] + rest);
    assert(b.drop_first() =~= seq![x] + rest);
    assert((seq![y] + rest).drop_first() =~= rest);
    assert((seq![x] + rest).drop_first() =~= rest);
    if x.0 < x.1 && y.0 < y.1 {
        if spec_arrow_attr(m, s, x.0, x.1) is Applied
            && spec_arrow_attr(spec_arrow_attr(m, s, x.0, x.1)->Applied_0, s, y.0, y.1) is Applied {
            lemma_arrow_attrs_commute(m, s, x.0, x.1, y.0, y.1);
        } else if spec_arrow_attr(m, s, y.0, y.1) is Applied
            && spec_arrow_attr(spec_arrow_attr(m, s, y.0, y.1)->Applied_0, s, x.0, x.1) is Applied {
            lemma_arrow_attrs_commute(m, s, y.0, y.1, x.0, x.1);
        }
    }
}

proof fn lemma_attrs_fold_cons(m: ArrowAttrsModel, s: Seq<char>, x: (int, int), p: Seq<(int, int)>, q: Seq<(int, int)>)
    requires
        forall|m1: ArrowAttrsModel| spec_same_applied(#[trigger] spec_attrs_fold(m1, s, p), spec_attrs_fold(m1, s, q)),
    ensures
        spec_same_applied(spec_attrs_fold(m, s, seq![x] + p), spec_attrs_fold(m, s, seq![x] + q)),
{
    assert((seq![x] + p).drop_first() =~= p);
    assert((seq![x] + q).drop_first() =~= q);
    reveal_with_fuel(spec_attrs_fold, 2);
    if x.0 < x.1 {
        match spec_arrow_attr(m, s, x.0, x.1) {
            ArrowAttrOutcome::Applied(m2) => assert(spec_same_applied(spec_attrs_fold(m2, s, p), spec_attrs_fold(m2, s, q))),
            _ => {},
        }
    } else {
        assert(spec_same_applied(spec_attrs_fold(m, s, p), spec_attrs_fold(m, s, q)));
    }
}

proof fn lemma_attrs_fold_to_front(s: Seq<char>, b: Seq<(int, int)>, j: int)
    requires
        0 <= j < b.len(),
    ensures
        forall|m: ArrowAttrsModel| spec_same_applied(
            #[trigger] spec_attrs_fold(m, s, b),
            spec_attrs_fold(m, s, seq![b[j]] + b.remove(j)),
        ),
    decreases j,
{
    if j == 0 {
        assert(seq![b[0]] + b.remove(0) =~= b);
    } else {
        let t = b.drop_first();
        lemma_attrs_fold_to_front(s, t, j - 1);
        assert(b =~= seq![b[0]] + t);
        assert(t[j - 1] == b[j]);
        let moved = seq![t[j - 1]] + t.remove(j - 1);
        assert(b.remove(j) =~= seq![b[0]] + t.remove(j - 1));
        assert(seq![b[0]] + moved =~= seq![b[0], b[j]] + t.remove(j - 1));
        assert(seq![b[j]] + b.remove(j) =~= seq![b[j], b[0]] + t.remove(j - 1));
        assert forall|m: ArrowAttrsModel| spec_same_applied(
            #[trigger] spec_attrs_fold(m, s, b),
            spec_attrs_fold(m, s, seq![b[j]] + b.remove(j)),
        ) by {
            lemma_attrs_fold_cons(m, s, b[0], t, moved);
            lemma_attrs_fold_swap(m, s, b[0], b[j], t.remove(j - 1));
        }
    }
}

proof fn lemma_attrs_fold_permuted(s: Seq<char>, a: Seq<(int, int)>, b: Seq<(int, int)>)
    requires
        a.to_multiset() == b.to_multiset(),
    ensures
        forall|m: ArrowAttrsModel| spec_same_applied(#[trigger] spec_attrs_fold(m, s, a), spec_attrs_fold(m, s, b)),
    decreases a.len(),
{
    broadcast use vstd::seq_lib::group_to_multiset_ensures;
    assert(a.len() == a.to_multiset().len());
    assert(b.len() == b.to_multiset().len());
    if a.len() == 0 {
        assert(b.len() == 0);
        assert(b =~= a);
    } else {
        let x = a[0];
        assert(a.contains(x));
        assert(b.to_multiset().count(x) > 0);
        assert(b.contains(x));
        let j = choose|j: int| 0 <= j < b.len() && b[j] == x;
        let rest_b = b.remove(j);
        let rest_a = a.drop_first();
        assert(a.remove(0) =~= rest_a);
        assert(rest_a.to_multiset() == a.to_multiset().remove(x));
        assert(rest_b.to_multiset() == b.to_multiset().remove(x));
        lemma_attrs_fold_permuted(s, rest_a, rest_b);
        lemma_attrs_fold_to_front(s, b, j);
        assert(a =~= seq![x] + rest_a);
        assert forall|m: ArrowAttrsModel| spec_same_applied(#[trigger] spec_attrs_fold(m, s, a), spec_attrs_fold(m, s, b)) by {
            lemma_attrs_fold_cons(m, s, x, rest_a, rest_b);
            assert(spec_same_applied(spec_attrs_fold(m, s, b), spec_attrs_fold(m, s, seq![b[j]] + b.remove(j))));
        }
    }
}

/// The order of an arrow's attributes does not matter: reading the
/// attribute segments after the two endpoints in any other order applies
/// all of them exactly when the first order does, to the same attributes.
pub proof fn lemma_arrow_attribute_order(m: ArrowAttrsModel, s: Seq<char>, segs1: Seq<(int, int)>, segs2: Seq<(int, int)>)
    requires
        segs1.len() >= 2,
        segs2.len() >= 2,
        segs1.subrange(2, segs1.len() as int).to_multiset() == segs2.subrange(2, segs2.len() as int).to_multiset(),
    ensures
        spec_arrow_attrs(m, s, segs1, 2).0 is Applied <==> spec_arrow_attrs(m, s, segs2, 2).0 is Applied,
        spec_arrow_attrs(m, s, segs1, 2).0 is Applied ==> spec_arrow_attrs(m, s, segs1, 2).0 == spec_arrow_attrs(m, s, segs2, 2).0,
{
    lemma_attrs_fold_from(m, s, segs1, 2);
    lemma_attrs_fold_from(m, s, segs2, 2);
    lemma_attrs_fold_permuted(s, segs1.subrange(2, segs1.len() as int), segs2.subrange(2, segs2.len() as int));
    assert(spec_same_applied(
        spec_attrs_fold(m, s, segs1.subrange(2, segs1.len() as int)),
        spec_attrs_fold(m, s, segs2.subrange(2, segs2.len() as int)),
    ));
}

} // verus!
