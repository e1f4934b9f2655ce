//! Transfers eligible for a relay, annotated with their net cost, and the
//! stable sort that orders them most-profitable first.

use vstd::multiset::Multiset;
use vstd::prelude::*;

use crate::num256::I256;
use crate::types::{PendingTransfer, PendingTransferView};

verus! {

/// A transfer eligible to be recommended for a relay: it is not already
/// in progress, and its gas fee token has a usable conversion rate.
pub struct EligibleRecommendation {
    /// The pending transfer itself.
    pub pending_transfer: PendingTransfer,
    /// The transfer's identity: its keccak256 digest, as lowercase hex.
    pub transfer_hash: String,
    /// The net cost of relaying the transfer, in gwei; negative when the
    /// escrowed fee exceeds the per-transfer gas cost, i.e. a profit.
    pub cost: I256,
}

/// A ghost record of an eligible recommendation's contents.
pub struct EligibleRecommendationView {
    pub pending_transfer: PendingTransferView,
    pub transfer_hash: Seq<char>,
    pub cost: I256,
}

impl View for EligibleRecommendation {
    type V = EligibleRecommendationView;

    open spec fn view(&self) -> EligibleRecommendationView {
        EligibleRecommendationView {
            pending_transfer: self.pending_transfer@,
            transfer_hash: self.transfer_hash@,
            cost: self.cost,
        }
    }
}

impl DeepView for EligibleRecommendation {
    type V = EligibleRecommendationView;

    open spec fn deep_view(&self) -> EligibleRecommendationView {
        self@
    }
}

/// Ascending order of relay cost.
pub open spec fn sorted_by_cost(s: Seq<EligibleRecommendationView>) -> bool {
    forall|i: int, j: int|
        0 <= i <= j < s.len() ==> s[i].cost.as_int() <= s[j].cost.as_int()
}

/// Inserts `x` into a cost-sorted sequence, after any element of equal
/// cost, so that repeated insertion is a stable sort.
pub open spec fn insert_by_cost(
    s: Seq<EligibleRecommendationView>,
    x: EligibleRecommendationView,
) -> Seq<EligibleRecommendationView>
    decreases s.len(),
{
    if s.len() == 0 {
        seq![x]
    } else if s.last().cost.as_int() <= x.cost.as_int() {
        s.push(x)
    } else {
        insert_by_cost(s.drop_last(), x).push(s.last())
    }
}

/// The stable sort of a sequence by ascending cost.
pub open spec fn sort_by_cost(s: Seq<EligibleRecommendationView>) -> Seq<EligibleRecommendationView>
    decreases s.len(),
{
    if s.len() == 0 {
        Seq::empty()
    } else {
        insert_by_cost(sort_by_cost(s.drop_last()), s.last())
    }
}

/// Inserting into a cost-sorted sequence keeps it sorted and adds exactly
/// the inserted element.
pub proof fn lemma_insert_by_cost(s: Seq<EligibleRecommendationView>, x: EligibleRecommendationView)
    requires
        sorted_by_cost(s),
    ensures
        sorted_by_cost(insert_by_cost(s, x)),
        insert_by_cost(s, x).len() == s.len() + 1,
        insert_by_cost(s, x).to_multiset() == s.to_multiset().insert(x),
    decreases s.len(),
{
    broadcast use vstd::seq_lib::group_to_multiset_ensures;

    if s.len() == 0 {
        assert(seq![x] =~= Seq::empty().push(x));
        assert(Seq::<EligibleRecommendationView>::empty().to_multiset() =~= Multiset::empty());
    } else if s.last().cost.as_int() <= x.cost.as_int() {
        assert(s.push(x).to_multiset() =~= s.to_multiset().insert(x));
    } else {
        let t = s.drop_last();
        assert(sorted_by_cost(t));
        lemma_insert_by_cost(t, x);
        let u = insert_by_cost(t, x);
        // sortedness: every element of u is either x or an element of t,
        // all of which cost no more than s.last().
        assert forall|i: int| 0 <= i < u.len() implies u[i].cost.as_int()
            <= s.last().cost.as_int() by {
            assert(u.to_multiset().count(u[i]) > 0);
            if u[i] != x {
                assert(t.to_multiset().count(u[i]) > 0);
                assert(t.contains(u[i]));
            }
        }
        assert(sorted_by_cost(u.push(s.last())));
        assert(t.push(s.last()) =~= s);
        assert(u.push(s.last()).to_multiset() =~= s.to_multiset().insert(x));
    }
}

/// The stable sort orders its input by ascending cost and permutes it:
/// same length, same elements with the same multiplicities.
pub proof fn lemma_sort_by_cost(s: Seq<EligibleRecommendationView>)
    ensures
        sorted_by_cost(sort_by_cost(s)),
        sort_by_cost(s).len() == s.len(),
        sort_by_cost(s).to_multiset() == s.to_multiset(),
    decreases s.len(),
{
    broadcast use vstd::seq_lib::group_to_multiset_ensures;

    if s.len() == 0 {
        assert(sort_by_cost(s) =~= Seq::empty());
    } else {
        let t = s.drop_last();
        lemma_sort_by_cost(t);
        lemma_insert_by_cost(sort_by_cost(t), s.last());
        assert(t.push(s.last()) =~= s);
        assert(s.to_multiset() =~= t.to_multiset().insert(s.last()));
    }
}

/// When every element at or after position `j` costs strictly more than
/// `x` and the one before (if any) costs no more, inserting `x` lands it
/// exactly at position `j`.
proof fn lemma_insert_by_cost_at(
    s: Seq<EligibleRecommendationView>,
    x: EligibleRecommendationView,
    j: int,
)
    requires
        sorted_by_cost(s),
        0 <= j <= s.len(),
        forall|k: int| j <= k < s.len() ==> x.cost.as_int() < s[k].cost.as_int(),
        j > 0 ==> s[j - 1].cost.as_int() <= x.cost.as_int(),
    ensures
        insert_by_cost(s, x) =~= s.take(j) + seq![x] + s.skip(j),
    decreases s.len(),
{
    if s.len() == 0 {
        assert(insert_by_cost(s, x) =~= s.take(j) + seq![x] + s.skip(j));
    } else if j == s.len() {
        assert(s.take(j) =~= s);
        assert(insert_by_cost(s, x) =~= s.take(j) + seq![x] + s.skip(j));
    } else {
        let t = s.drop_last();
        assert(x.cost.as_int() < s.last().cost.as_int());
        lemma_insert_by_cost_at(t, x, j);
        assert(insert_by_cost(t, x).push(s.last()) =~= s.take(j) + seq![x] + s.skip(j));
    }
}

/// Compares two recommendations by cost.
fn cost_le(a: &EligibleRecommendation, b: &EligibleRecommendation) -> (r: bool)
    ensures
        r == (a@.cost.as_int() <= b@.cost.as_int()),
{
    a.cost.le(&b.cost)
}

/// Sorts recommendations by ascending cost, i.e. most profitable first.
/// The sort is stable: recommendations of equal cost keep their order.
pub fn sort_recommendations(contents: Vec<EligibleRecommendation>) -> (r: Vec<
    EligibleRecommendation,
>)
    ensures
        r.deep_view() == sort_by_cost(contents.deep_view()),
{
    let ghost orig = contents.deep_view();
    let mut rest = contents;
    let mut out: Vec<EligibleRecommendation> = Vec::new();
    proof {
        assert(out.deep_view() =~= sort_by_cost(orig.take(0)));
        assert(rest.deep_view() =~= orig.skip(0));
    }
    let total = rest.len();
    proof {
        assert(orig.len() == total);
    }
    let mut taken: usize = 0;
    while rest.len() > 0
        invariant
            orig.len() <= usize::MAX,
            taken + rest.len() == orig.len(),
            out.deep_view() == sort_by_cost(orig.take(taken as int)),
            sorted_by_cost(out.deep_view()),
            rest.deep_view() == orig.skip(taken as int),
        decreases rest.len(),
    {
        let ghost rest0 = rest@;
        let ghost dv0 = rest.deep_view();
        let e = rest.remove(0);
        proof {
            assert(dv0[0] == rest0[0].deep_view());
            assert(e@ == orig.skip(taken as int)[0]);
            assert(e@ == orig[taken as int]);
            assert(rest@ =~= rest0.skip(1));
            assert forall|k: int| 0 <= k < rest.deep_view().len() implies rest.deep_view()[k]
                == orig.skip(taken as int + 1)[k] by {
                assert(rest.deep_view()[k] == rest@[k].deep_view());
                assert(rest@[k] == rest0[k + 1]);
                assert(dv0[k + 1] == rest0[k + 1].deep_view());
                assert(dv0[k + 1] == orig.skip(taken as int)[k + 1]);
            }
            assert(rest.deep_view() =~= orig.skip(taken as int + 1));
        }
        let mut j: usize = out.len();
        while j > 0 && !cost_le(&out[j - 1], &e)
            invariant
                0 <= j <= out.deep_view().len(),
                sorted_by_cost(out.deep_view()),
                forall|k: int|
                    j <= k < out.deep_view().len() ==> e@.cost.as_int()
                        < out.deep_view()[k].cost.as_int(),
            decreases j,
        {
            j = j - 1;
        }
        let ghost pre = out.deep_view();
        out.insert(j, e);
        proof {
            lemma_insert_by_cost_at(pre, e@, j as int);
            lemma_insert_by_cost(pre, e@);
            assert(out.deep_view() =~= pre.take(j as int) + seq![e@] + pre.skip(j as int));
            assert(out.deep_view() == insert_by_cost(pre, e@));
            assert(orig.take(taken as int + 1).drop_last() =~= orig.take(taken as int));
            assert(orig.take(taken as int + 1).last() == e@);
        }
        taken = taken + 1;
    }
    proof {
        assert(orig.take(taken as int) =~= orig);
    }
    out
}

} // verus!
