//! The signature-quorum estimator: given a voting power distribution and
//! the set of validators that signed, how many signature checks Ethereum
//! will actually perform before a >2/3 quorum is reached.

use vstd::multiset::Multiset;
use vstd::prelude::*;

use crate::num256::{u256_bound, U256};
use crate::types::{EthAddrBook, EthAddrBookView};

verus! {

/// The total voting power of a distribution.
pub open spec fn sum_powers(s: Seq<(EthAddrBookView, U256)>) -> int
    decreases s.len(),
{
    if s.len() == 0 {
        0
    } else {
        sum_powers(s.drop_last()) + s.last().1.as_nat()
    }
}

/// The sum of a sequence of powers.
pub open spec fn sum_seq(s: Seq<U256>) -> int
    decreases s.len(),
{
    if s.len() == 0 {
        0
    } else {
        sum_seq(s.drop_last()) + s.last().as_nat()
    }
}

/// Whether an address book occurs in a list of signers.
pub open spec fn spec_contains_book(sigs: Seq<EthAddrBookView>, b: EthAddrBookView) -> bool {
    exists|i: int| 0 <= i < sigs.len() && sigs[i] == b
}

/// The powers of the validators that signed, in distribution order.
pub open spec fn signer_powers(
    s: Seq<(EthAddrBookView, U256)>,
    sigs: Seq<EthAddrBookView>,
) -> Seq<U256>
    decreases s.len(),
{
    if s.len() == 0 {
        Seq::empty()
    } else {
        signer_powers(s.drop_last(), sigs) + (if spec_contains_book(sigs, s.last().0) {
            seq![s.last().1]
        } else {
            Seq::empty()
        })
    }
}

/// Inserts a power into a descending-sorted sequence.
pub open spec fn insert_desc(s: Seq<U256>, x: U256) -> Seq<U256>
    decreases s.len(),
{
    if s.len() == 0 {
        seq![x]
    } else if s.last().as_nat() >= x.as_nat() {
        s.push(x)
    } else {
        insert_desc(s.drop_last(), x).push(s.last())
    }
}

/// Sorts powers in descending order.
pub open spec fn sort_desc(s: Seq<U256>) -> Seq<U256>
    decreases s.len(),
{
    if s.len() == 0 {
        Seq::empty()
    } else {
        insert_desc(sort_desc(s.drop_last()), s.last())
    }
}

/// Descending order.
pub open spec fn sorted_desc(s: Seq<U256>) -> bool {
    forall|i: int, j: int| 0 <= i <= j < s.len() ==> s[i].as_nat() >= s[j].as_nat()
}

/// The number of sorted signer powers counted before the accumulated
/// fraction of the total power exceeds 2/3: each power is counted only
/// while `3 * accumulated <= 2 * total`.
pub open spec fn quorum_count(sp: Seq<U256>, acc: int, total: int) -> int
    decreases sp.len(),
{
    if sp.len() == 0 {
        0
    } else if 3 * acc <= 2 * total {
        1 + quorum_count(sp.drop_first(), acc + sp[0].as_nat(), total)
    } else {
        0
    }
}

/// Inserting keeps descending order, the length and the sum.
proof fn lemma_insert_desc(s: Seq<U256>, x: U256)
    requires
        sorted_desc(s),
    ensures
        sorted_desc(insert_desc(s, x)),
        insert_desc(s, x).len() == s.len() + 1,
        sum_seq(insert_desc(s, x)) == sum_seq(s) + x.as_nat(),
        insert_desc(s, x).to_multiset() == s.to_multiset().insert(x),
    decreases s.len(),
{
    broadcast use vstd::seq_lib::group_to_multiset_ensures;

    if s.len() == 0 {
        assert(seq![x].drop_last() =~= Seq::<U256>::empty());
        assert(seq![x] =~= Seq::empty().push(x));
        assert(Seq::<U256>::empty().to_multiset() =~= Multiset::empty());
        assert(seq![x].last() == x);
        assert(sum_seq(seq![x]) == sum_seq(Seq::<U256>::empty()) + x.as_nat());
    } else if s.last().as_nat() >= x.as_nat() {
        assert(s.push(x).drop_last() =~= s);
        assert(s.push(x).last() == x);
        assert(sum_seq(s.push(x)) == sum_seq(s) + x.as_nat());
        assert(s.push(x).to_multiset() =~= s.to_multiset().insert(x));
    } else {
        let t = s.drop_last();
        assert(sorted_desc(t));
        lemma_insert_desc(t, x);
        let u = insert_desc(t, x);
        assert forall|i: int| 0 <= i < u.len() implies u[i].as_nat() >= s.last().as_nat() by {
            assert(u.to_multiset().count(u[i]) > 0);
            if u[i] != x {
                assert(t.to_multiset().count(u[i]) > 0);
                assert(t.contains(u[i]));
            }
        }
        assert(sorted_desc(u.push(s.last())));
        assert(u.push(s.last()).drop_last() =~= u);
        assert(u.push(s.last()).last() == s.last());
        assert(sum_seq(u.push(s.last())) == sum_seq(u) + s.last().as_nat());
        assert(sum_seq(u) == sum_seq(t) + x.as_nat());
        assert(sum_seq(s) == sum_seq(t) + s.last().as_nat());
        assert(t.push(s.last()) =~= s);
        assert(u.push(s.last()).to_multiset() =~= s.to_multiset().insert(x));
    }
}

/// Sorting descending keeps the length and the sum.
proof fn lemma_sort_desc(s: Seq<U256>)
    ensures
        sorted_desc(sort_desc(s)),
        sort_desc(s).len() == s.len(),
        sum_seq(sort_desc(s)) == sum_seq(s),
    decreases s.len(),
{
    if s.len() > 0 {
        lemma_sort_desc(s.drop_last());
        lemma_insert_desc(sort_desc(s.drop_last()), s.last());
    }
}

/// Inserting a power that is no larger than every element goes at the end.
proof fn lemma_insert_desc_at(s: Seq<U256>, x: U256, j: int)
    requires
        sorted_desc(s),
        0 <= j <= s.len(),
        forall|k: int| j <= k < s.len() ==> x.as_nat() > s[k].as_nat(),
        j > 0 ==> s[j - 1].as_nat() >= x.as_nat(),
    ensures
        insert_desc(s, x) =~= s.take(j) + seq![x] + s.skip(j),
    decreases s.len(),
{
    if s.len() == 0 {
        assert(insert_desc(s, x) =~= s.take(j) + seq![x] + s.skip(j));
    } else if j == s.len() {
        assert(s.take(j) =~= s);
        assert(insert_desc(s, x) =~= s.take(j) + seq![x] + s.skip(j));
    } else {
        let t = s.drop_last();
        assert(x.as_nat() > s.last().as_nat());
        lemma_insert_desc_at(t, x, j);
        assert(insert_desc(t, x).push(s.last()) =~= s.take(j) + seq![x] + s.skip(j));
    }
}

/// Every prefix sum is bounded by the whole sum.
proof fn lemma_sum_seq_take(s: Seq<U256>, i: int)
    requires
        0 <= i <= s.len(),
    ensures
        sum_seq(s.take(i)) <= sum_seq(s),
        sum_seq(s.take(i)) >= 0,
    decreases s.len() - i,
{
    lemma_sum_seq_nonneg(s.take(i));
    if i == s.len() {
        assert(s.take(i) =~= s);
    } else {
        lemma_sum_seq_take(s, i + 1);
        assert(s.take(i + 1).drop_last() =~= s.take(i));
        assert(s.take(i + 1).last() == s[i]);
    }
}

/// A sum of powers is non-negative.
proof fn lemma_sum_seq_nonneg(s: Seq<U256>)
    ensures
        sum_seq(s) >= 0,
    decreases s.len(),
{
    if s.len() > 0 {
        lemma_sum_seq_nonneg(s.drop_last());
    }
}

/// The signers' powers sum to no more than the whole distribution's.
proof fn lemma_signer_powers_le(s: Seq<(EthAddrBookView, U256)>, sigs: Seq<EthAddrBookView>)
    ensures
        sum_seq(signer_powers(s, sigs)) <= sum_powers(s),
        signer_powers(s, sigs).len() <= s.len(),
    decreases s.len(),
{
    if s.len() > 0 {
        lemma_signer_powers_le(s.drop_last(), sigs);
        let p = signer_powers(s.drop_last(), sigs);
        if spec_contains_book(sigs, s.last().0) {
            assert(signer_powers(s, sigs) =~= p.push(s.last().1));
            assert(p.push(s.last().1).drop_last() =~= p);
        } else {
            assert(signer_powers(s, sigs) =~= p);
        }
    }
}

/// Every prefix sum of the distribution is bounded by the total.
proof fn lemma_sum_powers_take(s: Seq<(EthAddrBookView, U256)>, i: int)
    requires
        0 <= i <= s.len(),
    ensures
        sum_powers(s.take(i)) <= sum_powers(s),
        sum_powers(s.take(i)) >= 0,
    decreases s.len() - i,
{
    lemma_sum_powers_nonneg(s.take(i));
    if i == s.len() {
        assert(s.take(i) =~= s);
    } else {
        lemma_sum_powers_take(s, i + 1);
        assert(s.take(i + 1).drop_last() =~= s.take(i));
        assert(s.take(i + 1).last() == s[i]);
    }
}

/// A total of powers is non-negative.
proof fn lemma_sum_powers_nonneg(s: Seq<(EthAddrBookView, U256)>)
    ensures
        sum_powers(s) >= 0,
    decreases s.len(),
{
    if s.len() > 0 {
        lemma_sum_powers_nonneg(s.drop_last());
    }
}

/// The returned count is exactly where the running sum of the sorted
/// signer powers first exceeds two thirds of the total power: every
/// earlier prefix stays within two thirds, and when the count stops
/// before the signers run out, the prefix of that length exceeds it.
pub proof fn lemma_quorum_count_characterizes(sp: Seq<U256>, acc: int, total: int)
    ensures
        0 <= quorum_count(sp, acc, total) <= sp.len(),
        forall|j: int|
            0 <= j < quorum_count(sp, acc, total) ==> 3 * (acc + sum_seq(sp.take(j))) <= 2 * total,
        quorum_count(sp, acc, total) < sp.len() ==> 3 * (acc + sum_seq(
            sp.take(quorum_count(sp, acc, total)),
        )) > 2 * total,
    decreases sp.len(),
{
    if sp.len() == 0 {
    } else if 3 * acc <= 2 * total {
        let rest = sp.drop_first();
        lemma_quorum_count_characterizes(rest, acc + sp[0].as_nat(), total);
        let r = quorum_count(sp, acc, total);
        assert(r == 1 + quorum_count(rest, acc + sp[0].as_nat(), total));
        assert(sp.take(0) =~= Seq::empty());
        assert forall|j: int| 0 <= j < r implies 3 * (acc + sum_seq(sp.take(j))) <= 2 * total by {
            if j > 0 {
                assert(rest.take(j - 1) =~= sp.take(j).drop_first());
                lemma_sum_seq_skip_first(sp.take(j));
                assert(sum_seq(sp.take(j)) == sp[0].as_nat() + sum_seq(rest.take(j - 1)));
            }
        }
        if r < sp.len() {
            assert(rest.take(r - 1) =~= sp.take(r).drop_first());
            lemma_sum_seq_skip_first(sp.take(r));
            assert(sum_seq(sp.take(r)) == sp[0].as_nat() + sum_seq(rest.take(r - 1)));
        }
    } else {
        assert(quorum_count(sp, acc, total) == 0);
    }
}

/// Splitting the first element off a sum.
proof fn lemma_sum_seq_skip_first(s: Seq<U256>)
    requires
        s.len() > 0,
    ensures
        sum_seq(s) == s[0].as_nat() + sum_seq(s.drop_first()),
    decreases s.len(),
{
    if s.len() == 1 {
        assert(s.drop_first() =~= Seq::empty());
        assert(s.drop_last() =~= Seq::empty());
    } else {
        lemma_sum_seq_skip_first(s.drop_last());
        assert(s.drop_last().drop_first() =~= s.drop_first().drop_last());
        assert(s.drop_first().last() == s.last());
        assert(s.drop_last()[0] == s[0]);
    }
}

/// Membership of an address book in a list, by value.
pub fn contains_book(sigs: &Vec<EthAddrBook>, b: &EthAddrBook) -> (r: bool)
    ensures
        r == spec_contains_book(sigs.deep_view(), b@),
{
    let mut i: usize = 0;
    while i < sigs.len()
        invariant
            0 <= i <= sigs@.len(),
            forall|j: int| 0 <= j < i ==> sigs.deep_view()[j] != b@,
        decreases sigs@.len() - i,
    {
        if crate::types::addr_book_eq(&sigs[i], b) {
            assert(sigs.deep_view()[i as int] == b@);
            return true;
        }
        i = i + 1;
    }
    false
}

/// Given a voting power distribution and the validators that signed,
/// the number of signature checks Ethereum will make: signers are taken
/// in decreasing order of power, and counting stops once the counted
/// powers exceed 2/3 of the total power.
pub fn signature_checks(voting_powers: &Vec<(EthAddrBook, U256)>, sigs: &Vec<EthAddrBook>) -> (r:
    U256)
    requires
        3 * sum_powers(voting_powers.deep_view()) < u256_bound(),
    ensures
        r.as_nat() == quorum_count(
            sort_desc(signer_powers(voting_powers.deep_view(), sigs.deep_view())),
            0,
            sum_powers(voting_powers.deep_view()),
        ),
        r.as_nat() <= voting_powers.deep_view().len(),
{
    let ghost vdv = voting_powers.deep_view();

    // total power of the distribution
    let mut total = U256::zero();
    let mut i: usize = 0;
    while i < voting_powers.len()
        invariant
            0 <= i <= voting_powers@.len(),
            vdv == voting_powers.deep_view(),
            vdv.len() == voting_powers@.len(),
            3 * sum_powers(vdv) < u256_bound(),
            total.as_nat() == sum_powers(vdv.take(i as int)),
        decreases voting_powers@.len() - i,
    {
        proof {
            assert(vdv[i as int].1 == voting_powers@[i as int].1);
            lemma_sum_powers_take(vdv, i as int + 1);
            assert(vdv.take(i as int + 1).drop_last() =~= vdv.take(i as int));
            assert(vdv.take(i as int + 1).last() == vdv[i as int]);
            lemma_sum_powers_nonneg(vdv.take(i as int));
        }
        total = match total.checked_add(&voting_powers[i].1) {
            Some(t) => t,
            None => {
                proof {
                    assert(false);
                }
                U256::zero()
            },
        };
        i = i + 1;
    }
    proof {
        assert(vdv.take(vdv.len() as int) =~= vdv);
    }

    // powers of the validators that signed, in distribution order
    let mut powers: Vec<U256> = Vec::new();
    proof {
        assert(powers.deep_view() =~= signer_powers(vdv.take(0), sigs.deep_view()));
    }
    let mut i: usize = 0;
    while i < voting_powers.len()
        invariant
            0 <= i <= voting_powers@.len(),
            vdv == voting_powers.deep_view(),
            vdv.len() == voting_powers@.len(),
            powers.deep_view() == signer_powers(vdv.take(i as int), sigs.deep_view()),
            powers@.len() <= i,
        decreases voting_powers@.len() - i,
    {
        proof {
            assert(vdv[i as int].0 == voting_powers@[i as int].0@);
            assert(vdv[i as int].1 == voting_powers@[i as int].1);
            assert(vdv.take(i as int + 1).drop_last() =~= vdv.take(i as int));
            assert(vdv.take(i as int + 1).last() == vdv[i as int]);
        }
        let ghost pdv = powers.deep_view();
        if contains_book(sigs, &voting_powers[i].0) {
            powers.push(voting_powers[i].1);
            proof {
                assert(powers.deep_view() =~= pdv.push(vdv[i as int].1));
                assert(powers.deep_view() =~= signer_powers(
                    vdv.take(i as int + 1),
                    sigs.deep_view(),
                ));
            }
        } else {
            proof {
                assert(powers.deep_view() =~= signer_powers(
                    vdv.take(i as int + 1),
                    sigs.deep_view(),
                ));
            }
        }
        i = i + 1;
    }
    proof {
        assert(vdv.take(vdv.len() as int) =~= vdv);
    }

    // sort the signers' powers in decreasing order
    let sorted = sort_powers_desc(powers);
    let ghost spv = sorted.deep_view();
    let ghost total_nat = sum_powers(vdv);
    proof {
        lemma_sort_desc(signer_powers(vdv, sigs.deep_view()));
        lemma_signer_powers_le(vdv, sigs.deep_view());
        assert(sum_seq(spv) <= total_nat);
    }

    // count signatures until the accumulated power exceeds 2/3
    let two_total = match total.mul_u64(2) {
        Some(t) => t,
        None => {
            proof {
                assert(false);
            }
            U256::zero()
        },
    };
    let mut acc = U256::zero();
    let mut count: usize = 0;
    proof {
        assert(spv.take(0) =~= Seq::<U256>::empty());
        assert(spv.skip(0) =~= spv);
    }
    while count < sorted.len()
        invariant_except_break
            quorum_count(spv, 0, total_nat) == count + quorum_count(
                spv.skip(count as int),
                acc.as_nat() as int,
                total_nat,
            ),
        invariant
            0 <= count <= sorted@.len(),
            spv == sorted.deep_view(),
            spv.len() == sorted@.len(),
            total_nat == sum_powers(vdv),
            3 * total_nat < u256_bound(),
            sum_seq(spv) <= total_nat,
            two_total.as_nat() == 2 * total_nat,
            acc.as_nat() == sum_seq(spv.take(count as int)),
            spv.len() <= vdv.len(),
        ensures
            quorum_count(spv, 0, total_nat) == count,
        decreases sorted@.len() - count,
    {
        proof {
            lemma_sum_seq_take(spv, count as int);
            lemma_sum_seq_nonneg(spv);
        }
        let three_acc = match acc.mul_u64(3) {
            Some(t) => t,
            None => {
                proof {
                    assert(false);
                }
                U256::zero()
            },
        };
        if !three_acc.le(&two_total) {
            proof {
                assert(quorum_count(spv.skip(count as int), acc.as_nat() as int, total_nat) == 0);
            }
            break;
        }
        proof {
            assert(spv[count as int] == sorted@[count as int]);
            lemma_sum_seq_take(spv, count as int + 1);
            assert(spv.take(count as int + 1).drop_last() =~= spv.take(count as int));
            assert(spv.take(count as int + 1).last() == spv[count as int]);
            assert(spv.skip(count as int)[0] == spv[count as int]);
            assert(spv.skip(count as int).drop_first() =~= spv.skip(count as int + 1));
        }
        acc = match acc.checked_add(&sorted[count]) {
            Some(a) => a,
            None => {
                proof {
                    assert(false);
                }
                U256::zero()
            },
        };
        count = count + 1;
    }
    proof {
        if count == sorted.len() {
            assert(spv.skip(count as int) =~= Seq::<U256>::empty());
        }
        lemma_quorum_count_characterizes(spv, 0, total_nat);
    }
    U256::from_u64(count as u64)
}

/// Sorts powers in descending order by insertion.
fn sort_powers_desc(powers: Vec<U256>) -> (r: Vec<U256>)
    ensures
        r.deep_view() == sort_desc(powers.deep_view()),
{
    let ghost orig = powers.deep_view();
    let mut rest = powers;
    let mut out: Vec<U256> = Vec::new();
    proof {
        assert(out.deep_view() =~= sort_desc(orig.take(0)));
        assert(rest.deep_view() =~= orig.skip(0));
    }
    let total = rest.len();
    proof {
        assert(orig.len() == total);
    }
    let mut taken: usize = 0;
    while rest.len() > 0
        invariant
            orig.len() <= usize::MAX,
            taken + rest.len() == orig.len(),
            out.deep_view() == sort_desc(orig.take(taken as int)),
            sorted_desc(out.deep_view()),
            rest.deep_view() == orig.skip(taken as int),
        decreases rest.len(),
    {
        let ghost rest0 = rest@;
        let ghost dv0 = rest.deep_view();
        let e = rest.remove(0);
        proof {
            assert(dv0[0] == rest0[0].deep_view());
            assert(e == orig[taken as int]);
            assert(rest@ =~= rest0.skip(1));
            assert forall|k: int| 0 <= k < rest.deep_view().len() implies rest.deep_view()[k]
                == orig.skip(taken as int + 1)[k] by {
                assert(rest.deep_view()[k] == rest@[k].deep_view());
                assert(rest@[k] == rest0[k + 1]);
                assert(dv0[k + 1] == rest0[k + 1].deep_view());
                assert(dv0[k + 1] == orig.skip(taken as int)[k + 1]);
            }
            assert(rest.deep_view() =~= orig.skip(taken as int + 1));
        }
        let mut j: usize = out.len();
        while j > 0 && out[j - 1].lt(&e)
            invariant
                0 <= j <= out.deep_view().len(),
                sorted_desc(out.deep_view()),
                forall|k: int|
                    j <= k < out.deep_view().len() ==> e.as_nat() > out.deep_view()[k].as_nat(),
            decreases j,
        {
            j = j - 1;
        }
        let ghost pre = out.deep_view();
        out.insert(j, e);
        proof {
            lemma_insert_desc_at(pre, e, j as int);
            lemma_insert_desc(pre, e);
            assert(out.deep_view() =~= pre.take(j as int) + seq![e] + pre.skip(j as int));
            assert(out.deep_view() == insert_desc(pre, e));
            assert(orig.take(taken as int + 1).drop_last() =~= orig.take(taken as int));
            assert(orig.take(taken as int + 1).last() == e);
        }
        taken = taken + 1;
    }
    proof {
        assert(orig.take(taken as int) =~= orig);
    }
    out
}

/// The quorum law: the count returned by the estimator marks exactly
/// where the running sum of the rank-ordered signer powers first exceeds
/// two thirds of the total power.
pub proof fn lemma_quorum_correct(sp: Seq<U256>, total: int)
    ensures
        0 <= quorum_count(sp, 0, total) <= sp.len(),
        forall|j: int|
            0 <= j < quorum_count(sp, 0, total) ==> 3 * sum_seq(sp.take(j)) <= 2 * total,
        quorum_count(sp, 0, total) < sp.len() ==> 3 * sum_seq(sp.take(quorum_count(sp, 0, total)))
            > 2 * total,
{
    lemma_quorum_count_characterizes(sp, 0, total);
}

} // verus!
