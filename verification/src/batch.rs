//! The batch recommendation pipeline: annotate the signed pool with
//! relay costs, sort by profitability, and sweep for the most economical
//! feasible batch.

use vstd::prelude::*;

use crate::control::Halt;
use crate::eligible::{sort_by_cost, EligibleRecommendation, EligibleRecommendationView};
use crate::fees::{table_lookup, ConversionTable, ConversionTableView};
use crate::hash::transfer_hash_str;
use crate::num256::{i256_bound, u256_bound, I256, U256};
use crate::optimizer::{run_sweep, sweep_result, SweepSummary};
use crate::quorum::{signature_checks, signer_powers, sort_desc, sum_powers, quorum_count};
use crate::types::{spec_contains_transfer, EthAddrBook, PendingTransfer, PendingTransferView};

verus! {

/// Whether a pending transfer takes part in the recommendation: it is
/// not already being relayed, and its gas fee token has a conversion
/// entry.
pub open spec fn included(
    t: PendingTransferView,
    in_progress: Seq<PendingTransferView>,
    table: ConversionTableView,
) -> bool {
    !spec_contains_transfer(in_progress, t) && table_lookup(table, t.gas_fee.token) is Some
}

/// The gwei value of a transfer's escrowed gas fee.
pub open spec fn fee_in_gwei(t: PendingTransferView, table: ConversionTableView) -> int {
    t.gas_fee.amount.as_nat() * (table_lookup(table, t.gas_fee.token)->Some_0.gwei_per_token as int)
}

/// The net cost of relaying a transfer: the per-transfer fee minus the
/// escrowed fee in gwei. Negative means profit.
pub open spec fn transfer_cost(t: PendingTransferView, table: ConversionTableView) -> int {
    37_500 - fee_in_gwei(t, table)
}

/// Whether a transfer's fee value leaves the signed 256-bit range, which
/// halts the whole run.
pub open spec fn cost_overflows(t: PendingTransferView, table: ConversionTableView) -> bool {
    fee_in_gwei(t, table) >= i256_bound()
}

/// The transfers of the signed pool that take part, in pool order.
pub open spec fn eligible_transfers(
    pool: Seq<PendingTransferView>,
    in_progress: Seq<PendingTransferView>,
    table: ConversionTableView,
) -> Seq<PendingTransferView>
    decreases pool.len(),
{
    if pool.len() == 0 {
        Seq::empty()
    } else {
        eligible_transfers(pool.drop_last(), in_progress, table) + (if included(
            pool.last(),
            in_progress,
            table,
        ) {
            seq![pool.last()]
        } else {
            Seq::empty()
        })
    }
}

/// Whether some eligible transfer's fee value leaves the signed range.
pub open spec fn eligibility_halts(
    pool: Seq<PendingTransferView>,
    in_progress: Seq<PendingTransferView>,
    table: ConversionTableView,
) -> bool {
    exists|i: int|
        0 <= i < pool.len() && included(pool[i], in_progress, table) && cost_overflows(
            pool[i],
            table,
        )
}

/// Whether `v` annotates exactly the eligible transfers of the pool:
/// same transfers in the same order, each with its digest string and its
/// net relay cost.
pub open spec fn is_eligible_annotation(
    v: Seq<EligibleRecommendationView>,
    pool: Seq<PendingTransferView>,
    in_progress: Seq<PendingTransferView>,
    table: ConversionTableView,
) -> bool {
    let ts = eligible_transfers(pool, in_progress, table);
    &&& v.len() == ts.len()
    &&& forall|k: int| 0 <= k < v.len() ==> #[trigger] v[k].pending_transfer == ts[k]
    &&& forall|k: int|
        0 <= k < v.len() ==> #[trigger] v[k].transfer_hash == transfer_hash_str(
            v[k].pending_transfer,
        )
    &&& forall|k: int|
        0 <= k < v.len() ==> #[trigger] v[k].cost.as_int() == transfer_cost(
            v[k].pending_transfer,
            table,
        )
}

/// Annotates the signed pool with relay costs: transfers already in
/// progress or with an unknown fee token are excluded; a fee value
/// outside the signed 256-bit range halts the run.
pub fn compute_eligible(
    signed_pool: Vec<PendingTransfer>,
    in_progress: &Vec<PendingTransfer>,
    conversion_table: &ConversionTable,
) -> (r: Halt<Vec<EligibleRecommendation>>)
    ensures
        ({
            let pool = signed_pool.deep_view();
            let prog = in_progress.deep_view();
            let table = conversion_table.deep_view();
            match r {
                Halt::Halted => eligibility_halts(pool, prog, table),
                Halt::Proceed(v) => !eligibility_halts(pool, prog, table)
                    && is_eligible_annotation(v.deep_view(), pool, prog, table),
            }
        }),
{
    let ghost pool = signed_pool.deep_view();
    let ghost prog = in_progress.deep_view();
    let ghost table = conversion_table.deep_view();
    let mut out: Vec<EligibleRecommendation> = Vec::new();
    let mut rest = signed_pool;
    proof {
        assert(out.deep_view() =~= Seq::<EligibleRecommendationView>::empty());
        assert(eligible_transfers(pool.take(0), prog, table) =~= Seq::<
            PendingTransferView,
        >::empty());
        assert(rest.deep_view() =~= pool.skip(0));
    }
    let total = rest.len();
    proof {
        assert(pool.len() == total);
    }
    let mut taken: usize = 0;
    while rest.len() > 0
        invariant
            pool.len() <= usize::MAX,
            taken + rest.len() == pool.len(),
            pool == signed_pool.deep_view(),
            prog == in_progress.deep_view(),
            table == conversion_table.deep_view(),
            rest.deep_view() == pool.skip(taken as int),
            is_eligible_annotation(out.deep_view(), pool.take(taken as int), prog, table),
            forall|i: int|
                0 <= i < taken ==> !(included(pool[i], prog, table) && cost_overflows(
                    pool[i],
                    table,
                )),
        decreases rest.len(),
    {
        let ghost rest0 = rest@;
        let ghost dv0 = rest.deep_view();
        let t = rest.remove(0);
        proof {
            assert(dv0[0] == rest0[0].deep_view());
            assert(t@ == pool.skip(taken as int)[0]);
            assert(t@ == pool[taken as int]);
            assert(rest@ =~= rest0.skip(1));
            assert forall|k: int| 0 <= k < rest.deep_view().len() implies rest.deep_view()[k]
                == pool.skip(taken as int + 1)[k] by {
                assert(rest.deep_view()[k] == rest@[k].deep_view());
                assert(rest@[k] == rest0[k + 1]);
                assert(dv0[k + 1] == rest0[k + 1].deep_view());
                assert(dv0[k + 1] == pool.skip(taken as int)[k + 1]);
            }
            assert(rest.deep_view() =~= pool.skip(taken as int + 1));
            assert(pool.take(taken as int + 1).drop_last() =~= pool.take(taken as int));
            assert(pool.take(taken as int + 1).last() == pool[taken as int]);
        }
        let ghost ts0 = eligible_transfers(pool.take(taken as int), prog, table);
        let ghost odv = out.deep_view();
        if !crate::types::contains_transfer(in_progress, &t) {
            match crate::fees::find_entry(conversion_table, &t.gas_fee.token) {
                Some(entry) => {
                    let rate = entry.gwei_per_token;
                    proof {
                        assert(included(t@, prog, table));
                        assert(fee_in_gwei(t@, table) == t@.gas_fee.amount.as_nat() * rate);
                    }
                    let product = match t.gas_fee.amount.mul_u64(rate) {
                        Some(p) => p,
                        None => {
                            proof {
                                assert(cost_overflows(pool[taken as int], table));
                            }
                            return Halt::Halted;
                        },
                    };
                    let converted = match I256::try_from_u256(&product) {
                        Some(c) => c,
                        None => {
                            proof {
                                assert(cost_overflows(pool[taken as int], table));
                            }
                            return Halt::Halted;
                        },
                    };
                    let cost = match crate::fees::transfer_fee().checked_sub(&converted) {
                        Some(c) => c,
                        None => {
                            proof {
                                converted.lemma_sign();
                                assert(false);
                            }
                            I256::zero()
                        },
                    };
                    let hash = t.keccak256().to_string();
                    let ghost tv = t@;
                    let ghost hv = hash@;
                    let ghost erv = EligibleRecommendationView {
                        pending_transfer: tv,
                        transfer_hash: hv,
                        cost: cost,
                    };
                    proof {
                        assert(hv == transfer_hash_str(tv));
                        assert(cost.as_int() == transfer_cost(tv, table));
                    }
                    let ghost out0 = out@;
                    out.push(EligibleRecommendation {
                        pending_transfer: t,
                        transfer_hash: hash,
                        cost,
                    });
                    proof {
                        assert forall|k: int| 0 <= k < out.deep_view().len() implies
                            out.deep_view()[k] == odv.push(erv)[k] by {
                            if k < out0.len() {
                                assert(out@[k] == out0[k]);
                                assert(odv[k] == out0[k]@);
                            } else {
                                assert(out@[k]@ == erv);
                            }
                        }
                        assert(out.deep_view() =~= odv.push(erv));
                        assert(eligible_transfers(pool.take(taken as int + 1), prog, table) =~= ts0
                            + seq![tv]);
                        assert(is_eligible_annotation(
                            out.deep_view(),
                            pool.take(taken as int + 1),
                            prog,
                            table,
                        ));
                    }
                },
                None => {
                    proof {
                        assert(!included(pool[taken as int], prog, table));
                        assert(eligible_transfers(pool.take(taken as int + 1), prog, table)
                            =~= ts0);
                    }
                },
            }
        } else {
            proof {
                assert(!included(pool[taken as int], prog, table));
                assert(eligible_transfers(pool.take(taken as int + 1), prog, table) =~= ts0);
            }
        }
        taken = taken + 1;
    }
    proof {
        assert(pool.take(taken as int) =~= pool);
        if eligibility_halts(pool, prog, table) {
            let i = choose|i: int|
                0 <= i < pool.len() && included(pool[i], prog, table) && cost_overflows(
                    pool[i],
                    table,
                );
            assert(false);
        }
    }
    Halt::Proceed(out)
}

/// Whether `r` is the outcome the sweep prescribes for the sorted
/// annotated contents: halted when a value left the 256-bit ranges, the
/// summary of a feasible non-empty sweep, and no batch otherwise.
pub open spec fn batch_outcome_matches(
    r: Halt<Option<SweepSummary>>,
    contents: Seq<EligibleRecommendationView>,
    table: ConversionTableView,
    validator_gas: int,
    max_gas: int,
    max_cost: int,
) -> bool {
    match sweep_result(sort_by_cost(contents), table, validator_gas, max_gas, max_cost) {
        None => r is Halted,
        Some(st) => if st.feasible_region && st.recommendation.len() > 0 {
            r is Proceed && (r->Proceed_0) is Some && (r->Proceed_0)->Some_0.reports(st)
        } else {
            r is Proceed && (r->Proceed_0) is None
        },
    }
}

/// Recommends the most economical batch of transfers to relay.
///
/// The validator gas charges one signature fee per signature check a
/// quorum needs and one valset fee per validator. The signed pool is
/// annotated with net relay costs, sorted most-profitable first, and
/// swept under the gas ceiling (`max_gas`, unbounded when absent) and
/// the cost ceiling (`gas`, zero — greedy mode — when absent).
pub fn recommend_batch(
    voting_powers: &Vec<(EthAddrBook, U256)>,
    signatures: &Vec<EthAddrBook>,
    in_progress: &Vec<PendingTransfer>,
    signed_pool: Vec<PendingTransfer>,
    conversion_table: &ConversionTable,
    max_gas: Option<u64>,
    gas: Option<u64>,
) -> (r: Halt<Option<SweepSummary>>)
    requires
        3 * sum_powers(voting_powers.deep_view()) < u256_bound(),
    ensures
        ({
            let pool = signed_pool.deep_view();
            let prog = in_progress.deep_view();
            let table = conversion_table.deep_view();
            let vg = 24_500 * quorum_count(
                sort_desc(signer_powers(voting_powers.deep_view(), signatures.deep_view())),
                0,
                sum_powers(voting_powers.deep_view()),
            ) + 2_000 * voting_powers.deep_view().len();
            let mg = match max_gas {
                Some(g) => g as int,
                None => u256_bound() - 1,
            };
            let mc = match gas {
                Some(g) => g as int,
                None => 0,
            };
            &&& (eligibility_halts(pool, prog, table) ==> r is Halted)
            &&& (!eligibility_halts(pool, prog, table)
                ==> exists|contents: Seq<EligibleRecommendationView>|
                #[trigger] is_eligible_annotation(contents, pool, prog, table)
                    && batch_outcome_matches(r, contents, table, vg, mg, mc))
        }),
{
    let valset_len = voting_powers.len();
    let checks = signature_checks(voting_powers, signatures);
    proof {
        assert(checks.as_nat() <= valset_len);
        assert(checks.as_nat() * 24_500 < u256_bound()) by (nonlinear_arith)
            requires
                0 <= checks.as_nat() <= 0xffff_ffff_ffff_ffffu64,
        ;
        assert((valset_len as u64) * 2_000 < u256_bound()) by (nonlinear_arith)
            requires
                0 <= valset_len as u64 <= 0xffff_ffff_ffff_ffffu64,
        ;
    }
    let sig_gas = match checks.mul_u64(24_500) {
        Some(g) => g,
        None => {
            proof {
                assert(false);
            }
            U256::zero()
        },
    };
    let valset_gas = match U256::from_u64(valset_len as u64).mul_u64(2_000) {
        Some(g) => g,
        None => {
            proof {
                assert(false);
            }
            U256::zero()
        },
    };
    proof {
        assert(sig_gas.as_nat() + valset_gas.as_nat() < u256_bound()) by (nonlinear_arith)
            requires
                sig_gas.as_nat() == checks.as_nat() * 24_500,
                valset_gas.as_nat() == (valset_len as u64) * 2_000,
                0 <= checks.as_nat() <= 0xffff_ffff_ffff_ffffu64,
                0 <= valset_len as u64 <= 0xffff_ffff_ffff_ffffu64,
        ;
    }
    let validator_gas = match sig_gas.checked_add(&valset_gas) {
        Some(g) => g,
        None => {
            proof {
                assert(false);
            }
            U256::zero()
        },
    };
    proof {
        assert(validator_gas.as_nat() as int == 24_500 * quorum_count(
            sort_desc(signer_powers(voting_powers.deep_view(), signatures.deep_view())),
            0,
            sum_powers(voting_powers.deep_view()),
        ) + 2_000 * voting_powers.deep_view().len()) by (nonlinear_arith)
            requires
                sig_gas.as_nat() == checks.as_nat() * 24_500,
                valset_gas.as_nat() == (valset_len as nat) * 2_000,
                validator_gas.as_nat() == sig_gas.as_nat() + valset_gas.as_nat(),
                checks.as_nat() == quorum_count(
                    sort_desc(signer_powers(voting_powers.deep_view(), signatures.deep_view())),
                    0,
                    sum_powers(voting_powers.deep_view()),
                ),
                valset_len == voting_powers.deep_view().len(),
        ;
    }
    let contents = match compute_eligible(signed_pool, in_progress, conversion_table) {
        Halt::Proceed(c) => c,
        Halt::Halted => {
            return Halt::Halted;
        },
    };
    let ghost witness = contents.deep_view();
    let sorted = crate::eligible::sort_recommendations(contents);
    let max_gas_bound = match max_gas {
        Some(g) => U256::from_u64(g),
        None => U256::max_value(),
    };
    let max_cost = match gas {
        Some(g) => I256::from_u64(g),
        None => I256::zero(),
    };
    match run_sweep(sorted, conversion_table, validator_gas, max_gas_bound, max_cost) {
        Halt::Halted => Halt::Halted,
        Halt::Proceed(out) => {
            if out.state.feasible_region && out.recommendation.len() > 0 {
                Halt::Proceed(Some(out))
            } else {
                Halt::Proceed(None)
            }
        },
    }
}

} // verus!
