//! The batch optimizer: a two-mode monotone sweep over cost-sorted
//! candidates that recommends the most economical batch of transfers to
//! relay, under a gas ceiling and a cost ceiling.

use vstd::prelude::*;

use crate::control::Halt;
use crate::eligible::{EligibleRecommendation, EligibleRecommendationView};
use crate::fees::{fee_key, ConversionTable, ConversionTableView};
use crate::num256::{i256_bound, u256_bound, I256, U256};
use crate::types::PendingTransfer;

verus! {

/// The state of the sweep across candidates.
pub struct AlgorithmState {
    /// Still scanning transfers that increase the relayer's net profit.
    pub profitable: bool,
    /// Some scanned prefix satisfies both the gas and the cost ceiling.
    pub feasible_region: bool,
}

/// The two recommendation strategies: `Greedy` keeps only profitable
/// transfers, `Generous` also accepts unprofitable ones while the
/// ceilings hold. The mode is `Greedy` exactly when the caller accepts
/// no positive total cost.
#[derive(Clone, Copy, PartialEq, Eq, Structural, Debug)]
pub enum AlgorithmMode {
    Greedy,
    Generous,
}

/// The ghost state of a sweep: what has been recommended so far, the
/// running totals, the flags, and how many candidates were consumed.
pub struct SweepState {
    pub recommendation: Seq<Seq<char>>,
    pub total_gas: int,
    pub total_cost: int,
    pub total_fees: Map<Seq<char>, int>,
    pub profitable: bool,
    pub feasible_region: bool,
    pub consumed: int,
}

/// The sweep state before any candidate is considered: the running gas
/// and cost both start at the validator set's verification gas.
pub open spec fn sweep_init(validator_gas: int) -> SweepState {
    SweepState {
        recommendation: Seq::empty(),
        total_gas: validator_gas,
        total_cost: validator_gas,
        total_fees: Map::empty(),
        profitable: true,
        feasible_region: false,
        consumed: 0,
    }
}

/// Accepts one candidate: appends its hash, commits the stepped totals,
/// and merges its gas fee into the running totals under the token's fee
/// key. `None` when the fee total leaves the unsigned 256-bit range.
pub open spec fn sweep_take(
    acc: SweepState,
    e: EligibleRecommendationView,
    table: ConversionTableView,
    next_gas: int,
    next_cost: int,
    profitable: bool,
    feasible_region: bool,
) -> Option<SweepState> {
    let key = fee_key(table, e.pending_transfer.gas_fee.token);
    let prev = if acc.total_fees.dom().contains(key) {
        acc.total_fees[key]
    } else {
        0
    };
    let amount = e.pending_transfer.gas_fee.amount.as_nat() as int;
    if prev + amount >= u256_bound() {
        None
    } else {
        Some(
            SweepState {
                recommendation: acc.recommendation.push(e.transfer_hash),
                total_gas: next_gas,
                total_cost: next_cost,
                total_fees: acc.total_fees.insert(key, prev + amount),
                profitable,
                feasible_region,
                consumed: acc.consumed + 1,
            },
        )
    }
}

/// The monotone sweep over cost-sorted candidates.
///
/// For each candidate the stepped totals are computed first; a value
/// outside the 256-bit ranges stops the whole run (`None`). A profitable
/// candidate is always appended, and marks the region feasible when the
/// stepped totals satisfy both ceilings; once the feasible region has
/// been entered, the first candidate that would leave it ends the sweep.
/// An unprofitable candidate is appended only in `Generous` mode, under
/// the same exit rule; in `Greedy` mode it ends the sweep at once.
pub open spec fn sweep(
    contents: Seq<EligibleRecommendationView>,
    table: ConversionTableView,
    max_gas: int,
    max_cost: int,
    generous: bool,
    acc: SweepState,
) -> Option<SweepState>
    decreases contents.len(),
{
    if contents.len() == 0 {
        Some(acc)
    } else {
        let e = contents[0];
        let cost = e.cost.as_int();
        let next_gas = acc.total_gas + 37_500;
        let next_cost = acc.total_cost + cost;
        if next_gas >= u256_bound() || next_cost < -i256_bound() || next_cost >= i256_bound() {
            None
        } else {
            let fits = next_gas <= max_gas && next_cost <= max_cost;
            if cost < 0 {
                if !fits && acc.feasible_region {
                    Some(acc)
                } else {
                    match sweep_take(acc, e, table, next_gas, next_cost, acc.profitable, fits
                        || acc.feasible_region) {
                        None => None,
                        Some(acc2) => sweep(
                            contents.drop_first(),
                            table,
                            max_gas,
                            max_cost,
                            generous,
                            acc2,
                        ),
                    }
                }
            } else if generous {
                if acc.feasible_region && !fits {
                    Some(SweepState { profitable: false, ..acc })
                } else {
                    match sweep_take(acc, e, table, next_gas, next_cost, false,
                        acc.feasible_region) {
                        None => None,
                        Some(acc2) => sweep(
                            contents.drop_first(),
                            table,
                            max_gas,
                            max_cost,
                            generous,
                            acc2,
                        ),
                    }
                }
            } else {
                Some(acc)
            }
        }
    }
}

/// The ghost contents of a fee total list: token key to gwei total.
pub open spec fn fees_view(s: Seq<(Seq<char>, U256)>) -> Map<Seq<char>, int>
    decreases s.len(),
{
    if s.len() == 0 {
        Map::empty()
    } else {
        fees_view(s.drop_last()).insert(s.last().0, s.last().1.as_nat() as int)
    }
}

/// Each fee key occurs at most once in the list.
pub open spec fn fees_keys_unique(s: Seq<(Seq<char>, U256)>) -> bool {
    forall|i: int, j: int| 0 <= i < j < s.len() ==> s[i].0 != s[j].0
}

/// The fee map contains exactly the keys of the list.
proof fn lemma_fees_view_contains(s: Seq<(Seq<char>, U256)>, key: Seq<char>)
    ensures
        fees_view(s).dom().contains(key) <==> exists|i: int| 0 <= i < s.len() && s[i].0 == key,
    decreases s.len(),
{
    if s.len() > 0 {
        lemma_fees_view_contains(s.drop_last(), key);
        if fees_view(s).dom().contains(key) {
            if s.last().0 != key {
                let i = choose|i: int| 0 <= i < s.drop_last().len() && s.drop_last()[i].0 == key;
                assert(s[i].0 == key);
            }
        }
        if exists|i: int| 0 <= i < s.len() && s[i].0 == key {
            let i = choose|i: int| 0 <= i < s.len() && s[i].0 == key;
            if i < s.len() - 1 {
                assert(s.drop_last()[i].0 == key);
            }
        }
    }
}

/// With unique keys, the fee map's value at a key is the listed value.
proof fn lemma_fees_view_at(s: Seq<(Seq<char>, U256)>, k: int)
    requires
        fees_keys_unique(s),
        0 <= k < s.len(),
    ensures
        fees_view(s).dom().contains(s[k].0),
        fees_view(s)[s[k].0] == s[k].1.as_nat() as int,
    decreases s.len(),
{
    if k < s.len() - 1 {
        assert(fees_keys_unique(s.drop_last()));
        assert(s.drop_last()[k] == s[k]);
        lemma_fees_view_at(s.drop_last(), k);
        assert(s.last().0 != s[k].0);
    }
}

/// With unique keys, overwriting the listed value at one key updates the
/// fee map at exactly that key.
proof fn lemma_fees_view_update(s: Seq<(Seq<char>, U256)>, k: int, v: U256)
    requires
        fees_keys_unique(s),
        0 <= k < s.len(),
    ensures
        fees_view(s.update(k, (s[k].0, v))) =~= fees_view(s).insert(s[k].0, v.as_nat() as int),
        fees_keys_unique(s.update(k, (s[k].0, v))),
    decreases s.len(),
{
    let t = s.update(k, (s[k].0, v));
    if k == s.len() - 1 {
        assert(t.drop_last() =~= s.drop_last());
        assert(t.last() == (s[k].0, v));
    } else {
        assert(fees_keys_unique(s.drop_last()));
        assert(s.drop_last()[k] == s[k]);
        lemma_fees_view_update(s.drop_last(), k, v);
        assert(t.drop_last() =~= s.drop_last().update(k, (s[k].0, v)));
        assert(t.last() == s.last());
        assert(s.last().0 != s[k].0);
    }
}

/// Merges a transfer's gas fee amount into the running fee totals, keyed
/// by the token's alias when the conversion table knows the token and by
/// the token's own text otherwise. Returns `false` when the total would
/// leave the unsigned 256-bit range; the totals are unchanged then.
pub fn update_total_fees(
    total_fees: &mut Vec<(String, U256)>,
    transfer: &PendingTransfer,
    conversion_table: &ConversionTable,
) -> (ok: bool)
    requires
        fees_keys_unique(old(total_fees).deep_view()),
    ensures
        fees_keys_unique(final(total_fees).deep_view()),
        ({
            let key = fee_key(conversion_table.deep_view(), transfer@.gas_fee.token);
            let prev = if fees_view(old(total_fees).deep_view()).dom().contains(key) {
                fees_view(old(total_fees).deep_view())[key]
            } else {
                0
            };
            let amount = transfer@.gas_fee.amount.as_nat() as int;
            if prev + amount >= u256_bound() {
                !ok && final(total_fees).deep_view() == old(total_fees).deep_view()
            } else {
                ok && fees_view(final(total_fees).deep_view()) == fees_view(
                    old(total_fees).deep_view(),
                ).insert(key, prev + amount)
            }
        }),
{
    merge_gas_fee(total_fees, &transfer.gas_fee, conversion_table)
}

/// Merges one gas fee into the running fee totals; see
/// [`update_total_fees`] for the keying and overflow behaviour.
pub fn merge_gas_fee(
    total_fees: &mut Vec<(String, U256)>,
    fee: &crate::types::GasFee,
    conversion_table: &ConversionTable,
) -> (ok: bool)
    requires
        fees_keys_unique(old(total_fees).deep_view()),
    ensures
        fees_keys_unique(final(total_fees).deep_view()),
        ({
            let key = fee_key(conversion_table.deep_view(), fee@.token);
            let prev = if fees_view(old(total_fees).deep_view()).dom().contains(key) {
                fees_view(old(total_fees).deep_view())[key]
            } else {
                0
            };
            let amount = fee@.amount.as_nat() as int;
            if prev + amount >= u256_bound() {
                !ok && final(total_fees).deep_view() == old(total_fees).deep_view()
            } else {
                ok && fees_view(final(total_fees).deep_view()) == fees_view(
                    old(total_fees).deep_view(),
                ).insert(key, prev + amount)
            }
        }),
{
    let ghost fdv = total_fees.deep_view();
    let ghost key = fee_key(conversion_table.deep_view(), fee@.token);
    let token_key: String = match crate::fees::find_entry(conversion_table, &fee.token) {
        Some(entry) => entry.alias.clone(),
        None => fee.token.text.clone(),
    };
    proof {
        assert(token_key@ == key);
    }
    match find_fee_index(total_fees, &token_key) {
        Some(i) => {
            let prev = total_fees[i].1;
            proof {
                assert(fdv[i as int].1 == total_fees@[i as int].1);
                lemma_fees_view_at(fdv, i as int);
                lemma_fees_view_contains(fdv, key);
                assert(prev.as_nat() == fees_view(fdv)[key]);
            }
            match prev.checked_add(&fee.amount) {
                Some(next) => {
                    proof {
                        next.lemma_as_nat_bound();
                    }
                    total_fees[i] = (token_key.clone(), next);
                    proof {
                        assert(total_fees.deep_view() =~= fdv.update(i as int, (key, next)));
                        lemma_fees_view_update(fdv, i as int, next);
                    }
                    true
                },
                None => false,
            }
        },
        None => {
            proof {
                lemma_fees_view_contains(fdv, key);
                assert(!fees_view(fdv).dom().contains(key));
            }
            let amount = fee.amount;
            total_fees.push((token_key, amount));
            proof {
                assert(total_fees.deep_view() =~= fdv.push((key, amount)));
                assert(total_fees.deep_view().drop_last() =~= fdv);
                assert(fees_keys_unique(total_fees.deep_view()));
            }
            true
        },
    }
}

/// The outcome the sweep actually produced when `None` means the run
/// halted on a value outside the 256-bit ranges.
pub open spec fn sweep_result(
    contents: Seq<EligibleRecommendationView>,
    table: ConversionTableView,
    validator_gas: int,
    max_gas: int,
    max_cost: int,
) -> Option<SweepState> {
    if validator_gas >= i256_bound() {
        None
    } else {
        sweep(contents, table, max_gas, max_cost, max_cost > 0, sweep_init(validator_gas))
    }
}

/// What a finished sweep hands back: the recommended hashes in order,
/// the running totals, the fee breakdown and the final flags.
pub struct SweepSummary {
    pub recommendation: Vec<String>,
    pub total_gas: U256,
    pub total_cost: I256,
    pub total_fees: Vec<(String, U256)>,
    pub state: AlgorithmState,
}

impl SweepSummary {
    /// Whether this summary reports exactly the ghost sweep state `st`.
    pub open spec fn reports(&self, st: SweepState) -> bool {
        &&& self.recommendation.deep_view() == st.recommendation
        &&& self.total_gas.as_nat() as int == st.total_gas
        &&& self.total_cost.as_int() == st.total_cost
        &&& fees_view(self.total_fees.deep_view()) == st.total_fees
        &&& fees_keys_unique(self.total_fees.deep_view())
        &&& self.state.profitable == st.profitable
        &&& self.state.feasible_region == st.feasible_region
    }
}

/// Runs the sweep over the given candidates, which the caller has sorted
/// by ascending cost. Halts when the validator gas exceeds the signed
/// range or any running total leaves its 256-bit range.
pub fn run_sweep(
    contents: Vec<EligibleRecommendation>,
    conversion_table: &ConversionTable,
    validator_gas: U256,
    max_gas: U256,
    max_cost: I256,
) -> (r: Halt<SweepSummary>)
    ensures
        ({
            let m = sweep_result(
                contents.deep_view(),
                conversion_table.deep_view(),
                validator_gas.as_nat() as int,
                max_gas.as_nat() as int,
                max_cost.as_int(),
            );
            match r {
                Halt::Halted => m is None,
                Halt::Proceed(out) => m is Some && out.reports(m->Some_0),
            }
        }),
{
    let ghost cdv = contents.deep_view();
    let ghost tdv = conversion_table.deep_view();
    let ghost mg = max_gas.as_nat() as int;
    let ghost mc = max_cost.as_int();
    let ghost vg = validator_gas.as_nat() as int;

    let mut state = AlgorithmState { profitable: true, feasible_region: false };
    let zero = I256::zero();
    let mode = if max_cost.le(&zero) {
        AlgorithmMode::Greedy
    } else {
        AlgorithmMode::Generous
    };
    let ghost gen = mc > 0;

    let mut total_gas = validator_gas;
    let mut total_cost = match I256::try_from_u256(&validator_gas) {
        Some(c) => c,
        None => {
            return Halt::Halted;
        },
    };
    let mut total_fees: Vec<(String, U256)> = Vec::new();
    let mut recommendation: Vec<String> = Vec::new();
    let mut rem = contents;
    let ghost mut consumed: int = 0;

    proof {
        assert(rem.deep_view() =~= cdv);
        assert(recommendation.deep_view() =~= Seq::<Seq<char>>::empty());
        assert(fees_view(total_fees.deep_view()) =~= Map::<Seq<char>, int>::empty());
    }

    while rem.len() > 0
        invariant_except_break
            sweep(cdv, tdv, mg, mc, gen, sweep_init(vg)) == sweep(
                rem.deep_view(),
                tdv,
                mg,
                mc,
                gen,
                SweepState {
                    recommendation: recommendation.deep_view(),
                    total_gas: total_gas.as_nat() as int,
                    total_cost: total_cost.as_int(),
                    total_fees: fees_view(total_fees.deep_view()),
                    profitable: state.profitable,
                    feasible_region: state.feasible_region,
                    consumed: consumed,
                },
            ),
        invariant
            cdv == contents.deep_view(),
            tdv == conversion_table.deep_view(),
            mg == max_gas.as_nat() as int,
            mc == max_cost.as_int(),
            vg == validator_gas.as_nat() as int,
            gen == (mc > 0),
            vg < i256_bound(),
            fees_keys_unique(total_fees.deep_view()),
            gen == (mode == AlgorithmMode::Generous),
        ensures
            sweep(cdv, tdv, mg, mc, gen, sweep_init(vg)) == Some(
                SweepState {
                    recommendation: recommendation.deep_view(),
                    total_gas: total_gas.as_nat() as int,
                    total_cost: total_cost.as_int(),
                    total_fees: fees_view(total_fees.deep_view()),
                    profitable: state.profitable,
                    feasible_region: state.feasible_region,
                    consumed: consumed,
                },
            ),
        decreases rem.len(),
    {
        let ghost rdv0 = rem.deep_view();
        let ghost rem0 = rem@;
        let ghost cur = SweepState {
            recommendation: recommendation.deep_view(),
            total_gas: total_gas.as_nat() as int,
            total_cost: total_cost.as_int(),
            total_fees: fees_view(total_fees.deep_view()),
            profitable: state.profitable,
            feasible_region: state.feasible_region,
            consumed: consumed,
        };
        let e = rem.remove(0);
        proof {
            assert(rdv0[0] == rem0[0].deep_view());
            assert(e@ == rdv0[0]);
            assert(rem@ =~= rem0.skip(1));
            assert forall|k: int| 0 <= k < rem.deep_view().len() implies rem.deep_view()[k]
                == rdv0.drop_first()[k] by {
                assert(rem.deep_view()[k] == rem@[k].deep_view());
                assert(rem@[k] == rem0[k + 1]);
                assert(rdv0[k + 1] == rem0[k + 1].deep_view());
            }
            assert(rem.deep_view() =~= rdv0.drop_first());
        }
        let transfer_fee_step = crate::fees::unsigned_transfer_fee();
        let next_gas = match total_gas.checked_add(&transfer_fee_step) {
            Some(g) => g,
            None => {
                return Halt::Halted;
            },
        };
        let next_cost = match total_cost.checked_add(&e.cost) {
            Some(c) => c,
            None => {
                proof {
                    total_cost.lemma_sign();
                    e.cost.lemma_sign();
                }
                return Halt::Halted;
            },
        };
        proof {
            next_gas.lemma_as_nat_bound();
            next_cost.lemma_sign();
        }
        let fits = next_gas.le(&max_gas) && next_cost.le(&max_cost);
        let profitable_item = e.cost.is_negative();
        if profitable_item {
            if fits {
                state.feasible_region = true;
            } else if state.feasible_region {
                break;
            }
        } else if mode == AlgorithmMode::Generous {
            state.profitable = false;
            if state.feasible_region && !fits {
                break;
            }
        } else {
            break;
        }
        // the candidate is taken: merge its fee and commit the totals
        let ghost feas2 = if profitable_item {
            fits || cur.feasible_region
        } else {
            cur.feasible_region
        };
        let ghost prof2 = if profitable_item {
            cur.profitable
        } else {
            false
        };
        if !update_total_fees(&mut total_fees, &e.pending_transfer, conversion_table) {
            return Halt::Halted;
        }
        recommendation.push(e.transfer_hash);
        proof {
            assert(recommendation.deep_view() =~= cur.recommendation.push(rdv0[0].transfer_hash));
            assert(sweep_take(cur, rdv0[0], tdv, next_gas.as_nat() as int,
                next_cost.as_int(), prof2, feas2) == Some(
                SweepState {
                    recommendation: recommendation.deep_view(),
                    total_gas: next_gas.as_nat() as int,
                    total_cost: next_cost.as_int(),
                    total_fees: fees_view(total_fees.deep_view()),
                    profitable: prof2,
                    feasible_region: feas2,
                    consumed: consumed + 1,
                },
            ));
        }
        total_gas = next_gas;
        total_cost = next_cost;
        proof {
            consumed = consumed + 1;
        }
    }

    proof {
        assert(rem.deep_view().len() == rem@.len());
    }
    Halt::Proceed(
        SweepSummary {
            recommendation,
            total_gas,
            total_cost,
            total_fees,
            state,
        },
    )
}

/// What `generate` returns: `None` when the run halts on a value outside
/// the 256-bit ranges; otherwise the recommended hashes exactly when the
/// sweep both entered the feasible region and recommended something.
pub open spec fn generate_spec(
    contents: Seq<EligibleRecommendationView>,
    table: ConversionTableView,
    validator_gas: int,
    max_gas: int,
    max_cost: int,
) -> Option<Option<Seq<Seq<char>>>> {
    match sweep_result(contents, table, validator_gas, max_gas, max_cost) {
        None => None,
        Some(st) => Some(
            if st.feasible_region && st.recommendation.len() > 0 {
                Some(st.recommendation)
            } else {
                None
            },
        ),
    }
}

/// Generates the recommendation from the restrictions given by the input
/// parameters: the candidates are swept in the order given — the caller
/// sorts them by ascending cost — and the batch is emitted only when the
/// sweep entered the feasible region and recommended at least one hash.
pub fn generate(
    contents: Vec<EligibleRecommendation>,
    conversion_table: &ConversionTable,
    validator_gas: U256,
    max_gas: U256,
    max_cost: I256,
) -> (r: Halt<Option<Vec<String>>>)
    ensures
        ({
            let g = generate_spec(
                contents.deep_view(),
                conversion_table.deep_view(),
                validator_gas.as_nat() as int,
                max_gas.as_nat() as int,
                max_cost.as_int(),
            );
            match r {
                Halt::Halted => g is None,
                Halt::Proceed(opt) => match opt {
                    Some(v) => g == Some(Some(v.deep_view())),
                    None => g == Some(None::<Seq<Seq<char>>>),
                },
            }
        }),
{
    match run_sweep(contents, conversion_table, validator_gas, max_gas, max_cost) {
        Halt::Halted => Halt::Halted,
        Halt::Proceed(out) => {
            if out.state.feasible_region && out.recommendation.len() > 0 {
                Halt::Proceed(Some(out.recommendation))
            } else {
                Halt::Proceed(None)
            }
        },
    }
}

/// The sweep consumes candidates in order: the consumed counter never
/// decreases and never exceeds the candidates available.
pub proof fn lemma_sweep_consumed(
    contents: Seq<EligibleRecommendationView>,
    table: ConversionTableView,
    max_gas: int,
    max_cost: int,
    generous: bool,
    acc: SweepState,
)
    requires
        sweep(contents, table, max_gas, max_cost, generous, acc) is Some,
    ensures
        acc.consumed <= sweep(contents, table, max_gas, max_cost, generous, acc)->Some_0.consumed
            <= acc.consumed + contents.len(),
    decreases contents.len(),
{
    if contents.len() > 0 {
        let e = contents[0];
        let cost = e.cost.as_int();
        let next_gas = acc.total_gas + 37_500;
        let next_cost = acc.total_cost + cost;
        if !(next_gas >= u256_bound() || next_cost < -i256_bound() || next_cost >= i256_bound()) {
            let fits = next_gas <= max_gas && next_cost <= max_cost;
            if cost < 0 && !(!fits && acc.feasible_region) {
                let acc2 = sweep_take(acc, e, table, next_gas, next_cost, acc.profitable, fits
                    || acc.feasible_region);
                if acc2 is Some {
                    lemma_sweep_consumed(
                        contents.drop_first(),
                        table,
                        max_gas,
                        max_cost,
                        generous,
                        acc2->Some_0,
                    );
                }
            } else if cost >= 0 && generous && !(acc.feasible_region && !fits) {
                let acc2 = sweep_take(acc, e, table, next_gas, next_cost, false,
                    acc.feasible_region);
                if acc2 is Some {
                    lemma_sweep_consumed(
                        contents.drop_first(),
                        table,
                        max_gas,
                        max_cost,
                        generous,
                        acc2->Some_0,
                    );
                }
            }
        }
    }
}

/// The hashes of the first `n` candidates, in order.
pub open spec fn hashes_of(contents: Seq<EligibleRecommendationView>, n: int) -> Seq<Seq<char>> {
    contents.take(n).map_values(|e: EligibleRecommendationView| e.transfer_hash)
}

/// The sweep recommends exactly the consumed candidates: its output
/// extends the starting recommendation with one hash per consumed
/// candidate, in candidate order. In particular, when the candidates'
/// hashes are distinct — as they are for a pool keyed by digest — each
/// recommended hash appears at most once.
pub proof fn lemma_sweep_recommendation(
    contents: Seq<EligibleRecommendationView>,
    table: ConversionTableView,
    max_gas: int,
    max_cost: int,
    generous: bool,
    acc: SweepState,
)
    requires
        sweep(contents, table, max_gas, max_cost, generous, acc) is Some,
    ensures
        ({
            let out = sweep(contents, table, max_gas, max_cost, generous, acc)->Some_0;
            out.recommendation =~= acc.recommendation + hashes_of(
                contents,
                out.consumed - acc.consumed,
            )
        }),
    decreases contents.len(),
{
    let out = sweep(contents, table, max_gas, max_cost, generous, acc)->Some_0;
    if contents.len() == 0 {
        assert(hashes_of(contents, 0) =~= Seq::<Seq<char>>::empty());
        assert(acc.recommendation + Seq::<Seq<char>>::empty() =~= acc.recommendation);
    } else {
        let e = contents[0];
        let cost = e.cost.as_int();
        let next_gas = acc.total_gas + 37_500;
        let next_cost = acc.total_cost + cost;
        assert(!(next_gas >= u256_bound() || next_cost < -i256_bound() || next_cost
            >= i256_bound()));
        let fits = next_gas <= max_gas && next_cost <= max_cost;
        let rest = contents.drop_first();
        if cost < 0 && !(!fits && acc.feasible_region) {
            let acc2 = sweep_take(acc, e, table, next_gas, next_cost, acc.profitable, fits
                || acc.feasible_region)->Some_0;
            lemma_sweep_consumed(rest, table, max_gas, max_cost, generous, acc2);
            lemma_sweep_recommendation(rest, table, max_gas, max_cost, generous, acc2);
            assert(acc2.recommendation =~= acc.recommendation + seq![e.transfer_hash]);
            assert(hashes_of(contents, out.consumed - acc.consumed) =~= seq![e.transfer_hash]
                + hashes_of(rest, out.consumed - acc2.consumed));
        } else if cost >= 0 && generous && !(acc.feasible_region && !fits) {
            let acc2 = sweep_take(acc, e, table, next_gas, next_cost, false,
                acc.feasible_region)->Some_0;
            lemma_sweep_consumed(rest, table, max_gas, max_cost, generous, acc2);
            lemma_sweep_recommendation(rest, table, max_gas, max_cost, generous, acc2);
            assert(acc2.recommendation =~= acc.recommendation + seq![e.transfer_hash]);
            assert(hashes_of(contents, out.consumed - acc.consumed) =~= seq![e.transfer_hash]
                + hashes_of(rest, out.consumed - acc2.consumed));
        } else {
            assert(out.consumed == acc.consumed);
            assert(hashes_of(contents, 0) =~= Seq::<Seq<char>>::empty());
            assert(acc.recommendation + Seq::<Seq<char>>::empty() =~= acc.recommendation);
        }
    }
}

/// A recommended hash appears at most once in the output: a sweep over
/// candidates with pairwise distinct hashes — as a pool keyed by digest
/// provides — recommends pairwise distinct hashes.
pub proof fn lemma_recommendation_no_duplicates(
    contents: Seq<EligibleRecommendationView>,
    table: ConversionTableView,
    max_gas: int,
    max_cost: int,
    generous: bool,
    validator_gas: int,
)
    requires
        sweep(contents, table, max_gas, max_cost, generous, sweep_init(validator_gas)) is Some,
        forall|i: int, j: int|
            0 <= i < j < contents.len() ==> contents[i].transfer_hash
                != contents[j].transfer_hash,
    ensures
        ({
            let out = sweep(
                contents,
                table,
                max_gas,
                max_cost,
                generous,
                sweep_init(validator_gas),
            )->Some_0;
            forall|i: int, j: int|
                0 <= i < j < out.recommendation.len() ==> out.recommendation[i]
                    != out.recommendation[j]
        }),
{
    let acc = sweep_init(validator_gas);
    let out = sweep(contents, table, max_gas, max_cost, generous, acc)->Some_0;
    lemma_sweep_consumed(contents, table, max_gas, max_cost, generous, acc);
    lemma_sweep_recommendation(contents, table, max_gas, max_cost, generous, acc);
    let n = out.consumed;
    assert(out.recommendation =~= hashes_of(contents, n));
    assert forall|i: int, j: int|
        0 <= i < j < out.recommendation.len() implies out.recommendation[i]
        != out.recommendation[j] by {
        assert(out.recommendation[i] == contents.take(n)[i].transfer_hash);
        assert(out.recommendation[j] == contents.take(n)[j].transfer_hash);
        assert(contents.take(n)[i] == contents[i]);
        assert(contents.take(n)[j] == contents[j]);
    }
}

/// Once the sweep has entered the feasible region it never leaves it:
/// a sweep started with the flag set finishes with the flag set.
pub proof fn lemma_feasible_region_monotone(
    contents: Seq<EligibleRecommendationView>,
    table: ConversionTableView,
    max_gas: int,
    max_cost: int,
    generous: bool,
    acc: SweepState,
)
    requires
        acc.feasible_region,
        sweep(contents, table, max_gas, max_cost, generous, acc) is Some,
    ensures
        sweep(contents, table, max_gas, max_cost, generous, acc)->Some_0.feasible_region,
    decreases contents.len(),
{
    if contents.len() > 0 {
        let e = contents[0];
        let cost = e.cost.as_int();
        let next_gas = acc.total_gas + 37_500;
        let next_cost = acc.total_cost + cost;
        if !(next_gas >= u256_bound() || next_cost < -i256_bound() || next_cost >= i256_bound()) {
            let fits = next_gas <= max_gas && next_cost <= max_cost;
            if cost < 0 && !(!fits && acc.feasible_region) {
                let acc2 = sweep_take(acc, e, table, next_gas, next_cost, acc.profitable, fits
                    || acc.feasible_region);
                if acc2 is Some {
                    lemma_feasible_region_monotone(
                        contents.drop_first(),
                        table,
                        max_gas,
                        max_cost,
                        generous,
                        acc2->Some_0,
                    );
                }
            } else if cost >= 0 && generous && !(acc.feasible_region && !fits) {
                let acc2 = sweep_take(acc, e, table, next_gas, next_cost, false,
                    acc.feasible_region);
                if acc2 is Some {
                    lemma_feasible_region_monotone(
                        contents.drop_first(),
                        table,
                        max_gas,
                        max_cost,
                        generous,
                        acc2->Some_0,
                    );
                }
            }
        }
    }
}

/// The monotone exit property: when a sweep over cost-sorted candidates
/// ends inside the feasible region but before the candidates run out —
/// other than by the greedy-mode profit rule — the totals at the exit
/// already violate a ceiling for every unseen candidate, so no later
/// candidate could have re-entered the feasible region.
pub proof fn lemma_monotone_exit(
    contents: Seq<EligibleRecommendationView>,
    table: ConversionTableView,
    max_gas: int,
    max_cost: int,
    generous: bool,
    acc: SweepState,
)
    requires
        crate::eligible::sorted_by_cost(contents),
        sweep(contents, table, max_gas, max_cost, generous, acc) is Some,
        ({
            let out = sweep(contents, table, max_gas, max_cost, generous, acc)->Some_0;
            &&& out.consumed - acc.consumed < contents.len()
            &&& out.feasible_region
            &&& (generous || contents[out.consumed - acc.consumed].cost.as_int() < 0)
        }),
    ensures
        ({
            let out = sweep(contents, table, max_gas, max_cost, generous, acc)->Some_0;
            forall|j: int|
                out.consumed - acc.consumed <= j < contents.len() ==> out.total_gas + 37_500
                    > max_gas || out.total_cost + contents[j].cost.as_int() > max_cost
        }),
    decreases contents.len(),
{
    let out = sweep(contents, table, max_gas, max_cost, generous, acc)->Some_0;
    let stop = out.consumed - acc.consumed;
    let e = contents[0];
    let cost = e.cost.as_int();
    let next_gas = acc.total_gas + 37_500;
    let next_cost = acc.total_cost + cost;
    assert(!(next_gas >= u256_bound() || next_cost < -i256_bound() || next_cost >= i256_bound()));
    let fits = next_gas <= max_gas && next_cost <= max_cost;
    if cost < 0 && !(!fits && acc.feasible_region) {
        let acc2 = sweep_take(acc, e, table, next_gas, next_cost, acc.profitable, fits
            || acc.feasible_region)->Some_0;
        let rest = contents.drop_first();
        lemma_sweep_consumed(rest, table, max_gas, max_cost, generous, acc2);
        assert forall|i: int, j: int| 0 <= i <= j < rest.len() implies rest[i].cost.as_int()
            <= rest[j].cost.as_int() by {
            assert(contents[i + 1].cost.as_int() <= contents[j + 1].cost.as_int());
        }
        lemma_monotone_exit(rest, table, max_gas, max_cost, generous, acc2);
        assert forall|j: int|
            stop <= j < contents.len() implies out.total_gas + 37_500 > max_gas || out.total_cost
            + contents[j].cost.as_int() > max_cost by {
            assert(rest[j - 1] == contents[j]);
        }
    } else if cost < 0 {
        // a profitable candidate left the feasible region: the exit point
        assert(out == acc);
        assert(stop == 0);
        assert(next_gas > max_gas || next_cost > max_cost);
        assert forall|j: int|
            stop <= j < contents.len() implies out.total_gas + 37_500 > max_gas || out.total_cost
            + contents[j].cost.as_int() > max_cost by {
            assert(contents[0].cost.as_int() <= contents[j].cost.as_int());
        }
    } else if generous {
        if acc.feasible_region && !fits {
            assert(out == SweepState { profitable: false, ..acc });
            assert(stop == 0);
            assert forall|j: int|
                stop <= j < contents.len() implies out.total_gas + 37_500 > max_gas
                || out.total_cost + contents[j].cost.as_int() > max_cost by {
                assert(contents[0].cost.as_int() <= contents[j].cost.as_int());
            }
        } else {
            let acc2 = sweep_take(acc, e, table, next_gas, next_cost, false,
                acc.feasible_region)->Some_0;
            let rest = contents.drop_first();
            lemma_sweep_consumed(rest, table, max_gas, max_cost, generous, acc2);
            assert forall|i: int, j: int| 0 <= i <= j < rest.len() implies rest[i].cost.as_int()
                <= rest[j].cost.as_int() by {
                assert(contents[i + 1].cost.as_int() <= contents[j + 1].cost.as_int());
            }
            lemma_monotone_exit(rest, table, max_gas, max_cost, generous, acc2);
            assert forall|j: int|
                stop <= j < contents.len() implies out.total_gas + 37_500 > max_gas
                || out.total_cost + contents[j].cost.as_int() > max_cost by {
                assert(rest[j - 1] == contents[j]);
            }
        }
    } else {
        // greedy stop on an unprofitable candidate: excluded by the
        // preconditions, since then contents[0] would not be profitable
        assert(out == acc && stop == 0);
        assert(false);
    }
}

/// The position of a fee key in the running totals, if present.
fn find_fee_index(total_fees: &Vec<(String, U256)>, token_key: &String) -> (r: Option<usize>)
    ensures
        match r {
            Some(i) => i < total_fees.deep_view().len() && total_fees.deep_view()[i as int].0
                == token_key@,
            None => forall|j: int|
                0 <= j < total_fees.deep_view().len() ==> total_fees.deep_view()[j].0 != token_key@,
        },
{
    let ghost fdv = total_fees.deep_view();
    let mut i: usize = 0;
    while i < total_fees.len()
        invariant
            0 <= i <= total_fees@.len(),
            fdv == total_fees.deep_view(),
            fdv.len() == total_fees@.len(),
            forall|j: int| 0 <= j < i ==> fdv[j].0 != token_key@,
        decreases total_fees@.len() - i,
    {
        proof {
            assert(fdv[i as int].0 == total_fees@[i as int].0@);
        }
        if total_fees[i].0 == *token_key {
            return Some(i);
        }
        i = i + 1;
    }
    None
}

} // verus!
