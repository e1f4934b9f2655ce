//! The relay driver's decisions: nonce ordering against the bridge
//! contract, the synchronization gate, the warning on transfers likely
//! already relayed, and the fee summation over proof appendices.

use vstd::prelude::*;

use crate::control::Halt;
use crate::fees::ConversionTable;
use crate::hash::{encode_transfer, keccak_of};
use crate::num256::{u256_bound, U256};
use crate::optimizer::{fees_keys_unique, fees_view, merge_gas_fee};
use crate::types::{GasFee, GasFeeView, PendingTransfer, PendingTransferView};

verus! {

/// How a proof's batch nonce compares with the bridge contract's.
#[derive(Clone, Copy, PartialEq, Eq, Structural, Debug)]
pub enum NonceCheck {
    /// The nonces match: the proof may be submitted.
    Ready,
    /// The contract's nonce is ahead: this batch was already relayed and
    /// the local proof is stale.
    AlreadyRelayed,
    /// The local nonce is ahead of the contract's, which indicates a
    /// divergence on the source chain.
    NonceAhead,
}

/// Compares the decoded proof's batch nonce with the nonce the bridge
/// contract reports. The driver submits only on `Ready`: it never
/// submits when the local nonce differs from the contract's.
pub fn check_batch_nonce(proof_nonce: &U256, contract_nonce: &U256) -> (r: NonceCheck)
    ensures
        (r is Ready) == (proof_nonce.as_nat() == contract_nonce.as_nat()),
        (r is AlreadyRelayed) == (proof_nonce.as_nat() < contract_nonce.as_nat()),
        (r is NonceAhead) == (proof_nonce.as_nat() > contract_nonce.as_nat()),
{
    if proof_nonce.lt(contract_nonce) {
        NonceCheck::AlreadyRelayed
    } else if contract_nonce.lt(proof_nonce) {
        NonceCheck::NonceAhead
    } else {
        NonceCheck::Ready
    }
}

/// Nonce monotonicity: a submission happens only on the `Ready` outcome
/// of [`check_batch_nonce`], and `Ready` occurs exactly when the local
/// batch nonce equals the contract's, so the driver never submits a
/// batch whose nonce differs from the contract's.
pub proof fn lemma_never_submits_on_nonce_mismatch(
    proof_nonce: U256,
    contract_nonce: U256,
    outcome: NonceCheck,
)
    requires
        (outcome is Ready) == (proof_nonce.as_nat() == contract_nonce.as_nat()),
        proof_nonce.as_nat() != contract_nonce.as_nat(),
    ensures
        !(outcome is Ready),
{
}

/// One step of the blocking synchronization gate.
#[derive(Clone, Copy, PartialEq, Eq, Structural, Debug)]
pub enum SyncStep {
    /// The Ethereum client reports synchronized: the pipeline goes on.
    Synced,
    /// Not synchronized and the deadline has not passed: sleep and poll
    /// again.
    Poll,
    /// Not synchronized and the deadline has passed: halt the run.
    TimedOut,
}

/// Decides one polling step of the blocking sync gate: proceed when
/// synchronized, poll again while the deadline has not passed, and time
/// out otherwise.
pub fn sync_gate_step(synced: bool, now_millis: u64, deadline_millis: u64) -> (r: SyncStep)
    ensures
        (r is Synced) == synced,
        (r is Poll) == (!synced && now_millis < deadline_millis),
        (r is TimedOut) == (!synced && now_millis >= deadline_millis),
{
    if synced {
        SyncStep::Synced
    } else if now_millis < deadline_millis {
        SyncStep::Poll
    } else {
        SyncStep::TimedOut
    }
}

/// The single-shot synchronization check: halt unless the Ethereum
/// client reports synchronized.
pub fn sync_or_halt(synced: bool) -> (r: Halt<()>)
    ensures
        (r is Proceed) == synced,
{
    if synced {
        Halt::Proceed(())
    } else {
        Halt::Halted
    }
}

/// The fraction of the voting power backing an in-progress transfer.
#[derive(Clone, Copy, PartialEq, Eq, Structural, Debug)]
pub struct FractionalVotingPower {
    pub numer: U256,
    pub denom: U256,
}

impl DeepView for FractionalVotingPower {
    type V = FractionalVotingPower;

    open spec fn deep_view(&self) -> FractionalVotingPower {
        *self
    }
}

/// Whether a backing fraction exceeds one third.
pub open spec fn exceeds_one_third(f: FractionalVotingPower) -> bool {
    3 * f.numer.as_nat() > f.denom.as_nat()
}

/// Whether a fraction exceeds one third, i.e. `3 * numer > denom`.
pub fn check_exceeds_one_third(f: &FractionalVotingPower) -> (r: bool)
    ensures
        r == exceeds_one_third(*f),
{
    proof {
        f.denom.lemma_as_nat_bound();
    }
    match f.numer.mul_u64(3) {
        Some(three_numer) => f.denom.lt(&three_numer),
        None => true,
    }
}

/// The digests, among the requested ones, of in-progress transfers whose
/// backing power exceeds one third: those have likely been relayed
/// already and deserve a warning before a proof is requested.
pub open spec fn warning_hashes(
    in_progress: Seq<(PendingTransferView, FractionalVotingPower)>,
    requested: Seq<Seq<u8>>,
) -> Seq<Seq<u8>>
    decreases in_progress.len(),
{
    if in_progress.len() == 0 {
        Seq::empty()
    } else {
        let digest = keccak_of(encode_transfer(in_progress.last().0));
        warning_hashes(in_progress.drop_last(), requested) + (if exceeds_one_third(
            in_progress.last().1,
        ) && requested.contains(digest) {
            seq![digest]
        } else {
            Seq::empty()
        })
    }
}

/// Membership of a digest in a list of digests.
fn contains_digest(requested: &Vec<crate::hash::KeccakHash>, digest: &Vec<u8>) -> (r: bool)
    ensures
        r == requested.deep_view().contains(digest@),
{
    let mut i: usize = 0;
    while i < requested.len()
        invariant
            0 <= i <= requested@.len(),
            forall|j: int| 0 <= j < i ==> requested.deep_view()[j] != digest@,
        decreases requested@.len() - i,
    {
        proof {
            assert(requested.deep_view()[i as int] == requested@[i as int]@);
        }
        let eq = requested[i].bytes == *digest;
        proof {
            if eq {
                assert(requested[i as int].bytes@ =~= digest@);
            }
            if requested@[i as int]@ == digest@ {
                assert(eq);
            }
        }
        if eq {
            proof {
                assert(requested.deep_view().contains(digest@));
            }
            return true;
        }
        i = i + 1;
    }
    proof {
        if requested.deep_view().contains(digest@) {
            let j = choose|j: int|
                0 <= j < requested.deep_view().len() && requested.deep_view()[j] == digest@;
            assert(false);
        }
    }
    false
}

/// Collects the requested transfers that have likely been relayed
/// already: in-progress transfers backed by more than one third of the
/// voting power whose digest is among the requested ones.
#[verifier::rlimit(50)]
pub fn collect_warnings(
    in_progress: &Vec<(PendingTransfer, FractionalVotingPower)>,
    requested: &Vec<crate::hash::KeccakHash>,
) -> (r: Vec<Vec<u8>>)
    ensures
        r.deep_view() == warning_hashes(in_progress.deep_view(), requested.deep_view()),
{
    let ghost idv = in_progress.deep_view();
    let mut out: Vec<Vec<u8>> = Vec::new();
    proof {
        assert(out.deep_view() =~= warning_hashes(idv.take(0), requested.deep_view()));
    }
    let mut i: usize = 0;
    while i < in_progress.len()
        invariant
            0 <= i <= in_progress@.len(),
            idv == in_progress.deep_view(),
            idv.len() == in_progress@.len(),
            out.deep_view() == warning_hashes(idv.take(i as int), requested.deep_view()),
        decreases in_progress@.len() - i,
    {
        proof {
            assert(idv[i as int].0 == in_progress@[i as int].0@);
            assert(idv[i as int].1 == in_progress@[i as int].1);
            assert(idv.take(i as int + 1).drop_last() =~= idv.take(i as int));
            assert(idv.take(i as int + 1).last() == idv[i as int]);
        }
        let ghost odv = out.deep_view();
        if check_exceeds_one_third(&in_progress[i].1) {
            let digest = in_progress[i].0.keccak256();
            let ghost dby = digest.bytes@;
            proof {
                assert(dby == keccak_of(encode_transfer(idv[i as int].0)));
            }
            if contains_digest(requested, &digest.bytes) {
                let ghost out0 = out@;
                out.push(digest.bytes);
                proof {
                    assert forall|k: int| 0 <= k < out.deep_view().len() implies out.deep_view()[k]
                        == odv.push(dby)[k] by {
                        if k < out0.len() {
                            assert(out@[k] == out0[k]);
                            assert(odv[k] == out0[k]@);
                        } else {
                            assert(out@[k]@ == dby);
                        }
                    }
                    assert(out.deep_view() =~= odv.push(dby));
                    assert(out.deep_view() =~= odv.push(
                        keccak_of(encode_transfer(idv[i as int].0)),
                    ));
                    assert(out.deep_view() =~= warning_hashes(
                        idv.take(i as int + 1),
                        requested.deep_view(),
                    ));
                }
            } else {
                proof {
                    assert(out.deep_view() =~= warning_hashes(
                        idv.take(i as int + 1),
                        requested.deep_view(),
                    ));
                }
            }
        } else {
            proof {
                assert(out.deep_view() =~= warning_hashes(
                    idv.take(i as int + 1),
                    requested.deep_view(),
                ));
            }
        }
        i = i + 1;
    }
    proof {
        assert(idv.take(idv.len() as int) =~= idv);
    }
    out
}

/// The fee totals of a list of appendices, keyed by the gas fee token:
/// `None` when some total leaves the unsigned 256-bit range.
pub open spec fn fee_totals(s: Seq<GasFeeView>, acc: Map<Seq<char>, int>) -> Option<
    Map<Seq<char>, int>,
>
    decreases s.len(),
{
    if s.len() == 0 {
        Some(acc)
    } else {
        let key = s[0].token;
        let prev = if acc.dom().contains(key) {
            acc[key]
        } else {
            0
        };
        if prev + s[0].amount.as_nat() >= u256_bound() {
            None
        } else {
            fee_totals(s.drop_first(), acc.insert(key, prev + s[0].amount.as_nat()))
        }
    }
}

/// Sums the gas fees of the appendices returned with a proof, keyed by
/// the fee token. Halts when a total leaves the unsigned 256-bit range.
pub fn sum_gas_fees(appendices: &Vec<GasFee>) -> (r: Halt<Vec<(String, U256)>>)
    ensures
        match r {
            Halt::Proceed(v) => {
                &&& fee_totals(appendices.deep_view(), Map::empty()) == Some(
                    fees_view(v.deep_view()),
                )
                &&& fees_keys_unique(v.deep_view())
            },
            Halt::Halted => fee_totals(appendices.deep_view(), Map::empty()) is None,
        },
{
    let ghost adv = appendices.deep_view();
    let empty_table: ConversionTable = Vec::new();
    proof {
        assert(empty_table.deep_view() =~= Seq::<(Seq<char>, crate::fees::BpConversionTableEntryView)>::empty());
    }
    let mut totals: Vec<(String, U256)> = Vec::new();
    proof {
        assert(totals.deep_view() =~= Seq::<(Seq<char>, U256)>::empty());
        assert(fees_view(totals.deep_view()) =~= Map::<Seq<char>, int>::empty());
        assert(adv.skip(0) =~= adv);
    }
    let mut i: usize = 0;
    while i < appendices.len()
        invariant
            0 <= i <= appendices@.len(),
            adv == appendices.deep_view(),
            adv.len() == appendices@.len(),
            empty_table.deep_view() == Seq::<(Seq<char>, crate::fees::BpConversionTableEntryView)>::empty(),
            fees_keys_unique(totals.deep_view()),
            fee_totals(adv, Map::empty()) == fee_totals(
                adv.skip(i as int),
                fees_view(totals.deep_view()),
            ),
        decreases appendices@.len() - i,
    {
        proof {
            assert(adv[i as int] == appendices@[i as int]@);
            assert(adv.skip(i as int)[0] == adv[i as int]);
            assert(adv.skip(i as int).drop_first() =~= adv.skip(i as int + 1));
        }
        if !merge_gas_fee(&mut totals, &appendices[i], &empty_table) {
            return Halt::Halted;
        }
        i = i + 1;
    }
    proof {
        assert(adv.skip(i as int) =~= Seq::<GasFeeView>::empty());
    }
    Halt::Proceed(totals)
}

} // verus!
