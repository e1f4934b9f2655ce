//! The relay driver's nonce ordering, the sync gate, the warnings on
//! likely-relayed transfers, and the appendix fee summation.

use bridge_pool_relayer::num256::{I256, U256};
use bridge_pool_relayer::relay::{
    check_batch_nonce, check_exceeds_one_third, collect_warnings, sum_gas_fees, sync_gate_step,
    sync_or_halt, FractionalVotingPower, NonceCheck, SyncStep,
};
use bridge_pool_relayer::types::{
    Address, EthAddress, GasFee, PendingTransfer, TransferToEthereum, TransferToEthereumKind,
};

fn uint(v: u64) -> U256 {
    U256 { l0: v, l1: 0, l2: 0, l3: 0 }
}

fn token(name: &str) -> Address {
    Address { text: String::from(name) }
}

#[test]
fn test_nonce_equal_is_ready() {
    assert_eq!(check_batch_nonce(&uint(7), &uint(7)), NonceCheck::Ready);
}

#[test]
fn test_nonce_behind_contract_is_stale() {
    assert_eq!(
        check_batch_nonce(&uint(6), &uint(7)),
        NonceCheck::AlreadyRelayed
    );
}

#[test]
fn test_nonce_ahead_of_contract() {
    assert_eq!(check_batch_nonce(&uint(8), &uint(7)), NonceCheck::NonceAhead);
}

#[test]
fn test_never_submits_on_mismatch() {
    // the driver submits only on Ready, which mismatched nonces never give
    for (p, c) in [(0u64, 1u64), (1, 0), (5, 9), (9, 5)] {
        let outcome = check_batch_nonce(&uint(p), &uint(c));
        assert!(outcome != NonceCheck::Ready);
    }
}

#[test]
fn test_sync_gate() {
    assert_eq!(sync_gate_step(true, 0, 60_000), SyncStep::Synced);
    assert_eq!(sync_gate_step(false, 59_999, 60_000), SyncStep::Poll);
    assert_eq!(sync_gate_step(false, 60_000, 60_000), SyncStep::TimedOut);
    assert!(sync_or_halt(true).is_proceed());
    assert!(!sync_or_halt(false).is_proceed());
}

#[test]
fn test_exceeds_one_third() {
    let over = FractionalVotingPower { numer: uint(4), denom: uint(9) };
    let under = FractionalVotingPower { numer: uint(3), denom: uint(9) };
    assert!(check_exceeds_one_third(&over));
    assert!(!check_exceeds_one_third(&under));
}

#[test]
fn test_collect_warnings() {
    // helpers from the optimizer scenarios
    let t1 = make_transfer(10);
    let t2 = make_transfer(20);
    let h1 = t1.keccak256();
    let in_progress = vec![
        (t1, FractionalVotingPower { numer: uint(1), denom: uint(2) }),
        (t2, FractionalVotingPower { numer: uint(1), denom: uint(4) }),
    ];
    let requested = vec![h1];
    let warnings = collect_warnings(&in_progress, &requested);
    // only the first transfer is both requested and backed by > 1/3
    assert_eq!(warnings.len(), 1);
    assert_eq!(warnings[0], requested[0].bytes);
}

#[test]
fn test_sum_gas_fees() {
    let fees = vec![
        GasFee { token: token("nam"), amount: uint(5), payer: sender() },
        GasFee { token: token("eth"), amount: uint(7), payer: sender() },
        GasFee { token: token("nam"), amount: uint(11), payer: sender() },
    ];
    let totals = sum_gas_fees(&fees).proceed();
    assert_eq!(totals.len(), 2);
    assert_eq!(totals[0].0, String::from("nam"));
    assert_eq!(totals[0].1, uint(16));
    assert_eq!(totals[1].0, String::from("eth"));
    assert_eq!(totals[1].1, uint(7));
}

#[test]
fn test_sum_gas_fees_halts_on_overflow() {
    let huge = U256 { l0: u64::MAX, l1: u64::MAX, l2: u64::MAX, l3: u64::MAX };
    let fees = vec![
        GasFee { token: token("nam"), amount: huge, payer: sender() },
        GasFee { token: token("nam"), amount: uint(1), payer: sender() },
    ];
    assert!(!sum_gas_fees(&fees).is_proceed());
}

fn sender() -> Address {
    token("sender")
}

fn make_transfer(gas_amount: u64) -> PendingTransfer {
    PendingTransfer {
        transfer: TransferToEthereum {
            kind: TransferToEthereumKind::Erc20,
            asset: EthAddress { bytes: vec![1; 20] },
            recipient: EthAddress { bytes: vec![2; 20] },
            sender: sender(),
            amount: uint(0),
        },
        gas_fee: GasFee { token: token("nam"), amount: uint(gas_amount), payer: sender() },
    }
}

#[test]
fn test_cost_sign() {
    // a profitable cost is negative, an unprofitable one is not
    let profit = I256::from_u64(37_500)
        .checked_sub(&I256::from_u64(100_000))
        .unwrap();
    let loss = I256::from_u64(37_500)
        .checked_sub(&I256::from_u64(17_500))
        .unwrap();
    assert!(profit.is_negative());
    assert!(!loss.is_negative());
}
