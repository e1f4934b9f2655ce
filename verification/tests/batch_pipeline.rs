//! The eligibility filter and the full batch recommendation pipeline.

use bridge_pool_relayer::batch::{compute_eligible, recommend_batch};
use bridge_pool_relayer::fees::{BpConversionTableEntry, ConversionTable};
use bridge_pool_relayer::num256::U256;
use bridge_pool_relayer::types::{
    Address, EthAddrBook, EthAddress, GasFee, PendingTransfer, TransferToEthereum,
    TransferToEthereumKind,
};

fn uint(v: u64) -> U256 {
    U256 { l0: v, l1: 0, l2: 0, l3: 0 }
}

fn addr(name: &str) -> Address {
    Address { text: String::from(name) }
}

fn transfer_with_token(token: &str, gas_amount: U256) -> PendingTransfer {
    PendingTransfer {
        transfer: TransferToEthereum {
            kind: TransferToEthereumKind::Erc20,
            asset: EthAddress { bytes: vec![1; 20] },
            recipient: EthAddress { bytes: vec![2; 20] },
            sender: addr("sender"),
            amount: uint(0),
        },
        gas_fee: GasFee { token: addr(token), amount: gas_amount, payer: addr("sender") },
    }
}

fn nam_table(gwei_per_token: u64) -> ConversionTable {
    vec![(
        addr("nam"),
        BpConversionTableEntry { alias: String::from("NAM"), gwei_per_token },
    )]
}

fn address_book(i: u8) -> EthAddrBook {
    EthAddrBook {
        hot_key_addr: EthAddress { bytes: vec![i; 20] },
        cold_key_addr: EthAddress { bytes: vec![i; 20] },
    }
}

#[test]
fn test_filter_excludes_in_progress_and_unknown_tokens() {
    let in_progress = vec![transfer_with_token("nam", uint(10))];
    let pool = vec![
        transfer_with_token("nam", uint(10)),  // already being relayed
        transfer_with_token("doge", uint(20)), // no conversion entry
        transfer_with_token("nam", uint(100_000)),
    ];
    let eligible = compute_eligible(pool, &in_progress, &nam_table(1)).proceed();
    assert_eq!(eligible.len(), 1);
    assert_eq!(eligible[0].pending_transfer.gas_fee.amount, uint(100_000));
    // cost = 37_500 - 100_000 gwei
    let expected_cost = bridge_pool_relayer::fees::transfer_fee()
        .checked_sub(&bridge_pool_relayer::num256::I256::from_u64(100_000))
        .unwrap();
    assert_eq!(eligible[0].cost, expected_cost);
    assert_eq!(
        eligible[0].transfer_hash,
        eligible[0].pending_transfer.keccak256().to_string()
    );
}

#[test]
fn test_filter_halts_on_fee_value_overflow() {
    // a fee value beyond the signed 256-bit range halts the whole run
    let huge = U256 { l0: 0, l1: 0, l2: 0, l3: 0x4000_0000_0000_0000 };
    let pool = vec![transfer_with_token("nam", huge)];
    let in_progress: Vec<PendingTransfer> = Vec::new();
    assert!(!compute_eligible(pool, &in_progress, &nam_table(2)).is_proceed());
}

#[test]
fn test_recommend_batch_end_to_end() {
    let voting_powers = vec![(address_book(1), uint(5)), (address_book(2), uint(1))];
    let signatures = vec![address_book(1), address_book(2)];
    let in_progress: Vec<PendingTransfer> = Vec::new();
    let pool = vec![transfer_with_token("nam", uint(100_000))];
    let expected_hash = pool[0].keccak256().to_string();
    let out = recommend_batch(
        &voting_powers,
        &signatures,
        &in_progress,
        pool,
        &nam_table(1),
        None,
        None,
    )
    .proceed()
    .expect("a batch should be feasible");
    assert_eq!(out.recommendation, vec![expected_hash]);
    // one signature check and two valset entries: 24_500 + 2 * 2_000,
    // plus one transfer fee of 37_500
    assert_eq!(out.total_gas, uint(24_500 + 4_000 + 37_500));
    // net cost: 28_500 + 37_500 - 100_000 = -34_000, i.e. a profit
    assert!(out.total_cost.is_negative());
    assert_eq!(out.total_fees.len(), 1);
    assert_eq!(out.total_fees[0].0, String::from("NAM"));
}

#[test]
fn test_recommend_batch_nothing_feasible() {
    let voting_powers = vec![(address_book(1), uint(1))];
    let signatures = vec![address_book(1)];
    let in_progress: Vec<PendingTransfer> = Vec::new();
    // the only candidate is unprofitable and the mode is greedy
    let pool = vec![transfer_with_token("nam", uint(10))];
    let out = recommend_batch(
        &voting_powers,
        &signatures,
        &in_progress,
        pool,
        &nam_table(1),
        None,
        None,
    )
    .proceed();
    assert!(out.is_none());
}
