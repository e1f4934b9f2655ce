//! The batch optimizer and quorum estimator scenarios.

use bridge_pool_relayer::eligible::EligibleRecommendation;
use bridge_pool_relayer::fees::{transfer_fee, BpConversionTableEntry, ConversionTable};
use bridge_pool_relayer::num256::{I256, U256};
use bridge_pool_relayer::optimizer::generate;
use bridge_pool_relayer::quorum::signature_checks;
use bridge_pool_relayer::types::{
    Address, EthAddrBook, EthAddress, GasFee, PendingTransfer, TransferToEthereum,
    TransferToEthereumKind,
};

/// An established user address for testing & development.
pub fn bertha_address() -> Address {
    Address {
        text: String::from(
            "atest1v4ehgw36xvcyyvejgvenxs34g3zygv3jxqunjd6rxyeyys3sxy6rwvfkx4qnj33hg9qnvse4lsfctw",
        ),
    }
}

fn nam_token() -> Address {
    Address { text: String::from("nam") }
}

fn eth_address(i: u8) -> EthAddress {
    EthAddress { bytes: vec![i; 20] }
}

/// Generate a pending transfer with the specified gas fee.
pub fn transfer(gas_amount: u64) -> PendingTransfer {
    PendingTransfer {
        transfer: TransferToEthereum {
            kind: TransferToEthereumKind::Erc20,
            asset: eth_address(1),
            recipient: eth_address(2),
            sender: bertha_address(),
            amount: U256 { l0: 0, l1: 0, l2: 0, l3: 0 },
        },
        gas_fee: GasFee {
            token: nam_token(),
            amount: U256 { l0: gas_amount, l1: 0, l2: 0, l3: 0 },
            payer: bertha_address(),
        },
    }
}

/// Convert transfers into a format that the `generate` function
/// understands.
fn process_transfers(transfers: Vec<PendingTransfer>) -> Vec<EligibleRecommendation> {
    transfers
        .into_iter()
        .map(|t| {
            let hash = t.keccak256().to_string();
            let amount = t.gas_fee.amount;
            let cost = transfer_fee()
                .checked_sub(&I256 { rep: amount })
                .expect("cost in range");
            EligibleRecommendation {
                cost,
                transfer_hash: hash,
                pending_transfer: t,
            }
        })
        .collect()
}

fn address_book(i: u8) -> EthAddrBook {
    EthAddrBook {
        hot_key_addr: eth_address(i),
        cold_key_addr: eth_address(i),
    }
}

fn uint(v: u64) -> U256 {
    U256 { l0: v, l1: 0, l2: 0, l3: 0 }
}

fn max_unsigned() -> U256 {
    U256 {
        l0: u64::MAX,
        l1: u64::MAX,
        l2: u64::MAX,
        l3: u64::MAX,
    }
}

fn max_signed() -> I256 {
    I256 {
        rep: U256 {
            l0: u64::MAX,
            l1: u64::MAX,
            l2: u64::MAX,
            l3: 0x7fff_ffff_ffff_ffff,
        },
    }
}

fn empty_table() -> ConversionTable {
    Vec::new()
}

fn repeat_transfers(gas_amount: u64, n: usize) -> Vec<PendingTransfer> {
    let mut v = Vec::new();
    for _ in 0..n {
        v.push(transfer(gas_amount));
    }
    v
}

#[test]
fn test_signature_count() {
    let voting_powers = vec![
        (address_book(1), uint(5)),
        (address_book(2), uint(1)),
        (address_book(3), uint(1)),
    ];
    let signatures = vec![address_book(1), address_book(2), address_book(3)];
    let checks = signature_checks(&voting_powers, &signatures);
    assert_eq!(checks, uint(1))
}

#[test]
fn test_signature_count_with_skips() {
    let voting_powers = vec![
        (address_book(1), uint(5)),
        (address_book(2), uint(5)),
        (address_book(3), uint(1)),
        (address_book(4), uint(1)),
    ];
    let signatures = vec![address_book(1), address_book(3), address_book(4)];
    let checks = signature_checks(&voting_powers, &signatures);
    assert_eq!(checks, uint(3))
}

#[test]
fn test_only_profitable() {
    let profitable = repeat_transfers(100_000, 17);
    let hash = profitable[0].keccak256().to_string();
    let expected = vec![hash; 17];
    let recommendation = generate(
        process_transfers(profitable),
        &empty_table(),
        uint(800_000),
        max_unsigned(),
        I256::zero(),
    )
    .proceed()
    .expect("Test failed");
    assert_eq!(recommendation, expected);
}

#[test]
fn test_non_profitable_removed() {
    let mut transfers = repeat_transfers(100_000, 17);
    let hash = transfers[0].keccak256().to_string();
    transfers.push(transfer(0));
    let expected: Vec<_> = vec![hash; 17];
    let recommendation = generate(
        process_transfers(transfers),
        &empty_table(),
        uint(800_000),
        max_unsigned(),
        I256::zero(),
    )
    .proceed()
    .expect("Test failed");
    assert_eq!(recommendation, expected);
}

#[test]
fn test_max_gas() {
    let transfers = repeat_transfers(75_000, 4);
    let hash = transfers[0].keccak256().to_string();
    let expected = vec![hash; 2];
    let recommendation = generate(
        process_transfers(transfers),
        &empty_table(),
        uint(50_000),
        uint(150_000),
        max_signed(),
    )
    .proceed()
    .expect("Test failed");
    assert_eq!(recommendation, expected);
}

#[test]
fn test_net_loss() {
    let mut transfers = repeat_transfers(75_000, 4);
    transfers.extend([transfer(17_500), transfer(17_500)]);
    let expected: Vec<_> = transfers
        .iter()
        .map(|t| t.keccak256().to_string())
        .take(5)
        .collect();
    let recommendation = generate(
        process_transfers(transfers),
        &empty_table(),
        uint(150_000),
        max_unsigned(),
        I256::from_u64(20_000),
    )
    .proceed()
    .expect("Test failed");
    assert_eq!(recommendation, expected);
}

#[test]
fn test_net_loss_max_gas() {
    let mut transfers = repeat_transfers(75_000, 4);
    let hash = transfers[0].keccak256().to_string();
    let expected = vec![hash; 4];
    transfers.extend([transfer(17_500), transfer(17_500)]);
    let recommendation = generate(
        process_transfers(transfers),
        &empty_table(),
        uint(150_000),
        uint(330_000),
        I256::from_u64(20_000),
    )
    .proceed()
    .expect("Test failed");
    assert_eq!(recommendation, expected);
}

#[test]
fn test_wholly_infeasible() {
    let transfers = repeat_transfers(75_000, 4);
    let recommendation = generate(
        process_transfers(transfers),
        &empty_table(),
        uint(300_000),
        max_unsigned(),
        I256::from_u64(20_000),
    )
    .proceed();
    assert!(recommendation.is_none())
}

#[test]
fn test_empty_signer_set() {
    let voting_powers = vec![
        (address_book(1), uint(5)),
        (address_book(2), uint(1)),
    ];
    let signatures: Vec<EthAddrBook> = Vec::new();
    let checks = signature_checks(&voting_powers, &signatures);
    assert_eq!(checks, uint(0))
}

#[test]
fn test_single_signer_with_quorum() {
    let voting_powers = vec![(address_book(1), uint(9)), (address_book(2), uint(1))];
    let signatures = vec![address_book(1)];
    let checks = signature_checks(&voting_powers, &signatures);
    assert_eq!(checks, uint(1))
}

#[test]
fn test_generate_halts_on_oversized_validator_gas() {
    // validator gas outside the signed 256-bit range halts the run
    let validator_gas = U256 {
        l0: 0,
        l1: 0,
        l2: 0,
        l3: 0x8000_0000_0000_0000,
    };
    let outcome = generate(
        Vec::new(),
        &empty_table(),
        validator_gas,
        max_unsigned(),
        I256::zero(),
    );
    assert!(!outcome.is_proceed());
}

#[test]
fn test_empty_contents_infeasible() {
    let recommendation = generate(
        Vec::new(),
        &empty_table(),
        uint(1_000),
        max_unsigned(),
        I256::zero(),
    )
    .proceed();
    assert!(recommendation.is_none())
}

#[test]
fn test_fee_totals_use_alias() {
    // two transfers paying in the same token are totalled under its alias
    let transfers = repeat_transfers(100_000, 2);
    let table: ConversionTable = vec![(
        nam_token(),
        BpConversionTableEntry {
            alias: String::from("NAM"),
            gwei_per_token: 1,
        },
    )];
    let out = bridge_pool_relayer::optimizer::run_sweep(
        process_transfers(transfers),
        &table,
        uint(10_000),
        max_unsigned(),
        I256::zero(),
    )
    .proceed();
    assert_eq!(out.recommendation.len(), 2);
    assert_eq!(out.total_fees.len(), 1);
    assert_eq!(out.total_fees[0].0, String::from("NAM"));
    assert_eq!(out.total_fees[0].1, uint(200_000));
    assert!(out.state.feasible_region);
    // the sweep charged one transfer fee per recommended transfer
    assert_eq!(out.total_gas, uint(10_000 + 2 * 37_500));
}

#[test]
fn test_sort_recommendations_orders_by_cost() {
    let transfers = vec![transfer(10_000), transfer(100_000), transfer(50_000)];
    let sorted =
        bridge_pool_relayer::eligible::sort_recommendations(process_transfers(transfers));
    // ascending cost means descending gas fee amounts
    assert_eq!(sorted[0].pending_transfer.gas_fee.amount, uint(100_000));
    assert_eq!(sorted[1].pending_transfer.gas_fee.amount, uint(50_000));
    assert_eq!(sorted[2].pending_transfer.gas_fee.amount, uint(10_000));
    for w in sorted.windows(2) {
        assert!(w[0].cost.le(&w[1].cost));
    }
}
