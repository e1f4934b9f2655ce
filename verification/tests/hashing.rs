//! Transfer digests: determinism, sensitivity to every field, hex
//! rendering, and pool indexing.

use bridge_pool_relayer::hash::hex_string;
use bridge_pool_relayer::num256::U256;
use bridge_pool_relayer::types::{
    Address, EthAddress, GasFee, PendingTransfer, TransferToEthereum, TransferToEthereumKind,
};

fn uint(v: u64) -> U256 {
    U256 { l0: v, l1: 0, l2: 0, l3: 0 }
}

fn addr(name: &str) -> Address {
    Address { text: String::from(name) }
}

fn sample(payer: &str, kind: TransferToEthereumKind) -> PendingTransfer {
    PendingTransfer {
        transfer: TransferToEthereum {
            kind,
            asset: EthAddress { bytes: vec![1; 20] },
            recipient: EthAddress { bytes: vec![2; 20] },
            sender: addr("sender"),
            amount: uint(42),
        },
        gas_fee: GasFee { token: addr("nam"), amount: uint(7), payer: addr(payer) },
    }
}

#[test]
fn test_hash_of_clone_is_identical() {
    // hashing is idempotent: a clone digests to the same hex string
    let t = sample("payer", TransferToEthereumKind::Erc20);
    let c = t.clone();
    assert_eq!(t.keccak256().to_string(), c.keccak256().to_string());
    assert_eq!(t.keccak256().bytes, c.keccak256().bytes);
}

#[test]
fn test_hash_depends_on_every_field() {
    // the digest is a real digest of the contents: changing the last
    // encoded field, or only the kind tag, changes it
    let a = sample("payer-a", TransferToEthereumKind::Erc20);
    let b = sample("payer-b", TransferToEthereumKind::Erc20);
    let c = sample("payer-a", TransferToEthereumKind::Nut);
    assert_ne!(a.keccak256().to_string(), b.keccak256().to_string());
    assert_ne!(a.keccak256().to_string(), c.keccak256().to_string());
}

#[test]
fn test_hash_is_64_hex_chars() {
    let t = sample("payer", TransferToEthereumKind::Erc20);
    let h = t.keccak256().to_string();
    assert_eq!(h.len(), 64);
    assert!(h.chars().all(|ch| ch.is_ascii_hexdigit()));
    assert_eq!(h, h.to_lowercase());
}

#[test]
fn test_hex_rendering() {
    assert_eq!(hex_string(&vec![]), String::new());
    assert_eq!(hex_string(&vec![0x00, 0x0f, 0xa5, 0xff]), String::from("000fa5ff"));
}

#[test]
fn test_index_pool_keys_are_digests() {
    let pool = vec![
        sample("payer-a", TransferToEthereumKind::Erc20),
        sample("payer-b", TransferToEthereumKind::Erc20),
    ];
    let indexed = bridge_pool_relayer::hash::index_pool(&pool);
    assert_eq!(indexed.len(), 2);
    for (key, t) in &indexed {
        assert_eq!(*key, t.keccak256().to_string());
    }
    assert_ne!(indexed[0].0, indexed[1].0);
}
