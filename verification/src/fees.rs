//! The fixed gwei fee schedule of the bridge, and the conversion table
//! that prices gas fee tokens in gwei.

use vstd::prelude::*;

use crate::num256::{I256, U256};
use crate::types::Address;

verus! {

/// The gwei cost of including one transfer in a relayed batch.
pub fn unsigned_transfer_fee() -> (r: U256)
    ensures
        r.as_nat() == 37_500,
{
    U256::from_u64(37_500)
}

/// The per-transfer fee as a signed value, for cost accounting.
pub fn transfer_fee() -> (r: I256)
    ensures
        r.as_int() == 37_500,
{
    I256::from_u64(37_500)
}

/// The gwei cost of one signature check on Ethereum.
pub fn signature_fee() -> (r: U256)
    ensures
        r.as_nat() == 24_500,
{
    U256::from_u64(24_500)
}

/// The gwei cost of hashing one validator set entry on Ethereum.
pub fn valset_fee() -> (r: U256)
    ensures
        r.as_nat() == 2_000,
{
    U256::from_u64(2_000)
}

/// A conversion table entry for one gas fee token: a human-readable
/// alias, and how many gwei one token is worth. The gwei rate is derived
/// from a user-supplied conversion rate before it reaches this crate;
/// tokens with no usable rate have no entry.
pub struct BpConversionTableEntry {
    /// The token's human-readable alias, used to label fee totals.
    pub alias: String,
    /// How many gwei a single gas token is worth.
    pub gwei_per_token: u64,
}

/// A ghost record of a conversion table entry.
pub struct BpConversionTableEntryView {
    pub alias: Seq<char>,
    pub gwei_per_token: u64,
}

impl View for BpConversionTableEntry {
    type V = BpConversionTableEntryView;

    open spec fn view(&self) -> BpConversionTableEntryView {
        BpConversionTableEntryView { alias: self.alias@, gwei_per_token: self.gwei_per_token }
    }
}

impl DeepView for BpConversionTableEntry {
    type V = BpConversionTableEntryView;

    open spec fn deep_view(&self) -> BpConversionTableEntryView {
        self@
    }
}

/// The conversion table: gas fee tokens and their gwei rates.
pub type ConversionTable = Vec<(Address, BpConversionTableEntry)>;

/// The ghost contents of a conversion table.
pub type ConversionTableView = Seq<(Seq<char>, BpConversionTableEntryView)>;

/// The first entry of the table for `token`, if any.
pub open spec fn table_lookup(table: ConversionTableView, token: Seq<char>) -> Option<
    BpConversionTableEntryView,
>
    decreases table.len(),
{
    if table.len() == 0 {
        None
    } else if table[0].0 == token {
        Some(table[0].1)
    } else {
        table_lookup(table.drop_first(), token)
    }
}

/// The key under which a token's fees are totalled: its alias when the
/// conversion table knows the token, otherwise the token's own text. One
/// token is always totalled under exactly one of the two.
pub open spec fn fee_key(table: ConversionTableView, token: Seq<char>) -> Seq<char> {
    match table_lookup(table, token) {
        Some(entry) => entry.alias,
        None => token,
    }
}

/// Finds the table entry for a token.
pub fn find_entry<'a>(table: &'a ConversionTable, token: &Address) -> (r: Option<
    &'a BpConversionTableEntry,
>)
    ensures
        match r {
            Some(e) => table_lookup(table.deep_view(), token@) == Some(e@),
            None => table_lookup(table.deep_view(), token@) is None,
        },
{
    let ghost tdv = table.deep_view();
    proof {
        assert(tdv.skip(0) =~= tdv);
    }
    let mut i: usize = 0;
    while i < table.len()
        invariant
            0 <= i <= table@.len(),
            tdv == table.deep_view(),
            tdv.len() == table@.len(),
            table_lookup(tdv, token@) == table_lookup(tdv.skip(i as int), token@),
        decreases table@.len() - i,
    {
        proof {
            assert(tdv.skip(i as int)[0] == tdv[i as int]);
            assert(tdv[i as int].0 == table@[i as int].0@);
            assert(tdv[i as int].1 == table@[i as int].1@);
        }
        if crate::types::address_eq(&table[i].0, token) {
            return Some(&table[i].1);
        }
        proof {
            assert(tdv.skip(i as int).drop_first() =~= tdv.skip(i as int + 1));
        }
        i = i + 1;
    }
    proof {
        assert(tdv.skip(i as int) =~= Seq::empty());
    }
    None
}

} // verus!
