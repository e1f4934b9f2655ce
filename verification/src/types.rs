//! The data model of the bridge pool: pending transfers to Ethereum and
//! the addresses they speak of.

use vstd::prelude::*;

use crate::num256::U256;

verus! {

/// A 20-byte Ethereum address.
pub struct EthAddress {
    pub bytes: Vec<u8>,
}

impl View for EthAddress {
    type V = Seq<u8>;

    open spec fn view(&self) -> Seq<u8> {
        self.bytes@
    }
}

impl EthAddress {
    /// Ethereum addresses are exactly 20 bytes long.
    pub open spec fn wf(&self) -> bool {
        self.bytes@.len() == 20
    }
}

impl Clone for EthAddress {
    fn clone(&self) -> (r: Self)
        ensures
            r@ == self@,
    {
        let bytes = self.bytes.clone();
        proof {
            assert(bytes@ =~= self.bytes@);
        }
        EthAddress { bytes }
    }
}

/// Equality of two Ethereum addresses, byte for byte.
pub fn eth_address_eq(a: &EthAddress, b: &EthAddress) -> (r: bool)
    ensures
        r == (a@ == b@),
{
    let r = a.bytes == b.bytes;
    proof {
        if r {
            assert(a.bytes@ =~= b.bytes@);
        }
        if a.bytes@ == b.bytes@ {
            assert(r);
        }
    }
    r
}

/// A source-chain address in its canonical textual form.
pub struct Address {
    pub text: String,
}

impl View for Address {
    type V = Seq<char>;

    open spec fn view(&self) -> Seq<char> {
        self.text@
    }
}

impl DeepView for Address {
    type V = Seq<char>;

    open spec fn deep_view(&self) -> Seq<char> {
        self@
    }
}

impl Clone for Address {
    fn clone(&self) -> (r: Self)
        ensures
            r@ == self@,
    {
        Address { text: self.text.clone() }
    }
}

/// Equality of two source-chain addresses, character for character.
pub fn address_eq(a: &Address, b: &Address) -> (r: bool)
    ensures
        r == (a@ == b@),
{
    a.text == b.text
}

/// The hot and cold Ethereum keys a validator registered.
pub struct EthAddrBook {
    pub hot_key_addr: EthAddress,
    pub cold_key_addr: EthAddress,
}

/// A ghost record of an address book's contents.
pub struct EthAddrBookView {
    pub hot_key_addr: Seq<u8>,
    pub cold_key_addr: Seq<u8>,
}

impl View for EthAddrBook {
    type V = EthAddrBookView;

    open spec fn view(&self) -> EthAddrBookView {
        EthAddrBookView { hot_key_addr: self.hot_key_addr@, cold_key_addr: self.cold_key_addr@ }
    }
}

impl Clone for EthAddrBook {
    fn clone(&self) -> (r: Self)
        ensures
            r@ == self@,
    {
        EthAddrBook {
            hot_key_addr: self.hot_key_addr.clone(),
            cold_key_addr: self.cold_key_addr.clone(),
        }
    }
}

/// Equality of two address books, key by key.
pub fn addr_book_eq(a: &EthAddrBook, b: &EthAddrBook) -> (r: bool)
    ensures
        r == (a@ == b@),
{
    eth_address_eq(&a.hot_key_addr, &b.hot_key_addr) && eth_address_eq(
        &a.cold_key_addr,
        &b.cold_key_addr,
    )
}

/// The two flavours of wrapped assets a transfer can move.
#[derive(Clone, Copy, PartialEq, Eq, Structural, Debug)]
pub enum TransferToEthereumKind {
    /// A regular ERC-20 transfer.
    Erc20,
    /// A transfer of non-usable tokens.
    Nut,
}

/// The asset movement a pending transfer asks for.
pub struct TransferToEthereum {
    pub kind: TransferToEthereumKind,
    pub asset: EthAddress,
    pub recipient: EthAddress,
    pub sender: Address,
    pub amount: U256,
}

/// A ghost record of a transfer's contents.
pub struct TransferToEthereumView {
    pub kind: TransferToEthereumKind,
    pub asset: Seq<u8>,
    pub recipient: Seq<u8>,
    pub sender: Seq<char>,
    pub amount: U256,
}

impl View for TransferToEthereum {
    type V = TransferToEthereumView;

    open spec fn view(&self) -> TransferToEthereumView {
        TransferToEthereumView {
            kind: self.kind,
            asset: self.asset@,
            recipient: self.recipient@,
            sender: self.sender@,
            amount: self.amount,
        }
    }
}

impl Clone for TransferToEthereum {
    fn clone(&self) -> (r: Self)
        ensures
            r@ == self@,
    {
        TransferToEthereum {
            kind: self.kind,
            asset: self.asset.clone(),
            recipient: self.recipient.clone(),
            sender: self.sender.clone(),
            amount: self.amount,
        }
    }
}

/// The gas fee escrowed for a pending transfer.
pub struct GasFee {
    pub token: Address,
    pub amount: U256,
    pub payer: Address,
}

/// A ghost record of a gas fee's contents.
pub struct GasFeeView {
    pub token: Seq<char>,
    pub amount: U256,
    pub payer: Seq<char>,
}

impl View for GasFee {
    type V = GasFeeView;

    open spec fn view(&self) -> GasFeeView {
        GasFeeView { token: self.token@, amount: self.amount, payer: self.payer@ }
    }
}

impl Clone for GasFee {
    fn clone(&self) -> (r: Self)
        ensures
            r@ == self@,
    {
        GasFee { token: self.token.clone(), amount: self.amount, payer: self.payer.clone() }
    }
}

/// A transfer awaiting relay in the bridge pool, together with the fee
/// escrowed for whoever relays it.
pub struct PendingTransfer {
    pub transfer: TransferToEthereum,
    pub gas_fee: GasFee,
}

/// A ghost record of a pending transfer's contents.
pub struct PendingTransferView {
    pub transfer: TransferToEthereumView,
    pub gas_fee: GasFeeView,
}

impl View for PendingTransfer {
    type V = PendingTransferView;

    open spec fn view(&self) -> PendingTransferView {
        PendingTransferView { transfer: self.transfer@, gas_fee: self.gas_fee@ }
    }
}

impl Clone for PendingTransfer {
    fn clone(&self) -> (r: Self)
        ensures
            r@ == self@,
    {
        PendingTransfer { transfer: self.transfer.clone(), gas_fee: self.gas_fee.clone() }
    }
}

impl PendingTransfer {
    /// Assembles the transfer a user asks to add to the bridge pool:
    /// the kind follows the NUT flag, and the fee payer defaults to the
    /// sender when none is given.
    pub fn from_parts(
        nut: bool,
        asset: EthAddress,
        recipient: EthAddress,
        sender: Address,
        amount: U256,
        fee_token: Address,
        fee_amount: U256,
        fee_payer: Option<Address>,
    ) -> (r: PendingTransfer)
        ensures
            r@.transfer.kind == (if nut {
                TransferToEthereumKind::Nut
            } else {
                TransferToEthereumKind::Erc20
            }),
            r@.transfer.asset == asset@,
            r@.transfer.recipient == recipient@,
            r@.transfer.sender == sender@,
            r@.transfer.amount == amount,
            r@.gas_fee.token == fee_token@,
            r@.gas_fee.amount == fee_amount,
            r@.gas_fee.payer == (match fee_payer {
                Some(p) => p@,
                None => sender@,
            }),
    {
        let payer = match fee_payer {
            Some(p) => p,
            None => sender.clone(),
        };
        PendingTransfer {
            transfer: TransferToEthereum {
                kind: if nut {
                    TransferToEthereumKind::Nut
                } else {
                    TransferToEthereumKind::Erc20
                },
                asset,
                recipient,
                sender,
                amount,
            },
            gas_fee: GasFee { token: fee_token, amount: fee_amount, payer },
        }
    }
}

/// Equality of two pending transfers, field by field.
pub fn pending_transfer_eq(a: &PendingTransfer, b: &PendingTransfer) -> (r: bool)
    ensures
        r == (a@ == b@),
{
    let kind_eq = a.transfer.kind == b.transfer.kind;
    kind_eq && eth_address_eq(&a.transfer.asset, &b.transfer.asset) && eth_address_eq(
        &a.transfer.recipient,
        &b.transfer.recipient,
    ) && address_eq(&a.transfer.sender, &b.transfer.sender) && a.transfer.amount
        == b.transfer.amount && address_eq(&a.gas_fee.token, &b.gas_fee.token) && a.gas_fee.amount
        == b.gas_fee.amount && address_eq(&a.gas_fee.payer, &b.gas_fee.payer)
}

impl DeepView for EthAddrBook {
    type V = EthAddrBookView;

    open spec fn deep_view(&self) -> EthAddrBookView {
        self@
    }
}

impl DeepView for GasFee {
    type V = GasFeeView;

    open spec fn deep_view(&self) -> GasFeeView {
        self@
    }
}

impl DeepView for PendingTransfer {
    type V = PendingTransferView;

    open spec fn deep_view(&self) -> PendingTransferView {
        self@
    }
}

/// Whether a transfer equal to `t` occurs in `list`.
pub open spec fn spec_contains_transfer(list: Seq<PendingTransferView>, t: PendingTransferView) -> bool {
    exists|i: int| 0 <= i < list.len() && list[i] == t
}

/// Membership of a transfer in a list, by value.
pub fn contains_transfer(list: &Vec<PendingTransfer>, t: &PendingTransfer) -> (r: bool)
    ensures
        r == spec_contains_transfer(list.deep_view(), t@),
{
    let mut i: usize = 0;
    while i < list.len()
        invariant
            0 <= i <= list.len(),
            forall|j: int| 0 <= j < i ==> list.deep_view()[j] != t@,
        decreases list.len() - i,
    {
        if pending_transfer_eq(&list[i], t) {
            assert(list.deep_view()[i as int] == t@);
            return true;
        }
        i = i + 1;
    }
    false
}

} // verus!
