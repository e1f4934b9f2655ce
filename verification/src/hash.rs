//! The identity of a pending transfer: the keccak256 digest of its
//! canonical binary encoding, rendered as lowercase hex.
//!
//! The encoding lays the fields out in declaration order. Variable-length
//! fields (the textual addresses) are prefixed with their byte length, so
//! the encoding of a transfer is an injective function of its contents.

use tiny_keccak::Hasher;
use vstd::prelude::*;
use vstd::string::StringSliceAdditionalSpecFns;

use crate::num256::U256;
use crate::types::{PendingTransfer, PendingTransferView, TransferToEthereumKind};

verus! {

/// The eight bytes of `n`, big endian.
pub open spec fn be8(n: nat) -> Seq<u8> {
    seq![
        ((n / 0x100_0000_0000_0000) % 0x100) as u8,
        ((n / 0x1_0000_0000_0000) % 0x100) as u8,
        ((n / 0x100_0000_0000) % 0x100) as u8,
        ((n / 0x1_0000_0000) % 0x100) as u8,
        ((n / 0x100_0000) % 0x100) as u8,
        ((n / 0x1_0000) % 0x100) as u8,
        ((n / 0x100) % 0x100) as u8,
        (n % 0x100) as u8,
    ]
}

/// The 32 bytes of an unsigned 256-bit value, big endian.
pub open spec fn be_u256(u: U256) -> Seq<u8> {
    be8(u.l3 as nat) + be8(u.l2 as nat) + be8(u.l1 as nat) + be8(u.l0 as nat)
}

/// The tag byte of a transfer kind.
pub open spec fn kind_byte(k: TransferToEthereumKind) -> u8 {
    match k {
        TransferToEthereumKind::Erc20 => 0,
        TransferToEthereumKind::Nut => 1,
    }
}

/// The canonical binary encoding of a pending transfer: the fields in
/// declaration order, textual addresses as length-prefixed UTF-8.
#[verifier::opaque]
pub open spec fn encode_transfer(t: PendingTransferView) -> Seq<u8> {
    let sender = vstd::utf8::encode_utf8(t.transfer.sender);
    let token = vstd::utf8::encode_utf8(t.gas_fee.token);
    let payer = vstd::utf8::encode_utf8(t.gas_fee.payer);
    seq![kind_byte(t.transfer.kind)] + t.transfer.asset + t.transfer.recipient + be8(sender.len())
        + sender + be_u256(t.transfer.amount) + be8(token.len()) + token + be_u256(
        t.gas_fee.amount,
    ) + be8(payer.len()) + payer
}

/// What the keccak256 permutation digests a byte string to. The digest is
/// a function of the input bytes alone.
pub uninterp spec fn keccak_of(data: Seq<u8>) -> Seq<u8>;

/// Relies on tiny_keccak's `Keccak::v256`: the 32-byte keccak256 digest of
/// the input, a pure function of the input bytes.
#[verifier::external_body]
fn keccak256_bytes(data: &Vec<u8>) -> (r: Vec<u8>)
    ensures
        r@ == keccak_of(data@),
        r@.len() == 32,
{
    let mut out = [0u8; 32];
    let mut hasher = tiny_keccak::Keccak::v256();
    hasher.update(data.as_slice());
    hasher.finalize(&mut out);
    out.to_vec()
}

/// Relies on std's `String::push`: appends one character at the end.
#[verifier::external_body]
fn push_char(s: &mut String, c: char)
    ensures
        final(s)@ == old(s)@.push(c),
{
    s.push(c)
}

/// The lowercase hex character of a value below 16.
pub open spec fn hex_digit(n: int) -> char {
    if n < 10 {
        (48 + n) as char
    } else {
        (87 + n) as char
    }
}

/// The lowercase hex rendering of a byte string, two characters per byte,
/// most significant nibble first.
pub open spec fn hex_of(bytes: Seq<u8>) -> Seq<char> {
    Seq::new(
        bytes.len() * 2,
        |i: int|
            if i % 2 == 0 {
                hex_digit(bytes[i / 2] as int / 16)
            } else {
                hex_digit(bytes[i / 2] as int % 16)
            },
    )
}

/// The hex character of a nibble.
fn hex_digit_char(n: u8) -> (c: char)
    requires
        n < 16,
    ensures
        c == hex_digit(n as int),
{
    if n < 10 {
        (48 + n) as char
    } else {
        (87 + n) as char
    }
}

/// Renders a byte string as lowercase hex.
pub fn hex_string(bytes: &Vec<u8>) -> (r: String)
    ensures
        r@ == hex_of(bytes@),
{
    let mut out = String::new();
    let mut i: usize = 0;
    while i < bytes.len()
        invariant
            0 <= i <= bytes@.len(),
            out@ =~= hex_of(bytes@.take(i as int)),
        decreases bytes@.len() - i,
    {
        let b = bytes[i];
        push_char(&mut out, hex_digit_char(b / 16));
        push_char(&mut out, hex_digit_char(b % 16));
        i = i + 1;
        proof {
            assert(out@ =~= hex_of(bytes@.take(i as int)));
        }
    }
    proof {
        assert(bytes@.take(bytes@.len() as int) =~= bytes@);
    }
    out
}

/// A 32-byte keccak256 digest.
pub struct KeccakHash {
    pub bytes: Vec<u8>,
}

impl View for KeccakHash {
    type V = Seq<u8>;

    open spec fn view(&self) -> Seq<u8> {
        self.bytes@
    }
}

impl DeepView for KeccakHash {
    type V = Seq<u8>;

    open spec fn deep_view(&self) -> Seq<u8> {
        self@
    }
}

impl Clone for KeccakHash {
    fn clone(&self) -> (r: Self)
        ensures
            r@ == self@,
    {
        let bytes = self.bytes.clone();
        proof {
            assert(bytes@ =~= self.bytes@);
        }
        KeccakHash { bytes }
    }
}

impl KeccakHash {
    /// The digest as a lowercase hex string.
    pub fn to_string(&self) -> (r: String)
        ensures
            r@ == hex_of(self@),
    {
        hex_string(&self.bytes)
    }
}

/// The hex string identifying a transfer: the keccak256 digest of its
/// canonical encoding.
pub open spec fn transfer_hash_str(t: PendingTransferView) -> Seq<char> {
    hex_of(keccak_of(encode_transfer(t)))
}

/// Appends the eight big-endian bytes of `n`.
fn append_be8(out: &mut Vec<u8>, n: u64)
    ensures
        final(out)@ == old(out)@ + be8(n as nat),
{
    out.push(((n / 0x100_0000_0000_0000) % 0x100) as u8);
    out.push(((n / 0x1_0000_0000_0000) % 0x100) as u8);
    out.push(((n / 0x100_0000_0000) % 0x100) as u8);
    out.push(((n / 0x1_0000_0000) % 0x100) as u8);
    out.push(((n / 0x100_0000) % 0x100) as u8);
    out.push(((n / 0x1_0000) % 0x100) as u8);
    out.push(((n / 0x100) % 0x100) as u8);
    out.push((n % 0x100) as u8);
    proof {
        assert(out@ =~= old(out)@ + be8(n as nat));
    }
}

/// Appends a byte slice.
fn append_bytes(out: &mut Vec<u8>, b: &[u8])
    ensures
        final(out)@ == old(out)@ + b@,
{
    out.extend_from_slice(b);
    proof {
        assert(out@ =~= old(out)@ + b@);
    }
}

/// Appends the 32 big-endian bytes of an unsigned 256-bit value.
fn append_u256(out: &mut Vec<u8>, u: &U256)
    ensures
        final(out)@ == old(out)@ + be_u256(*u),
{
    append_be8(out, u.l3);
    append_be8(out, u.l2);
    append_be8(out, u.l1);
    append_be8(out, u.l0);
    proof {
        assert(out@ =~= old(out)@ + be_u256(*u));
    }
}

/// Appends a string as its byte length followed by its UTF-8 bytes.
fn append_text(out: &mut Vec<u8>, s: &String)
    ensures
        final(out)@ == old(out)@ + be8(vstd::utf8::encode_utf8(s@).len()) + vstd::utf8::encode_utf8(
            s@,
        ),
{
    let b: &[u8] = s.as_str().as_bytes();
    append_be8(out, b.len() as u64);
    append_bytes(out, b);
}

/// The canonical binary encoding of a pending transfer.
pub fn encode_transfer_bytes(t: &PendingTransfer) -> (r: Vec<u8>)
    ensures
        r@ == encode_transfer(t@),
{
    let mut out: Vec<u8> = Vec::new();
    match t.transfer.kind {
        TransferToEthereumKind::Erc20 => out.push(0u8),
        TransferToEthereumKind::Nut => out.push(1u8),
    }
    append_bytes(&mut out, t.transfer.asset.bytes.as_slice());
    append_bytes(&mut out, t.transfer.recipient.bytes.as_slice());
    append_text(&mut out, &t.transfer.sender.text);
    append_u256(&mut out, &t.transfer.amount);
    append_text(&mut out, &t.gas_fee.token.text);
    append_u256(&mut out, &t.gas_fee.amount);
    append_text(&mut out, &t.gas_fee.payer.text);
    proof {
        reveal(encode_transfer);
        assert(out@ =~= encode_transfer(t@));
    }
    out
}

impl PendingTransfer {
    /// The keccak256 digest identifying this transfer.
    pub fn keccak256(&self) -> (h: KeccakHash)
        ensures
            h@ == keccak_of(encode_transfer(self@)),
            h@.len() == 32,
    {
        let data = encode_transfer_bytes(self);
        let digest = keccak256_bytes(&data);
        KeccakHash { bytes: digest }
    }
}

/// Indexes bridge pool contents by digest: each transfer keyed by its
/// hex hash string, in pool order, as the pool queries display them.
pub fn index_pool(pool: &Vec<PendingTransfer>) -> (r: Vec<(String, PendingTransfer)>)
    ensures
        r.deep_view().len() == pool.deep_view().len(),
        forall|i: int|
            0 <= i < r.deep_view().len() ==> #[trigger] r.deep_view()[i].1
                == pool.deep_view()[i] && r.deep_view()[i].0 == transfer_hash_str(
                pool.deep_view()[i],
            ),
{
    let mut out: Vec<(String, PendingTransfer)> = Vec::new();
    let mut i: usize = 0;
    while i < pool.len()
        invariant
            0 <= i <= pool@.len(),
            out.deep_view().len() == i,
            forall|j: int|
                0 <= j < i ==> #[trigger] out.deep_view()[j].1 == pool.deep_view()[j]
                    && out.deep_view()[j].0 == transfer_hash_str(pool.deep_view()[j]),
        decreases pool@.len() - i,
    {
        let t = pool[i].clone();
        let h = t.keccak256().to_string();
        proof {
            assert(t@ == pool.deep_view()[i as int]);
        }
        let ghost odv = out.deep_view();
        let ghost hv = h@;
        let ghost tv = t@;
        let ghost out0 = out@;
        out.push((h, t));
        proof {
            assert(out.deep_view().len() == odv.len() + 1);
            assert forall|j: int| 0 <= j < out.deep_view().len() implies out.deep_view()[j]
                == odv.push((hv, tv))[j] by {
                if j < out0.len() {
                    assert(out@[j] == out0[j]);
                    assert(odv[j] == out0[j].deep_view());
                } else {
                    assert(out@[j].deep_view() == (hv, tv));
                }
            }
            assert(out.deep_view() =~= odv.push((hv, tv)));
        }
        i = i + 1;
    }
    out
}

/// The digest of a transfer is a function of its contents alone: two
/// transfers with equal contents — in particular, a transfer and a clone
/// of it — have the same hash string.
pub proof fn lemma_hash_depends_on_contents_only(a: PendingTransferView, b: PendingTransferView)
    requires
        a == b,
    ensures
        transfer_hash_str(a) == transfer_hash_str(b),
{
}

} // verus!
