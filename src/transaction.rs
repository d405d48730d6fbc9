//! Signed Ethereum transactions: decoding from RLP, sender recovery, hash
//! and fees.

use crate::address::{spec_parse_address, EthAddress};
use crate::crypto::{
    lemma_byte_lists_deep_view,
    keccak256, keccak_of, recovered_public_key, rlp_decode_list, rlp_encode_list,
    rlp_list_encoding, rlp_list_items, secp256k1_recover,
};
use crate::error::Error;
use crate::num::{
    be_value, bytes_to_u256, bytes_to_u64, spec_wei_to_capacity, u256_limit, wei_to_capacity,
    U256,
};
use vstd::prelude::*;
use vstd::slice::slice_to_vec;

verus! {

/// The chain id that signatures commit to.
pub const CHAIN_ID: u64 = 1;

/// A decoded Ethereum transaction; `from` is recovered from the signature
/// and `raw` keeps the signed bytes it was decoded from.
#[derive(Debug, Clone, PartialEq, Eq)]
pub struct EthTransaction {
    pub nonce: u64,
    pub gas_price: U256,
    pub gas_limit: U256,
    pub to: Option<EthAddress>,
    pub value: U256,
    pub data: Option<Vec<u8>>,
    pub v: u64,
    pub r: U256,
    pub s: U256,
    pub from: EthAddress,
    pub raw: Vec<u8>,
}

/// The recovery id that `v` encodes, if it is one of the two allowed.
pub open spec fn spec_sig_recovery(v: nat) -> Option<u8> {
    if v == 2 * CHAIN_ID + 35 || v == 2 * CHAIN_ID + 36 {
        Some((v - (2 * CHAIN_ID + 35)) as u8)
    } else {
        None
    }
}

/// The nine fields have the widths a transaction allows, and `v` encodes
/// a valid recovery id.
pub open spec fn fields_well_formed(items: Seq<Seq<u8>>) -> bool {
    &&& items.len() == 9
    &&& items[7].len() == 32
    &&& items[8].len() == 32
    &&& items[0].len() <= 8
    &&& items[1].len() <= 32
    &&& items[2].len() <= 32
    &&& items[4].len() <= 32
    &&& items[6].len() <= 8
}

/// The fields that the sender signed: `v`, `r`, `s` replaced by the chain
/// id and two empty strings.
pub open spec fn unsigned_items(items: Seq<Seq<u8>>) -> Seq<Seq<u8>> {
    items.update(6, seq![CHAIN_ID as u8]).update(7, Seq::<u8>::empty()).update(8, Seq::<u8>::empty())
}

/// The address that signed the fields `items`, if the signature recovers.
pub open spec fn spec_sender(items: Seq<Seq<u8>>) -> Option<Seq<u8>> {
    match spec_sig_recovery(be_value(items[6])) {
        Some(rec) => match recovered_public_key(
            keccak_of(rlp_list_encoding(unsigned_items(items))),
            items[7] + items[8],
            rec,
        ) {
            Some(k) => Some(keccak_of(k.skip(1)).skip(12)),
            None => None,
        },
        None => None,
    }
}

/// `raw` decodes to a transaction.
pub open spec fn spec_decodes(raw: Seq<u8>) -> bool {
    &&& rlp_list_items(raw) is Some
    &&& fields_well_formed(rlp_list_items(raw)->0)
    &&& spec_sender(rlp_list_items(raw)->0) is Some
}

/// An optional field: absent when its bytes are empty.
pub open spec fn optional_bytes(b: Seq<u8>) -> Option<Seq<u8>> {
    if b.len() > 0 {
        Some(b)
    } else {
        None
    }
}

/// The bytes of an optional address.
pub open spec fn address_bytes(a: Option<EthAddress>) -> Option<Seq<u8>> {
    match a {
        Some(x) => Some(x.0@),
        None => None,
    }
}

/// The bytes of an optional byte string.
pub open spec fn vec_bytes(a: Option<Vec<u8>>) -> Option<Seq<u8>> {
    match a {
        Some(x) => Some(x@),
        None => None,
    }
}

impl EthTransaction {
    /// `self` is the transaction that the fields `items` of `raw` describe.
    pub open spec fn decoded_from(self, raw: Seq<u8>, items: Seq<Seq<u8>>) -> bool {
        &&& self.raw@ == raw
        &&& self.nonce as nat == be_value(items[0])
        &&& self.gas_price.value() == be_value(items[1])
        &&& self.gas_limit.value() == be_value(items[2])
        &&& address_bytes(self.to) == optional_bytes(items[3])
        &&& self.value.value() == be_value(items[4])
        &&& vec_bytes(self.data) == optional_bytes(items[5])
        &&& self.v as nat == be_value(items[6])
        &&& self.r.value() == be_value(items[7])
        &&& self.s.value() == be_value(items[8])
        &&& Some(self.from.0@) == spec_sender(items)
    }

    /// `gas_price * gas_limit` in wei.
    pub open spec fn spec_fees(self) -> nat {
        self.gas_price.value() * self.gas_limit.value()
    }

    /// Decodes a signed transaction and recovers its sender.
    pub fn from_raw(raw: Vec<u8>) -> (r: Result<EthTransaction, Error>)
        ensures
            r is Ok <==> spec_decodes(raw@),
            r matches Ok(tx) ==> tx.decoded_from(raw@, rlp_list_items(raw@)->0),
            r matches Ok(tx) ==> tx.from.0@.len() == 20,
            rlp_list_items(raw@) is None ==> r matches Err(Error::Rlp(_)),
            rlp_list_items(raw@) matches Some(items) && !fields_well_formed(items) ==> r matches Err(Error::MalformedData(_)),
            rlp_list_items(raw@) matches Some(items) && fields_well_formed(items)
                && spec_sig_recovery(be_value(items[6])) is None ==> r matches Err(Error::MalformedData(_)),
            rlp_list_items(raw@) matches Some(items) && fields_well_formed(items)
                && spec_sig_recovery(be_value(items[6])) is Some && spec_sender(items) is None
                ==> r matches Err(Error::Secp(_)),
    {
        let items = match rlp_decode_list(raw.as_slice()) {
            Ok(items) => items,
            Err(e) => return Err(Error::Rlp(e)),
        };
        let ghost it = items.deep_view();
        proof {
            lemma_byte_lists_deep_view(&items);
        }
        if items.len() != 9 {
            return Err(Error::malformed("Invalid data length"));
        }
        proof {
            assert(it[7] == items@[7]@);
            assert(it[8] == items@[8]@);
        }
        if items[7].len() != 32 {
            return Err(Error::malformed("Invalid r length"));
        }
        if items[8].len() != 32 {
            return Err(Error::malformed("Invalid s length"));
        }
        let nonce = bytes_to_u64(items[0].as_slice())?;
        let gas_price = bytes_to_u256(items[1].as_slice())?;
        let gas_limit = bytes_to_u256(items[2].as_slice())?;
        let to = if items[3].len() > 0 {
            Some(EthAddress(slice_to_vec(items[3].as_slice())))
        } else {
            None
        };
        let value = bytes_to_u256(items[4].as_slice())?;
        let data = if items[5].len() > 0 {
            Some(slice_to_vec(items[5].as_slice()))
        } else {
            None
        };
        let v = bytes_to_u64(items[6].as_slice())?;
        let r = bytes_to_u256(items[7].as_slice())?;
        let s = bytes_to_u256(items[8].as_slice())?;
        let from = extract_from_address(&items, v)?;
        let tx = EthTransaction {
            nonce,
            gas_price,
            gas_limit,
            to,
            value,
            data,
            v,
            r,
            s,
            from,
            raw,
        };
        proof {
            assert(it[0] == items@[0]@);
            assert(it[1] == items@[1]@);
            assert(it[2] == items@[2]@);
            assert(it[3] == items@[3]@);
            assert(it[4] == items@[4]@);
            assert(it[5] == items@[5]@);
            assert(it[6] == items@[6]@);
        }
        Ok(tx)
    }

    /// The Keccak-256 digest of the signed bytes.
    pub fn hash(&self) -> (r: Vec<u8>)
        ensures
            r@ == keccak_of(self.raw@),
    {
        keccak256(self.raw.as_slice())
    }

    /// `gas_price * gas_limit`, in wei.
    pub fn fees(&self) -> (r: Result<U256, Error>)
        ensures
            r is Ok <==> self.spec_fees() < u256_limit(),
            r matches Ok(f) ==> f.value() == self.spec_fees(),
            r matches Err(e) ==> (e matches Error::MalformedData(m) && m@ == "Wei multiplication overflow!"@),
    {
        match self.gas_price.checked_mul(&self.gas_limit) {
            Some(f) => Ok(f),
            None => Err(Error::malformed("Wei multiplication overflow!")),
        }
    }

    /// The transferred value, in capacity.
    pub fn value_in_capacity(&self) -> (r: Result<u64, Error>)
        ensures
            r is Ok <==> spec_wei_to_capacity(self.value.value()) is Some,
            r matches Ok(c) ==> spec_wei_to_capacity(self.value.value()) == Some(c),
            r matches Err(e) ==> (e matches Error::MalformedData(m) && m@ == "Exceeds maximum range of capacity!"@),
    {
        wei_to_capacity(&self.value)
    }

    /// The fees, in capacity.
    pub fn fees_in_capacity(&self) -> (r: Result<u64, Error>)
        ensures
            r is Ok <==> self.spec_fees() < u256_limit() && spec_wei_to_capacity(self.spec_fees()) is Some,
            r matches Ok(c) ==> spec_wei_to_capacity(self.spec_fees()) == Some(c),
            r matches Err(e) ==> (e matches Error::MalformedData(m) && (m@ == "Wei multiplication overflow!"@
                || m@ == "Exceeds maximum range of capacity!"@)),
    {
        let f = self.fees()?;
        wei_to_capacity(&f)
    }
}

/// The recovery id that `v` encodes: `v - (2 * CHAIN_ID + 35)`, which must be
/// 0 or 1.
pub fn calculate_sig_recovery(v: u64) -> (r: Result<u8, Error>)
    ensures
        r is Ok <==> spec_sig_recovery(v as nat) is Some,
        r matches Ok(x) ==> spec_sig_recovery(v as nat) == Some(x),
        r matches Err(e) ==> e is MalformedData,
{
    let base: u64 = 2 * CHAIN_ID + 35;
    if v < base || v - base > 1 {
        return Err(Error::malformed("Invalid recovery"));
    }
    Ok((v - base) as u8)
}

/// Recovers the sender's address from the signed fields: the last 20 bytes of
/// the Keccak-256 digest of the recovered public key (without its prefix
/// byte).
fn extract_from_address(items: &Vec<Vec<u8>>, v: u64) -> (r: Result<EthAddress, Error>)
    requires
        fields_well_formed(items.deep_view()),
        v as nat == be_value(items@[6]@),
    ensures
        r is Ok <==> spec_sender(items.deep_view()) is Some,
        r matches Ok(a) ==> spec_sender(items.deep_view()) == Some(a.0@),
        r matches Ok(a) ==> a.0@.len() == 20,
        spec_sig_recovery(v as nat) is None ==> r matches Err(Error::MalformedData(_)),
        spec_sig_recovery(v as nat) is Some && spec_sender(items.deep_view()) is None ==> r matches Err(Error::Secp(_)),
{
    let ghost it = items.deep_view();
    proof {
        lemma_byte_lists_deep_view(items);
    }
    let recovery = calculate_sig_recovery(v)?;
    let mut unsigned: Vec<Vec<u8>> = Vec::new();
    let mut i: usize = 0;
    while i < 6
        invariant
            i <= 6,
            items@.len() == 9,
            it == items.deep_view(),
            unsigned@.len() == i,
            forall|j: int| 0 <= j < i ==> #[trigger] unsigned@[j]@ == items@[j]@,
        decreases 6 - i,
    {
        unsigned.push(slice_to_vec(items[i].as_slice()));
        i = i + 1;
    }
    unsigned.push(vec![CHAIN_ID as u8]);
    unsigned.push(Vec::new());
    unsigned.push(Vec::new());
    proof {
        lemma_byte_lists_deep_view(&unsigned);
        assert forall|j: int| 0 <= j < 9 implies #[trigger] unsigned.deep_view()[j] == unsigned_items(it)[j] by {
            if j < 6 {
                assert(unsigned@[j]@ == items@[j]@);
            }
        }
        assert(unsigned.deep_view() =~= unsigned_items(it));
    }
    let encoded = rlp_encode_list(&unsigned);
    let message = keccak256(encoded.as_slice());
    let mut signature: Vec<u8> = slice_to_vec(items[7].as_slice());
    let mut tail = slice_to_vec(items[8].as_slice());
    signature.append(&mut tail);
    proof {
        assert(it[7] == items@[7]@);
        assert(it[8] == items@[8]@);
        assert(signature@ =~= it[7] + it[8]);
    }
    let public_key = match secp256k1_recover(message.as_slice(), signature.as_slice(), recovery) {
        Ok(k) => k,
        Err(e) => return Err(Error::Secp(e)),
    };
    let digest = keccak256(bytes_from(public_key.as_slice(), 1).as_slice());
    let address = bytes_from(digest.as_slice(), 12);
    Ok(EthAddress(address))
}

/// The bytes of `b` from position `start` on.
pub fn bytes_from(b: &[u8], start: usize) -> (r: Vec<u8>)
    requires
        start <= b@.len(),
    ensures
        r@ == b@.skip(start as int),
{
    let mut r: Vec<u8> = Vec::new();
    let mut i: usize = start;
    while i < b.len()
        invariant
            start <= i <= b@.len(),
            r@ == b@.subrange(start as int, i as int),
        decreases b@.len() - i,
    {
        r.push(b[i]);
        i = i + 1;
        assert(r@ =~= b@.subrange(start as int, i as int));
    }
    assert(r@ =~= b@.skip(start as int));
    r
}

/// A transaction is well formed when it is what its own signed bytes
/// decode to.
pub open spec fn well_formed(tx: EthTransaction) -> bool {
    spec_decodes(tx.raw@) && tx.decoded_from(tx.raw@, rlp_list_items(tx.raw@)->0)
}

/// Decoding the signed bytes of a well-formed transaction gives it back:
/// every decoded field has the same value, and the hash is the same.
pub proof fn lemma_redecode_same_hash(tx: EthTransaction, decoded: EthTransaction)
    requires
        well_formed(tx),
        decoded.decoded_from(tx.raw@, rlp_list_items(tx.raw@)->0),
    ensures
        keccak_of(decoded.raw@) == keccak_of(tx.raw@),
        decoded.nonce == tx.nonce,
        decoded.gas_price.value() == tx.gas_price.value(),
        decoded.gas_limit.value() == tx.gas_limit.value(),
        address_bytes(decoded.to) == address_bytes(tx.to),
        decoded.value.value() == tx.value.value(),
        vec_bytes(decoded.data) == vec_bytes(tx.data),
        decoded.v == tx.v,
        decoded.from.0@ == tx.from.0@,
{
}

/// The parameters of a read-only call.
#[derive(Debug, Clone, PartialEq, Eq)]
pub struct TransactionCall {
    pub from: Option<String>,
    pub to: String,
    pub gas: Option<U256>,
    pub gas_price: Option<U256>,
    pub value: Option<U256>,
    pub data: Option<Vec<u8>>,
}

impl EthTransaction {
    /// The unsigned transaction a read-only call stands for: nonce 0, gas
    /// price 1 and the largest gas limit unless given, no value unless given,
    /// and the zero address as sender unless given.
    pub fn from_call(call: TransactionCall) -> (r: Result<EthTransaction, Error>)
        ensures
            r is Ok <==> spec_parse_address(call.to@) is Some
                && (call.from matches Some(f) ==> spec_parse_address(f@) is Some),
            r matches Ok(tx) ==> {
                &&& tx.nonce == 0
                &&& tx.gas_price.value() == (match call.gas_price { Some(g) => g.value(), None => 1 })
                &&& tx.gas_limit.value() == (match call.gas { Some(g) => g.value(), None => (u256_limit() - 1) as nat })
                &&& tx.to matches Some(a) && Some(a.0@) == spec_parse_address(call.to@)
                &&& tx.value.value() == (match call.value { Some(v) => v.value(), None => 0 })
                &&& vec_bytes(tx.data) == vec_bytes(call.data)
                &&& tx.v == 0 && tx.r.value() == 0 && tx.s.value() == 0
                &&& (match call.from {
                    Some(f) => Some(tx.from.0@) == spec_parse_address(f@),
                    None => tx.from.0@ == Seq::new(20, |i: int| 0u8),
                })
                &&& tx.raw@.len() == 0
            },
            r matches Err(e) ==> e is MalformedData,
    {
        let to = EthAddress::parse(call.to.as_str())?;
        let from = match &call.from {
            Some(f) => EthAddress::parse(f.as_str())?,
            None => EthAddress::default(),
        };
        let gas_price = match call.gas_price {
            Some(g) => g,
            None => U256::from_u64(1),
        };
        let gas_limit = match call.gas {
            Some(g) => g,
            None => U256::max_value(),
        };
        let value = match call.value {
            Some(v) => v,
            None => U256::zero(),
        };
        Ok(EthTransaction {
            nonce: 0,
            gas_price,
            gas_limit,
            to: Some(to),
            value,
            data: call.data,
            v: 0,
            r: U256::zero(),
            s: U256::zero(),
            from,
            raw: Vec::new(),
        })
    }
}

} // verus!
