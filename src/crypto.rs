//! Hashes, signature recovery and RLP, as provided by outside crates.

use vstd::prelude::*;

verus! {

/// A list of byte strings, seen deeply, is the list of their views.
pub proof fn lemma_byte_lists_deep_view(v: &Vec<Vec<u8>>)
    ensures
        v.deep_view().len() == v@.len(),
        forall|i: int| 0 <= i < v@.len() ==> #[trigger] v.deep_view()[i] == v@[i]@,
{
    assert forall|i: int| 0 <= i < v@.len() implies #[trigger] v.deep_view()[i] == v@[i]@ by {
        assert(v@[i].deep_view() =~= v@[i]@);
    }
}

/// The Keccak-256 digest of `data`.
pub uninterp spec fn keccak_of(data: Seq<u8>) -> Seq<u8>;

/// Relies on tiny_keccak::keccak256: the 32-byte Keccak-256 digest of `data`.
#[verifier::external_body]
pub(crate) fn keccak256(data: &[u8]) -> (r: Vec<u8>)
    ensures
        r@ == keccak_of(data@),
        r@.len() == 32,
{
    tiny_keccak::keccak256(data).to_vec()
}

/// The blake2b-256 digest (with the base chain's personalisation) of `data`.
pub uninterp spec fn blake2b_of(data: Seq<u8>) -> Seq<u8>;

/// Relies on ckb_hash::blake2b_256: the base chain's 32-byte blake2b digest.
#[verifier::external_body]
pub(crate) fn blake2b_256(data: &[u8]) -> (r: Vec<u8>)
    ensures
        r@ == blake2b_of(data@),
        r@.len() == 32,
{
    ckb_hash::blake2b_256(data).to_vec()
}

/// The uncompressed secp256k1 public key recovered from the 32-byte message
/// digest `msg`, the compact signature `sig` and the recovery id, if any.
pub uninterp spec fn recovered_public_key(msg: Seq<u8>, sig: Seq<u8>, recovery: u8) -> Option<Seq<u8>>;

/// Relies on secp256k1 (RecoveryId::from_i32, RecoverableSignature::from_compact,
/// Message::from_slice, Secp256k1::recover, PublicKey::serialize_uncompressed):
/// recovers the 65-byte uncompressed public key, or gives the library's
/// error text.
#[verifier::external_body]
pub(crate) fn secp256k1_recover(msg: &[u8], sig: &[u8], recovery: u8) -> (r: Result<Vec<u8>, String>)
    requires
        msg@.len() == 32,
        sig@.len() == 64,
        recovery < 2,
    ensures
        r is Ok <==> recovered_public_key(msg@, sig@, recovery) is Some,
        r matches Ok(k) ==> recovered_public_key(msg@, sig@, recovery) == Some(k@) && k@.len() == 65,
{
    let ctx = secp256k1::Secp256k1::verification_only();
    let id = secp256k1::recovery::RecoveryId::from_i32(recovery as i32).map_err(|e| e.to_string())?;
    let sig = secp256k1::recovery::RecoverableSignature::from_compact(sig, id).map_err(|e| e.to_string())?;
    let msg = secp256k1::Message::from_slice(msg).map_err(|e| e.to_string())?;
    let key = ctx.recover(&msg, &sig).map_err(|e| e.to_string())?;
    Ok(key.serialize_uncompressed().to_vec())
}

/// What rlp's `as_list` gives for `raw`: the byte strings of the RLP list
/// it starts with (trailing bytes ignored), or none when an item is not a
/// byte string. Input that is not a list yields an empty list.
pub uninterp spec fn rlp_list_items(raw: Seq<u8>) -> Option<Seq<Seq<u8>>>;

/// Relies on rlp::Rlp::as_list: decodes an RLP list of byte strings, or gives
/// the decoder's error text.
#[verifier::external_body]
pub(crate) fn rlp_decode_list(raw: &[u8]) -> (r: Result<Vec<Vec<u8>>, String>)
    ensures
        r is Ok <==> rlp_list_items(raw@) is Some,
        r matches Ok(items) ==> rlp_list_items(raw@) == Some(items.deep_view()),
{
    rlp::Rlp::new(raw).as_list::<Vec<u8>>().map_err(|e| e.to_string())
}

/// The RLP encoding of a list of byte strings.
pub uninterp spec fn rlp_list_encoding(items: Seq<Seq<u8>>) -> Seq<u8>;

/// Relies on rlp::encode_list: the RLP encoding of a list of byte strings.
#[verifier::external_body]
pub(crate) fn rlp_encode_list(items: &Vec<Vec<u8>>) -> (r: Vec<u8>)
    ensures
        r@ == rlp_list_encoding(items.deep_view()),
{
    rlp::encode_list::<Vec<u8>, _>(items)
}

/// The RLP encoding of the two-item list (sender bytes, nonce).
pub uninterp spec fn rlp_sender_nonce(sender: Seq<u8>, nonce: u64) -> Seq<u8>;

/// Relies on rlp::RlpStream (new_list, append, out): the RLP list of the
/// sender's bytes followed by the nonce as an integer.
#[verifier::external_body]
pub(crate) fn rlp_encode_sender_nonce(sender: &Vec<u8>, nonce: u64) -> (r: Vec<u8>)
    ensures
        r@ == rlp_sender_nonce(sender@, nonce),
{
    let mut stream = rlp::RlpStream::new_list(2);
    stream.append(sender).append(&nonce);
    stream.out()
}

} // verus!
