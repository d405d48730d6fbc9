//! The keys of the key/value store that the index lives in.
//!
//! | key                      | holds                                        |
//! |--------------------------|----------------------------------------------|
//! | `block`                  | height and hash of the highest indexed block |
//! | `e:<addr>:<LE8 height>`  | the out points an address owns from there on |
//! | `o:<out point>`          | the address owning an out point              |
//! | `b:<LE8 height>:h`       | the block hash at that height                |
//! | `b:<LE8 height>:r`       | the Ethereum transaction hashes of the block |
//! | `b:<LE8 height>:s`       | the out points the block spent, with owners  |
//! | `b:<LE8 height>:a`       | the out points the block added               |
//! | `r:<tx hash>`            | the basic receipt of an Ethereum transaction |

use crate::chain::{copy_bytes, OutPoint, OutPointView};
use vstd::bytes::{spec_u64_to_le_bytes, u64_to_le_bytes};
use vstd::prelude::*;

verus! {

/// The key of the highest indexed block.
pub open spec fn spec_block_key() -> Seq<u8> {
    seq![98u8, 108u8, 111u8, 99u8, 107u8]
}

/// The key of the snapshot of `addr` at `height`, or with no height the
/// prefix shared by all snapshots of `addr`.
pub open spec fn spec_eth_key(addr: Seq<u8>, height: Option<u64>) -> Seq<u8> {
    seq![101u8, 58u8] + addr + seq![58u8] + match height {
        Some(h) => spec_u64_to_le_bytes(h),
        None => Seq::<u8>::empty(),
    }
}

/// The bytes that name an out point: the hash's length (LE8), the hash,
/// and the index (LE8).
pub open spec fn spec_out_point_bytes(p: OutPointView) -> Seq<u8> {
    spec_u64_to_le_bytes(p.tx_hash.len() as u64) + p.tx_hash + spec_u64_to_le_bytes(p.index)
}

/// The key of the owner of an out point.
pub open spec fn spec_out_point_key(p: OutPointView) -> Seq<u8> {
    seq![111u8, 58u8] + spec_out_point_bytes(p)
}

/// The key of a per-block summary: `b:`, the height (LE8), `:` and a tag.
pub open spec fn spec_block_summary_key(height: u64, tag: u8) -> Seq<u8> {
    seq![98u8, 58u8] + spec_u64_to_le_bytes(height) + seq![58u8, tag]
}

/// The key of the receipt of an Ethereum transaction.
pub open spec fn spec_receipt_key(tx_hash: Seq<u8>) -> Seq<u8> {
    seq![114u8, 58u8] + tx_hash
}

/// Tag of the block-hash summary.
pub const HASH_TAG: u8 = 104;

/// Tag of the receipt-hashes summary.
pub const RECEIPTS_TAG: u8 = 114;

/// Tag of the spent-out-points summary.
pub const SPENT_TAG: u8 = 115;

/// Tag of the added-out-points summary.
pub const ADDED_TAG: u8 = 97;

fn append_bytes(v: &mut Vec<u8>, b: &Vec<u8>)
    ensures
        final(v)@ == old(v)@ + b@,
{
    let mut t = copy_bytes(b);
    v.append(&mut t);
}

/// The key of the highest indexed block.
pub fn build_block_key() -> (r: Vec<u8>)
    ensures
        r@ == spec_block_key(),
{
    let r = vec![98u8, 108u8, 111u8, 99u8, 107u8];
    assert(r@ =~= spec_block_key());
    r
}

/// The key of the snapshot of `eth_address` at `block_number`, or the prefix
/// of all its snapshots.
pub fn build_eth_key(eth_address: &Vec<u8>, block_number: Option<u64>) -> (r: Vec<u8>)
    ensures
        r@ == spec_eth_key(eth_address@, block_number),
{
    let mut key = vec![101u8, 58u8];
    append_bytes(&mut key, eth_address);
    key.push(58u8);
    if let Some(h) = block_number {
        let le = u64_to_le_bytes(h);
        append_bytes(&mut key, &le);
    }
    assert(key@ =~= spec_eth_key(eth_address@, block_number));
    key
}

/// The bytes that name an out point.
pub fn out_point_bytes(p: &OutPoint) -> (r: Vec<u8>)
    ensures
        r@ == spec_out_point_bytes(p@),
{
    let mut r = u64_to_le_bytes(p.tx_hash.len() as u64);
    append_bytes(&mut r, &p.tx_hash);
    let idx = u64_to_le_bytes(p.index);
    append_bytes(&mut r, &idx);
    r
}

/// The key of the owner of `out_point`.
pub fn build_out_point_key(out_point: &OutPoint) -> (r: Vec<u8>)
    ensures
        r@ == spec_out_point_key(out_point@),
{
    let mut key = vec![111u8, 58u8];
    let b = out_point_bytes(out_point);
    append_bytes(&mut key, &b);
    key
}

fn build_block_summary_key(block_number: u64, tag: u8) -> (r: Vec<u8>)
    ensures
        r@ == spec_block_summary_key(block_number, tag),
{
    let mut key = vec![98u8, 58u8];
    let le = u64_to_le_bytes(block_number);
    append_bytes(&mut key, &le);
    key.push(58u8);
    key.push(tag);
    assert(key@ =~= spec_block_summary_key(block_number, tag));
    key
}

/// The key of the block hash at `block_number`.
pub fn build_block_hash_key(block_number: u64) -> (r: Vec<u8>)
    ensures
        r@ == spec_block_summary_key(block_number, HASH_TAG),
{
    build_block_summary_key(block_number, HASH_TAG)
}

/// The key of the receipt of the Ethereum transaction `tx_hash`.
pub fn build_receipt_key(tx_hash: &Vec<u8>) -> (r: Vec<u8>)
    ensures
        r@ == spec_receipt_key(tx_hash@),
{
    let mut key = vec![114u8, 58u8];
    append_bytes(&mut key, tx_hash);
    key
}

/// The key of the Ethereum transaction hashes of the block at `block_number`.
pub fn build_block_receipt_hashes_key(block_number: u64) -> (r: Vec<u8>)
    ensures
        r@ == spec_block_summary_key(block_number, RECEIPTS_TAG),
{
    build_block_summary_key(block_number, RECEIPTS_TAG)
}

/// The key of the out points spent by the block at `block_number`.
pub fn build_block_spent_out_points_key(block_number: u64) -> (r: Vec<u8>)
    ensures
        r@ == spec_block_summary_key(block_number, SPENT_TAG),
{
    build_block_summary_key(block_number, SPENT_TAG)
}

/// The key of the out points added by the block at `block_number`.
pub fn build_block_added_out_points_key(block_number: u64) -> (r: Vec<u8>)
    ensures
        r@ == spec_block_summary_key(block_number, ADDED_TAG),
{
    build_block_summary_key(block_number, ADDED_TAG)
}

} // verus!
