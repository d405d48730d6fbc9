//! The read path: what the loader decides from what the store and the base
//! chain answered.

use crate::account::EthCell;
use crate::address::BlockNumber;
use crate::chain::{out_points_view, same_bytes, CellOutput, OutPoint, Transaction};
use crate::crypto::{blake2b_256, blake2b_of};
use crate::keys::{build_eth_key, spec_eth_key};
use vstd::bytes::{spec_u64_from_le_bytes, spec_u64_to_le_bytes};
use crate::error::Error;
use vstd::prelude::*;

verus! {

/// What the base chain says of a cell.
#[derive(Debug)]
pub enum CellStatus {
    /// The cell is unspent; here it is.
    Live(CellOutput),
    /// The cell was spent.
    Dead,
    /// The base chain does not know the cell.
    Unknown,
}

/// The height of the highest indexed block, from the store's `block` entry
/// (zero when there is none).
pub fn tip_block_number(tip: Option<(u64, Vec<u8>)>) -> (r: u64)
    ensures
        tip matches Some(t) ==> r == t.0,
        tip is None ==> r == 0,
{
    match tip {
        Some(t) => t.0,
        None => 0,
    }
}

/// The height a block parameter stands for, given the highest indexed one.
pub fn resolve_block_number(block_number: BlockNumber, tip: u64) -> (r: u64)
    ensures
        block_number == BlockNumber::Latest ==> r == tip,
        block_number matches BlockNumber::Number(n) ==> r == n,
{
    match block_number {
        BlockNumber::Latest => tip,
        BlockNumber::Number(n) => n,
    }
}

/// `key` is the key of a snapshot of `address` at a height at most `height`.
pub open spec fn snapshot_key_at_most(key: Seq<u8>, address: Seq<u8>, height: u64, h: u64) -> bool {
    h <= height && key == spec_eth_key(address, Some(h))
}

/// The snapshot an address has at `block_number`: of the store's entries
/// for the address (`entries`, keys and snapshots), the one at the greatest
/// height not above `block_number`; none when there is no such entry.
pub fn load_latest_out_points(
    eth_address: &Vec<u8>,
    block_number: u64,
    entries: Vec<(Vec<u8>, Vec<OutPoint>)>,
) -> (r: Vec<OutPoint>)
    ensures
        (exists|i: int, h: u64| 0 <= i < entries@.len() && #[trigger] snapshot_key_at_most(entries@[i].0@, eth_address@, block_number, h))
            ==> exists|i: int, h: u64| {
                &&& 0 <= i < entries@.len()
                &&& #[trigger] snapshot_key_at_most(entries@[i].0@, eth_address@, block_number, h)
                &&& out_points_view(r@) == out_points_view(entries@[i].1@)
                &&& forall|j: int, h2: u64| 0 <= j < entries@.len()
                    && #[trigger] snapshot_key_at_most(entries@[j].0@, eth_address@, block_number, h2) ==> h2 <= h
            },
        !(exists|i: int, h: u64| 0 <= i < entries@.len() && #[trigger] snapshot_key_at_most(entries@[i].0@, eth_address@, block_number, h))
            ==> r@.len() == 0,
{
    proof {
        vstd::bytes::lemma_auto_spec_u64_to_from_le_bytes();
    }
    let prefix = build_eth_key(eth_address, None);
    let plen = prefix.len();
    let mut best: Option<(usize, u64)> = None;
    let mut i: usize = 0;
    while i < entries.len()
        invariant
            i <= entries@.len(),
            prefix@ == spec_eth_key(eth_address@, None),
            plen == prefix@.len(),
            forall|x: u64| #![trigger spec_u64_to_le_bytes(x)] spec_u64_to_le_bytes(x).len() == 8
                && spec_u64_from_le_bytes(spec_u64_to_le_bytes(x)) == x,
            forall|t: Seq<u8>| #![trigger spec_u64_to_le_bytes(spec_u64_from_le_bytes(t))]
                t.len() == 8 ==> spec_u64_to_le_bytes(spec_u64_from_le_bytes(t)) == t,
            best is None ==> forall|j: int, h2: u64| 0 <= j < i ==> !#[trigger] snapshot_key_at_most(entries@[j].0@, eth_address@, block_number, h2),
            best matches Some((bi, bh)) ==> {
                &&& bi < i
                &&& snapshot_key_at_most(entries@[bi as int].0@, eth_address@, block_number, bh)
                &&& forall|j: int, h2: u64| 0 <= j < i && #[trigger] snapshot_key_at_most(entries@[j].0@, eth_address@, block_number, h2) ==> h2 <= bh
            },
        decreases entries@.len() - i,
    {
        let key = &entries[i].0;
        let ghost kv = key@;
        if key.len() >= plen && key.len() - plen == 8 {
            let head = vstd::slice::slice_to_vec(vstd::slice::slice_subrange(key.as_slice(), 0, plen));
            if same_bytes(&head, &prefix) {
                let tail = vstd::slice::slice_subrange(key.as_slice(), plen, plen + 8);
                let h = vstd::bytes::u64_from_le_bytes(tail);
                proof {
                    assert(kv =~= prefix@ + tail@);
                    assert(spec_u64_to_le_bytes(spec_u64_from_le_bytes(tail@)) == tail@);
                    assert(kv == spec_eth_key(eth_address@, Some(h)));
                    assert forall|h2: u64| #[trigger] snapshot_key_at_most(kv, eth_address@, block_number, h2) implies h2 == h by {
                        assert(kv.skip(plen as int) =~= spec_u64_to_le_bytes(h2));
                        assert(kv.skip(plen as int) =~= tail@);
                    }
                }
                if h <= block_number {
                    let better = match best {
                        None => true,
                        Some((_, bh)) => h > bh,
                    };
                    if better {
                        best = Some((i, h));
                    }
                }
            } else {
                proof {
                    assert forall|h2: u64| !#[trigger] snapshot_key_at_most(kv, eth_address@, block_number, h2) by {
                        if kv == spec_eth_key(eth_address@, Some(h2)) {
                            assert(head@ =~= kv.take(plen as int));
                            assert(head@ =~= prefix@);
                        }
                    }
                }
            }
        } else {
            proof {
                assert forall|h2: u64| !#[trigger] snapshot_key_at_most(kv, eth_address@, block_number, h2) by {
                    if kv == spec_eth_key(eth_address@, Some(h2)) {
                        assert(kv.len() == plen + 8);
                    }
                }
            }
        }
        i = i + 1;
    }
    match best {
        Some((bi, _)) => {
            let mut rest = entries;
            let (_, v) = rest.swap_remove(bi);
            v
        },
        None => Vec::new(),
    }
}

/// The cell an out point of a snapshot stands for. A live cell is taken as
/// it is. A spent one is taken from the committed transaction that created
/// it, when `load_spent` asks for history; otherwise, or when that
/// transaction is not known, the out point is invalid.
pub fn resolve_cell(
    out_point: &OutPoint,
    status: CellStatus,
    load_spent: bool,
    creating_transaction: Option<&Transaction>,
) -> (r: Result<EthCell, Error>)
    ensures
        status matches CellStatus::Live(c) ==> (r matches Ok(e) && e.0@ == c@ && e.1@ == out_point@),
        status is Dead && load_spent ==> (creating_transaction matches Some(t) ==> (
            out_point.index < t.outputs@.len() ==> (r matches Ok(e) && e.0@ == t.outputs@[out_point.index as int]@
                && e.1@ == out_point@))),
        status is Dead && load_spent ==> (creating_transaction matches Some(t) ==> (
            out_point.index >= t.outputs@.len() ==> r matches Err(Error::InvalidOutPoint))),
        status is Dead && load_spent && creating_transaction is None ==> r matches Err(Error::InvalidOutPoint),
        status is Dead && !load_spent ==> r matches Err(Error::InvalidOutPoint),
        status is Unknown ==> r matches Err(Error::InvalidOutPoint),
{
    match status {
        CellStatus::Live(cell) => Ok(EthCell(cell, out_point.copy())),
        CellStatus::Dead => {
            if load_spent {
                if let Some(t) = creating_transaction {
                    if out_point.index < t.outputs.len() as u64 {
                        let cell = t.outputs[out_point.index as usize].copy();
                        return Ok(EthCell(cell, out_point.copy()));
                    }
                }
            }
            Err(Error::InvalidOutPoint)
        },
        CellStatus::Unknown => Err(Error::InvalidOutPoint),
    }
}

/// Which of the two lock scripts a code cell holds.
#[derive(Debug, Clone, Copy, PartialEq, Eq, Structural)]
pub enum LockKind {
    Normal,
    Contract,
}

/// The message for a missing lock code cell.
pub open spec fn missing_message(kind: LockKind) -> Seq<char> {
    match kind {
        LockKind::Normal => "Lock cell is missing!"@,
        LockKind::Contract => "Contract lock cell is missing!"@,
    }
}

/// The message for a lock code cell holding other code.
pub open spec fn mismatch_message(kind: LockKind) -> Seq<char> {
    match kind {
        LockKind::Normal => "Lock data hash does not match!"@,
        LockKind::Contract => "Contract lock data hash does not match!"@,
    }
}

/// Checks a lock-script code cell at start-up: it must be live on chain
/// and its data must hash (blake2b) to the code hash the locks name.
pub fn check_lock_cell(kind: LockKind, data: Option<&Vec<u8>>, code_hash: &Vec<u8>) -> (r: Result<(), Error>)
    ensures
        data is None ==> (r matches Err(Error::MalformedData(m)) && m@ == missing_message(kind)),
        data matches Some(d) ==> (r is Ok <==> blake2b_of(d@) == code_hash@),
        data is Some ==> (r matches Err(e) ==> (e matches Error::MalformedData(m) && m@ == mismatch_message(kind))),
{
    match data {
        None => match kind {
            LockKind::Normal => Err(Error::malformed("Lock cell is missing!")),
            LockKind::Contract => Err(Error::malformed("Contract lock cell is missing!")),
        },
        Some(d) => {
            let h = blake2b_256(d.as_slice());
            if same_bytes(&h, code_hash) {
                Ok(())
            } else {
                match kind {
                    LockKind::Normal => Err(Error::malformed("Lock data hash does not match!")),
                    LockKind::Contract => Err(Error::malformed("Contract lock data hash does not match!")),
                }
            }
        },
    }
}

/// The out point of a lock-script code cell, from the store's entry; a
/// store without it was not set up.
pub fn load_lock_out_point(stored: Option<&OutPoint>) -> (r: Result<OutPoint, Error>)
    ensures
        stored matches Some(p) ==> (r matches Ok(q) && q@ == p@),
        stored is None ==> r matches Err(Error::MalformedData(_)),
{
    match stored {
        Some(p) => Ok(p.copy()),
        None => Err(Error::malformed("Lock code is not on chain!")),
    }
}

} // verus!
