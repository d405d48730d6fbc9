//! The index of the base chain by Ethereum address, kept in a key/value
//! store: what one step of the indexer decides, and the atomic batches of
//! writes that ingest a block or revert one.
//!
//! Reading the store and the base chain happens outside; the functions here
//! take what was read and return what to write.

use crate::chain::{copy_bytes, same_bytes, out_points_view, Block, BlockTransaction, CellOutput, OutPoint, OutPointView};
use crate::runner::LockCodeHashes;
use crate::transaction::{spec_decodes, EthTransaction};
use crate::crypto::{keccak_of, rlp_list_items};
use crate::error::Error;
use crate::keys::{
    build_block_added_out_points_key, build_block_hash_key, build_block_key,
    build_block_receipt_hashes_key, build_block_spent_out_points_key, build_eth_key,
    build_out_point_key, build_receipt_key, spec_block_key, spec_block_summary_key,
    spec_eth_key, spec_out_point_key, spec_receipt_key, ADDED_TAG, HASH_TAG, RECEIPTS_TAG,
    SPENT_TAG,
};
use crate::num::U256;
use vstd::prelude::*;

verus! {

/// Where an Ethereum transaction was found: its 1-based position among the
/// block's Ethereum transactions, the fees of the block so far, and the
/// base-chain transaction and witness carrying it.
#[derive(Debug, Clone, PartialEq, Eq)]
pub struct EthBasicReceipt {
    pub transaction_index: u64,
    pub cumulative_gas: U256,
    pub block_number: u64,
    pub ckb_transaction_hash: Vec<u8>,
    pub witness_index: u64,
}

/// An out point with the address that owned it.
#[derive(Debug, Clone, PartialEq, Eq)]
pub struct OwnedOutPoint {
    pub owner: Vec<u8>,
    pub out_point: OutPoint,
}

/// A value of the store.
#[derive(Debug, Clone, PartialEq, Eq)]
pub enum KvValue {
    /// Height and hash of the highest indexed block.
    Tip(u64, Vec<u8>),
    /// A snapshot of an address, or the out points a block added.
    OutPoints(Vec<OutPoint>),
    /// The out points a block spent, with their owners.
    Spent(Vec<OwnedOutPoint>),
    /// The address owning an out point.
    Address(Vec<u8>),
    /// A block hash.
    BlockHash(Vec<u8>),
    /// The Ethereum transaction hashes of a block.
    Hashes(Vec<Vec<u8>>),
    /// The receipt of an Ethereum transaction.
    Receipt(EthBasicReceipt),
}

/// One write of an atomic batch.
#[derive(Debug, Clone, PartialEq, Eq)]
pub enum WriteOp {
    Put(Vec<u8>, KvValue),
    Delete(Vec<u8>),
    /// Deletes every key from the first (included) to the second (excluded),
    /// in byte order.
    DeleteRange(Vec<u8>, Vec<u8>),
}

pub struct ReceiptView {
    pub transaction_index: u64,
    pub cumulative_gas: nat,
    pub block_number: u64,
    pub ckb_transaction_hash: Seq<u8>,
    pub witness_index: u64,
}

pub enum KvValueView {
    Tip(u64, Seq<u8>),
    OutPoints(Seq<OutPointView>),
    Spent(Seq<(Seq<u8>, OutPointView)>),
    Address(Seq<u8>),
    BlockHash(Seq<u8>),
    Hashes(Seq<Seq<u8>>),
    Receipt(ReceiptView),
}

pub enum WriteOpView {
    Put(Seq<u8>, KvValueView),
    Delete(Seq<u8>),
    DeleteRange(Seq<u8>, Seq<u8>),
}

impl View for EthBasicReceipt {
    type V = ReceiptView;

    open spec fn view(&self) -> ReceiptView {
        ReceiptView {
            transaction_index: self.transaction_index,
            cumulative_gas: self.cumulative_gas.value(),
            block_number: self.block_number,
            ckb_transaction_hash: self.ckb_transaction_hash@,
            witness_index: self.witness_index,
        }
    }
}

/// The (owner, out point) pairs of a list of owned out points.
pub open spec fn owned_view(v: Seq<OwnedOutPoint>) -> Seq<(Seq<u8>, OutPointView)> {
    v.map_values(|o: OwnedOutPoint| (o.owner@, o.out_point@))
}

impl View for KvValue {
    type V = KvValueView;

    open spec fn view(&self) -> KvValueView {
        match self {
            KvValue::Tip(h, b) => KvValueView::Tip(*h, b@),
            KvValue::OutPoints(v) => KvValueView::OutPoints(v@.map_values(|p: OutPoint| p@)),
            KvValue::Spent(v) => KvValueView::Spent(owned_view(v@)),
            KvValue::Address(a) => KvValueView::Address(a@),
            KvValue::BlockHash(b) => KvValueView::BlockHash(b@),
            KvValue::Hashes(v) => KvValueView::Hashes(v.deep_view()),
            KvValue::Receipt(r) => KvValueView::Receipt(r@),
        }
    }
}

impl View for WriteOp {
    type V = WriteOpView;

    open spec fn view(&self) -> WriteOpView {
        match self {
            WriteOp::Put(k, v) => WriteOpView::Put(k@, v@),
            WriteOp::Delete(k) => WriteOpView::Delete(k@),
            WriteOp::DeleteRange(a, b) => WriteOpView::DeleteRange(a@, b@),
        }
    }
}

/// The views of a batch.
pub open spec fn batch_view(ops: Seq<WriteOp>) -> Seq<WriteOpView> {
    ops.map_values(|o: WriteOp| o@)
}

/// `a` comes before `b` in byte order.
pub open spec fn lex_lt(a: Seq<u8>, b: Seq<u8>) -> bool
    decreases a.len(),
{
    if a.len() == 0 {
        b.len() > 0
    } else if b.len() == 0 {
        false
    } else if a[0] != b[0] {
        a[0] < b[0]
    } else {
        lex_lt(a.drop_first(), b.drop_first())
    }
}

/// `k` lies in the range from `lo` (included) to `hi` (excluded).
pub open spec fn in_range(k: Seq<u8>, lo: Seq<u8>, hi: Seq<u8>) -> bool {
    (k == lo || lex_lt(lo, k)) && lex_lt(k, hi)
}

/// The store after one write.
pub open spec fn apply_op(store: Map<Seq<u8>, KvValueView>, op: WriteOpView) -> Map<Seq<u8>, KvValueView> {
    match op {
        WriteOpView::Put(k, v) => store.insert(k, v),
        WriteOpView::Delete(k) => store.remove(k),
        WriteOpView::DeleteRange(lo, hi) => store.restrict(store.dom().filter(|k: Seq<u8>| !in_range(k, lo, hi))),
    }
}

/// The store after a batch of writes, in order.
pub open spec fn apply_batch(store: Map<Seq<u8>, KvValueView>, ops: Seq<WriteOpView>) -> Map<Seq<u8>, KvValueView>
    decreases ops.len(),
{
    if ops.len() == 0 {
        store
    } else {
        apply_op(apply_batch(store, ops.drop_last()), ops.last())
    }
}

/// What the indexer does next.
#[derive(Debug, Clone, Copy, PartialEq, Eq, Structural)]
pub enum IndexStep {
    /// The block at this height left the base chain: revert it.
    Revert(u64),
    /// Ingest the block at this height, once the base chain has it.
    Advance(u64),
}

/// The base chain no longer holds the highest indexed block.
pub open spec fn is_fork(tip_height: u64, tip_hash: Seq<u8>, header_hash: Option<&Vec<u8>>) -> bool {
    tip_height > 0 && (header_hash matches Some(h) && h@ != tip_hash)
}

/// Decides the indexer's next step from the highest indexed block
/// (`tip_height`, `tip_hash`; height 0 when none) and the hash of the base
/// chain's header at that height, if it has one.
pub fn next_step(tip_height: u64, tip_hash: &Vec<u8>, header_hash: Option<&Vec<u8>>) -> (r: IndexStep)
    requires
        tip_height < u64::MAX,
    ensures
        is_fork(tip_height, tip_hash@, header_hash) ==> r == IndexStep::Revert(tip_height),
        !is_fork(tip_height, tip_hash@, header_hash) ==> r == IndexStep::Advance((tip_height + 1) as u64),
{
    if tip_height > 0 {
        if let Some(h) = header_hash {
            if !same_bytes(h, tip_hash) {
                return IndexStep::Revert(tip_height);
            }
        }
    }
    IndexStep::Advance(tip_height + 1)
}

/// The distinct values of `v`, in order of first appearance.
pub open spec fn distinct_in(v: Seq<Seq<u8>>, d: Seq<Seq<u8>>) -> bool {
    &&& forall|i: int, j: int| 0 <= i < j < d.len() ==> d[i] != d[j]
    &&& forall|i: int| 0 <= i < d.len() ==> v.contains(#[trigger] d[i])
    &&& forall|i: int| 0 <= i < v.len() ==> d.contains(#[trigger] v[i])
}

/// The writes that revert the block at `height`: its receipts, its
/// summaries and hash, the owner entries of the out points it added, the
/// owner entries of the out points it spent (put back), and the snapshot at
/// `height` of each address it changed; the tip goes back to the previous
/// block, or away at height 1.
pub open spec fn revert_ops(
    height: u64,
    receipt_hashes: Seq<Seq<u8>>,
    added: Seq<OutPointView>,
    spent: Seq<(Seq<u8>, OutPointView)>,
    owners: Seq<Seq<u8>>,
    previous_hash: Seq<u8>,
) -> Seq<WriteOpView> {
    seq![WriteOpView::Delete(spec_block_summary_key(height, RECEIPTS_TAG))]
        + receipt_hashes.map_values(|h: Seq<u8>| WriteOpView::Delete(spec_receipt_key(h)))
        + seq![
            WriteOpView::Delete(spec_block_summary_key(height, ADDED_TAG)),
            WriteOpView::Delete(spec_block_summary_key(height, SPENT_TAG)),
            WriteOpView::Delete(spec_block_summary_key(height, HASH_TAG)),
        ]
        + added.map_values(|p: OutPointView| WriteOpView::Delete(spec_out_point_key(p)))
        + spent.map_values(|x: (Seq<u8>, OutPointView)| WriteOpView::Put(spec_out_point_key(x.1), KvValueView::Address(x.0)))
        + owners.map_values(|a: Seq<u8>| WriteOpView::Delete(spec_eth_key(a, Some(height))))
        + seq![
            if height > 1 {
                WriteOpView::Put(spec_block_key(), KvValueView::Tip((height - 1) as u64, previous_hash))
            } else {
                WriteOpView::Delete(spec_block_key())
            },
        ]
}

fn push_deletes_of_receipts(ops: &mut Vec<WriteOp>, hashes: &Vec<Vec<u8>>)
    ensures
        batch_view(final(ops)@) == batch_view(old(ops)@) + hashes.deep_view().map_values(
            |h: Seq<u8>| WriteOpView::Delete(spec_receipt_key(h)),
        ),
{
    let ghost start = batch_view(ops@);
    proof {
        crate::crypto::lemma_byte_lists_deep_view(hashes);
    }
    let mut i: usize = 0;
    while i < hashes.len()
        invariant
            i <= hashes@.len(),
            hashes.deep_view().len() == hashes@.len(),
            forall|j: int| 0 <= j < hashes@.len() ==> #[trigger] hashes.deep_view()[j] == hashes@[j]@,
            batch_view(ops@) == start + hashes.deep_view().take(i as int).map_values(
                |h: Seq<u8>| WriteOpView::Delete(spec_receipt_key(h)),
            ),
        decreases hashes@.len() - i,
    {
        let ghost prev = batch_view(ops@);
        let ghost dv = hashes.deep_view();
        ops.push(WriteOp::Delete(build_receipt_key(&hashes[i])));
        proof {
            let f = |h: Seq<u8>| WriteOpView::Delete(spec_receipt_key(h));
            assert(batch_view(ops@) =~= prev.push(f(dv[i as int])));
            assert(dv.take(i + 1).map_values(f) =~= dv.take(i as int).map_values(f).push(f(dv[i as int])));
        }
        i = i + 1;
        assert(batch_view(ops@) =~= start + hashes.deep_view().take(i as int).map_values(
            |h: Seq<u8>| WriteOpView::Delete(spec_receipt_key(h)),
        ));
    }
    assert(hashes.deep_view().take(i as int) =~= hashes.deep_view());
}

fn push_deletes_of_owners(ops: &mut Vec<WriteOp>, added: &Vec<OutPoint>)
    ensures
        batch_view(final(ops)@) == batch_view(old(ops)@) + added@.map_values(|p: OutPoint| p@).map_values(
            |p: OutPointView| WriteOpView::Delete(spec_out_point_key(p)),
        ),
{
    let ghost start = batch_view(ops@);
    let ghost pts = added@.map_values(|p: OutPoint| p@);
    let mut i: usize = 0;
    while i < added.len()
        invariant
            i <= added@.len(),
            pts == added@.map_values(|p: OutPoint| p@),
            batch_view(ops@) == start + pts.take(i as int).map_values(
                |p: OutPointView| WriteOpView::Delete(spec_out_point_key(p)),
            ),
        decreases added@.len() - i,
    {
        let ghost prev = batch_view(ops@);
        ops.push(WriteOp::Delete(build_out_point_key(&added[i])));
        proof {
            let f = |p: OutPointView| WriteOpView::Delete(spec_out_point_key(p));
            assert(batch_view(ops@) =~= prev.push(f(pts[i as int])));
            assert(pts.take(i + 1).map_values(f) =~= pts.take(i as int).map_values(f).push(f(pts[i as int])));
        }
        i = i + 1;
        assert(batch_view(ops@) =~= start + pts.take(i as int).map_values(
            |p: OutPointView| WriteOpView::Delete(spec_out_point_key(p)),
        ));
    }
    assert(pts.take(i as int) =~= pts);
}

/// The distinct owners among `owners`, in order of first appearance.
pub fn distinct_owners(owners: &Vec<Vec<u8>>) -> (r: Vec<Vec<u8>>)
    ensures
        distinct_in(owners.deep_view(), r.deep_view()),
{
    proof {
        crate::crypto::lemma_byte_lists_deep_view(owners);
    }
    let ghost v = owners.deep_view();
    let mut r: Vec<Vec<u8>> = Vec::new();
    let mut i: usize = 0;
    while i < owners.len()
        invariant
            i <= owners@.len(),
            v == owners.deep_view(),
            v.len() == owners@.len(),
            forall|j: int| 0 <= j < owners@.len() ==> #[trigger] v[j] == owners@[j]@,
            distinct_in(v.take(i as int), r.deep_view()),
        decreases owners@.len() - i,
    {
        proof {
            crate::crypto::lemma_byte_lists_deep_view(&r);
        }
        let mut found = false;
        let mut k: usize = 0;
        while k < r.len()
            invariant
                k <= r@.len(),
                r.deep_view().len() == r@.len(),
                forall|j: int| 0 <= j < r@.len() ==> #[trigger] r.deep_view()[j] == r@[j]@,
                i < owners@.len(),
                found == (exists|j: int| 0 <= j < k && r@[j]@ == owners@[i as int]@),
            decreases r@.len() - k,
        {
            if same_bytes(&r[k], &owners[i]) {
                found = true;
            }
            k = k + 1;
        }
        let ghost before = r.deep_view();
        if !found {
            r.push(copy_bytes(&owners[i]));
        }
        proof {
            crate::crypto::lemma_byte_lists_deep_view(&r);
            let d = r.deep_view();
            let vt = v.take(i + 1);
            assert(vt.drop_last() =~= v.take(i as int));
            assert forall|a: int| 0 <= a < d.len() implies vt.contains(#[trigger] d[a]) by {
                if a < before.len() {
                    assert(d[a] == before[a]);
                    let w = choose|w: int| 0 <= w < v.take(i as int).len() && v.take(i as int)[w] == before[a];
                    assert(vt[w] == before[a]);
                } else {
                    assert(vt[i as int] == d[a]);
                }
            }
            assert forall|a: int| 0 <= a < vt.len() implies d.contains(#[trigger] vt[a]) by {
                if a < i {
                    assert(v.take(i as int)[a] == vt[a]);
                    let w = choose|w: int| 0 <= w < before.len() && before[w] == vt[a];
                    assert(d[w] == before[w]);
                } else if found {
                    let w = choose|w: int| 0 <= w < r@.len() && r@[w]@ == owners@[i as int]@;
                    assert(d[w] == vt[a]);
                } else {
                    assert(d[before.len() as int] == vt[a]);
                }
            }
            assert forall|a: int, b: int| 0 <= a < b < d.len() implies d[a] != d[b] by {
                if b < before.len() {
                    assert(d[a] == before[a] && d[b] == before[b]);
                } else if !found {
                    assert(d[a] == before[a]);
                    assert(d[b] == owners@[i as int]@);
                }
            }
        }
        i = i + 1;
    }
    assert(v.take(i as int) =~= v);
    r
}

/// The bytes of each owner that was found.
pub open spec fn owner_bytes(owners: Seq<Option<Vec<u8>>>) -> Seq<Seq<u8>> {
    owners.map_values(|o: Option<Vec<u8>>| o->0@)
}

/// The owners of a list of (owner, out point) pairs.
pub open spec fn owned_owners(v: Seq<(Seq<u8>, OutPointView)>) -> Seq<Seq<u8>> {
    v.map_values(|x: (Seq<u8>, OutPointView)| x.0)
}

fn push_owner_restores(ops: &mut Vec<WriteOp>, spent: &Vec<OwnedOutPoint>)
    ensures
        batch_view(final(ops)@) == batch_view(old(ops)@) + owned_view(spent@).map_values(
            |x: (Seq<u8>, OutPointView)| WriteOpView::Put(spec_out_point_key(x.1), KvValueView::Address(x.0)),
        ),
{
    let ghost start = batch_view(ops@);
    let ghost pts = owned_view(spent@);
    let mut i: usize = 0;
    while i < spent.len()
        invariant
            i <= spent@.len(),
            pts == owned_view(spent@),
            batch_view(ops@) == start + pts.take(i as int).map_values(
                |x: (Seq<u8>, OutPointView)| WriteOpView::Put(spec_out_point_key(x.1), KvValueView::Address(x.0)),
            ),
        decreases spent@.len() - i,
    {
        let ghost prev = batch_view(ops@);
        ops.push(WriteOp::Put(build_out_point_key(&spent[i].out_point), KvValue::Address(copy_bytes(&spent[i].owner))));
        proof {
            let f = |x: (Seq<u8>, OutPointView)| WriteOpView::Put(spec_out_point_key(x.1), KvValueView::Address(x.0));
            assert(batch_view(ops@) =~= prev.push(f(pts[i as int])));
            assert(pts.take(i + 1).map_values(f) =~= pts.take(i as int).map_values(f).push(f(pts[i as int])));
        }
        i = i + 1;
    }
    assert(pts.take(i as int) =~= pts);
}

/// The batch that reverts the block at `height`, from what the store holds:
/// the block's receipt hashes, its added out points and the owner of each,
/// its spent out points with their owners, and the previous block's hash.
/// A missing entry is corrupt data. The snapshots deleted are those of every
/// owner of an added or spent out point.
pub fn revert_batch(
    height: u64,
    receipt_hashes: Option<Vec<Vec<u8>>>,
    added: Option<Vec<OutPoint>>,
    owners: Vec<Option<Vec<u8>>>,
    spent: Option<Vec<OwnedOutPoint>>,
    previous_hash: Option<Vec<u8>>,
) -> (r: Result<Vec<WriteOp>, Error>)
    requires
        1 <= height < u64::MAX,
        added matches Some(a) ==> owners@.len() == a@.len(),
    ensures
        r is Ok <==> receipt_hashes is Some && added is Some && spent is Some
            && (forall|i: int| 0 <= i < owners@.len() ==> #[trigger] owners@[i] is Some)
            && (height > 1 ==> previous_hash is Some),
        r matches Ok(ops) ==> exists|d: Seq<Seq<u8>>| {
            &&& #[trigger] distinct_in(owner_bytes(owners@) + owned_owners(owned_view(spent->0@)), d)
            &&& batch_view(ops@) == revert_ops(
                height,
                receipt_hashes->0.deep_view(),
                added->0@.map_values(|p: OutPoint| p@),
                owned_view(spent->0@),
                d,
                if height > 1 { previous_hash->0@ } else { Seq::empty() },
            )
        },
        r matches Err(e) ==> e is MalformedData,
{
    let hashes = match receipt_hashes {
        Some(h) => h,
        None => return Err(Error::malformed("Receipt hash key does not exist!")),
    };
    let added = match added {
        Some(a) => a,
        None => return Err(Error::malformed("Added out point key does not exist!")),
    };
    let spent = match spent {
        Some(s) => s,
        None => return Err(Error::malformed("Spent out point key does not exist!")),
    };
    let mut owner_list: Vec<Vec<u8>> = Vec::new();
    let mut i: usize = 0;
    while i < owners.len()
        invariant
            i <= owners@.len(),
            owner_list@.len() == i,
            forall|j: int| 0 <= j < i ==> #[trigger] owners@[j] is Some,
            forall|j: int| 0 <= j < i ==> #[trigger] owner_list@[j]@ == owners@[j]->0@,
        decreases owners@.len() - i,
    {
        match &owners[i] {
            Some(a) => owner_list.push(copy_bytes(a)),
            None => return Err(Error::malformed("Out point key does not exist!")),
        }
        i = i + 1;
    }
    let prev = if height > 1 {
        match previous_hash {
            Some(p) => p,
            None => return Err(Error::malformed("Previous block hash key does not exist!")),
        }
    } else {
        Vec::new()
    };
    let n_added = owner_list.len();
    let mut j: usize = 0;
    while j < spent.len()
        invariant
            j <= spent@.len(),
            owner_list@.len() == n_added + j,
            n_added == owners@.len(),
            forall|m: int| 0 <= m < n_added ==> #[trigger] owner_list@[m]@ == owners@[m]->0@,
            forall|m: int| 0 <= m < j ==> #[trigger] owner_list@[n_added + m]@ == spent@[m].owner@,
        decreases spent@.len() - j,
    {
        owner_list.push(copy_bytes(&spent[j].owner));
        j = j + 1;
    }
    proof {
        crate::crypto::lemma_byte_lists_deep_view(&owner_list);
        let all = owner_bytes(owners@) + owned_owners(owned_view(spent@));
        assert forall|m: int| 0 <= m < all.len() implies #[trigger] owner_list.deep_view()[m] == all[m] by {
            if m < n_added {
                assert(owner_list@[m]@ == owners@[m]->0@);
            } else {
                let m2 = m - n_added;
                assert(owner_list@[n_added + m2]@ == spent@[m2].owner@);
            }
        }
        assert(owner_list.deep_view() =~= all);
    }
    let distinct = distinct_owners(&owner_list);
    let mut ops: Vec<WriteOp> = Vec::new();
    ops.push(WriteOp::Delete(build_block_receipt_hashes_key(height)));
    let ghost s1 = batch_view(ops@);
    assert(s1 =~= seq![WriteOpView::Delete(spec_block_summary_key(height, RECEIPTS_TAG))]);
    push_deletes_of_receipts(&mut ops, &hashes);
    let ghost s2 = batch_view(ops@);
    ops.push(WriteOp::Delete(build_block_added_out_points_key(height)));
    ops.push(WriteOp::Delete(build_block_spent_out_points_key(height)));
    ops.push(WriteOp::Delete(build_block_hash_key(height)));
    let ghost s3 = batch_view(ops@);
    assert(s3 =~= s2 + seq![
        WriteOpView::Delete(spec_block_summary_key(height, ADDED_TAG)),
        WriteOpView::Delete(spec_block_summary_key(height, SPENT_TAG)),
        WriteOpView::Delete(spec_block_summary_key(height, HASH_TAG)),
    ]);
    push_deletes_of_owners(&mut ops, &added);
    push_owner_restores(&mut ops, &spent);
    let ghost before_snapshots = batch_view(ops@);
    let ghost d = distinct.deep_view();
    proof {
        crate::crypto::lemma_byte_lists_deep_view(&distinct);
    }
    let mut k: usize = 0;
    while k < distinct.len()
        invariant
            k <= distinct@.len(),
            d == distinct.deep_view(),
            d.len() == distinct@.len(),
            forall|m: int| 0 <= m < distinct@.len() ==> #[trigger] d[m] == distinct@[m]@,
            batch_view(ops@) == before_snapshots + d.take(k as int).map_values(
                |a: Seq<u8>| WriteOpView::Delete(spec_eth_key(a, Some(height))),
            ),
        decreases distinct@.len() - k,
    {
        let key = build_eth_key(&distinct[k], Some(height));
        let ghost prev = batch_view(ops@);
        ops.push(WriteOp::Delete(key));
        proof {
            let f = |a: Seq<u8>| WriteOpView::Delete(spec_eth_key(a, Some(height)));
            assert(batch_view(ops@) =~= prev.push(f(d[k as int])));
            assert(d.take(k + 1).map_values(f) =~= d.take(k as int).map_values(f).push(f(d[k as int])));
        }
        k = k + 1;
    }
    let ghost prev_view = prev@;
    let ghost s5 = batch_view(ops@);
    if height > 1 {
        ops.push(WriteOp::Put(build_block_key(), KvValue::Tip(height - 1, prev)));
    } else {
        ops.push(WriteOp::Delete(build_block_key()));
    }
    proof {
        assert(d.take(k as int) =~= d);
        let last_op = if height > 1 {
            WriteOpView::Put(spec_block_key(), KvValueView::Tip((height - 1) as u64, prev_view))
        } else {
            WriteOpView::Delete(spec_block_key())
        };
        assert(batch_view(ops@) =~= s5.push(last_op));
        assert(batch_view(ops@) =~= revert_ops(
            height,
            hashes.deep_view(),
            added@.map_values(|p: OutPoint| p@),
            owned_view(spent@),
            d,
            prev_view,
        ));
    }
    Ok(ops)
}

/// The out points of `snapshot` that survive a block spending `spent`,
/// followed by those it adds that are not already there.
pub open spec fn spec_next_snapshot(
    snapshot: Seq<OutPointView>,
    spent: Seq<OutPointView>,
    added: Seq<OutPointView>,
) -> Seq<OutPointView> {
    let kept = snapshot.filter(|p: OutPointView| !spent.contains(p));
    kept + added.filter(|p: OutPointView| !kept.contains(p))
}

fn contains_out_point(v: &Vec<OutPoint>, p: &OutPoint) -> (r: bool)
    ensures
        r == out_points_view(v@).contains(p@),
{
    let mut i: usize = 0;
    while i < v.len()
        invariant
            i <= v@.len(),
            forall|j: int| 0 <= j < i ==> v@[j]@ != p@,
        decreases v@.len() - i,
    {
        if v[i].same(p) {
            assert(out_points_view(v@)[i as int] == p@);
            return true;
        }
        i = i + 1;
    }
    proof {
        if out_points_view(v@).contains(p@) {
            let j = choose|j: int| 0 <= j < v@.len() && out_points_view(v@)[j] == p@;
            assert(v@[j]@ == p@);
        }
    }
    false
}

/// The out points of `v` that `spent` does not hold, in order.
fn filter_out_points(v: &Vec<OutPoint>, spent: &Vec<OutPoint>) -> (r: Vec<OutPoint>)
    ensures
        out_points_view(r@) == out_points_view(v@).filter(
            |p: OutPointView| !out_points_view(spent@).contains(p),
        ),
{
    let ghost pv = out_points_view(v@);
    let ghost sv = out_points_view(spent@);
    let mut r: Vec<OutPoint> = Vec::new();
    let mut i: usize = 0;
    while i < v.len()
        invariant
            i <= v@.len(),
            pv == out_points_view(v@),
            sv == out_points_view(spent@),
            out_points_view(r@) == pv.take(i as int).filter(|p: OutPointView| !sv.contains(p)),
        decreases v@.len() - i,
    {
        proof {
            assert(pv.take(i + 1).drop_last() =~= pv.take(i as int));
            reveal(Seq::filter);
        }
        let present = contains_out_point(spent, &v[i]);
        if !present {
            r.push(v[i].copy());
            proof {
                assert(out_points_view(r@) =~= out_points_view(r@.drop_last()).push(v@[i as int]@));
            }
        }
        i = i + 1;
    }
    proof {
        assert(pv.take(i as int) =~= pv);
    }
    r
}

/// The snapshot of an address after a block: its previous snapshot without
/// the out points the block spent, plus those it added.
pub fn next_snapshot(snapshot: &Vec<OutPoint>, spent: &Vec<OutPoint>, added: &Vec<OutPoint>) -> (r: Vec<OutPoint>)
    ensures
        out_points_view(r@) == spec_next_snapshot(
            out_points_view(snapshot@),
            out_points_view(spent@),
            out_points_view(added@),
        ),
{
    let mut kept = filter_out_points(snapshot, spent);
    let mut extra = filter_out_points(added, &kept);
    let ghost k = out_points_view(kept@);
    let ghost e = out_points_view(extra@);
    kept.append(&mut extra);
    proof {
        assert(out_points_view(kept@) =~= k + e);
    }
    kept
}

/// The changes of one address in a block. A block's changes are a list of
/// these, one per address (`diffs_unique`), whose contents are stated as
/// sets of (address, out point) pairs (`diff_pairs`).
#[derive(Debug, Clone, PartialEq, Eq)]
pub struct AddressDiff {
    pub address: Vec<u8>,
    pub spent: Vec<OutPoint>,
    pub added: Vec<OutPoint>,
}

/// The (address, out point) pairs a list of diffs records as spent, or as
/// added.
pub open spec fn diff_pairs(diffs: Seq<AddressDiff>, spent: bool) -> Set<(Seq<u8>, OutPointView)> {
    Set::new(|x: (Seq<u8>, OutPointView)| exists|k: int, j: int| #![trigger diffs[k], diff_list(diffs[k], spent)[j]]
        0 <= k < diffs.len() && diffs[k].address@ == x.0 && 0 <= j < diff_list(diffs[k], spent).len()
            && diff_list(diffs[k], spent)[j]@ == x.1)
}

pub open spec fn diff_list(d: AddressDiff, spent: bool) -> Seq<OutPoint> {
    if spent {
        d.spent@
    } else {
        d.added@
    }
}

/// Each address has at most one diff.
pub open spec fn diffs_unique(diffs: Seq<AddressDiff>) -> bool {
    forall|a: int, b: int| 0 <= a < b < diffs.len() ==> diffs[a].address@ != diffs[b].address@
}

/// Records that `address` spent (or added) `p`.
#[verifier::spinoff_prover]
fn record(diffs: &mut Vec<AddressDiff>, address: &Vec<u8>, p: &OutPoint, spent: bool)
    requires
        diffs_unique(old(diffs)@),
    ensures
        diffs_unique(final(diffs)@),
        diff_pairs(final(diffs)@, spent) == diff_pairs(old(diffs)@, spent).insert((address@, p@)),
        diff_pairs(final(diffs)@, !spent) == diff_pairs(old(diffs)@, !spent),
{
    let ghost before = diffs@;
    let ghost ns = !spent;
    let mut k: usize = 0;
    let mut hit = false;
    while k < diffs.len() && !hit
        invariant
            k <= diffs@.len(),
            diffs@ == before,
            hit ==> k < diffs@.len() && diffs@[k as int].address@ == address@,
            forall|j: int| 0 <= j < k ==> diffs@[j].address@ != address@,
        decreases diffs@.len() - k + (if hit { 0int } else { 1int }),
    {
        if same_bytes(&diffs[k].address, address) {
            hit = true;
        } else {
            k = k + 1;
        }
    }
    if k == diffs.len() {
        let d = AddressDiff { address: copy_bytes(address), spent: Vec::new(), added: Vec::new() };
        diffs.push(d);
        proof {
            assert(diff_list(diffs@[k as int], spent).len() == 0);
            assert(diff_list(diffs@[k as int], ns).len() == 0);
            assert forall|a: int, b: int| 0 <= a < b < diffs@.len() implies diffs@[a].address@ != diffs@[b].address@ by {
                if b < k {
                    assert(diffs@[a] == before[a] && diffs@[b] == before[b]);
                }
            }
            assert forall|x: (Seq<u8>, OutPointView)| diff_pairs(diffs@, spent).contains(x) <==> diff_pairs(before, spent).contains(x) by {
                if diff_pairs(diffs@, spent).contains(x) {
                    let (kk, j) = choose|kk: int, j: int| 0 <= kk < diffs@.len() && diffs@[kk].address@ == x.0 && 0 <= j < diff_list(diffs@[kk], spent).len() && diff_list(diffs@[kk], spent)[j]@ == x.1;
                    assert(diffs@[kk] == before[kk]);
                }
                if diff_pairs(before, spent).contains(x) {
                    let (kk, j) = choose|kk: int, j: int| 0 <= kk < before.len() && before[kk].address@ == x.0 && 0 <= j < diff_list(before[kk], spent).len() && diff_list(before[kk], spent)[j]@ == x.1;
                    assert(diffs@[kk] == before[kk]);
                }
            }
            assert forall|x: (Seq<u8>, OutPointView)| diff_pairs(diffs@, ns).contains(x) <==> diff_pairs(before, ns).contains(x) by {
                if diff_pairs(diffs@, ns).contains(x) {
                    let (kk, j) = choose|kk: int, j: int| 0 <= kk < diffs@.len() && diffs@[kk].address@ == x.0 && 0 <= j < diff_list(diffs@[kk], ns).len() && diff_list(diffs@[kk], ns)[j]@ == x.1;
                    assert(diffs@[kk] == before[kk]);
                }
                if diff_pairs(before, ns).contains(x) {
                    let (kk, j) = choose|kk: int, j: int| 0 <= kk < before.len() && before[kk].address@ == x.0 && 0 <= j < diff_list(before[kk], ns).len() && diff_list(before[kk], ns)[j]@ == x.1;
                    assert(diffs@[kk] == before[kk]);
                }
            }
            assert(diff_pairs(diffs@, spent) =~= diff_pairs(before, spent));
            assert(diff_pairs(diffs@, ns) =~= diff_pairs(before, ns));
        }
    }
    let ghost mid = diffs@;
    let ghost old_entry = diffs@[k as int];
    let mut entry = diffs.remove(k);
    if spent {
        entry.spent.push(p.copy());
    } else {
        entry.added.push(p.copy());
    }
    let ghost new_entry = entry;
    diffs.insert(k, entry);
    proof {
        assert(diffs@ =~= mid.update(k as int, new_entry));
        assert(new_entry.address@ == address@);
        assert(diff_list(new_entry, spent) =~= diff_list(old_entry, spent).push(diff_list(new_entry, spent).last()));
        assert(diff_list(new_entry, spent).last()@ == p@);
        assert(diff_list(new_entry, ns) == diff_list(old_entry, ns));
        assert forall|a: int, b: int| 0 <= a < b < diffs@.len() implies diffs@[a].address@ != diffs@[b].address@ by {
            assert(diffs@[a].address@ == mid[a].address@);
            assert(diffs@[b].address@ == mid[b].address@);
        }
        assert forall|x: (Seq<u8>, OutPointView)| diff_pairs(diffs@, spent).contains(x) <==> diff_pairs(mid, spent).insert((address@, p@)).contains(x) by {
            if diff_pairs(diffs@, spent).contains(x) {
                let (kk, j) = choose|kk: int, j: int| 0 <= kk < diffs@.len() && diffs@[kk].address@ == x.0 && 0 <= j < diff_list(diffs@[kk], spent).len() && diff_list(diffs@[kk], spent)[j]@ == x.1;
                if kk != k {
                    assert(diffs@[kk] == mid[kk]);
                } else if j < diff_list(old_entry, spent).len() {
                    assert(diff_list(mid[kk], spent)[j] == diff_list(diffs@[kk], spent)[j]);
                }
            }
            if diff_pairs(mid, spent).contains(x) {
                let (kk, j) = choose|kk: int, j: int| 0 <= kk < mid.len() && mid[kk].address@ == x.0 && 0 <= j < diff_list(mid[kk], spent).len() && diff_list(mid[kk], spent)[j]@ == x.1;
                if kk != k {
                    assert(diffs@[kk] == mid[kk]);
                } else {
                    assert(diff_list(diffs@[kk], spent)[j] == diff_list(mid[kk], spent)[j]);
                }
            }
            if x == (address@, p@) {
                let j = diff_list(new_entry, spent).len() - 1;
                assert(diff_list(diffs@[k as int], spent)[j]@ == x.1);
            }
        }
        assert forall|x: (Seq<u8>, OutPointView)| diff_pairs(diffs@, ns).contains(x) <==> diff_pairs(mid, ns).contains(x) by {
            if diff_pairs(diffs@, ns).contains(x) {
                let (kk, j) = choose|kk: int, j: int| 0 <= kk < diffs@.len() && diffs@[kk].address@ == x.0 && 0 <= j < diff_list(diffs@[kk], ns).len() && diff_list(diffs@[kk], ns)[j]@ == x.1;
                if kk != k {
                    assert(diffs@[kk] == mid[kk]);
                } else {
                    assert(diffs@[kk] == new_entry);
                    assert(mid[kk] == old_entry);
                    assert(diff_list(mid[kk], ns)[j] == diff_list(diffs@[kk], ns)[j]);
                }
                assert(diff_pairs(mid, ns).contains(x));
            }
            if diff_pairs(mid, ns).contains(x) {
                let (kk, j) = choose|kk: int, j: int| 0 <= kk < mid.len() && mid[kk].address@ == x.0 && 0 <= j < diff_list(mid[kk], ns).len() && diff_list(mid[kk], ns)[j]@ == x.1;
                if kk != k {
                    assert(diffs@[kk] == mid[kk]);
                } else {
                    assert(diffs@[kk] == new_entry);
                    assert(mid[kk] == old_entry);
                    assert(diff_list(mid[kk], ns)[j] == diff_list(diffs@[kk], ns)[j]);
                }
                assert(diff_pairs(diffs@, ns).contains(x));
            }
        }
        assert(diff_pairs(diffs@, spent) =~= diff_pairs(before, spent).insert((address@, p@)));
        assert(diff_pairs(diffs@, ns) =~= diff_pairs(before, ns));
    }
}

/// The (owner, out point) pairs of the inputs among the first `t`
/// transactions of `txs`, and the first `i` inputs of transaction `t`, whose
/// spent out point has a known owner (`owners` follows the inputs' shape).
pub open spec fn spent_upto(
    txs: Seq<BlockTransaction>,
    owners: Seq<Vec<Option<Vec<u8>>>>,
    t: int,
    i: int,
) -> Set<(Seq<u8>, OutPointView)> {
    Set::new(|x: (Seq<u8>, OutPointView)| exists|a: int, b: int| #![trigger owners[a]@[b]]
        0 <= a < txs.len() && 0 <= b < txs[a].transaction.inputs@.len() && (a < t || (a == t && b < i))
            && b < owners[a]@.len()
            && txs[a].transaction.inputs@[b].previous_output is Some && owners[a]@[b] is Some
            && x == (owners[a]@[b]->0@, txs[a].transaction.inputs@[b].previous_output->0@))
}

/// An output that the index follows: under one of the two locks, with a
/// single 20-byte argument (the owner's address).
pub open spec fn indexed_output(o: CellOutput, codes: LockCodeHashes) -> bool {
    &&& (o.lock.code_hash@ == codes.lock@ || o.lock.code_hash@ == codes.contract_lock@)
    &&& o.lock.args@.len() == 1
    &&& o.lock.args@[0]@.len() == 20
}

/// The (owner, out point) pairs of the indexed outputs among the first `t`
/// transactions of `txs`, and the first `j` outputs of transaction `t`.
pub open spec fn added_upto(
    txs: Seq<BlockTransaction>,
    codes: LockCodeHashes,
    t: int,
    j: int,
) -> Set<(Seq<u8>, OutPointView)> {
    Set::new(|x: (Seq<u8>, OutPointView)| exists|a: int, b: int| #![trigger txs[a].transaction.outputs@[b]]
        0 <= a < txs.len() && 0 <= b < txs[a].transaction.outputs@.len() && (a < t || (a == t && b < j))
            && indexed_output(txs[a].transaction.outputs@[b], codes)
            && x == (txs[a].transaction.outputs@[b].lock.args@[0]@, OutPointView { tx_hash: txs[a].hash@, index: b as u64 }))
}

/// Every input of the block, with the owner of what it spends (if known).
pub open spec fn owners_shaped(txs: Seq<BlockTransaction>, owners: Seq<Vec<Option<Vec<u8>>>>) -> bool {
    owners.len() == txs.len() && forall|a: int| 0 <= a < txs.len() ==> #[trigger] owners[a]@.len() == txs[a].transaction.inputs@.len()
}

/// What a block changes per address: for each input whose spent cell has a
/// known owner (`owners[t][i]` for input `i` of transaction `t`), that
/// owner spent it; for each indexed output, its owner gained it.
pub fn block_diffs(block: &Block, owners: &Vec<Vec<Option<Vec<u8>>>>, codes: &LockCodeHashes) -> (r: Vec<AddressDiff>)
    requires
        owners_shaped(block.transactions@, owners@),
        forall|a: int| 0 <= a < block.transactions@.len() ==> #[trigger] block.transactions@[a].transaction.outputs@.len() < u64::MAX,
    ensures
        diffs_unique(r@),
        diff_pairs(r@, true) == spent_upto(block.transactions@, owners@, block.transactions@.len() as int, 0),
        diff_pairs(r@, false) == added_upto(block.transactions@, *codes, block.transactions@.len() as int, 0),
{
    let ghost txs = block.transactions@;
    let mut diffs: Vec<AddressDiff> = Vec::new();
    proof {
        assert(diff_pairs(diffs@, true) =~= spent_upto(txs, owners@, 0, 0));
        assert(diff_pairs(diffs@, false) =~= added_upto(txs, *codes, 0, 0));
    }
    let mut t: usize = 0;
    while t < block.transactions.len()
        invariant
            t <= txs.len(),
            txs == block.transactions@,
            owners_shaped(txs, owners@),
            forall|a: int| 0 <= a < txs.len() ==> #[trigger] txs[a].transaction.outputs@.len() < u64::MAX,
            diffs_unique(diffs@),
            diff_pairs(diffs@, true) == spent_upto(txs, owners@, t as int, 0),
            diff_pairs(diffs@, false) == added_upto(txs, *codes, t as int, 0),
        decreases txs.len() - t,
    {
        let tx = &block.transactions[t];
        let mut i: usize = 0;
        while i < tx.transaction.inputs.len()
            invariant
                t < txs.len(),
                tx == txs[t as int],
                i <= tx.transaction.inputs@.len(),
                owners_shaped(txs, owners@),
                diffs_unique(diffs@),
                diff_pairs(diffs@, true) == spent_upto(txs, owners@, t as int, i as int),
                diff_pairs(diffs@, false) == added_upto(txs, *codes, t as int, 0),
            decreases tx.transaction.inputs@.len() - i,
        {
            let ghost before = spent_upto(txs, owners@, t as int, i as int);
            let ghost after = spent_upto(txs, owners@, t as int, i + 1);
            assert(owners@[t as int]@.len() == txs[t as int].transaction.inputs@.len());
            match (&tx.transaction.inputs[i].previous_output, &owners[t][i]) {
                (Some(p), Some(a)) => {
                    record(&mut diffs, a, p, true);
                    proof {
                        let x = (a@, p@);
                        assert forall|y: (Seq<u8>, OutPointView)| after.contains(y) <==> before.insert(x).contains(y) by {
                            if after.contains(y) {
                                let (aa, bb) = choose|aa: int, bb: int| 0 <= aa < txs.len() && 0 <= bb < txs[aa].transaction.inputs@.len() && (aa < t || (aa == t && bb < i + 1)) && bb < owners@[aa]@.len() && txs[aa].transaction.inputs@[bb].previous_output is Some && owners@[aa]@[bb] is Some && y == (owners@[aa]@[bb]->0@, txs[aa].transaction.inputs@[bb].previous_output->0@);
                                if !(aa == t && bb == i) {
                                    assert(before.contains(y));
                                }
                            }
                            if before.contains(y) {
                                let (aa, bb) = choose|aa: int, bb: int| 0 <= aa < txs.len() && 0 <= bb < txs[aa].transaction.inputs@.len() && (aa < t || (aa == t && bb < i)) && bb < owners@[aa]@.len() && txs[aa].transaction.inputs@[bb].previous_output is Some && owners@[aa]@[bb] is Some && y == (owners@[aa]@[bb]->0@, txs[aa].transaction.inputs@[bb].previous_output->0@);
                                assert(after.contains(y));
                            }
                            if y == x {
                                assert(owners@[t as int]@[i as int] is Some);
                                assert(after.contains(y));
                            }
                        }
                        assert(after =~= before.insert(x));
                    }
                },
                _ => {
                    proof {
                        assert forall|y: (Seq<u8>, OutPointView)| after.contains(y) <==> before.contains(y) by {
                            if after.contains(y) {
                                let (aa, bb) = choose|aa: int, bb: int| 0 <= aa < txs.len() && 0 <= bb < txs[aa].transaction.inputs@.len() && (aa < t || (aa == t && bb < i + 1)) && bb < owners@[aa]@.len() && txs[aa].transaction.inputs@[bb].previous_output is Some && owners@[aa]@[bb] is Some && y == (owners@[aa]@[bb]->0@, txs[aa].transaction.inputs@[bb].previous_output->0@);
                                assert(!(aa == t && bb == i));
                                assert(before.contains(y));
                            }
                            if before.contains(y) {
                                let (aa, bb) = choose|aa: int, bb: int| 0 <= aa < txs.len() && 0 <= bb < txs[aa].transaction.inputs@.len() && (aa < t || (aa == t && bb < i)) && bb < owners@[aa]@.len() && txs[aa].transaction.inputs@[bb].previous_output is Some && owners@[aa]@[bb] is Some && y == (owners@[aa]@[bb]->0@, txs[aa].transaction.inputs@[bb].previous_output->0@);
                                assert(after.contains(y));
                            }
                        }
                        assert(after =~= before);
                    }
                },
            }
            i = i + 1;
        }
        proof {
            let s1 = spent_upto(txs, owners@, t as int, i as int);
            let s2 = spent_upto(txs, owners@, t + 1, 0);
            assert forall|y: (Seq<u8>, OutPointView)| s1.contains(y) <==> s2.contains(y) by {
                if s1.contains(y) {
                    let (aa, bb) = choose|aa: int, bb: int| 0 <= aa < txs.len() && 0 <= bb < txs[aa].transaction.inputs@.len() && (aa < t || (aa == t && bb < i)) && bb < owners@[aa]@.len() && txs[aa].transaction.inputs@[bb].previous_output is Some && owners@[aa]@[bb] is Some && y == (owners@[aa]@[bb]->0@, txs[aa].transaction.inputs@[bb].previous_output->0@);
                    assert(s2.contains(y));
                }
                if s2.contains(y) {
                    let (aa, bb) = choose|aa: int, bb: int| 0 <= aa < txs.len() && 0 <= bb < txs[aa].transaction.inputs@.len() && (aa < t + 1 || (aa == t + 1 && bb < 0)) && bb < owners@[aa]@.len() && txs[aa].transaction.inputs@[bb].previous_output is Some && owners@[aa]@[bb] is Some && y == (owners@[aa]@[bb]->0@, txs[aa].transaction.inputs@[bb].previous_output->0@);
                    assert(s1.contains(y));
                }
            }
            assert(s1 =~= s2);
        }
        let mut j: usize = 0;
        while j < tx.transaction.outputs.len()
            invariant
                t < txs.len(),
                tx == txs[t as int],
                j <= tx.transaction.outputs@.len(),
                tx.transaction.outputs@.len() < u64::MAX,
                diffs_unique(diffs@),
                diff_pairs(diffs@, true) == spent_upto(txs, owners@, t + 1, 0),
                diff_pairs(diffs@, false) == added_upto(txs, *codes, t as int, j as int),
            decreases tx.transaction.outputs@.len() - j,
        {
            let ghost before = added_upto(txs, *codes, t as int, j as int);
            let ghost after = added_upto(txs, *codes, t as int, j + 1);
            let output = &tx.transaction.outputs[j];
            let lock = &output.lock;
            let indexed = (same_bytes(&lock.code_hash, &codes.lock) || same_bytes(&lock.code_hash, &codes.contract_lock))
                && lock.args.len() == 1 && lock.args[0].len() == 20;
            if indexed {
                let p = OutPoint { tx_hash: copy_bytes(&tx.hash), index: j as u64 };
                record(&mut diffs, &lock.args[0], &p, false);
                proof {
                    let x = (lock.args@[0]@, p@);
                    assert forall|y: (Seq<u8>, OutPointView)| after.contains(y) <==> before.insert(x).contains(y) by {
                        if after.contains(y) {
                            let (aa, bb) = choose|aa: int, bb: int| 0 <= aa < txs.len() && 0 <= bb < txs[aa].transaction.outputs@.len() && (aa < t || (aa == t && bb < j + 1)) && indexed_output(txs[aa].transaction.outputs@[bb], *codes) && y == (txs[aa].transaction.outputs@[bb].lock.args@[0]@, OutPointView { tx_hash: txs[aa].hash@, index: bb as u64 });
                            if !(aa == t && bb == j) {
                                assert(before.contains(y));
                            }
                        }
                        if before.contains(y) {
                            let (aa, bb) = choose|aa: int, bb: int| 0 <= aa < txs.len() && 0 <= bb < txs[aa].transaction.outputs@.len() && (aa < t || (aa == t && bb < j)) && indexed_output(txs[aa].transaction.outputs@[bb], *codes) && y == (txs[aa].transaction.outputs@[bb].lock.args@[0]@, OutPointView { tx_hash: txs[aa].hash@, index: bb as u64 });
                            assert(after.contains(y));
                        }
                        if y == x {
                            assert(indexed_output(txs[t as int].transaction.outputs@[j as int], *codes));
                            assert(after.contains(y));
                        }
                    }
                    assert(after =~= before.insert(x));
                }
            } else {
                proof {
                    assert forall|y: (Seq<u8>, OutPointView)| after.contains(y) <==> before.contains(y) by {
                        if after.contains(y) {
                            let (aa, bb) = choose|aa: int, bb: int| 0 <= aa < txs.len() && 0 <= bb < txs[aa].transaction.outputs@.len() && (aa < t || (aa == t && bb < j + 1)) && indexed_output(txs[aa].transaction.outputs@[bb], *codes) && y == (txs[aa].transaction.outputs@[bb].lock.args@[0]@, OutPointView { tx_hash: txs[aa].hash@, index: bb as u64 });
                            assert(!(aa == t && bb == j));
                            assert(before.contains(y));
                        }
                        if before.contains(y) {
                            let (aa, bb) = choose|aa: int, bb: int| 0 <= aa < txs.len() && 0 <= bb < txs[aa].transaction.outputs@.len() && (aa < t || (aa == t && bb < j)) && indexed_output(txs[aa].transaction.outputs@[bb], *codes) && y == (txs[aa].transaction.outputs@[bb].lock.args@[0]@, OutPointView { tx_hash: txs[aa].hash@, index: bb as u64 });
                            assert(after.contains(y));
                        }
                    }
                    assert(after =~= before);
                }
            }
            j = j + 1;
        }
        proof {
            let s1 = added_upto(txs, *codes, t as int, j as int);
            let s2 = added_upto(txs, *codes, t + 1, 0);
            assert forall|y: (Seq<u8>, OutPointView)| s1.contains(y) <==> s2.contains(y) by {
                if s1.contains(y) {
                    let (aa, bb) = choose|aa: int, bb: int| 0 <= aa < txs.len() && 0 <= bb < txs[aa].transaction.outputs@.len() && (aa < t || (aa == t && bb < j)) && indexed_output(txs[aa].transaction.outputs@[bb], *codes) && y == (txs[aa].transaction.outputs@[bb].lock.args@[0]@, OutPointView { tx_hash: txs[aa].hash@, index: bb as u64 });
                    assert(s2.contains(y));
                }
                if s2.contains(y) {
                    let (aa, bb) = choose|aa: int, bb: int| 0 <= aa < txs.len() && 0 <= bb < txs[aa].transaction.outputs@.len() && (aa < t + 1 || (aa == t + 1 && bb < 0)) && indexed_output(txs[aa].transaction.outputs@[bb], *codes) && y == (txs[aa].transaction.outputs@[bb].lock.args@[0]@, OutPointView { tx_hash: txs[aa].hash@, index: bb as u64 });
                    assert(s1.contains(y));
                }
            }
            assert(s1 =~= s2);
        }
        t = t + 1;
    }
    diffs
}

/// Transaction `a` of `txs` has an output under the normal lock.
pub open spec fn has_lock_output(txs: Seq<BlockTransaction>, code: Seq<u8>, a: int) -> bool {
    exists|j: int| 0 <= j < txs[a].transaction.outputs@.len() && #[trigger] txs[a].transaction.outputs@[j].lock.code_hash@ == code
}

/// The witness `b` of transaction `a` is a single item holding a signed
/// Ethereum transaction, in a transaction with an output under the normal
/// lock.
pub open spec fn eth_witness_at(txs: Seq<BlockTransaction>, code: Seq<u8>, a: int, b: int) -> bool {
    &&& has_lock_output(txs, code, a)
    &&& txs[a].transaction.witnesses@[b]@.len() == 1
    &&& spec_decodes(txs[a].transaction.witnesses@[b]@[0]@)
}

/// The signed bytes in witness `b` of transaction `a`.
pub open spec fn witness_raw(txs: Seq<BlockTransaction>, a: int, b: int) -> Seq<u8> {
    txs[a].transaction.witnesses@[b]@[0]@
}

/// The positions of the Ethereum witnesses among the first `w` witnesses of
/// transaction `a`.
pub open spec fn tx_eth_witnesses(txs: Seq<BlockTransaction>, code: Seq<u8>, a: int, w: int) -> Seq<(int, int)>
    decreases w,
{
    if w <= 0 {
        Seq::empty()
    } else {
        tx_eth_witnesses(txs, code, a, w - 1) + if eth_witness_at(txs, code, a, w - 1) {
            seq![(a, w - 1)]
        } else {
            Seq::empty()
        }
    }
}

/// The positions of the Ethereum witnesses of the first `t` transactions.
pub open spec fn eth_witnesses(txs: Seq<BlockTransaction>, code: Seq<u8>, t: int) -> Seq<(int, int)>
    decreases t,
{
    if t <= 0 {
        Seq::empty()
    } else {
        eth_witnesses(txs, code, t - 1) + tx_eth_witnesses(txs, code, t - 1, txs[t - 1].transaction.witnesses@.len() as int)
    }
}

/// The fees (gas price times gas limit) of the signed transaction `raw`.
pub open spec fn raw_fees(raw: Seq<u8>) -> nat {
    let items = rlp_list_items(raw)->0;
    crate::num::be_value(items[1]) * crate::num::be_value(items[2])
}

/// The fees of the Ethereum transactions at the positions `ws`.
pub open spec fn fee_sum(txs: Seq<BlockTransaction>, ws: Seq<(int, int)>) -> nat
    decreases ws.len(),
{
    if ws.len() == 0 {
        0
    } else {
        fee_sum(txs, ws.drop_last()) + raw_fees(witness_raw(txs, ws.last().0, ws.last().1))
    }
}

/// `rs` are the receipts of the Ethereum transactions at positions `ws`
/// of the block at `height`, numbered from 1 with running fee totals.
pub open spec fn receipts_match(
    rs: Seq<(Vec<u8>, EthBasicReceipt)>,
    txs: Seq<BlockTransaction>,
    ws: Seq<(int, int)>,
    height: u64,
) -> bool {
    &&& rs.len() == ws.len()
    &&& forall|k: int| 0 <= k < rs.len() ==> {
        let (a, b) = #[trigger] ws[k];
        &&& rs[k].0@ == keccak_of(witness_raw(txs, a, b))
        &&& rs[k].1@ == (ReceiptView {
            transaction_index: (k + 1) as u64,
            cumulative_gas: fee_sum(txs, ws.take(k + 1)),
            block_number: height,
            ckb_transaction_hash: txs[a].hash@,
            witness_index: b as u64,
        })
    }
}

proof fn lemma_fee_sum_prefix(txs: Seq<BlockTransaction>, ws: Seq<(int, int)>, k: int)
    requires
        0 <= k <= ws.len(),
    ensures
        fee_sum(txs, ws.take(k)) <= fee_sum(txs, ws),
    decreases ws.len() - k,
{
    if k < ws.len() {
        lemma_fee_sum_prefix(txs, ws.drop_last(), k);
        assert(ws.drop_last().take(k) =~= ws.take(k));
    } else {
        assert(ws.take(k) =~= ws);
    }
}

fn tx_has_lock_output(tx: &BlockTransaction, code: &Vec<u8>) -> (r: bool)
    ensures
        r == exists|j: int| 0 <= j < tx.transaction.outputs@.len() && #[trigger] tx.transaction.outputs@[j].lock.code_hash@ == code@,
{
    let mut j: usize = 0;
    while j < tx.transaction.outputs.len()
        invariant
            j <= tx.transaction.outputs@.len(),
            forall|k: int| 0 <= k < j ==> #[trigger] tx.transaction.outputs@[k].lock.code_hash@ != code@,
        decreases tx.transaction.outputs@.len() - j,
    {
        if same_bytes(&tx.transaction.outputs[j].lock.code_hash, code) {
            return true;
        }
        j = j + 1;
    }
    false
}

/// The receipts of the Ethereum transactions a block carries: every
/// single-item witness that decodes, in a transaction with an output under
/// the normal lock. Witnesses that do not decode are skipped; fee totals
/// beyond 256 bits are corrupt data.
#[verifier::loop_isolation(false)]
pub fn block_receipts(block: &Block, height: u64, lock_code_hash: &Vec<u8>) -> (r: Result<Vec<(Vec<u8>, EthBasicReceipt)>, Error>)
    ensures
        ({
            let txs = block.transactions@;
            let ws = eth_witnesses(txs, lock_code_hash@, txs.len() as int);
            &&& r is Ok <==> (fee_sum(txs, ws) < crate::num::u256_limit() && ws.len() < u64::MAX)
            &&& r matches Ok(rs) ==> receipts_match(rs@, txs, ws, height)
        }),
        r matches Err(e) ==> e is MalformedData,
{
    let ghost txs = block.transactions@;
    let ghost code = lock_code_hash@;
    let mut receipts: Vec<(Vec<u8>, EthBasicReceipt)> = Vec::new();
    let mut cumulative = U256::zero();
    proof {
        crate::num::lemma_pow256_known();
        assert(eth_witnesses(txs, code, 0) =~= Seq::<(int, int)>::empty());
    }
    let mut t: usize = 0;
    while t < block.transactions.len()
        invariant
            t <= txs.len(),
            txs == block.transactions@,
            receipts_match(receipts@, txs, eth_witnesses(txs, code, t as int), height),
            cumulative.value() == fee_sum(txs, eth_witnesses(txs, code, t as int)),
            eth_witnesses(txs, code, t as int).len() < u64::MAX,
            fee_sum(txs, eth_witnesses(txs, code, t as int)) < crate::num::u256_limit(),
        decreases txs.len() - t,
    {
        let tx = &block.transactions[t];
        let has_lock = tx_has_lock_output(tx, lock_code_hash);
        let ghost base = eth_witnesses(txs, code, t as int);
        let mut w: usize = 0;
        while w < tx.transaction.witnesses.len()
            invariant
                t < txs.len(),
                tx == txs[t as int],
                has_lock == has_lock_output(txs, code, t as int),
                w <= tx.transaction.witnesses@.len(),
                base == eth_witnesses(txs, code, t as int),
                receipts_match(receipts@, txs, base + tx_eth_witnesses(txs, code, t as int, w as int), height),
                cumulative.value() == fee_sum(txs, base + tx_eth_witnesses(txs, code, t as int, w as int)),
                (base + tx_eth_witnesses(txs, code, t as int, w as int)).len() < u64::MAX,
                fee_sum(txs, base + tx_eth_witnesses(txs, code, t as int, w as int)) < crate::num::u256_limit(),
            decreases tx.transaction.witnesses@.len() - w,
        {
            let ghost cur = base + tx_eth_witnesses(txs, code, t as int, w as int);
            let ghost next = base + tx_eth_witnesses(txs, code, t as int, w + 1);
            let witness = &tx.transaction.witnesses[w];
            let mut taken = false;
            if has_lock && witness.len() == 1 {
                match EthTransaction::from_raw(copy_bytes(&witness[0])) {
                    Ok(eth) => {
                        proof {
                            assert(eth_witness_at(txs, code, t as int, w as int));
                            assert(next =~= cur.push((t as int, w as int)));
                            assert(next.drop_last() =~= cur);
                            assert(raw_fees(witness_raw(txs, t as int, w as int)) == eth.spec_fees());
                        }
                        let fees = match eth.fees() {
                            Ok(f) => f,
                            Err(e) => {
                                proof {
                                    lemma_fee_sum_prefix(txs, eth_witnesses(txs, code, txs.len() as int), 0);
                                    lemma_eth_witnesses_grow(txs, code, t as int, w as int + 1);
                                    lemma_fee_sum_prefix(txs, eth_witnesses(txs, code, txs.len() as int), next.len() as int);
                                }
                                return Err(e);
                            },
                        };
                        let total = match cumulative.checked_add(&fees) {
                            Some(c) => c,
                            None => {
                                proof {
                                    lemma_eth_witnesses_grow(txs, code, t as int, w as int + 1);
                                    lemma_fee_sum_prefix(txs, eth_witnesses(txs, code, txs.len() as int), next.len() as int);
                                }
                                return Err(Error::malformed("Wei addition overflow!"));
                            },
                        };
                        let index = match (receipts.len() as u64).checked_add(1) {
                            Some(i) => i,
                            None => {
                                proof {
                                    lemma_eth_witnesses_grow(txs, code, t as int, w as int + 1);
                                }
                                return Err(Error::malformed("Too many transactions"));
                            },
                        };
                        if index == u64::MAX {
                            proof {
                                lemma_eth_witnesses_grow(txs, code, t as int, w as int + 1);
                            }
                            return Err(Error::malformed("Too many transactions"));
                        }
                        cumulative = total;
                        let receipt = EthBasicReceipt {
                            transaction_index: index,
                            cumulative_gas: total,
                            block_number: height,
                            ckb_transaction_hash: copy_bytes(&tx.hash),
                            witness_index: w as u64,
                        };
                        let ghost prev = receipts@;
                        receipts.push((eth.hash(), receipt));
                        taken = true;
                        proof {
                            assert(next.take(next.len() as int) =~= next);
                            assert forall|k: int| 0 <= k < receipts@.len() implies {
                                let (a, b) = #[trigger] next[k];
                                &&& receipts@[k].0@ == keccak_of(witness_raw(txs, a, b))
                                &&& receipts@[k].1@ == (ReceiptView {
                                    transaction_index: (k + 1) as u64,
                                    cumulative_gas: fee_sum(txs, next.take(k + 1)),
                                    block_number: height,
                                    ckb_transaction_hash: txs[a].hash@,
                                    witness_index: b as u64,
                                })
                            } by {
                                if k < prev.len() {
                                    assert(next[k] == cur[k]);
                                    assert(next.take(k + 1) =~= cur.take(k + 1));
                                    assert(receipts@[k] == prev[k]);
                                }
                            }
                        }
                    },
                    Err(_) => {},
                }
            }
            if !taken {
                proof {
                    assert(!eth_witness_at(txs, code, t as int, w as int));
                    assert(next =~= cur);
                }
            }
            w = w + 1;
        }
        proof {
            assert(eth_witnesses(txs, code, t + 1) =~= base + tx_eth_witnesses(txs, code, t as int, w as int));
        }
        t = t + 1;
    }
    Ok(receipts)
}

/// Later positions only extend the list of Ethereum witnesses.
proof fn lemma_eth_witnesses_grow(txs: Seq<BlockTransaction>, code: Seq<u8>, t: int, w: int)
    requires
        0 <= t < txs.len(),
        0 <= w <= txs[t].transaction.witnesses@.len(),
    ensures
        ({
            let cur = eth_witnesses(txs, code, t) + tx_eth_witnesses(txs, code, t, w);
            let all = eth_witnesses(txs, code, txs.len() as int);
            &&& cur.len() <= all.len()
            &&& all.take(cur.len() as int) == cur
        }),
    decreases txs.len() - t, txs[t].transaction.witnesses@.len() - w,
{
    let cur = eth_witnesses(txs, code, t) + tx_eth_witnesses(txs, code, t, w);
    let all = eth_witnesses(txs, code, txs.len() as int);
    if w < txs[t].transaction.witnesses@.len() {
        lemma_eth_witnesses_grow(txs, code, t, w + 1);
        let nxt = eth_witnesses(txs, code, t) + tx_eth_witnesses(txs, code, t, w + 1);
        assert(nxt.take(cur.len() as int) =~= cur);
        assert(all.take(cur.len() as int) =~= nxt.take(cur.len() as int));
    } else if t + 1 < txs.len() {
        lemma_eth_witnesses_grow(txs, code, t + 1, 0);
        assert(eth_witnesses(txs, code, t + 1) =~= cur);
        assert(tx_eth_witnesses(txs, code, t + 1, 0) =~= Seq::<(int, int)>::empty());
        assert(eth_witnesses(txs, code, t + 1) + tx_eth_witnesses(txs, code, t + 1, 0) =~= cur);
    } else {
        assert(eth_witnesses(txs, code, t + 1) =~= cur);
        assert(all.take(cur.len() as int) =~= cur);
    }
}

/// The writes for one address's diff: its new snapshot at `height`, and the
/// owner entry of each out point it gained.
pub open spec fn diff_ops(d: AddressDiff, snapshot: Seq<OutPointView>, height: u64) -> Seq<WriteOpView> {
    seq![WriteOpView::Put(
        spec_eth_key(d.address@, Some(height)),
        KvValueView::OutPoints(spec_next_snapshot(snapshot, out_points_view(d.spent@), out_points_view(d.added@))),
    )] + out_points_view(d.added@).map_values(
        |p: OutPointView| WriteOpView::Put(spec_out_point_key(p), KvValueView::Address(d.address@)),
    )
}

/// The writes for the first `n` diffs.
pub open spec fn all_diff_ops(diffs: Seq<AddressDiff>, snapshots: Seq<Seq<OutPointView>>, height: u64, n: int) -> Seq<WriteOpView>
    decreases n,
{
    if n <= 0 {
        Seq::empty()
    } else {
        all_diff_ops(diffs, snapshots, height, n - 1) + diff_ops(diffs[n - 1], snapshots[n - 1], height)
    }
}

/// The out points the first `n` diffs spent (or added), in order.
pub open spec fn all_listed(diffs: Seq<AddressDiff>, spent: bool, n: int) -> Seq<OutPointView>
    decreases n,
{
    if n <= 0 {
        Seq::empty()
    } else {
        all_listed(diffs, spent, n - 1) + out_points_view(diff_list(diffs[n - 1], spent))
    }
}

/// The (owner, out point) pairs the first `n` diffs spent, in order.
pub open spec fn all_spent_owned(diffs: Seq<AddressDiff>, n: int) -> Seq<(Seq<u8>, OutPointView)>
    decreases n,
{
    if n <= 0 {
        Seq::empty()
    } else {
        all_spent_owned(diffs, n - 1) + out_points_view(diffs[n - 1].spent@).map_values(
            |p: OutPointView| (diffs[n - 1].address@, p),
        )
    }
}

/// The deletions of the owner entries of spent out points.
pub open spec fn owner_deletes(points: Seq<OutPointView>) -> Seq<WriteOpView> {
    points.map_values(|p: OutPointView| WriteOpView::Delete(spec_out_point_key(p)))
}

/// The atomic batch that ingests the block `block_hash` at `height`: the
/// new tip and block hash, the removal of the owner entries of the out
/// points it spent, each changed address's snapshot and its new owner
/// entries, the block's spent out points (with their owners) and added out
/// points, and its receipts with the list of their hashes.
pub open spec fn ingest_ops(
    height: u64,
    block_hash: Seq<u8>,
    diffs: Seq<AddressDiff>,
    snapshots: Seq<Seq<OutPointView>>,
    receipts: Seq<(Vec<u8>, EthBasicReceipt)>,
) -> Seq<WriteOpView> {
    seq![
        WriteOpView::Put(spec_block_key(), KvValueView::Tip(height, block_hash)),
        WriteOpView::Put(spec_block_summary_key(height, HASH_TAG), KvValueView::BlockHash(block_hash)),
    ] + owner_deletes(all_listed(diffs, true, diffs.len() as int))
        + all_diff_ops(diffs, snapshots, height, diffs.len() as int) + seq![
        WriteOpView::Put(spec_block_summary_key(height, SPENT_TAG), KvValueView::Spent(all_spent_owned(diffs, diffs.len() as int))),
        WriteOpView::Put(spec_block_summary_key(height, ADDED_TAG), KvValueView::OutPoints(all_listed(diffs, false, diffs.len() as int))),
    ] + receipts.map_values(
        |r: (Vec<u8>, EthBasicReceipt)| WriteOpView::Put(spec_receipt_key(r.0@), KvValueView::Receipt(r.1@)),
    ) + seq![
        WriteOpView::Put(
            spec_block_summary_key(height, RECEIPTS_TAG),
            KvValueView::Hashes(receipts.map_values(|r: (Vec<u8>, EthBasicReceipt)| r.0@)),
        ),
    ]
}

fn push_owner_entries(ops: &mut Vec<WriteOp>, added: &Vec<OutPoint>, address: &Vec<u8>)
    ensures
        batch_view(final(ops)@) == batch_view(old(ops)@) + out_points_view(added@).map_values(
            |p: OutPointView| WriteOpView::Put(spec_out_point_key(p), KvValueView::Address(address@)),
        ),
{
    let ghost start = batch_view(ops@);
    let ghost pts = out_points_view(added@);
    let mut i: usize = 0;
    while i < added.len()
        invariant
            i <= added@.len(),
            pts == out_points_view(added@),
            batch_view(ops@) == start + pts.take(i as int).map_values(
                |p: OutPointView| WriteOpView::Put(spec_out_point_key(p), KvValueView::Address(address@)),
            ),
        decreases added@.len() - i,
    {
        let ghost prev = batch_view(ops@);
        ops.push(WriteOp::Put(build_out_point_key(&added[i]), KvValue::Address(copy_bytes(address))));
        proof {
            let f = |p: OutPointView| WriteOpView::Put(spec_out_point_key(p), KvValueView::Address(address@));
            assert(batch_view(ops@) =~= prev.push(f(pts[i as int])));
            assert(pts.take(i + 1).map_values(f) =~= pts.take(i as int).map_values(f).push(f(pts[i as int])));
        }
        i = i + 1;
    }
    assert(pts.take(i as int) =~= pts);
}

fn append_out_points(all: &mut Vec<OutPoint>, more: &Vec<OutPoint>)
    ensures
        out_points_view(final(all)@) == out_points_view(old(all)@) + out_points_view(more@),
{
    let mut copy = crate::chain::copy_out_points(more);
    let ghost a = out_points_view(all@);
    let ghost b = out_points_view(copy@);
    all.append(&mut copy);
    assert(out_points_view(all@) =~= a + b);
}

fn append_owned(all: &mut Vec<OwnedOutPoint>, owner: &Vec<u8>, more: &Vec<OutPoint>)
    ensures
        owned_view(final(all)@) == owned_view(old(all)@) + out_points_view(more@).map_values(
            |p: OutPointView| (owner@, p),
        ),
{
    let ghost start = owned_view(all@);
    let ghost pts = out_points_view(more@);
    let mut i: usize = 0;
    while i < more.len()
        invariant
            i <= more@.len(),
            pts == out_points_view(more@),
            owned_view(all@) == start + pts.take(i as int).map_values(|p: OutPointView| (owner@, p)),
        decreases more@.len() - i,
    {
        let ghost prev = owned_view(all@);
        all.push(OwnedOutPoint { owner: copy_bytes(owner), out_point: more[i].copy() });
        proof {
            let f = |p: OutPointView| (owner@, p);
            assert(owned_view(all@) =~= prev.push(f(pts[i as int])));
            assert(pts.take(i + 1).map_values(f) =~= pts.take(i as int).map_values(f).push(f(pts[i as int])));
        }
        i = i + 1;
    }
    assert(pts.take(i as int) =~= pts);
}

/// Builds the batch that ingests the block `block_hash` at `height`, from
/// its per-address diffs, each changed address's latest snapshot before the
/// block (`snapshots[k]` for `diffs[k]`), and its receipts.
pub fn ingest_batch(
    height: u64,
    block_hash: &Vec<u8>,
    diffs: &Vec<AddressDiff>,
    snapshots: &Vec<Vec<OutPoint>>,
    receipts: Vec<(Vec<u8>, EthBasicReceipt)>,
) -> (r: Vec<WriteOp>)
    requires
        snapshots@.len() == diffs@.len(),
    ensures
        batch_view(r@) == ingest_ops(
            height,
            block_hash@,
            diffs@,
            snapshots@.map_values(|s: Vec<OutPoint>| out_points_view(s@)),
            receipts@,
        ),
{
    let ghost snaps = snapshots@.map_values(|s: Vec<OutPoint>| out_points_view(s@));
    let ghost rs = receipts@;
    let mut ops: Vec<WriteOp> = Vec::new();
    ops.push(WriteOp::Put(build_block_key(), KvValue::Tip(height, copy_bytes(block_hash))));
    ops.push(WriteOp::Put(build_block_hash_key(height), KvValue::BlockHash(copy_bytes(block_hash))));
    let ghost head = batch_view(ops@);
    let mut q: usize = 0;
    while q < diffs.len()
        invariant
            q <= diffs@.len(),
            batch_view(ops@) == head + owner_deletes(all_listed(diffs@, true, q as int)),
        decreases diffs@.len() - q,
    {
        let ghost prev = batch_view(ops@);
        push_deletes_of_owners(&mut ops, &diffs[q].spent);
        proof {
            let f = |p: OutPointView| WriteOpView::Delete(spec_out_point_key(p));
            let a = all_listed(diffs@, true, q as int);
            let b = out_points_view(diffs@[q as int].spent@);
            assert(diff_list(diffs@[q as int], true) == diffs@[q as int].spent@);
            assert(all_listed(diffs@, true, q + 1) == a + b);
            assert((a + b).map_values(f) =~= a.map_values(f) + b.map_values(f));
            assert(batch_view(ops@) =~= head + owner_deletes(all_listed(diffs@, true, q + 1)));
        }
        q = q + 1;
    }
    let ghost head2 = batch_view(ops@);
    let mut all_spent: Vec<OwnedOutPoint> = Vec::new();
    let mut all_added: Vec<OutPoint> = Vec::new();
    let mut k: usize = 0;
    while k < diffs.len()
        invariant
            k <= diffs@.len(),
            snapshots@.len() == diffs@.len(),
            snaps == snapshots@.map_values(|s: Vec<OutPoint>| out_points_view(s@)),
            batch_view(ops@) == head2 + all_diff_ops(diffs@, snaps, height, k as int),
            owned_view(all_spent@) == all_spent_owned(diffs@, k as int),
            out_points_view(all_added@) == all_listed(diffs@, false, k as int),
        decreases diffs@.len() - k,
    {
        let d = &diffs[k];
        let snapshot = next_snapshot(&snapshots[k], &d.spent, &d.added);
        let ghost before = batch_view(ops@);
        ops.push(WriteOp::Put(build_eth_key(&d.address, Some(height)), KvValue::OutPoints(snapshot)));
        let ghost mid = batch_view(ops@);
        push_owner_entries(&mut ops, &d.added, &d.address);
        append_owned(&mut all_spent, &d.address, &d.spent);
        append_out_points(&mut all_added, &d.added);
        proof {
            assert(snaps[k as int] == out_points_view(snapshots@[k as int]@));
            assert(mid =~= before + seq![WriteOpView::Put(
                spec_eth_key(d.address@, Some(height)),
                KvValueView::OutPoints(spec_next_snapshot(snaps[k as int], out_points_view(d.spent@), out_points_view(d.added@))),
            )]);
            assert(batch_view(ops@) =~= head2 + all_diff_ops(diffs@, snaps, height, k + 1));
            assert(diff_list(diffs@[k as int], true) == d.spent@);
            assert(diff_list(diffs@[k as int], false) == d.added@);
        }
        k = k + 1;
    }
    ops.push(WriteOp::Put(build_block_spent_out_points_key(height), KvValue::Spent(all_spent)));
    ops.push(WriteOp::Put(build_block_added_out_points_key(height), KvValue::OutPoints(all_added)));
    let ghost body = batch_view(ops@);
    let mut hashes: Vec<Vec<u8>> = Vec::new();
    let n = receipts.len();
    let mut rest = receipts;
    let mut i: usize = 0;
    while rest.len() > 0
        invariant
            n == rs.len(),
            i + rest@.len() == rs.len(),
            rest@ == rs.skip(i as int),
            batch_view(ops@) == body + rs.take(i as int).map_values(
                |r: (Vec<u8>, EthBasicReceipt)| WriteOpView::Put(spec_receipt_key(r.0@), KvValueView::Receipt(r.1@)),
            ),
            hashes.deep_view() == rs.take(i as int).map_values(|r: (Vec<u8>, EthBasicReceipt)| r.0@),
        decreases rest@.len(),
    {
        let (h, receipt) = rest.remove(0);
        let ghost prev = batch_view(ops@);
        let ghost prev_hashes = hashes.deep_view();
        ops.push(WriteOp::Put(build_receipt_key(&h), KvValue::Receipt(receipt)));
        hashes.push(h);
        proof {
            assert(rs[i as int].0@ == h@);
            let f = |r: (Vec<u8>, EthBasicReceipt)| WriteOpView::Put(spec_receipt_key(r.0@), KvValueView::Receipt(r.1@));
            let g = |r: (Vec<u8>, EthBasicReceipt)| r.0@;
            assert(batch_view(ops@) =~= prev.push(f(rs[i as int])));
            assert(rs.take(i + 1).map_values(f) =~= rs.take(i as int).map_values(f).push(f(rs[i as int])));
            crate::crypto::lemma_byte_lists_deep_view(&hashes);
            assert(hashes.deep_view() =~= prev_hashes.push(g(rs[i as int])));
            assert(rs.take(i + 1).map_values(g) =~= rs.take(i as int).map_values(g).push(g(rs[i as int])));
            assert(rest@ =~= rs.skip(i + 1));
        }
        i = i + 1;
    }
    let ghost hv = hashes.deep_view();
    ops.push(WriteOp::Put(build_block_receipt_hashes_key(height), KvValue::Hashes(hashes)));
    proof {
        assert(rs.take(i as int) =~= rs);
        let rops = rs.map_values(
            |r: (Vec<u8>, EthBasicReceipt)| WriteOpView::Put(spec_receipt_key(r.0@), KvValueView::Receipt(r.1@)),
        );
        let last = WriteOpView::Put(
            spec_block_summary_key(height, RECEIPTS_TAG),
            KvValueView::Hashes(rs.map_values(|r: (Vec<u8>, EthBasicReceipt)| r.0@)),
        );
        let d = all_diff_ops(diffs@, snaps, height, diffs@.len() as int);
        let sa = seq![
            WriteOpView::Put(spec_block_summary_key(height, SPENT_TAG), KvValueView::Spent(all_spent_owned(diffs@, diffs@.len() as int))),
            WriteOpView::Put(spec_block_summary_key(height, ADDED_TAG), KvValueView::OutPoints(all_listed(diffs@, false, diffs@.len() as int))),
        ];
        assert(body =~= head2 + d + sa);
        assert(head2 == head + owner_deletes(all_listed(diffs@, true, diffs@.len() as int)));
        assert(batch_view(ops@) =~= body + rops + seq![last]);
        assert(head =~= seq![
            WriteOpView::Put(spec_block_key(), KvValueView::Tip(height, block_hash@)),
            WriteOpView::Put(spec_block_summary_key(height, HASH_TAG), KvValueView::BlockHash(block_hash@)),
        ]);
        assert(batch_view(ops@) =~= ingest_ops(height, block_hash@, diffs@, snaps, rs));
    }
    ops
}

/// Every write of `ops` is a put.
pub open spec fn all_puts(ops: Seq<WriteOpView>) -> bool {
    forall|i: int| 0 <= i < ops.len() ==> #[trigger] ops[i] is Put
}

proof fn lemma_apply_concat(store: Map<Seq<u8>, KvValueView>, a: Seq<WriteOpView>, b: Seq<WriteOpView>)
    ensures
        apply_batch(store, a + b) == apply_batch(apply_batch(store, a), b),
    decreases b.len(),
{
    if b.len() == 0 {
        assert(a + b =~= a);
    } else {
        assert((a + b).drop_last() =~= a + b.drop_last());
        assert((a + b).last() == b.last());
        lemma_apply_concat(store, a, b.drop_last());
    }
}

proof fn lemma_puts_keep(store: Map<Seq<u8>, KvValueView>, ops: Seq<WriteOpView>, k: Seq<u8>)
    requires
        all_puts(ops),
        store.contains_key(k),
    ensures
        apply_batch(store, ops).contains_key(k),
    decreases ops.len(),
{
    if ops.len() > 0 {
        assert(all_puts(ops.drop_last())) by {
            assert forall|i: int| 0 <= i < ops.drop_last().len() implies #[trigger] ops.drop_last()[i] is Put by {
                assert(ops.drop_last()[i] == ops[i]);
            }
        }
        lemma_puts_keep(store, ops.drop_last(), k);
        assert(ops[ops.len() - 1] is Put);
    }
}

/// No write of `ops` puts the key `k`.
pub open spec fn no_put_to(ops: Seq<WriteOpView>, k: Seq<u8>) -> bool {
    forall|i: int| 0 <= i < ops.len() ==> !(#[trigger] ops[i] matches WriteOpView::Put(k2, _) && k2 == k)
}

proof fn lemma_absent_stays(store: Map<Seq<u8>, KvValueView>, ops: Seq<WriteOpView>, k: Seq<u8>)
    requires
        no_put_to(ops, k),
        !store.contains_key(k),
    ensures
        !apply_batch(store, ops).contains_key(k),
    decreases ops.len(),
{
    if ops.len() > 0 {
        assert(no_put_to(ops.drop_last(), k)) by {
            assert forall|i: int| 0 <= i < ops.drop_last().len() implies !(#[trigger] ops.drop_last()[i] matches WriteOpView::Put(k2, _) && k2 == k) by {
                assert(ops.drop_last()[i] == ops[i]);
            }
        }
        lemma_absent_stays(store, ops.drop_last(), k);
        assert(!(ops[ops.len() - 1] matches WriteOpView::Put(k2, _) && k2 == k));
    }
}

proof fn lemma_all_diff_ops_puts(diffs: Seq<AddressDiff>, snaps: Seq<Seq<OutPointView>>, height: u64, n: int)
    ensures
        all_puts(all_diff_ops(diffs, snaps, height, n)),
    decreases n,
{
    if n > 0 {
        lemma_all_diff_ops_puts(diffs, snaps, height, n - 1);
        let prev = all_diff_ops(diffs, snaps, height, n - 1);
        let cur = diff_ops(diffs[n - 1], snaps[n - 1], height);
        assert forall|i: int| 0 <= i < (prev + cur).len() implies #[trigger] (prev + cur)[i] is Put by {
            if i >= prev.len() {
                assert((prev + cur)[i] == cur[i - prev.len()]);
            }
        }
    }
}

/// An address's snapshot after a block holds every out point the block
/// added for it, and no out point the block spent unless it also added it.
pub proof fn lemma_next_snapshot_members(
    snapshot: Seq<OutPointView>,
    spent: Seq<OutPointView>,
    added: Seq<OutPointView>,
    p: OutPointView,
)
    ensures
        added.contains(p) ==> spec_next_snapshot(snapshot, spent, added).contains(p),
        spent.contains(p) && !added.contains(p) ==> !spec_next_snapshot(snapshot, spent, added).contains(p),
        !spent.contains(p) && snapshot.contains(p) ==> spec_next_snapshot(snapshot, spent, added).contains(p),
{
    let kept = snapshot.filter(|q: OutPointView| !spent.contains(q));
    let extra = added.filter(|q: OutPointView| !kept.contains(q));
    let next = kept + extra;
    assert(spec_next_snapshot(snapshot, spent, added) == next);
    if added.contains(p) {
        if kept.contains(p) {
            let i = choose|i: int| 0 <= i < kept.len() && kept[i] == p;
            assert(next[i] == p);
        } else {
            let k = choose|k: int| 0 <= k < added.len() && added[k] == p;
            added.lemma_filter_contains(|q: OutPointView| !kept.contains(q), k);
            assert(extra.contains(p));
            let i = choose|i: int| 0 <= i < extra.len() && extra[i] == p;
            assert(next[kept.len() + i] == p);
        }
    }
    if spent.contains(p) && !added.contains(p) {
        if next.contains(p) {
            let i = choose|i: int| 0 <= i < next.len() && next[i] == p;
            if i < kept.len() {
                snapshot.lemma_filter_pred(|q: OutPointView| !spent.contains(q), i);
            } else {
                assert(extra[i - kept.len()] == p);
                assert(extra.contains(p));
                added.lemma_filter_contains_rev(|q: OutPointView| !kept.contains(q), p);
            }
        }
    }
    if !spent.contains(p) && snapshot.contains(p) {
        let k = choose|k: int| 0 <= k < snapshot.len() && snapshot[k] == p;
        snapshot.lemma_filter_contains(|q: OutPointView| !spent.contains(q), k);
        let i = choose|i: int| 0 <= i < kept.len() && kept[i] == p;
        assert(next[i] == p);
    }
}

proof fn lemma_all_diff_ops_prefix(diffs: Seq<AddressDiff>, snaps: Seq<Seq<OutPointView>>, height: u64, k: int, n: int)
    requires
        0 <= k <= n,
    ensures
        all_diff_ops(diffs, snaps, height, k).len() <= all_diff_ops(diffs, snaps, height, n).len(),
        all_diff_ops(diffs, snaps, height, n).take(all_diff_ops(diffs, snaps, height, k).len() as int)
            == all_diff_ops(diffs, snaps, height, k),
    decreases n - k,
{
    let small = all_diff_ops(diffs, snaps, height, k);
    if k < n {
        lemma_all_diff_ops_prefix(diffs, snaps, height, k, n - 1);
        let mid = all_diff_ops(diffs, snaps, height, n - 1);
        let big = all_diff_ops(diffs, snaps, height, n);
        assert(big == mid + diff_ops(diffs[n - 1], snaps[n - 1], height));
        assert(big.take(small.len() as int) =~= mid.take(small.len() as int));
    } else {
        assert(all_diff_ops(diffs, snaps, height, n).take(small.len() as int) =~= small);
    }
}

/// The write `op` affects the key `k`.
pub open spec fn touches(op: WriteOpView, k: Seq<u8>) -> bool {
    match op {
        WriteOpView::Put(k2, _) => k2 == k,
        WriteOpView::Delete(k2) => k2 == k,
        WriteOpView::DeleteRange(lo, hi) => in_range(k, lo, hi),
    }
}

proof fn lemma_untouched(store: Map<Seq<u8>, KvValueView>, ops: Seq<WriteOpView>, k: Seq<u8>)
    requires
        forall|i: int| 0 <= i < ops.len() ==> !touches(#[trigger] ops[i], k),
    ensures
        apply_batch(store, ops).contains_key(k) == store.contains_key(k),
        store.contains_key(k) ==> apply_batch(store, ops)[k] == store[k],
    decreases ops.len(),
{
    if ops.len() > 0 {
        assert forall|i: int| 0 <= i < ops.drop_last().len() implies !touches(#[trigger] ops.drop_last()[i], k) by {
            assert(ops.drop_last()[i] == ops[i]);
        }
        lemma_untouched(store, ops.drop_last(), k);
        assert(!touches(ops[ops.len() - 1], k));
    }
}

proof fn lemma_deleted(store: Map<Seq<u8>, KvValueView>, ops: Seq<WriteOpView>, k: Seq<u8>, i: int)
    requires
        0 <= i < ops.len(),
        touches(ops[i], k),
        !(ops[i] is Put),
        no_put_to(ops.skip(i + 1), k),
    ensures
        !apply_batch(store, ops).contains_key(k),
{
    let a = ops.take(i + 1);
    let b = ops.skip(i + 1);
    assert(ops =~= a + b);
    lemma_apply_concat(store, a, b);
    assert(a.last() == ops[i]);
    assert(a.drop_last() =~= ops.take(i));
    assert(!apply_batch(store, a).contains_key(k));
    lemma_absent_stays(apply_batch(store, a), b, k);
}

proof fn lemma_all_listed_contains(diffs: Seq<AddressDiff>, spent: bool, n: int, a: int, b: int)
    requires
        0 <= a < n,
        0 <= b < diff_list(diffs[a], spent).len(),
    ensures
        all_listed(diffs, spent, n).contains(diff_list(diffs[a], spent)[b]@),
    decreases n,
{
    let prev = all_listed(diffs, spent, n - 1);
    let cur = out_points_view(diff_list(diffs[n - 1], spent));
    assert(all_listed(diffs, spent, n) == prev + cur);
    if a < n - 1 {
        lemma_all_listed_contains(diffs, spent, n - 1, a, b);
        let j = choose|j: int| 0 <= j < prev.len() && prev[j] == diff_list(diffs[a], spent)[b]@;
        assert((prev + cur)[j] == prev[j]);
    } else {
        assert((prev + cur)[prev.len() + b] == cur[b]);
    }
}

/// Each write of the first `n` diffs puts an address's snapshot at `height`
/// or the owner entry of an out point that diff added.
proof fn lemma_all_diff_ops_keys(diffs: Seq<AddressDiff>, snaps: Seq<Seq<OutPointView>>, height: u64, n: int, i: int)
    requires
        0 <= i < all_diff_ops(diffs, snaps, height, n).len(),
    ensures
        all_diff_ops(diffs, snaps, height, n)[i] matches WriteOpView::Put(k, _) && (
            (exists|a: int| 0 <= a < n && k == spec_eth_key(#[trigger] diffs[a].address@, Some(height)))
            || (exists|a: int, b: int| 0 <= a < n && 0 <= b < diffs[a].added@.len()
                && k == spec_out_point_key(#[trigger] diffs[a].added@[b]@))),
    decreases n,
{
    if n > 0 {
        let prev = all_diff_ops(diffs, snaps, height, n - 1);
        let cur = diff_ops(diffs[n - 1], snaps[n - 1], height);
        assert(all_diff_ops(diffs, snaps, height, n) == prev + cur);
        if i < prev.len() {
            lemma_all_diff_ops_keys(diffs, snaps, height, n - 1, i);
            assert((prev + cur)[i] == prev[i]);
        } else {
            let m = i - prev.len();
            assert((prev + cur)[i] == cur[m]);
            if m == 0 {
                assert(cur[0] matches WriteOpView::Put(k, _) && k == spec_eth_key(diffs[n - 1].address@, Some(height)));
            } else {
                let p = diffs[n - 1].added@[m - 1]@;
                assert(cur[m] == WriteOpView::Put(spec_out_point_key(out_points_view(diffs[n - 1].added@)[m - 1]), KvValueView::Address(diffs[n - 1].address@)));
                assert(out_points_view(diffs[n - 1].added@)[m - 1] == p);
            }
        }
    }
}

/// The Ethereum transaction hashes of a list of receipts.
pub open spec fn receipt_hashes_of(receipts: Seq<(Vec<u8>, EthBasicReceipt)>) -> Seq<Seq<u8>> {
    receipts.map_values(|r: (Vec<u8>, EthBasicReceipt)| r.0@)
}


proof fn lemma_kept(store: Map<Seq<u8>, KvValueView>, ops: Seq<WriteOpView>, k: Seq<u8>)
    requires
        forall|i: int| 0 <= i < ops.len() ==> (#[trigger] ops[i] is Put || !touches(ops[i], k)),
        store.contains_key(k),
    ensures
        apply_batch(store, ops).contains_key(k),
    decreases ops.len(),
{
    if ops.len() > 0 {
        assert forall|i: int| 0 <= i < ops.drop_last().len() implies (#[trigger] ops.drop_last()[i] is Put || !touches(ops.drop_last()[i], k)) by {
            assert(ops.drop_last()[i] == ops[i]);
        }
        lemma_kept(store, ops.drop_last(), k);
        assert(ops[ops.len() - 1] is Put || !touches(ops[ops.len() - 1], k));
    }
}

proof fn lemma_all_puts_same(store: Map<Seq<u8>, KvValueView>, ops: Seq<WriteOpView>, k: Seq<u8>, v: KvValueView, w: int)
    requires
        forall|i: int| 0 <= i < ops.len() && touches(#[trigger] ops[i], k) ==> ops[i] == WriteOpView::Put(k, v),
        0 <= w < ops.len(),
        touches(ops[w], k),
    ensures
        apply_batch(store, ops).contains_key(k),
        apply_batch(store, ops)[k] == v,
    decreases ops.len(),
{
    let last = ops.len() - 1;
    if touches(ops[last], k) {
        assert(ops[last] == WriteOpView::Put(k, v));
    } else {
        assert forall|i: int| 0 <= i < ops.drop_last().len() && touches(#[trigger] ops.drop_last()[i], k) implies ops.drop_last()[i] == WriteOpView::Put(k, v) by {
            assert(ops.drop_last()[i] == ops[i]);
        }
        assert(ops.drop_last()[w] == ops[w]);
        lemma_all_puts_same(store, ops.drop_last(), k, v, w);
    }
}

/// The out points the diffs spent are those they record with owners.
proof fn lemma_spent_points(diffs: Seq<AddressDiff>, n: int)
    requires
        0 <= n,
    ensures
        all_listed(diffs, true, n).len() == all_spent_owned(diffs, n).len(),
        forall|i: int| 0 <= i < all_listed(diffs, true, n).len()
            ==> #[trigger] all_listed(diffs, true, n)[i] == all_spent_owned(diffs, n)[i].1,
    decreases n,
{
    if n > 0 {
        lemma_spent_points(diffs, n - 1);
        let a = all_listed(diffs, true, n - 1);
        let b = out_points_view(diff_list(diffs[n - 1], true));
        let c = all_spent_owned(diffs, n - 1);
        let e = out_points_view(diffs[n - 1].spent@).map_values(|p: OutPointView| (diffs[n - 1].address@, p));
        assert(all_listed(diffs, true, n) == a + b);
        assert(all_spent_owned(diffs, n) == c + e);
        assert forall|i: int| 0 <= i < (a + b).len() implies #[trigger] (a + b)[i] == (c + e)[i].1 by {
            if i >= a.len() {
                assert((a + b)[i] == b[i - a.len()]);
                assert((c + e)[i] == e[i - a.len()]);
            }
        }
    }
}

/// Ingesting a block records its hash under its height and makes it the
/// tip, whatever the store held before. (Every earlier block hash stays:
/// see `lemma_ingest_keeps_other_keys`.)
pub proof fn lemma_ingest_records_block_hash(
    store: Map<Seq<u8>, KvValueView>,
    height: u64,
    block_hash: Seq<u8>,
    diffs: Seq<AddressDiff>,
    snapshots: Seq<Seq<OutPointView>>,
    receipts: Seq<(Vec<u8>, EthBasicReceipt)>,
)
    ensures
        apply_batch(store, ingest_ops(height, block_hash, diffs, snapshots, receipts)).contains_key(
            spec_block_summary_key(height, HASH_TAG),
        ),
        apply_batch(store, ingest_ops(height, block_hash, diffs, snapshots, receipts)).contains_key(spec_block_key()),
        apply_batch(store, ingest_ops(height, block_hash, diffs, snapshots, receipts))[spec_block_key()]
            == KvValueView::Tip(height, block_hash),
        apply_batch(store, ingest_ops(height, block_hash, diffs, snapshots, receipts))[spec_block_summary_key(height, HASH_TAG)]
            == KvValueView::BlockHash(block_hash),
{
    let ops = ingest_ops(height, block_hash, diffs, snapshots, receipts);
    let head = seq![
        WriteOpView::Put(spec_block_key(), KvValueView::Tip(height, block_hash)),
        WriteOpView::Put(spec_block_summary_key(height, HASH_TAG), KvValueView::BlockHash(block_hash)),
    ];
    let rest = ops.skip(2);
    assert(ops =~= head + rest);
    lemma_apply_concat(store, head, rest);
    reveal_with_fuel(apply_batch, 3);
    assert(head.drop_last().drop_last() =~= Seq::<WriteOpView>::empty());
    assert(head.drop_last() =~= seq![head[0]]);
    let mid = apply_batch(store, head);
    assert(mid.contains_key(spec_block_summary_key(height, HASH_TAG)));
    assert(mid.contains_key(spec_block_key()));
    let dels = owner_deletes(all_listed(diffs, true, diffs.len() as int));
    assert forall|i: int| 0 <= i < rest.len() implies (#[trigger] rest[i] is Put
        || (!touches(rest[i], spec_block_summary_key(height, HASH_TAG)) && !touches(rest[i], spec_block_key()))) by {
        assert(rest[i] == ops[i + 2]);
        if i < dels.len() {
            let p = all_listed(diffs, true, diffs.len() as int)[i];
            assert(ops[i + 2] == WriteOpView::Delete(spec_out_point_key(p)));
            assert(spec_out_point_key(p)[0] != spec_block_summary_key(height, HASH_TAG)[0]);
            assert(spec_out_point_key(p)[0] != spec_block_key()[0]);
        } else {
            let d = all_diff_ops(diffs, snapshots, height, diffs.len() as int);
            lemma_all_diff_ops_puts(diffs, snapshots, height, diffs.len() as int);
            if i < dels.len() + d.len() {
                assert(ops[i + 2] == d[i - dels.len()]);
            }
        }
    }
    let bh = spec_block_summary_key(height, HASH_TAG);
    let bk = spec_block_key();
    vstd::bytes::spec_u64_to_le_bytes_to_open(height);
    assert(mid[bk] == KvValueView::Tip(height, block_hash));
    assert(mid[bh] == KvValueView::BlockHash(block_hash));
    let n = diffs.len() as int;
    let d = all_diff_ops(diffs, snapshots, height, n);
    assert forall|i: int| 0 <= i < rest.len() implies !touches(#[trigger] rest[i], bh) && !touches(rest[i], bk) by {
        assert(rest[i] == ops[i + 2]);
        let j = i + 2;
        if j < 2 + dels.len() {
            let p = all_listed(diffs, true, n)[i];
            assert(ops[j] == WriteOpView::Delete(spec_out_point_key(p)));
            assert(spec_out_point_key(p)[0] != bh[0]);
            assert(spec_out_point_key(p)[0] != bk[0]);
        } else if j < 2 + dels.len() + d.len() {
            assert(ops[j] == d[j - 2 - dels.len()]);
            lemma_all_diff_ops_keys(diffs, snapshots, height, n, j - 2 - dels.len());
            if let WriteOpView::Put(k2, _) = d[j - 2 - dels.len()] {
                if exists|a: int| 0 <= a < n && k2 == spec_eth_key(#[trigger] diffs[a].address@, Some(height)) {
                    assert(k2[0] != bh[0] && k2[0] != bk[0]);
                } else {
                    assert(k2[0] != bh[0] && k2[0] != bk[0]);
                }
            }
        } else if j < 4 + dels.len() + d.len() {
            let tag: u8 = if j == 2 + dels.len() + d.len() { SPENT_TAG } else { ADDED_TAG };
            assert(ops[j] matches WriteOpView::Put(k2, _) && k2 == spec_block_summary_key(height, tag));
            assert(spec_block_summary_key(height, tag)[11] != bh[11]);
            assert(spec_block_summary_key(height, tag)[1] != bk[1]);
        } else if j < ops.len() - 1 {
            let r = j - (4 + dels.len() + d.len());
            assert(ops[j] == WriteOpView::Put(spec_receipt_key(receipts[r].0@), KvValueView::Receipt(receipts[r].1@)));
            assert(spec_receipt_key(receipts[r].0@)[0] != bh[0]);
            assert(spec_receipt_key(receipts[r].0@)[0] != bk[0]);
        } else {
            assert(spec_block_summary_key(height, RECEIPTS_TAG)[11] != bh[11]);
            assert(spec_block_summary_key(height, RECEIPTS_TAG)[1] != bk[1]);
        }
    }
    lemma_untouched(mid, rest, bh);
    lemma_untouched(mid, rest, bk);
}

/// Ingesting a block removes no key but owner entries (keys starting with
/// `o`): every block hash, snapshot and receipt the store held stays.
pub proof fn lemma_ingest_keeps_other_keys(
    store: Map<Seq<u8>, KvValueView>,
    height: u64,
    block_hash: Seq<u8>,
    diffs: Seq<AddressDiff>,
    snapshots: Seq<Seq<OutPointView>>,
    receipts: Seq<(Vec<u8>, EthBasicReceipt)>,
    k: Seq<u8>,
)
    requires
        store.contains_key(k),
        k.len() > 0,
        k[0] != 111u8,
    ensures
        apply_batch(store, ingest_ops(height, block_hash, diffs, snapshots, receipts)).contains_key(k),
{
    let ops = ingest_ops(height, block_hash, diffs, snapshots, receipts);
    let dels = owner_deletes(all_listed(diffs, true, diffs.len() as int));
    let d = all_diff_ops(diffs, snapshots, height, diffs.len() as int);
    lemma_all_diff_ops_puts(diffs, snapshots, height, diffs.len() as int);
    assert forall|i: int| 0 <= i < ops.len() implies (#[trigger] ops[i] is Put || !touches(ops[i], k)) by {
        if 2 <= i < 2 + dels.len() {
            let p = all_listed(diffs, true, diffs.len() as int)[i - 2];
            assert(ops[i] == WriteOpView::Delete(spec_out_point_key(p)));
            assert(spec_out_point_key(p)[0] == 111u8);
        } else if 2 + dels.len() <= i < 2 + dels.len() + d.len() {
            assert(ops[i] == d[i - 2 - dels.len()]);
        }
    }
    lemma_kept(store, ops, k);
}

/// Reverting the block at `height` removes its block hash and the snapshot
/// at `height` of every address it names (the owners of the out points the
/// block spent or added).
#[verifier::spinoff_prover]
pub proof fn lemma_revert_clears_height(
    store: Map<Seq<u8>, KvValueView>,
    height: u64,
    receipt_hashes: Seq<Seq<u8>>,
    added: Seq<OutPointView>,
    spent: Seq<(Seq<u8>, OutPointView)>,
    owners: Seq<Seq<u8>>,
    previous_hash: Seq<u8>,
)
    requires
        1 <= height < u64::MAX,
    ensures
        ({
            let after = apply_batch(store, revert_ops(height, receipt_hashes, added, spent, owners, previous_hash));
            &&& !after.contains_key(spec_block_summary_key(height, HASH_TAG))
            &&& forall|a: Seq<u8>| owners.contains(a) ==> !after.contains_key(#[trigger] spec_eth_key(a, Some(height)))
        }),
{
    let ops = revert_ops(height, receipt_hashes, added, spent, owners, previous_hash);
    let nr = receipt_hashes.len() as int;
    let na = added.len() as int;
    let ns = spent.len() as int;
    let last = ops.len() - 1;
    assert(ops.len() == 1 + nr + 3 + na + ns + owners.len() + 1);
    let bh = spec_block_summary_key(height, HASH_TAG);
    assert(no_put_to(ops.skip(4 + nr), bh)) by {
        assert forall|m: int| 0 <= m < ops.skip(4 + nr).len() implies !(#[trigger] ops.skip(4 + nr)[m] matches WriteOpView::Put(k2, _) && k2 == bh) by {
            let i = 4 + nr + m;
            assert(ops.skip(4 + nr)[m] == ops[i]);
            if 4 + nr + na <= i < 4 + nr + na + ns {
                let x = spent[i - (4 + nr + na)];
                assert(ops[i] == WriteOpView::Put(spec_out_point_key(x.1), KvValueView::Address(x.0)));
                assert(spec_out_point_key(x.1)[0] != bh[0]);
            } else if i == last && height > 1 {
                assert(spec_block_key()[1] != bh[1]);
            }
        }
    }
    assert(ops[3 + nr] == WriteOpView::Delete(bh));
    lemma_deleted(store, ops, bh, 3 + nr);
    assert forall|a: Seq<u8>| owners.contains(a) implies !apply_batch(store, ops).contains_key(#[trigger] spec_eth_key(a, Some(height))) by {
        let ek = spec_eth_key(a, Some(height));
        let j = choose|j: int| 0 <= j < owners.len() && owners[j] == a;
        let i = 4 + nr + na + ns + j;
        assert(ops[i] == WriteOpView::Delete(ek));
        assert(no_put_to(ops.skip(i + 1), ek)) by {
            assert forall|m: int| 0 <= m < ops.skip(i + 1).len() implies !(#[trigger] ops.skip(i + 1)[m] matches WriteOpView::Put(k2, _) && k2 == ek) by {
                assert(ops.skip(i + 1)[m] == ops[i + 1 + m]);
                if i + 1 + m == last && height > 1 {
                    assert(spec_block_key()[0] != ek[0]);
                }
            }
        }
        lemma_deleted(store, ops, ek, i);
    }
}

/// After a block is ingested, every out point it added for an address has
/// an owner entry, and the address's new snapshot holds it.
pub proof fn lemma_ingest_records_owners(
    store: Map<Seq<u8>, KvValueView>,
    height: u64,
    block_hash: Seq<u8>,
    diffs: Seq<AddressDiff>,
    snapshots: Seq<Seq<OutPointView>>,
    receipts: Seq<(Vec<u8>, EthBasicReceipt)>,
    k: int,
    j: int,
)
    requires
        snapshots.len() == diffs.len(),
        0 <= k < diffs.len(),
        0 <= j < diffs[k].added@.len(),
    ensures
        apply_batch(store, ingest_ops(height, block_hash, diffs, snapshots, receipts)).contains_key(
            spec_out_point_key(diffs[k].added@[j]@),
        ),
        spec_next_snapshot(snapshots[k], out_points_view(diffs[k].spent@), out_points_view(diffs[k].added@)).contains(
            diffs[k].added@[j]@,
        ),
{
    let ops = ingest_ops(height, block_hash, diffs, snapshots, receipts);
    let n = diffs.len() as int;
    let dels = owner_deletes(all_listed(diffs, true, n));
    let nd = dels.len() as int;
    let d = all_diff_ops(diffs, snapshots, height, n);
    let before = all_diff_ops(diffs, snapshots, height, k);
    let mine = diff_ops(diffs[k], snapshots[k], height);
    lemma_all_diff_ops_prefix(diffs, snapshots, height, k + 1, n);
    let upto = all_diff_ops(diffs, snapshots, height, k + 1);
    assert(upto == before + mine);
    let idx = before.len() + 1 + j;
    let key = spec_out_point_key(diffs[k].added@[j]@);
    assert(mine[1 + j] == WriteOpView::Put(
        spec_out_point_key(out_points_view(diffs[k].added@)[j]),
        KvValueView::Address(diffs[k].address@),
    ));
    assert(upto[idx] == mine[1 + j]);
    assert(d[idx] == upto[idx]);
    let at = 2 + nd + idx;
    assert(ops[at] == d[idx]);
    lemma_all_diff_ops_puts(diffs, snapshots, height, n);
    let a = ops.take(at + 1);
    let b = ops.skip(at + 1);
    assert(ops =~= a + b);
    lemma_apply_concat(store, a, b);
    assert(a.last() == ops[at]);
    assert(apply_batch(store, a).contains_key(key));
    assert(all_puts(b)) by {
        assert forall|i: int| 0 <= i < b.len() implies #[trigger] b[i] is Put by {
            assert(b[i] == ops[at + 1 + i]);
            if at + 1 + i < 2 + nd + d.len() {
                assert(ops[at + 1 + i] == d[at + 1 + i - 2 - nd]);
            }
        }
    }
    lemma_puts_keep(apply_batch(store, a), b, key);
    let added = out_points_view(diffs[k].added@);
    assert(added[j] == diffs[k].added@[j]@);
    lemma_next_snapshot_members(snapshots[k], out_points_view(diffs[k].spent@), added, added[j]);
}

/// After a block is ingested, an out point it spent has no owner entry,
/// unless the block also added an out point under the same key.
pub proof fn lemma_ingest_clears_spent_owners(
    store: Map<Seq<u8>, KvValueView>,
    height: u64,
    block_hash: Seq<u8>,
    diffs: Seq<AddressDiff>,
    snapshots: Seq<Seq<OutPointView>>,
    receipts: Seq<(Vec<u8>, EthBasicReceipt)>,
    k: int,
    j: int,
)
    requires
        0 <= k < diffs.len(),
        0 <= j < diffs[k].spent@.len(),
        forall|a: int, b: int| 0 <= a < diffs.len() && 0 <= b < diffs[a].added@.len()
            ==> spec_out_point_key(#[trigger] diffs[a].added@[b]@) != spec_out_point_key(diffs[k].spent@[j]@),
    ensures
        !apply_batch(store, ingest_ops(height, block_hash, diffs, snapshots, receipts)).contains_key(
            spec_out_point_key(diffs[k].spent@[j]@),
        ),
{
    let ops = ingest_ops(height, block_hash, diffs, snapshots, receipts);
    let n = diffs.len() as int;
    let key = spec_out_point_key(diffs[k].spent@[j]@);
    lemma_all_listed_contains(diffs, true, n, k, j);
    let listed = all_listed(diffs, true, n);
    let m = choose|m: int| 0 <= m < listed.len() && listed[m] == diff_list(diffs[k], true)[j]@;
    assert(ops[2 + m] == WriteOpView::Delete(key));
    let dels = owner_deletes(listed);
    let d = all_diff_ops(diffs, snapshots, height, n);
    assert(no_put_to(ops.skip(3 + m), key)) by {
        assert forall|q: int| 0 <= q < ops.skip(3 + m).len() implies !(#[trigger] ops.skip(3 + m)[q] matches WriteOpView::Put(k2, _) && k2 == key) by {
            let i = 3 + m + q;
            assert(ops.skip(3 + m)[q] == ops[i]);
            if 2 + dels.len() <= i < 2 + dels.len() + d.len() {
                assert(ops[i] == d[i - 2 - dels.len()]);
                lemma_all_diff_ops_keys(diffs, snapshots, height, n, i - 2 - dels.len());
                if let WriteOpView::Put(k2, _) = d[i - 2 - dels.len()] {
                    if exists|a: int| 0 <= a < n && k2 == spec_eth_key(#[trigger] diffs[a].address@, Some(height)) {
                        assert(k2[0] != key[0]);
                    }
                }
            } else if 2 + dels.len() + d.len() <= i < 4 + dels.len() + d.len() {
                assert(ops[i] matches WriteOpView::Put(k2, _) && k2[0] != key[0]);
            } else if 4 + dels.len() + d.len() <= i < ops.len() - 1 {
                let r = i - (4 + dels.len() + d.len());
                assert(ops[i] == WriteOpView::Put(spec_receipt_key(receipts[r].0@), KvValueView::Receipt(receipts[r].1@)));
                assert(spec_receipt_key(receipts[r].0@)[0] != key[0]);
            } else if i == ops.len() - 1 {
                assert(spec_block_summary_key(height, RECEIPTS_TAG)[0] != key[0]);
            }
        }
    }
    lemma_deleted(store, ops, key, 2 + m);
}

/// The keys that reverting the block at `height` deletes (besides the tip).
pub open spec fn revert_deletes(
    k: Seq<u8>,
    height: u64,
    receipt_hashes: Seq<Seq<u8>>,
    added: Seq<OutPointView>,
    owners: Seq<Seq<u8>>,
) -> bool {
    ||| k == spec_block_summary_key(height, RECEIPTS_TAG)
    ||| k == spec_block_summary_key(height, ADDED_TAG)
    ||| k == spec_block_summary_key(height, SPENT_TAG)
    ||| k == spec_block_summary_key(height, HASH_TAG)
    ||| (exists|j: int| 0 <= j < receipt_hashes.len() && k == spec_receipt_key(#[trigger] receipt_hashes[j]))
    ||| (exists|j: int| 0 <= j < added.len() && k == spec_out_point_key(#[trigger] added[j]))
    ||| (exists|j: int| 0 <= j < owners.len() && k == spec_eth_key(#[trigger] owners[j], Some(height)))
}

/// `k` is the owner key of an out point of `spent`.
pub open spec fn spent_key(k: Seq<u8>, spent: Seq<(Seq<u8>, OutPointView)>) -> bool {
    exists|j: int| 0 <= j < spent.len() && k == spec_out_point_key(#[trigger] spent[j].1)
}

/// Reverting a block right after ingesting it gives back the store as it
/// was, so ingesting another block at that height then leaves the same
/// store as ingesting that block in the first place. The revert names every
/// address the block changed (as `revert_batch` does, from the owners of
/// the block's spent and added out points); the store before the block
/// holds the previous tip, the owner entries of the out points the block
/// spends, and none of the keys the revert deletes.
#[verifier::spinoff_prover]
pub proof fn lemma_reingest_after_revert(
    store: Map<Seq<u8>, KvValueView>,
    height: u64,
    block_hash: Seq<u8>,
    diffs: Seq<AddressDiff>,
    snapshots: Seq<Seq<OutPointView>>,
    receipts: Seq<(Vec<u8>, EthBasicReceipt)>,
    owners: Seq<Seq<u8>>,
    previous_hash: Seq<u8>,
    other_hash: Seq<u8>,
    other_diffs: Seq<AddressDiff>,
    other_snapshots: Seq<Seq<OutPointView>>,
    other_receipts: Seq<(Vec<u8>, EthBasicReceipt)>,
)
    requires
        1 <= height < u64::MAX,
        forall|a: int| 0 <= a < diffs.len() ==> owners.contains(#[trigger] diffs[a].address@),
        height > 1 ==> store.contains_key(spec_block_key())
            && store[spec_block_key()] == KvValueView::Tip((height - 1) as u64, previous_hash),
        height == 1 ==> !store.contains_key(spec_block_key()),
        forall|j: int| 0 <= j < all_spent_owned(diffs, diffs.len() as int).len() ==> ({
            let x = #[trigger] all_spent_owned(diffs, diffs.len() as int)[j];
            store.contains_key(spec_out_point_key(x.1)) && store[spec_out_point_key(x.1)] == KvValueView::Address(x.0)
        }),
        forall|k: Seq<u8>| #[trigger] store.contains_key(k) && k != spec_block_key() ==> !revert_deletes(
            k,
            height,
            receipt_hashes_of(receipts),
            all_listed(diffs, false, diffs.len() as int),
            owners,
        ),
    ensures
        ({
            let ingested = apply_batch(store, ingest_ops(height, block_hash, diffs, snapshots, receipts));
            let reverted = apply_batch(ingested, revert_ops(
                height,
                receipt_hashes_of(receipts),
                all_listed(diffs, false, diffs.len() as int),
                all_spent_owned(diffs, diffs.len() as int),
                owners,
                previous_hash,
            ));
            &&& reverted == store
            &&& apply_batch(reverted, ingest_ops(height, other_hash, other_diffs, other_snapshots, other_receipts))
                == apply_batch(store, ingest_ops(height, other_hash, other_diffs, other_snapshots, other_receipts))
        }),
{
    let n = diffs.len() as int;
    let hashes = receipt_hashes_of(receipts);
    let added = all_listed(diffs, false, n);
    let spent = all_spent_owned(diffs, n);
    let iops = ingest_ops(height, block_hash, diffs, snapshots, receipts);
    let rops = revert_ops(height, hashes, added, spent, owners, previous_hash);
    let ingested = apply_batch(store, iops);
    let reverted = apply_batch(ingested, rops);
    let nr = hashes.len() as int;
    let na = added.len() as int;
    let ns = spent.len() as int;
    let last = rops.len() - 1;
    assert(rops.len() == 1 + nr + 3 + na + ns + owners.len() + 1);
    lemma_spent_points(diffs, n);
    assert forall|k: Seq<u8>| #[trigger] reverted.contains_key(k) == store.contains_key(k)
        && (reverted.contains_key(k) ==> reverted[k] == store[k]) by {
        if k == spec_block_key() {
            let a = rops.drop_last();
            assert(rops =~= a.push(rops[last]));
            assert(reverted == apply_op(apply_batch(ingested, a), rops[last]));
        } else if spent_key(k, spent) {
            let w = choose|w: int| 0 <= w < spent.len() && k == spec_out_point_key(#[trigger] spent[w].1);
            let v = store[k];
            assert(store.contains_key(spec_out_point_key(spent[w].1)));
            assert(!revert_deletes(k, height, hashes, added, owners));
            assert forall|i: int| 0 <= i < rops.len() && touches(#[trigger] rops[i], k) implies rops[i] == WriteOpView::Put(k, v) by {
                if i == 0 || (1 + nr <= i < 4 + nr) {
                } else if 1 <= i < 1 + nr {
                    assert(rops[i] == WriteOpView::Delete(spec_receipt_key(hashes[i - 1])));
                } else if 4 + nr <= i < 4 + nr + na {
                    assert(rops[i] == WriteOpView::Delete(spec_out_point_key(added[i - (4 + nr)])));
                } else if 4 + nr + na <= i < 4 + nr + na + ns {
                    let x = spent[i - (4 + nr + na)];
                    assert(rops[i] == WriteOpView::Put(spec_out_point_key(x.1), KvValueView::Address(x.0)));
                } else if 4 + nr + na + ns <= i < last {
                    let a = owners[i - (4 + nr + na + ns)];
                    assert(rops[i] == WriteOpView::Delete(spec_eth_key(a, Some(height))));
                    assert(spec_eth_key(a, Some(height))[0] != k[0]);
                } else {
                    assert(spec_block_key()[0] != k[0]);
                }
            }
            let wi = 4 + nr + na + w;
            assert(rops[wi] == WriteOpView::Put(spec_out_point_key(spent[w].1), KvValueView::Address(spent[w].0)));
            lemma_all_puts_same(ingested, rops, k, v, wi);
        } else if revert_deletes(k, height, hashes, added, owners) {
            let i: int = if k == spec_block_summary_key(height, RECEIPTS_TAG) {
                0
            } else if k == spec_block_summary_key(height, ADDED_TAG) {
                1 + nr
            } else if k == spec_block_summary_key(height, SPENT_TAG) {
                2 + nr
            } else if k == spec_block_summary_key(height, HASH_TAG) {
                3 + nr
            } else if exists|j: int| 0 <= j < hashes.len() && k == spec_receipt_key(#[trigger] hashes[j]) {
                let j = choose|j: int| 0 <= j < hashes.len() && k == spec_receipt_key(#[trigger] hashes[j]);
                1 + j
            } else if exists|j: int| 0 <= j < added.len() && k == spec_out_point_key(#[trigger] added[j]) {
                let j = choose|j: int| 0 <= j < added.len() && k == spec_out_point_key(#[trigger] added[j]);
                4 + nr + j
            } else {
                let j = choose|j: int| 0 <= j < owners.len() && k == spec_eth_key(#[trigger] owners[j], Some(height));
                4 + nr + na + ns + j
            };
            assert(touches(rops[i], k) && !(rops[i] is Put));
            assert(no_put_to(rops.skip(i + 1), k)) by {
                assert forall|m: int| 0 <= m < rops.skip(i + 1).len() implies !(#[trigger] rops.skip(i + 1)[m] matches WriteOpView::Put(k2, _) && k2 == k) by {
                    let q = i + 1 + m;
                    assert(rops.skip(i + 1)[m] == rops[q]);
                    if 4 + nr + na <= q < 4 + nr + na + ns {
                        let x = spent[q - (4 + nr + na)];
                        assert(rops[q] == WriteOpView::Put(spec_out_point_key(x.1), KvValueView::Address(x.0)));
                    } else if 4 + nr + na + ns <= q < last {
                        let a = owners[q - (4 + nr + na + ns)];
                        assert(rops[q] == WriteOpView::Delete(spec_eth_key(a, Some(height))));
                    }
                }
            }
            lemma_deleted(ingested, rops, k, i);
        } else {
            assert forall|i: int| 0 <= i < rops.len() implies !touches(#[trigger] rops[i], k) by {
                if 1 <= i < 1 + nr {
                    assert(rops[i] == WriteOpView::Delete(spec_receipt_key(hashes[i - 1])));
                } else if 4 + nr <= i < 4 + nr + na {
                    assert(rops[i] == WriteOpView::Delete(spec_out_point_key(added[i - (4 + nr)])));
                } else if 4 + nr + na <= i < 4 + nr + na + ns {
                    let x = spent[i - (4 + nr + na)];
                    assert(rops[i] == WriteOpView::Put(spec_out_point_key(x.1), KvValueView::Address(x.0)));
                } else if 4 + nr + na + ns <= i < last {
                    let a = owners[i - (4 + nr + na + ns)];
                    assert(rops[i] == WriteOpView::Delete(spec_eth_key(a, Some(height))));
                }
            }
            lemma_untouched(ingested, rops, k);
            let listed = all_listed(diffs, true, n);
            let dels = owner_deletes(listed);
            let d = all_diff_ops(diffs, snapshots, height, n);
            assert forall|i: int| 0 <= i < iops.len() implies !touches(#[trigger] iops[i], k) by {
                if 2 <= i < 2 + dels.len() {
                    let p = listed[i - 2];
                    assert(iops[i] == WriteOpView::Delete(spec_out_point_key(p)));
                    assert(p == spent[i - 2].1);
                } else if 2 + dels.len() <= i < 2 + dels.len() + d.len() {
                    assert(iops[i] == d[i - 2 - dels.len()]);
                    lemma_all_diff_ops_keys(diffs, snapshots, height, n, i - 2 - dels.len());
                    if let WriteOpView::Put(k2, _) = d[i - 2 - dels.len()] {
                        if exists|a: int| 0 <= a < n && k2 == spec_eth_key(#[trigger] diffs[a].address@, Some(height)) {
                            let a = choose|a: int| 0 <= a < n && k2 == spec_eth_key(#[trigger] diffs[a].address@, Some(height));
                            let j = choose|j: int| 0 <= j < owners.len() && owners[j] == diffs[a].address@;
                            assert(k2 == spec_eth_key(owners[j], Some(height)));
                        } else {
                            let (a, b) = choose|a: int, b: int| 0 <= a < n && 0 <= b < diffs[a].added@.len()
                                && k2 == spec_out_point_key(#[trigger] diffs[a].added@[b]@);
                            lemma_all_listed_contains(diffs, false, n, a, b);
                            let j = choose|j: int| 0 <= j < added.len() && added[j] == diffs[a].added@[b]@;
                            assert(k2 == spec_out_point_key(added[j]));
                        }
                    }
                } else if 4 + dels.len() + d.len() <= i < iops.len() - 1 {
                    let j = i - (4 + dels.len() + d.len());
                    assert(iops[i] == WriteOpView::Put(spec_receipt_key(receipts[j].0@), KvValueView::Receipt(receipts[j].1@)));
                    assert(hashes[j] == receipts[j].0@);
                }
            }
            lemma_untouched(store, iops, k);
        }
    }
    assert(reverted =~= store);
}

} // verus!
