//! The base chain's data, as plain values: lock scripts, cells, out points,
//! inputs, transactions and blocks.

use vstd::prelude::*;

verus! {

/// A lock script: the hash of the code it runs and its arguments.
#[derive(Debug, Clone, PartialEq, Eq)]
pub struct Script {
    pub code_hash: Vec<u8>,
    pub args: Vec<Vec<u8>>,
}

/// The location of a cell: the transaction that created it and the output's
/// index there.
#[derive(Debug, Clone, PartialEq, Eq)]
pub struct OutPoint {
    pub tx_hash: Vec<u8>,
    pub index: u64,
}

/// A cell: capacity (in shannons), data, and the lock guarding it.
#[derive(Debug, Clone, PartialEq, Eq)]
pub struct CellOutput {
    pub capacity: u64,
    pub data: Vec<u8>,
    pub lock: Script,
}

/// A transaction input: the cell it spends (none for a block reward) and
/// its `since` field.
#[derive(Debug, Clone, PartialEq, Eq)]
pub struct CellInput {
    pub previous_output: Option<OutPoint>,
    pub since: u64,
}

/// A base-chain transaction. Each witness is a list of byte strings.
#[derive(Debug, Clone, PartialEq, Eq)]
pub struct Transaction {
    pub deps: Vec<OutPoint>,
    pub inputs: Vec<CellInput>,
    pub outputs: Vec<CellOutput>,
    pub witnesses: Vec<Vec<Vec<u8>>>,
}

/// A transaction of a block, with its hash.
#[derive(Debug, Clone, PartialEq, Eq)]
pub struct BlockTransaction {
    pub hash: Vec<u8>,
    pub transaction: Transaction,
}

/// A block: its hash and its transactions.
#[derive(Debug, Clone, PartialEq, Eq)]
pub struct Block {
    pub hash: Vec<u8>,
    pub transactions: Vec<BlockTransaction>,
}

/// What a lock script is, as values.
pub struct ScriptView {
    pub code_hash: Seq<u8>,
    pub args: Seq<Seq<u8>>,
}

/// What an out point is, as values.
pub struct OutPointView {
    pub tx_hash: Seq<u8>,
    pub index: u64,
}

/// What a cell is, as values.
pub struct CellOutputView {
    pub capacity: u64,
    pub data: Seq<u8>,
    pub lock: ScriptView,
}

/// What a transaction input is, as values.
pub struct CellInputView {
    pub previous_output: Option<OutPointView>,
    pub since: u64,
}

impl View for CellInput {
    type V = CellInputView;

    open spec fn view(&self) -> CellInputView {
        CellInputView {
            previous_output: match self.previous_output {
                Some(p) => Some(p@),
                None => None,
            },
            since: self.since,
        }
    }
}

impl View for Script {
    type V = ScriptView;

    open spec fn view(&self) -> ScriptView {
        ScriptView { code_hash: self.code_hash@, args: self.args.deep_view() }
    }
}

impl View for OutPoint {
    type V = OutPointView;

    open spec fn view(&self) -> OutPointView {
        OutPointView { tx_hash: self.tx_hash@, index: self.index }
    }
}

impl View for CellOutput {
    type V = CellOutputView;

    open spec fn view(&self) -> CellOutputView {
        CellOutputView { capacity: self.capacity, data: self.data@, lock: self.lock@ }
    }
}

/// A copy of the bytes `b`.
pub fn copy_bytes(b: &Vec<u8>) -> (r: Vec<u8>)
    ensures
        r@ == b@,
{
    vstd::slice::slice_to_vec(b.as_slice())
}

/// A copy of a list of byte strings.
pub fn copy_byte_lists(v: &Vec<Vec<u8>>) -> (r: Vec<Vec<u8>>)
    ensures
        r.deep_view() == v.deep_view(),
{
    let mut r: Vec<Vec<u8>> = Vec::new();
    let mut i: usize = 0;
    while i < v.len()
        invariant
            i <= v@.len(),
            r@.len() == i,
            forall|j: int| 0 <= j < i ==> #[trigger] r@[j]@ == v@[j]@,
        decreases v@.len() - i,
    {
        r.push(copy_bytes(&v[i]));
        i = i + 1;
    }
    proof {
        crate::crypto::lemma_byte_lists_deep_view(&r);
        crate::crypto::lemma_byte_lists_deep_view(v);
        assert(r.deep_view() =~= v.deep_view());
    }
    r
}

/// Two byte strings are equal.
pub fn same_bytes(a: &Vec<u8>, b: &Vec<u8>) -> (r: bool)
    ensures
        r == (a@ == b@),
{
    if a.len() != b.len() {
        return false;
    }
    let mut i: usize = 0;
    while i < a.len()
        invariant
            a@.len() == b@.len(),
            i <= a@.len(),
            forall|j: int| 0 <= j < i ==> a@[j] == b@[j],
        decreases a@.len() - i,
    {
        if a[i] != b[i] {
            return false;
        }
        i = i + 1;
    }
    assert(a@ =~= b@);
    true
}

impl Script {
    pub fn copy(&self) -> (r: Script)
        ensures
            r@ == self@,
    {
        Script { code_hash: copy_bytes(&self.code_hash), args: copy_byte_lists(&self.args) }
    }
}

impl OutPoint {
    pub fn copy(&self) -> (r: OutPoint)
        ensures
            r@ == self@,
    {
        OutPoint { tx_hash: copy_bytes(&self.tx_hash), index: self.index }
    }

    /// The two out points locate the same cell.
    pub fn same(&self, other: &OutPoint) -> (r: bool)
        ensures
            r == (self@ == other@),
    {
        self.index == other.index && same_bytes(&self.tx_hash, &other.tx_hash)
    }
}

impl CellOutput {
    pub fn copy(&self) -> (r: CellOutput)
        ensures
            r@ == self@,
    {
        CellOutput { capacity: self.capacity, data: copy_bytes(&self.data), lock: self.lock.copy() }
    }
}

/// The views of a list of out points.
pub open spec fn out_points_view(v: Seq<OutPoint>) -> Seq<OutPointView> {
    v.map_values(|p: OutPoint| p@)
}

/// A copy of a list of out points.
pub fn copy_out_points(v: &Vec<OutPoint>) -> (r: Vec<OutPoint>)
    ensures
        out_points_view(r@) == out_points_view(v@),
{
    let mut r: Vec<OutPoint> = Vec::new();
    let mut i: usize = 0;
    while i < v.len()
        invariant
            i <= v@.len(),
            r@.len() == i,
            forall|j: int| 0 <= j < i ==> #[trigger] r@[j]@ == v@[j]@,
        decreases v@.len() - i,
    {
        r.push(v[i].copy());
        i = i + 1;
    }
    assert(out_points_view(r@) =~= out_points_view(v@));
    r
}

} // verus!
