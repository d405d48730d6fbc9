//! Turning an Ethereum transaction into the base-chain transaction that
//! persists its effect: a value transfer, a contract creation or a contract
//! call. The EVM itself runs outside the library; its outcome is an input
//! here.

use crate::account::{EthAccount, EthCell, CONTRACT_MAIN_CELL_TAG, NORMAL_MAIN_CELL_TAG};
use crate::address::EthAddress;
use crate::chain::{
    copy_bytes, CellInput, CellInputView, CellOutput, CellOutputView, OutPoint, OutPointView,
    Script, ScriptView, Transaction,
};
use crate::crypto::{keccak256, keccak_of, rlp_encode_sender_nonce, rlp_sender_nonce};
use crate::error::Error;
use crate::num::{spec_wei_to_capacity, u256_limit, u64_limit, U256};
use crate::transaction::{bytes_from, EthTransaction};
use vstd::bytes::{spec_u64_to_le_bytes, u64_to_le_bytes};
use vstd::prelude::*;

verus! {

/// The code hashes of the two lock scripts that accounts live under.
pub struct LockCodeHashes {
    /// Guards normal accounts' main and fund cells.
    pub lock: Vec<u8>,
    /// Guards contracts' main cells.
    pub contract_lock: Vec<u8>,
}

/// The cells holding the code of the two lock scripts, which every
/// transaction depends on.
pub struct LockDeps {
    pub lock: OutPoint,
    pub contract_lock: OutPoint,
}

/// Shannons in one byte of occupied capacity.
pub const BYTE_SHANNONS: u64 = 100_000_000;

/// The bytes a cell occupies: its capacity field (8), its data, and its
/// lock's code hash (32), hash type (1) and arguments. This is the base
/// chain's own accounting rule for a cell without a type script; the
/// library's cells are plain values, so it is stated here and only the
/// conversion of bytes to shannons is left to `ckb_occupied_capacity`.
pub open spec fn occupied_bytes(data: Seq<u8>, lock: ScriptView) -> nat {
    8 + data.len() + 33 + args_len(lock.args)
}

/// The total length of a list of byte strings.
pub open spec fn args_len(args: Seq<Seq<u8>>) -> nat
    decreases args.len(),
{
    if args.len() == 0 {
        0
    } else {
        args_len(args.drop_last()) + args.last().len()
    }
}

/// Relies on ckb_occupied_capacity::Capacity::bytes: `n` bytes of capacity
/// in shannons, or none when that exceeds `u64`.
#[verifier::external_body]
fn capacity_bytes(n: usize) -> (r: Option<u64>)
    ensures
        r is Some <==> n * BYTE_SHANNONS < u64_limit(),
        r matches Some(c) ==> c == n * BYTE_SHANNONS,
{
    ckb_occupied_capacity::Capacity::bytes(n).ok().map(|c| c.as_u64())
}

/// The capacity a cell with `data` under `lock` must hold at least.
fn occupied_capacity(data: &Vec<u8>, lock: &Script) -> (r: Option<u64>)
    ensures
        r is Some <==> occupied_bytes(data@, lock@) <= usize::MAX
            && occupied_bytes(data@, lock@) * BYTE_SHANNONS < u64_limit(),
        r matches Some(c) ==> c == occupied_bytes(data@, lock@) * BYTE_SHANNONS,
{
    let ghost args = lock.args.deep_view();
    proof {
        crate::crypto::lemma_byte_lists_deep_view(&lock.args);
    }
    let mut n: usize = match data.len().checked_add(41) {
        Some(n) => n,
        None => return None,
    };
    let mut i: usize = 0;
    while i < lock.args.len()
        invariant
            i <= lock.args@.len(),
            args == lock.args.deep_view(),
            args.len() == lock.args@.len(),
            forall|j: int| 0 <= j < lock.args@.len() ==> #[trigger] args[j] == lock.args@[j]@,
            n as nat == 41 + data@.len() + args_len(args.take(i as int)),
        decreases lock.args@.len() - i,
    {
        proof {
            assert(args.take(i + 1).drop_last() =~= args.take(i as int));
            lemma_args_len_prefix(args, i + 1);
        }
        n = match n.checked_add(lock.args[i].len()) {
            Some(m) => m,
            None => return None,
        };
        i = i + 1;
    }
    proof {
        assert(args.take(i as int) =~= args);
    }
    capacity_bytes(n)
}

proof fn lemma_args_len_prefix(args: Seq<Seq<u8>>, k: int)
    requires
        0 <= k <= args.len(),
    ensures
        args_len(args.take(k)) <= args_len(args),
    decreases args.len() - k,
{
    if k < args.len() {
        lemma_args_len_prefix(args.drop_last(), k);
        assert(args.drop_last().take(k) =~= args.take(k));
    } else {
        assert(args.take(k) =~= args);
    }
}

/// A lock with the given code hash and the single argument `arg`.
pub fn single_arg_lock(code_hash: &Vec<u8>, arg: &Vec<u8>) -> (r: Script)
    ensures
        r@ == (ScriptView { code_hash: code_hash@, args: seq![arg@] }),
{
    let mut args: Vec<Vec<u8>> = Vec::new();
    args.push(copy_bytes(arg));
    proof {
        crate::crypto::lemma_byte_lists_deep_view(&args);
        assert(args.deep_view() =~= seq![arg@]);
    }
    Script { code_hash: copy_bytes(code_hash), args }
}

/// The data of a normal account's main cell: the tag, then the nonce (LE8).
pub open spec fn normal_main_cell_data(nonce: u64) -> Seq<u8> {
    seq![NORMAL_MAIN_CELL_TAG] + spec_u64_to_le_bytes(nonce)
}

/// The out points an account's cells are spent from: the main cell first,
/// then the fund cells in order.
pub open spec fn account_inputs(account: EthAccount) -> Seq<OutPointView> {
    (match account.main_cell {
        Some(c) => seq![c.1@],
        None => Seq::<OutPointView>::empty(),
    }) + account.fund_cells@.map_values(|c: EthCell| c.1@)
}

/// The lock the account's change goes back to: its main cell's, else its
/// first fund cell's.
pub open spec fn account_lock(account: EthAccount) -> ScriptView {
    match account.main_cell {
        Some(c) => c.0.lock@,
        None => account.fund_cells@[0].0.lock@,
    }
}

/// The capacity the target cell of `tx` holds: the transferred value plus
/// `spare`, if the value converts.
pub open spec fn target_capacity(tx: EthTransaction, spare: u64) -> Option<nat> {
    match spec_wei_to_capacity(tx.value.value()) {
        Some(v) => Some((v + spare) as nat),
        None => None,
    }
}

/// The fees of `tx` in capacity, if they convert.
pub open spec fn fee_capacity(tx: EthTransaction) -> Option<nat> {
    if tx.spec_fees() < u256_limit() {
        match spec_wei_to_capacity(tx.spec_fees()) {
            Some(f) => Some(f as nat),
            None => None,
        }
    } else {
        None
    }
}

/// What `sender` keeps after paying for `tx`: its capacity less the fees and
/// the transferred value, if all of that is defined and not negative.
pub open spec fn change_capacity(tx: EthTransaction, sender: EthAccount) -> Option<nat> {
    match (spec_wei_to_capacity(tx.value.value()), fee_capacity(tx)) {
        (Some(v), Some(f)) => if sender.spec_total_capacity() < u64_limit()
            && sender.spec_total_capacity() >= f + v {
            Some((sender.spec_total_capacity() - f - v) as nat)
        } else {
            None
        },
        _ => None,
    }
}

/// The base-chain transaction for `tx` can be built.
pub open spec fn can_build(
    tx: EthTransaction,
    sender: EthAccount,
    data: Seq<u8>,
    lock: ScriptView,
    spare: u64,
) -> bool {
    &&& target_capacity(tx, spare) matches Some(t) && t < u64_limit()
    &&& occupied_bytes(data, lock) <= usize::MAX
    &&& occupied_bytes(data, lock) * BYTE_SHANNONS < u64_limit()
    &&& occupied_bytes(data, lock) * BYTE_SHANNONS <= target_capacity(tx, spare)->0
    &&& change_capacity(tx, sender) is Some
    &&& (sender.main_cell is Some || sender.fund_cells@.len() > 0)
}

/// The target cell is fine but cannot hold what the target cell needs:
/// it holds less than it occupies.
pub open spec fn target_too_small(tx: EthTransaction, data: Seq<u8>, lock: ScriptView, spare: u64) -> bool {
    &&& target_capacity(tx, spare) matches Some(t) && t < u64_limit()
    &&& occupied_bytes(data, lock) <= usize::MAX
    &&& occupied_bytes(data, lock) * BYTE_SHANNONS < u64_limit()
    &&& occupied_bytes(data, lock) * BYTE_SHANNONS > target_capacity(tx, spare)->0
}

/// The target cell can be built, the fees convert, but the sender's
/// capacity does not cover the fees and the value.
pub open spec fn sender_too_poor(
    tx: EthTransaction,
    sender: EthAccount,
    data: Seq<u8>,
    lock: ScriptView,
    spare: u64,
) -> bool {
    &&& target_capacity(tx, spare) matches Some(t) && t < u64_limit()
    &&& occupied_bytes(data, lock) <= usize::MAX
    &&& occupied_bytes(data, lock) * BYTE_SHANNONS < u64_limit()
    &&& occupied_bytes(data, lock) * BYTE_SHANNONS <= target_capacity(tx, spare)->0
    &&& sender.spec_total_capacity() < u64_limit()
    &&& fee_capacity(tx) matches Some(f) && sender.spec_total_capacity() < f + spec_wei_to_capacity(tx.value.value())->0
}

/// `t` is the base-chain transaction for `tx`: it spends every cell of
/// `sender`, returns the change to a new main cell carrying the nonce, and
/// creates the target cell; the first witness carries the signed
/// Ethereum transaction.
pub open spec fn built_transaction(
    t: Transaction,
    tx: EthTransaction,
    sender: EthAccount,
    data: Seq<u8>,
    lock: ScriptView,
    spare: u64,
    deps: LockDeps,
    extra: Seq<OutPointView>,
) -> bool {
    &&& t.deps@.map_values(|p: OutPoint| p@) == seq![deps.lock@, deps.contract_lock@]
    &&& t.outputs@.len() == 2
    &&& t.outputs@[0]@ == (CellOutputView {
        capacity: change_capacity(tx, sender)->0 as u64,
        data: normal_main_cell_data(tx.nonce),
        lock: account_lock(sender),
    })
    &&& t.outputs@[1]@ == (CellOutputView {
        capacity: target_capacity(tx, spare)->0 as u64,
        data: data,
        lock: lock,
    })
    &&& t.inputs@.map_values(|i: CellInput| i@) == (account_inputs(sender) + extra).map_values(
        |p: OutPointView| CellInputView { previous_output: Some(p), since: 0 },
    )
    &&& t.witnesses.deep_view().len() == t.inputs@.len()
    &&& t.witnesses.deep_view()[0] == seq![tx.raw@]
    &&& forall|i: int| 1 <= i < t.inputs@.len() ==> #[trigger] t.witnesses.deep_view()[i] == Seq::<Seq<u8>>::empty()
}

fn input_from(p: &OutPoint) -> (r: CellInput)
    ensures
        r@ == (CellInputView { previous_output: Some(p@), since: 0 }),
{
    CellInput { previous_output: Some(p.copy()), since: 0 }
}

/// Builds the base-chain transaction that carries `tx`: `sender`'s cells in,
/// its change and the target cell (`data` under `lock`, holding the value
/// plus `spare_capacity`) out.
pub fn build_ckb_transaction(
    tx: &EthTransaction,
    sender: &EthAccount,
    data: Vec<u8>,
    lock: Script,
    spare_capacity: u64,
    deps: &LockDeps,
) -> (r: Result<Transaction, Error>)
    ensures
        r is Ok <==> can_build(*tx, *sender, data@, lock@, spare_capacity),
        r matches Ok(t) ==> built_transaction(t, *tx, *sender, data@, lock@, spare_capacity, *deps, Seq::empty()),
        r matches Err(e) ==> e is MalformedData,
        target_too_small(*tx, data@, lock@, spare_capacity)
            ==> (r matches Err(Error::MalformedData(m)) && m@ == "Capacity is not enough!"@),
        sender_too_poor(*tx, *sender, data@, lock@, spare_capacity)
            ==> (r matches Err(Error::MalformedData(m)) && m@ == "Account capacity is not enough!"@),
        (r matches Err(Error::MalformedData(m)) && m@ == "Account capacity is not enough!"@)
            ==> sender_too_poor(*tx, *sender, data@, lock@, spare_capacity),
{
    proof {
        crate::num::lemma_pow256_known();
        reveal_strlit("Account capacity is not enough!");
        reveal_strlit("Exceeds maximum range of capacity!");
        reveal_strlit("Wei multiplication overflow!");
        reveal_strlit("Capacity addition overflow");
        reveal_strlit("Capacity error");
        reveal_strlit("Capacity is not enough!");
        reveal_strlit("Capacity overflow");
        reveal_strlit("Account does not exist yet!");
        assert("Exceeds maximum range of capacity!"@.len() != "Account capacity is not enough!"@.len());
        assert("Wei multiplication overflow!"@.len() != "Account capacity is not enough!"@.len());
        assert("Capacity addition overflow"@.len() != "Account capacity is not enough!"@.len());
        assert("Capacity error"@.len() != "Account capacity is not enough!"@.len());
        assert("Capacity is not enough!"@.len() != "Account capacity is not enough!"@.len());
        assert("Capacity overflow"@.len() != "Account capacity is not enough!"@.len());
        assert("Account does not exist yet!"@.len() != "Account capacity is not enough!"@.len());
    }
    let value_capacity = tx.value_in_capacity()?;
    let target = match value_capacity.checked_add(spare_capacity) {
        Some(c) => c,
        None => return Err(Error::malformed("Capacity addition overflow")),
    };
    let occupied = match occupied_capacity(&data, &lock) {
        Some(c) => c,
        None => return Err(Error::malformed("Capacity error")),
    };
    if occupied > target {
        return Err(Error::malformed("Capacity is not enough!"));
    }
    let total = sender.total_capacities()?;
    let fees = tx.fees_in_capacity()?;
    let change = match total.checked_sub(fees) {
        Some(c) => match c.checked_sub(value_capacity) {
            Some(c) => c,
            None => return Err(Error::malformed("Account capacity is not enough!")),
        },
        None => return Err(Error::malformed("Account capacity is not enough!")),
    };
    let change_lock = match &sender.main_cell {
        Some(cell) => cell.0.lock.copy(),
        None => {
            if sender.fund_cells.len() == 0 {
                return Err(Error::malformed("Account does not exist yet!"));
            }
            sender.fund_cells[0].0.lock.copy()
        },
    };
    let mut change_data = vec![NORMAL_MAIN_CELL_TAG];
    let mut nonce_bytes = u64_to_le_bytes(tx.nonce);
    change_data.append(&mut nonce_bytes);
    proof {
        assert(change_data@ =~= normal_main_cell_data(tx.nonce));
    }
    let mut inputs: Vec<CellInput> = Vec::new();
    let mut witnesses: Vec<Vec<Vec<u8>>> = Vec::new();
    let ghost expected = account_inputs(*sender).map_values(
        |p: OutPointView| CellInputView { previous_output: Some(p), since: 0 },
    );
    let ghost first: int = if sender.main_cell is Some { 1 } else { 0 };
    if let Some(main_cell) = &sender.main_cell {
        inputs.push(input_from(&main_cell.1));
        witnesses.push(Vec::new());
    }
    let mut i: usize = 0;
    while i < sender.fund_cells.len()
        invariant
            i <= sender.fund_cells@.len(),
            first == (if sender.main_cell is Some { 1int } else { 0int }),
            expected == account_inputs(*sender).map_values(
                |p: OutPointView| CellInputView { previous_output: Some(p), since: 0 },
            ),
            expected.len() == first + sender.fund_cells@.len(),
            inputs@.len() == first + i,
            witnesses@.len() == first + i,
            forall|j: int| 0 <= j < first + i ==> #[trigger] inputs@[j]@ == expected[j],
            forall|j: int| 0 <= j < first + i ==> #[trigger] witnesses@[j]@.len() == 0,
        decreases sender.fund_cells@.len() - i,
    {
        inputs.push(input_from(&sender.fund_cells[i].1));
        witnesses.push(Vec::new());
        i = i + 1;
    }
    let mut first_witness: Vec<Vec<u8>> = Vec::new();
    first_witness.push(copy_bytes(&tx.raw));
    let ghost fw = first_witness;
    witnesses.set(0, first_witness);
    let target_cell = CellOutput { capacity: target, data, lock };
    let change_cell = CellOutput { capacity: change, data: change_data, lock: change_lock };
    let mut outputs: Vec<CellOutput> = Vec::new();
    outputs.push(change_cell);
    outputs.push(target_cell);
    let mut dep_list: Vec<OutPoint> = Vec::new();
    dep_list.push(deps.lock.copy());
    dep_list.push(deps.contract_lock.copy());
    let t = Transaction { deps: dep_list, inputs, outputs, witnesses };
    proof {
        assert(t.deps@.map_values(|p: OutPoint| p@) =~= seq![deps.lock@, deps.contract_lock@]);
        assert(account_inputs(*sender) + Seq::<OutPointView>::empty() =~= account_inputs(*sender));
        assert(t.inputs@.map_values(|i: CellInput| i@) =~= expected);
        let w = t.witnesses.deep_view();
        assert(t.witnesses@[0] == fw);
        assert(fw@[0].deep_view() =~= tx.raw@);
        assert(w[0] =~= seq![tx.raw@]);
        assert forall|j: int| 1 <= j < t.inputs@.len() implies #[trigger] w[j] == Seq::<Seq<u8>>::empty() by {
            assert(t.witnesses@[j]@.len() == 0);
            assert(w[j] =~= Seq::<Seq<u8>>::empty());
        }
    }
    Ok(t)
}

/// The bytes of the address `tx` is sent to (empty when it has none).
pub open spec fn target_address(tx: EthTransaction) -> Seq<u8> {
    match tx.to {
        Some(a) => a.0@,
        None => Seq::empty(),
    }
}

/// The address a contract created by `tx` gets: the last 20 bytes of the
/// Keccak-256 digest of the RLP list (sender, nonce).
pub open spec fn spec_contract_address(tx: EthTransaction) -> Seq<u8> {
    keccak_of(rlp_sender_nonce(tx.from.0@, tx.nonce)).skip(12)
}

/// The address of the contract that `tx` creates.
pub fn contract_address(tx: &EthTransaction) -> (r: EthAddress)
    ensures
        r.0@ == spec_contract_address(*tx),
{
    let encoded = rlp_encode_sender_nonce(&tx.from.0, tx.nonce);
    let digest = keccak256(encoded.as_slice());
    EthAddress(bytes_from(digest.as_slice(), 12))
}

/// How an EVM execution ended.
#[derive(Debug, Clone, PartialEq, Eq)]
pub enum EvmOutcome {
    /// Execution returned data; its state changes apply only if
    /// `apply_state` holds (otherwise it reverted).
    NeedsReturn { data: Vec<u8>, apply_state: bool },
    /// Execution stopped without returning data.
    Known,
    /// Execution reached a trap (a nested call or creation), which the host
    /// does not support.
    Trapped,
}

/// What one top-level EVM execution is run with: the contract as code and
/// executing address, the transaction's sender as sender and origin, the
/// fees (in wei) as gas, and the transferred value.
#[derive(Debug, Clone, PartialEq, Eq)]
pub struct EvmCall {
    pub code_address: EthAddress,
    pub address: EthAddress,
    pub sender: EthAddress,
    pub origin: EthAddress,
    pub gas: U256,
    pub gas_price: U256,
    pub value: U256,
    pub data: Option<Vec<u8>>,
}

/// The action of running `contract`'s code for `tx`: gas is the fees
/// (`gas_price * gas_limit`), not the gas limit; fees beyond 256 bits are
/// malformed.
pub fn evm_call(tx: &EthTransaction, contract: &EthAddress) -> (r: Result<EvmCall, Error>)
    ensures
        r is Ok <==> tx.spec_fees() < u256_limit(),
        r matches Ok(c) ==> {
            &&& c.code_address.0@ == contract.0@
            &&& c.address.0@ == contract.0@
            &&& c.sender.0@ == tx.from.0@
            &&& c.origin.0@ == tx.from.0@
            &&& c.gas.value() == tx.spec_fees()
            &&& c.gas_price == tx.gas_price
            &&& c.value == tx.value
            &&& crate::transaction::vec_bytes(c.data) == crate::transaction::vec_bytes(tx.data)
        },
        r matches Err(e) ==> e is MalformedData,
{
    let gas = tx.fees()?;
    Ok(EvmCall {
        code_address: EthAddress(copy_bytes(&contract.0)),
        address: EthAddress(copy_bytes(&contract.0)),
        sender: EthAddress(copy_bytes(&tx.from.0)),
        origin: EthAddress(copy_bytes(&tx.from.0)),
        gas,
        gas_price: tx.gas_price,
        value: tx.value,
        data: match &tx.data {
            Some(d) => Some(copy_bytes(d)),
            None => None,
        },
    })
}

/// The data an EVM execution returned: a revert is an error, a stop returns
/// nothing.
pub fn evm_return_data(outcome: EvmOutcome) -> (r: Result<Option<Vec<u8>>, Error>)
    ensures
        outcome matches EvmOutcome::NeedsReturn { data, apply_state } ==> (apply_state
            ==> (r matches Ok(Some(d)) && d@ == data@)),
        outcome matches EvmOutcome::NeedsReturn { apply_state, .. } ==> (!apply_state
            ==> (r matches Err(Error::EVM(m)) && m@ == "Reverted!"@)),
        outcome is Known ==> r matches Ok(None),
        outcome is Trapped ==> (r matches Err(Error::EVM(m)) && m@ == "Trap is not yet supported"@),
{
    match outcome {
        EvmOutcome::NeedsReturn { data, apply_state } => {
            if apply_state {
                Ok(Some(data))
            } else {
                Err(Error::EVM(String::from_str("Reverted!")))
            }
        },
        EvmOutcome::Known => Ok(None),
        EvmOutcome::Trapped => Err(Error::EVM(String::from_str("Trap is not yet supported"))),
    }
}

/// What a transaction does, by its target.
#[derive(Debug, Clone, Copy, PartialEq, Eq, Structural)]
pub enum RunKind {
    /// No target: create a contract.
    Create,
    /// The target is a contract: call it.
    Call,
    /// The target is any other account: transfer value to it.
    Transfer,
}

/// The data of a contract's main cell: the tag, then the serialized
/// contract state.
pub open spec fn contract_main_cell_data(state: Seq<u8>) -> Seq<u8> {
    seq![CONTRACT_MAIN_CELL_TAG] + state
}

fn contract_cell_data(state: &Vec<u8>) -> (r: Vec<u8>)
    ensures
        r@ == contract_main_cell_data(state@),
{
    let mut data = vec![CONTRACT_MAIN_CELL_TAG];
    let mut s = copy_bytes(state);
    data.append(&mut s);
    data
}

/// The code that a creation transaction runs to initialise the contract.
pub fn creation_code(tx: &EthTransaction) -> (r: Result<Vec<u8>, Error>)
    ensures
        r is Ok <==> tx.data is Some,
        r matches Ok(c) ==> tx.data matches Some(d) && c@ == d@,
        r matches Err(e) ==> e is MalformedData,
{
    match &tx.data {
        Some(d) => Ok(copy_bytes(d)),
        None => Err(Error::malformed("Contract creation transaction is missing data!")),
    }
}

/// The runtime code a contract's initialiser returned; an initialiser that
/// returned nothing counts as reverted.
pub fn initialized_code(return_data: Option<Vec<u8>>) -> (r: Result<Vec<u8>, Error>)
    ensures
        r is Ok <==> return_data is Some,
        r matches Ok(c) ==> return_data matches Some(d) && c@ == d@,
        r matches Err(e) ==> e matches Error::EVM(m) && m@ == "Reverted!"@,
{
    match return_data {
        Some(d) => Ok(d),
        None => Err(Error::EVM(String::from_str("Reverted!"))),
    }
}

/// Executes Ethereum transactions against accounts loaded at one block.
pub struct Runner<'a> {
    pub tx: &'a EthTransaction,
    pub block_number: u64,
    pub code_hashes: &'a LockCodeHashes,
    pub deps: &'a LockDeps,
}

impl<'a> Runner<'a> {
    /// What the transaction does, given the account at its target (absent
    /// when the target could not be loaded).
    pub fn run_kind(&self, to_account: Option<&EthAccount>) -> (r: Result<RunKind, Error>)
        ensures
            self.tx.to is None ==> r == Ok::<RunKind, Error>(RunKind::Create),
            self.tx.to is Some && to_account is None ==> r matches Err(Error::MalformedData(_)),
            self.tx.to is Some ==> (to_account matches Some(a) ==> {
                &&& r is Err <==> a.has_bad_tag()
                &&& r matches Ok(k) ==> k == (if a.spec_is_contract() { RunKind::Call } else { RunKind::Transfer })
            }),
            r matches Err(e) ==> e is MalformedData,
    {
        if self.tx.to.is_none() {
            return Ok(RunKind::Create);
        }
        match to_account {
            None => Err(Error::malformed("Contract does not exist yet!")),
            Some(a) => {
                if a.contract_account()? {
                    Ok(RunKind::Call)
                } else {
                    Ok(RunKind::Transfer)
                }
            },
        }
    }

    /// The transfer of the transaction's value to a normal account.
    pub fn send_to_normal_account(&self, sender: &EthAccount) -> (r: Result<Transaction, Error>)
        requires
            self.tx.to is Some,
        ensures
            ({
                let lock = ScriptView { code_hash: self.code_hashes.lock@, args: seq![target_address(*self.tx)] };
                &&& r is Ok <==> can_build(*self.tx, *sender, Seq::empty(), lock, 0)
                &&& r matches Ok(t) ==> built_transaction(t, *self.tx, *sender, Seq::empty(), lock, 0, *self.deps, Seq::empty())
            }),
            r matches Err(e) ==> e is MalformedData,
    {
        let to = match &self.tx.to {
            Some(a) => a,
            None => return Err(Error::malformed("Missing target")),
        };
        let lock = single_arg_lock(&self.code_hashes.lock, &to.0);
        let data: Vec<u8> = Vec::new();
        proof {
            assert(data@ =~= Seq::<u8>::empty());
        }
        build_ckb_transaction(self.tx, sender, data, lock, 0, self.deps)
    }

    /// The creation of a contract whose initialised state serializes to
    /// `state`: a contract main cell under the contract lock, holding the
    /// transferred value.
    pub fn create_contract(&self, sender: &EthAccount, state: &Vec<u8>) -> (r: Result<Transaction, Error>)
        ensures
            self.tx.data is None ==> (r matches Err(Error::MalformedData(m))
                && m@ == "Contract creation transaction is missing data!"@),
            self.tx.data is Some ==> ({
                let lock = ScriptView {
                    code_hash: self.code_hashes.contract_lock@,
                    args: seq![spec_contract_address(*self.tx)],
                };
                let data = contract_main_cell_data(state@);
                &&& r is Ok <==> can_build(*self.tx, *sender, data, lock, 0)
                &&& r matches Ok(t) ==> built_transaction(t, *self.tx, *sender, data, lock, 0, *self.deps, Seq::empty())
            }),
            r matches Err(e) ==> e is MalformedData,
    {
        if self.tx.data.is_none() {
            return Err(Error::malformed("Contract creation transaction is missing data!"));
        }
        let address = contract_address(self.tx);
        let lock = single_arg_lock(&self.code_hashes.contract_lock, &address.0);
        let data = contract_cell_data(state);
        build_ckb_transaction(self.tx, sender, data, lock, 0, self.deps)
    }

    /// The call of `contract`, whose state after the call serializes to
    /// `state`: its main cell is spent too, and a new one carries the state
    /// and the old capacity plus the transferred value.
    pub fn call_contract(&self, sender: &EthAccount, contract: &EthAccount, state: &Vec<u8>) -> (r: Result<Transaction, Error>)
        requires
            self.tx.to is Some,
        ensures
            contract.main_cell is None ==> r matches Err(Error::MalformedData(_)),
            contract.main_cell matches Some(c) ==> ({
                let lock = ScriptView { code_hash: self.code_hashes.contract_lock@, args: seq![target_address(*self.tx)] };
                let data = contract_main_cell_data(state@);
                &&& r is Ok <==> can_build(*self.tx, *sender, data, lock, c.0.capacity)
                &&& r matches Ok(t) ==> built_transaction(t, *self.tx, *sender, data, lock, c.0.capacity, *self.deps, seq![c.1@])
            }),
            r matches Err(e) ==> e is MalformedData,
    {
        let to = match &self.tx.to {
            Some(a) => a,
            None => return Err(Error::malformed("Missing target")),
        };
        let main = match &contract.main_cell {
            Some(c) => c,
            None => return Err(Error::malformed("Contract account must have main cell")),
        };
        let lock = single_arg_lock(&self.code_hashes.contract_lock, &to.0);
        let data = contract_cell_data(state);
        let ghost lock_view = lock@;
        let ghost data_view = data@;
        let mut t = build_ckb_transaction(self.tx, sender, data, lock, main.0.capacity, self.deps)?;
        let ghost before = t;
        t.inputs.push(input_from(&main.1));
        t.witnesses.push(Vec::new());
        proof {
            let extra = seq![main.1@];
            let ai = account_inputs(*sender);
            assert(ai + Seq::<OutPointView>::empty() =~= ai);
            let bm = before.inputs@.map_values(|i: CellInput| i@);
            assert(bm.len() == ai.len());
            assert(t.inputs@.len() == ai.len() + 1);
            assert forall|j: int| 0 <= j < ai.len() implies #[trigger] t.inputs@[j]@ == (CellInputView { previous_output: Some(ai[j]), since: 0 }) by {
                assert(t.inputs@[j] == before.inputs@[j]);
                assert(bm[j] == before.inputs@[j]@);
                assert((ai + Seq::<OutPointView>::empty())[j] == ai[j]);
            }
            assert(t.inputs@[ai.len() as int]@ == (CellInputView { previous_output: Some(main.1@), since: 0 }));
            assert(t.inputs@.map_values(|i: CellInput| i@) =~= (ai + extra).map_values(
                |p: OutPointView| CellInputView { previous_output: Some(p), since: 0 },
            ));
            let w = t.witnesses.deep_view();
            let w0 = before.witnesses.deep_view();
            assert(w0.len() > 0);
            assert(w[0] == w0[0]);
            assert forall|j: int| 1 <= j < t.inputs@.len() implies #[trigger] w[j] == Seq::<Seq<u8>>::empty() by {
                if j < before.inputs@.len() {
                    assert(w[j] == w0[j]);
                } else {
                    assert(w[j] =~= Seq::<Seq<u8>>::empty());
                }
            }
            assert(t.deps@ == before.deps@);
            assert(t.outputs@ == before.outputs@);
        }
        Ok(t)
    }

    /// The lock of a contract this transaction creates.
    pub open spec fn creation_lock(&self) -> ScriptView {
        ScriptView { code_hash: self.code_hashes.contract_lock@, args: seq![spec_contract_address(*self.tx)] }
    }

    /// The lock of the contract this transaction calls.
    pub open spec fn call_lock(&self) -> ScriptView {
        ScriptView { code_hash: self.code_hashes.contract_lock@, args: seq![target_address(*self.tx)] }
    }

    /// The lock of the account this transaction transfers to.
    pub open spec fn transfer_lock(&self) -> ScriptView {
        ScriptView { code_hash: self.code_hashes.lock@, args: seq![target_address(*self.tx)] }
    }

    /// The base-chain transaction for this transaction, given the account at
    /// its target (when it has one), the sender's account, and the contract
    /// state after execution (for a creation or a call).
    pub fn run(&self, to_account: Option<&EthAccount>, sender: &EthAccount, state: Option<&Vec<u8>>) -> (r: Result<Transaction, Error>)
        ensures
            self.tx.to is None && self.tx.data is None && state is Some ==> r matches Err(Error::MalformedData(_)),
            self.tx.to is None && self.tx.data is Some ==> (state matches Some(s) ==> {
                let data = contract_main_cell_data(s@);
                &&& r is Ok <==> can_build(*self.tx, *sender, data, self.creation_lock(), 0)
                &&& r matches Ok(t) ==> built_transaction(t, *self.tx, *sender, data, self.creation_lock(), 0, *self.deps, Seq::empty())
            }),
            self.tx.to is Some ==> (to_account matches Some(a) ==> (!a.has_bad_tag() && !a.spec_is_contract() ==> {
                &&& r is Ok <==> can_build(*self.tx, *sender, Seq::empty(), self.transfer_lock(), 0)
                &&& r matches Ok(t) ==> built_transaction(t, *self.tx, *sender, Seq::empty(), self.transfer_lock(), 0, *self.deps, Seq::empty())
            })),
            self.tx.to is Some ==> (to_account matches Some(a) ==> (a.spec_is_contract() ==> (state matches Some(s) ==> (a.main_cell matches Some(c) ==> {
                let data = contract_main_cell_data(s@);
                &&& r is Ok <==> can_build(*self.tx, *sender, data, self.call_lock(), c.0.capacity)
                &&& r matches Ok(t) ==> built_transaction(t, *self.tx, *sender, data, self.call_lock(), c.0.capacity, *self.deps, seq![c.1@])
            })))),
            self.tx.to is None && state is None ==> r matches Err(Error::EVM(_)),
            self.tx.to is Some ==> (to_account matches Some(a) ==> (a.spec_is_contract() && state is None ==> r matches Err(Error::EVM(_)))),
            self.tx.to is Some && to_account is None ==> r matches Err(Error::MalformedData(_)),
            self.tx.to is Some ==> (to_account matches Some(a) ==> (a.has_bad_tag() ==> r matches Err(Error::MalformedData(_)))),
    {
        let kind = self.run_kind(to_account)?;
        match kind {
            RunKind::Transfer => self.send_to_normal_account(sender),
            RunKind::Create => match state {
                Some(s) => self.create_contract(sender, s),
                None => Err(Error::EVM(String::from_str("Missing contract state"))),
            },
            RunKind::Call => match (state, to_account) {
                (Some(s), Some(a)) => self.call_contract(sender, a, s),
                _ => Err(Error::EVM(String::from_str("Missing contract state"))),
            },
        }
    }
}

/// The little-endian bytes of `n` are worth `n`.
proof fn lemma_le_bytes_value(n: u64)
    ensures
        crate::num::le_value(spec_u64_to_le_bytes(n)) == n,
{
    vstd::bytes::spec_u64_to_le_bytes_to_open(n);
    let s = spec_u64_to_le_bytes(n);
    let x1 = n >> 8u64;
    let x2 = x1 >> 8u64;
    let x3 = x2 >> 8u64;
    let x4 = x3 >> 8u64;
    let x5 = x4 >> 8u64;
    let x6 = x5 >> 8u64;
    let x7 = x6 >> 8u64;
    assert(n == (n & 0xff) + 256 * (n >> 8u64)) by (bit_vector);
    assert(x1 == (x1 & 0xff) + 256 * (x1 >> 8u64)) by (bit_vector);
    assert(x2 == (x2 & 0xff) + 256 * (x2 >> 8u64)) by (bit_vector);
    assert(x3 == (x3 & 0xff) + 256 * (x3 >> 8u64)) by (bit_vector);
    assert(x4 == (x4 & 0xff) + 256 * (x4 >> 8u64)) by (bit_vector);
    assert(x5 == (x5 & 0xff) + 256 * (x5 >> 8u64)) by (bit_vector);
    assert(x6 == (x6 & 0xff) + 256 * (x6 >> 8u64)) by (bit_vector);
    assert(x7 == (x7 & 0xff) + 256 * (x7 >> 8u64)) by (bit_vector);
    assert(x7 >> 8u64 == 0) by (bit_vector)
        requires
            x7 == ((((((n >> 8u64) >> 8u64) >> 8u64) >> 8u64) >> 8u64) >> 8u64) >> 8u64,
    ;
    assert(((n >> 16u64) & 0xff) == (((n >> 8u64) >> 8u64) & 0xff)) by (bit_vector);
    assert(((n >> 24u64) & 0xff) == ((((n >> 8u64) >> 8u64) >> 8u64) & 0xff)) by (bit_vector);
    assert(((n >> 32u64) & 0xff) == (((((n >> 8u64) >> 8u64) >> 8u64) >> 8u64) & 0xff)) by (bit_vector);
    assert(((n >> 40u64) & 0xff) == ((((((n >> 8u64) >> 8u64) >> 8u64) >> 8u64) >> 8u64) & 0xff)) by (bit_vector);
    assert(((n >> 48u64) & 0xff) == (((((((n >> 8u64) >> 8u64) >> 8u64) >> 8u64) >> 8u64) >> 8u64) & 0xff)) by (bit_vector);
    assert(((n >> 56u64) & 0xff) == ((((((((n >> 8u64) >> 8u64) >> 8u64) >> 8u64) >> 8u64) >> 8u64) >> 8u64) & 0xff)) by (bit_vector);
    let xs = seq![n, x1, x2, x3, x4, x5, x6, x7];
    assert(x1 & 0xff < 256 && x2 & 0xff < 256 && x3 & 0xff < 256 && x4 & 0xff < 256) by (bit_vector);
    assert(x5 & 0xff < 256 && x6 & 0xff < 256 && x7 & 0xff < 256 && n & 0xff < 256) by (bit_vector);
    assert forall|j: int| 0 <= j < 7 implies #[trigger] xs[j] == (xs[j] & 0xff) + 256 * xs[j + 1] by {}
    assert forall|j: int| 0 <= j < 8 implies #[trigger] s[j] as nat == (xs[j] & 0xff) by {}
    lemma_le_suffix(s, xs, 0);
    assert(s.skip(0) =~= s);
}

proof fn lemma_le_suffix(s: Seq<u8>, xs: Seq<u64>, i: int)
    requires
        0 <= i <= 8,
        s.len() == 8,
        xs.len() == 8,
        forall|j: int| 0 <= j < 7 ==> #[trigger] xs[j] == (xs[j] & 0xff) + 256 * xs[j + 1],
        xs[7] == (xs[7] & 0xff),
        forall|j: int| 0 <= j < 8 ==> #[trigger] s[j] as nat == (xs[j] & 0xff),
    ensures
        crate::num::le_value(s.skip(i)) == (if i < 8 { xs[i] as nat } else { 0 }),
    decreases 8 - i,
{
    if i < 8 {
        lemma_le_suffix(s, xs, i + 1);
        assert(s.skip(i).drop_first() =~= s.skip(i + 1));
        assert(s.skip(i)[0] == s[i]);
    } else {
        assert(s.skip(i) =~= Seq::<u8>::empty());
    }
}

/// After a transaction whose nonce is not below the sender's stored nonce,
/// the nonce the sender's account reports next has not decreased: the
/// account's new main cell is the change cell, which records the
/// transaction's nonce.
pub proof fn lemma_next_nonce_not_decreasing(
    t: Transaction,
    tx: EthTransaction,
    sender: EthAccount,
    data: Seq<u8>,
    lock: ScriptView,
    spare: u64,
    deps: LockDeps,
    extra: Seq<OutPointView>,
    after: EthAccount,
)
    requires
        built_transaction(t, tx, sender, data, lock, spare, deps, extra),
        after.main_cell matches Some(c) && c.0@ == t.outputs@[0]@,
        sender.spec_next_nonce() matches Some(m) && tx.nonce as nat + 1 >= m,
    ensures
        after.spec_next_nonce() == Some(tx.nonce as nat + 1),
        after.spec_next_nonce()->0 >= sender.spec_next_nonce()->0,
{
    let c = after.main_cell->0;
    let d = normal_main_cell_data(tx.nonce);
    vstd::bytes::spec_u64_to_le_bytes_to_open(tx.nonce);
    assert(c.0.data@ == d);
    assert(d.subrange(1, 9) =~= spec_u64_to_le_bytes(tx.nonce));
    lemma_le_bytes_value(tx.nonce);
}

} // verus!
