//! Receipts of Ethereum transactions, rebuilt when read from where the
//! indexer found them.

use crate::chain::{copy_bytes, same_bytes, BlockTransaction, CellOutput};
use crate::crypto::rlp_list_items;
use crate::error::Error;
use crate::indexer::{raw_fees, EthBasicReceipt};
use crate::num::{u256_limit, U256};
use crate::transaction::{address_bytes, spec_decodes, EthTransaction};
use vstd::prelude::*;

verus! {

/// The receipt of an Ethereum transaction, as the RPC layer reports it.
#[derive(Debug, Clone, PartialEq, Eq)]
pub struct TransactionReceipt {
    pub transaction_hash: Vec<u8>,
    pub transaction_index: U256,
    pub block_hash: Vec<u8>,
    pub block_number: U256,
    pub from: Vec<u8>,
    pub to: Option<Vec<u8>>,
    pub cumulative_gas_used: U256,
    pub gas_used: U256,
    pub contract_address: Option<Vec<u8>>,
    pub logs: Vec<Vec<u8>>,
    pub logs_bloom: Vec<u8>,
    pub status: U256,
}

/// The index of the first output whose lock runs `code_hash`, if any.
pub open spec fn first_with_code(outputs: Seq<CellOutput>, code_hash: Seq<u8>) -> Option<int>
    decreases outputs.len(),
{
    if outputs.len() == 0 {
        None
    } else {
        match first_with_code(outputs.drop_last(), code_hash) {
            Some(i) => Some(i),
            None => if outputs.last().lock.code_hash@ == code_hash {
                Some(outputs.len() - 1)
            } else {
                None
            },
        }
    }
}

/// The signed bytes the receipt points at: the first item of the witness.
pub open spec fn receipt_raw(basic: EthBasicReceipt, tx: BlockTransaction) -> Option<Seq<u8>> {
    let w = basic.witness_index as int;
    if w < tx.transaction.witnesses@.len() && tx.transaction.witnesses@[w]@.len() > 0 {
        Some(tx.transaction.witnesses@[w]@[0]@)
    } else {
        None
    }
}

/// The optional bytes of an optional byte string.
pub open spec fn opt_bytes(o: Option<Vec<u8>>) -> Option<Seq<u8>> {
    match o {
        Some(v) => Some(v@),
        None => None,
    }
}

/// A receipt can be built: the witness holds a transaction that decodes,
/// whose fees fit in 256 bits, and a contract-lock output (if any) names
/// the contract.
pub open spec fn receipt_buildable(basic: EthBasicReceipt, tx: BlockTransaction, contract_lock_code_hash: Seq<u8>) -> bool {
    &&& receipt_raw(basic, tx) matches Some(raw)
    &&& spec_decodes(raw)
    &&& raw_fees(raw) < u256_limit()
    &&& (is_creation(receipt_raw(basic, tx)->0) ==> (first_with_code(tx.transaction.outputs@, contract_lock_code_hash) matches Some(i)
        ==> tx.transaction.outputs@[i].lock.args@.len() > 0))
}

/// The signed transaction `raw` creates a contract: it has no target.
pub open spec fn is_creation(raw: Seq<u8>) -> bool {
    rlp_list_items(raw)->0[3].len() == 0
}

/// `rec` is the receipt of the Ethereum transaction `basic` points at in
/// `tx`, in the block `block_hash`. It names a contract address only for a
/// creation: the argument of the first output under the contract lock.
pub open spec fn receipt_describes(
    rec: TransactionReceipt,
    basic: EthBasicReceipt,
    tx: BlockTransaction,
    block_hash: Seq<u8>,
    contract_lock_code_hash: Seq<u8>,
) -> bool {
    let raw = receipt_raw(basic, tx)->0;
    let outputs = tx.transaction.outputs@;
    &&& spec_decodes(raw)
    &&& rec.transaction_hash@ == tx.hash@
    &&& rec.transaction_index.value() == basic.transaction_index
    &&& rec.block_hash@ == block_hash
    &&& rec.block_number.value() == basic.block_number
    &&& rec.cumulative_gas_used == basic.cumulative_gas
    &&& (exists|t: EthTransaction| #[trigger] t.decoded_from(raw, rlp_list_items(raw)->0)
        && rec.from@ == t.from.0@ && opt_bytes(rec.to) == address_bytes(t.to)
        && rec.gas_used.value() == t.spec_fees())
    &&& !is_creation(raw) ==> rec.contract_address is None
    &&& is_creation(raw) ==> (first_with_code(outputs, contract_lock_code_hash) is None ==> rec.contract_address is None)
    &&& is_creation(raw) ==> (first_with_code(outputs, contract_lock_code_hash) matches Some(i) ==> (
        rec.contract_address matches Some(a) && outputs[i].lock.args@.len() > 0
        && a@ == outputs[i].lock.args@[0]@))
    &&& rec.logs@.len() == 0
    &&& rec.logs_bloom@ == Seq::new(32, |i: int| 0u8)
    &&& rec.status.value() == 1
}

impl TransactionReceipt {
    /// The receipt from where the indexer found the Ethereum transaction
    /// (`basic`), the base-chain transaction carrying it, and the hash of
    /// the block that holds it. A contract creation is recognised by an
    /// output under `contract_lock_code_hash`, whose argument is the new
    /// contract's address.
    pub fn from(
        basic: &EthBasicReceipt,
        transaction: &BlockTransaction,
        block_hash: &Vec<u8>,
        contract_lock_code_hash: &Vec<u8>,
    ) -> (r: Result<TransactionReceipt, Error>)
        ensures
            r is Ok <==> receipt_buildable(*basic, *transaction, contract_lock_code_hash@),
            receipt_raw(*basic, *transaction) is None ==> r matches Err(Error::MalformedData(_)),
            r matches Ok(rec) ==> receipt_describes(rec, *basic, *transaction, block_hash@, contract_lock_code_hash@),
    {
        let w = basic.witness_index;
        if w >= transaction.transaction.witnesses.len() as u64 {
            return Err(Error::malformed("Witness index out of range"));
        }
        let witness = &transaction.transaction.witnesses[w as usize];
        if witness.len() == 0 {
            return Err(Error::malformed("Witness is empty"));
        }
        let eth = EthTransaction::from_raw(copy_bytes(&witness[0]))?;
        let gas_used = eth.fees()?;
        let outputs = &transaction.transaction.outputs;
        let mut contract_address: Option<Vec<u8>> = None;
        if eth.to.is_none() {
            assert(is_creation(receipt_raw(*basic, *transaction)->0));
            let mut found = false;
            let mut i: usize = 0;
            while i < outputs.len() && !found
                invariant
                    i <= outputs@.len(),
                    is_creation(receipt_raw(*basic, *transaction)->0),
                    outputs@ == transaction.transaction.outputs@,
                    !found ==> contract_address is None,
                    !found ==> first_with_code(outputs@.take(i as int), contract_lock_code_hash@) is None,
                    found ==> i < outputs@.len() && first_with_code(outputs@, contract_lock_code_hash@) == Some(i as int)
                        && outputs@[i as int].lock.args@.len() > 0
                        && (contract_address matches Some(a) && a@ == outputs@[i as int].lock.args@[0]@),
                decreases outputs@.len() - i + (if found { 0int } else { 1int }),
            {
                proof {
                    assert(outputs@.take(i + 1).drop_last() =~= outputs@.take(i as int));
                }
                if same_bytes(&outputs[i].lock.code_hash, contract_lock_code_hash) {
                    proof {
                        lemma_first_with_code_extends(outputs@, contract_lock_code_hash@, i as int);
                    }
                    if outputs[i].lock.args.len() == 0 {
                        return Err(Error::malformed("Contract lock has no argument"));
                    }
                    contract_address = Some(copy_bytes(&outputs[i].lock.args[0]));
                    proof {
                        lemma_first_with_code_extends(outputs@, contract_lock_code_hash@, i as int);
                    }
                    found = true;
                } else {
                    i = i + 1;
                }
        }
            proof {
                if !found {
                    assert(outputs@.take(i as int) =~= outputs@);
                }
        }
        }

        let to = match &eth.to {
            Some(a) => Some(copy_bytes(&a.0)),
            None => None,
        };
        let logs: Vec<Vec<u8>> = Vec::new();
        let bloom = vec![0u8; 32];
        proof {
            assert(bloom@ =~= Seq::new(32, |i: int| 0u8));
        }
        Ok(TransactionReceipt {
            transaction_hash: copy_bytes(&transaction.hash),
            transaction_index: U256::from_u64(basic.transaction_index),
            block_hash: copy_bytes(block_hash),
            block_number: U256::from_u64(basic.block_number),
            from: copy_bytes(&eth.from.0),
            to,
            cumulative_gas_used: basic.cumulative_gas,
            gas_used,
            contract_address,
            logs,
            logs_bloom: bloom,
            status: U256::from_u64(1),
        })
    }
}

proof fn lemma_first_with_code_extends(outputs: Seq<CellOutput>, code_hash: Seq<u8>, i: int)
    requires
        0 <= i < outputs.len(),
        first_with_code(outputs.take(i), code_hash) is None,
        outputs[i].lock.code_hash@ == code_hash,
    ensures
        first_with_code(outputs, code_hash) == Some(i),
    decreases outputs.len() - i,
{
    assert(outputs.take(i + 1).drop_last() =~= outputs.take(i));
    if i + 1 < outputs.len() {
        assert(outputs.drop_last().take(i) =~= outputs.take(i));
        lemma_first_with_code_extends(outputs.drop_last(), code_hash, i);
        assert(outputs.drop_last().take(i) =~= outputs.take(i));
    } else {
        assert(outputs.take(i + 1) =~= outputs);
    }
}

/// The receipt of an Ethereum transaction once its base-chain transaction
/// is in a block: none while the receipt is unknown, the transaction is
/// unknown, or it has no block yet.
pub fn receipt_when_committed(
    basic: Option<&EthBasicReceipt>,
    transaction: Option<&BlockTransaction>,
    block_hash: Option<&Vec<u8>>,
    contract_lock_code_hash: &Vec<u8>,
) -> (r: Result<Option<TransactionReceipt>, Error>)
    ensures
        (basic is None || transaction is None || block_hash is None) ==> r matches Ok(None),
        basic matches Some(b) ==> (transaction matches Some(t) ==> (block_hash is Some ==> (
            (r is Ok <==> receipt_buildable(*b, *t, contract_lock_code_hash@))
            && (r is Ok ==> r matches Ok(Some(_)))
            && (r matches Ok(Some(rec)) ==> receipt_describes(rec, *b, *t, block_hash->0@, contract_lock_code_hash@))))),
{
    match (basic, transaction, block_hash) {
        (Some(b), Some(t), Some(h)) => {
            let rec = TransactionReceipt::from(b, t, h, contract_lock_code_hash)?;
            Ok(Some(rec))
        },
        _ => Ok(None),
    }
}

} // verus!
