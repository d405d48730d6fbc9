use std::collections::BTreeMap;

use polyjuice::account::{EthAccount, EthCell};
use polyjuice::chain::{Block, BlockTransaction, CellInput, CellOutput, OutPoint, Script, Transaction};
use polyjuice::error::Error;
use polyjuice::indexer::{OwnedOutPoint, block_diffs, block_receipts, ingest_batch, next_step, revert_batch, IndexStep, KvValue, WriteOp};
use polyjuice::keys::{build_block_spent_out_points_key, build_block_added_out_points_key, build_block_hash_key, build_block_key, build_block_receipt_hashes_key, build_eth_key, build_out_point_key, build_receipt_key};
use polyjuice::loader::load_latest_out_points;
use polyjuice::num::U256;
use polyjuice::receipt::receipt_when_committed;
use polyjuice::runner::{evm_return_data, initialized_code, EvmOutcome, LockCodeHashes, LockDeps, RunKind, Runner};
use polyjuice::transaction::EthTransaction;
use secp256k1::recovery::RecoveryId;
use secp256k1::{Message, PublicKey, Secp256k1, SecretKey};

const CKB: u64 = 100_000_000;

fn keccak(data: &[u8]) -> Vec<u8> {
    tiny_keccak::keccak256(data).to_vec()
}

fn u256(v: u128) -> U256 {
    let mut le_bytes = [0u8; 32];
    le_bytes[..16].copy_from_slice(&v.to_le_bytes());
    U256 { le_bytes }
}

fn minimal_be(v: u128) -> Vec<u8> {
    let b = v.to_be_bytes();
    let first = b.iter().position(|x| *x != 0).unwrap_or(16);
    b[first..].to_vec()
}

fn address_of(sk: &SecretKey) -> Vec<u8> {
    let secp = Secp256k1::new();
    let pk = PublicKey::from_secret_key(&secp, sk);
    keccak(&pk.serialize_uncompressed()[1..])[12..].to_vec()
}

fn sign(sk: &SecretKey, nonce: u64, gas_price: u128, gas_limit: u128, to: Option<Vec<u8>>, value: u128, data: Vec<u8>) -> Vec<u8> {
    let fields: Vec<Vec<u8>> = vec![
        minimal_be(nonce as u128),
        minimal_be(gas_price),
        minimal_be(gas_limit),
        to.unwrap_or_default(),
        minimal_be(value),
        data,
    ];
    let mut unsigned = fields.clone();
    unsigned.extend([vec![1u8], vec![], vec![]]);
    let digest = keccak(&rlp::encode_list::<Vec<u8>, _>(&unsigned));
    let secp = Secp256k1::new();
    let sig = secp.sign_recoverable(&Message::from_slice(&digest).unwrap(), sk);
    let (id, compact): (RecoveryId, [u8; 64]) = sig.serialize_compact();
    let mut signed = fields;
    signed.extend([vec![37 + id.to_i32() as u8], compact[..32].to_vec(), compact[32..].to_vec()]);
    rlp::encode_list::<Vec<u8>, _>(&signed)
}

fn codes() -> LockCodeHashes {
    LockCodeHashes { lock: vec![0x11; 32], contract_lock: vec![0x22; 32] }
}

fn deps() -> LockDeps {
    LockDeps {
        lock: OutPoint { tx_hash: vec![0xd1; 32], index: 0 },
        contract_lock: OutPoint { tx_hash: vec![0xd2; 32], index: 0 },
    }
}

fn fund_cell(owner: &[u8], capacity: u64, tag: u8) -> EthCell {
    EthCell(
        CellOutput { capacity, data: vec![], lock: Script { code_hash: vec![0x11; 32], args: vec![owner.to_vec()] } },
        OutPoint { tx_hash: vec![tag; 32], index: 0 },
    )
}

fn message(e: Error) -> String {
    match e {
        Error::MalformedData(m) => m,
        other => panic!("unexpected error {:?}", other),
    }
}

#[test]
fn cold_transfer_below_occupied_capacity_is_rejected() {
    // One fund cell of 100 CKB; 5e11 wei is 50 shannons, less than the
    // 61 CKB a cell under a one-argument lock occupies.
    let sk = SecretKey::from_slice(&[1u8; 32]).unwrap();
    let a = address_of(&sk);
    let raw = sign(&sk, 0, 1, 21000, Some(vec![0xbb; 20]), 5 * 10u128.pow(11), vec![]);
    let tx = EthTransaction::from_raw(raw).unwrap();
    let sender = EthAccount { main_cell: None, fund_cells: vec![fund_cell(&a, 100 * CKB, 1)] };
    let (c, d) = (codes(), deps());
    let runner = Runner { tx: &tx, block_number: 1, code_hashes: &c, deps: &d };
    let e = runner.send_to_normal_account(&sender).unwrap_err();
    assert_eq!(message(e), "Capacity is not enough!");
}

#[test]
fn cold_transfer_builds_change_and_target() {
    let sk = SecretKey::from_slice(&[1u8; 32]).unwrap();
    let a = address_of(&sk);
    // 70 CKB of value; a gas price of one shannon per gas makes 21000 shannons of fees.
    let raw = sign(&sk, 0, 10_000_000_000, 21000, Some(vec![0xbb; 20]), 70 * CKB as u128 * 10_000_000_000, vec![]);
    let tx = EthTransaction::from_raw(raw.clone()).unwrap();
    let sender = EthAccount { main_cell: None, fund_cells: vec![fund_cell(&a, 100 * CKB, 1)] };
    let (c, d) = (codes(), deps());
    let runner = Runner { tx: &tx, block_number: 1, code_hashes: &c, deps: &d };
    assert_eq!(runner.run_kind(Some(&EthAccount { main_cell: None, fund_cells: vec![] })).unwrap(), RunKind::Transfer);
    let t = runner.send_to_normal_account(&sender).unwrap();
    assert_eq!(t.inputs, vec![CellInput { previous_output: Some(OutPoint { tx_hash: vec![1; 32], index: 0 }), since: 0 }]);
    assert_eq!(t.outputs.len(), 2);
    let mut change_data = vec![1u8];
    change_data.extend_from_slice(&0u64.to_le_bytes());
    assert_eq!(t.outputs[0].capacity, 100 * CKB - 21000 - 70 * CKB);
    assert_eq!(t.outputs[0].data, change_data);
    assert_eq!(t.outputs[0].lock.args, vec![a.clone()]);
    assert_eq!(t.outputs[1].capacity, 70 * CKB);
    assert!(t.outputs[1].data.is_empty());
    assert_eq!(t.outputs[1].lock, Script { code_hash: vec![0x11; 32], args: vec![vec![0xbb; 20]] });
    assert_eq!(t.witnesses, vec![vec![raw]]);
    assert_eq!(t.deps, vec![deps().lock, deps().contract_lock]);
}

#[test]
fn transfer_spends_main_cell_first() {
    let sk = SecretKey::from_slice(&[1u8; 32]).unwrap();
    let a = address_of(&sk);
    let raw = sign(&sk, 4, 0, 0, Some(vec![0xbb; 20]), 62 * CKB as u128 * 10_000_000_000, vec![]);
    let tx = EthTransaction::from_raw(raw.clone()).unwrap();
    let mut main_data = vec![1u8];
    main_data.extend_from_slice(&3u64.to_le_bytes());
    let main = EthCell(
        CellOutput { capacity: 80 * CKB, data: main_data, lock: Script { code_hash: vec![0x11; 32], args: vec![a.clone()] } },
        OutPoint { tx_hash: vec![9; 32], index: 2 },
    );
    let sender = EthAccount { main_cell: Some(main), fund_cells: vec![fund_cell(&a, 10 * CKB, 1), fund_cell(&a, 10 * CKB, 2)] };
    let (c, d) = (codes(), deps());
    let runner = Runner { tx: &tx, block_number: 1, code_hashes: &c, deps: &d };
    let t = runner.send_to_normal_account(&sender).unwrap();
    let points: Vec<OutPoint> = t.inputs.iter().map(|i| i.previous_output.clone().unwrap()).collect();
    assert_eq!(points, vec![
        OutPoint { tx_hash: vec![9; 32], index: 2 },
        OutPoint { tx_hash: vec![1; 32], index: 0 },
        OutPoint { tx_hash: vec![2; 32], index: 0 },
    ]);
    assert_eq!(t.witnesses, vec![vec![raw], vec![], vec![]]);
    assert_eq!(t.outputs[0].capacity, 100 * CKB - 62 * CKB);
    assert_eq!(t.outputs[0].data[1..], 4u64.to_le_bytes()[..]);
}

#[test]
fn insufficient_balance_is_rejected() {
    let sk = SecretKey::from_slice(&[2u8; 32]).unwrap();
    let a = address_of(&sk);
    let raw = sign(&sk, 0, 1, 21000, Some(vec![0xcc; 20]), 100 * CKB as u128 * 10_000_000_000, vec![]);
    let tx = EthTransaction::from_raw(raw).unwrap();
    let sender = EthAccount { main_cell: None, fund_cells: vec![fund_cell(&a, 30 * CKB, 1)] };
    let (c, d) = (codes(), deps());
    let runner = Runner { tx: &tx, block_number: 1, code_hashes: &c, deps: &d };
    let e = runner.send_to_normal_account(&sender).unwrap_err();
    assert_eq!(message(e), "Account capacity is not enough!");
}

#[test]
fn insufficient_balance_with_fifty_shannons_hits_occupied_capacity_first() {
    let sk = SecretKey::from_slice(&[2u8; 32]).unwrap();
    let a = address_of(&sk);
    let raw = sign(&sk, 0, 1, 21000, Some(vec![0xcc; 20]), 50 * 10u128.pow(10), vec![]);
    let tx = EthTransaction::from_raw(raw).unwrap();
    let sender = EthAccount { main_cell: None, fund_cells: vec![fund_cell(&a, 30 * CKB, 1)] };
    let (c, d) = (codes(), deps());
    let runner = Runner { tx: &tx, block_number: 1, code_hashes: &c, deps: &d };
    assert!(matches!(runner.send_to_normal_account(&sender), Err(Error::MalformedData(_))));
}

#[test]
fn empty_sender_cannot_pay() {
    let sk = SecretKey::from_slice(&[2u8; 32]).unwrap();
    let raw = sign(&sk, 0, 0, 0, Some(vec![0xcc; 20]), 0, vec![]);
    let tx = EthTransaction::from_raw(raw).unwrap();
    let sender = EthAccount { main_cell: None, fund_cells: vec![] };
    let (c, d) = (codes(), deps());
    let runner = Runner { tx: &tx, block_number: 1, code_hashes: &c, deps: &d };
    assert!(matches!(runner.send_to_normal_account(&sender), Err(Error::MalformedData(_))));
}

#[test]
fn deploy_creates_contract_main_cell() {
    let sk = SecretKey::from_slice(&[3u8; 32]).unwrap();
    let a = address_of(&sk);
    let init = vec![0x60, 0x01, 0x60, 0x00];
    let raw = sign(&sk, 0, 0, 0, None, 200 * CKB as u128 * 10_000_000_000, init.clone());
    let tx = EthTransaction::from_raw(raw).unwrap();
    let (c, d) = (codes(), deps());
    let runner = Runner { tx: &tx, block_number: 1, code_hashes: &c, deps: &d };
    assert_eq!(runner.run_kind(None).unwrap(), RunKind::Create);
    let runtime = vec![0xfe, 0xed];
    let returned = evm_return_data(EvmOutcome::NeedsReturn { data: runtime.clone(), apply_state: true }).unwrap();
    let code = initialized_code(returned).unwrap();
    assert_eq!(code, runtime);
    // The state {code: runtime, storage: {}} as the store serializes it.
    let mut state = (code.len() as u64).to_le_bytes().to_vec();
    state.extend_from_slice(&code);
    state.extend_from_slice(&0u64.to_le_bytes());
    let sender = EthAccount { main_cell: None, fund_cells: vec![fund_cell(&a, 1000 * CKB, 1)] };
    let t = runner.run(None, &sender, Some(&state)).unwrap();
    let mut expected_data = vec![2u8];
    expected_data.extend_from_slice(&state);
    assert_eq!(t.outputs[1].data, expected_data);
    let mut stream = rlp::RlpStream::new_list(2);
    stream.append(&a).append(&0u64);
    let address = keccak(&stream.out())[12..].to_vec();
    assert_eq!(t.outputs[1].lock, Script { code_hash: vec![0x22; 32], args: vec![address] });
    assert_eq!(t.outputs[1].capacity, 200 * CKB);
}

#[test]
fn evm_outcomes() {
    assert!(matches!(evm_return_data(EvmOutcome::NeedsReturn { data: vec![1], apply_state: false }),
        Err(Error::EVM(m)) if m == "Reverted!"));
    assert!(matches!(evm_return_data(EvmOutcome::Trapped), Err(Error::EVM(m)) if m == "Trap is not yet supported"));
    assert_eq!(evm_return_data(EvmOutcome::Known).unwrap(), None);
    assert!(matches!(initialized_code(None), Err(Error::EVM(m)) if m == "Reverted!"));
}

#[test]
fn call_spends_contract_main_cell_last() {
    let sk = SecretKey::from_slice(&[4u8; 32]).unwrap();
    let a = address_of(&sk);
    let contract = vec![0xcc; 20];
    let raw = sign(&sk, 1, 0, 0, Some(contract.clone()), 0, vec![0x12]);
    let tx = EthTransaction::from_raw(raw.clone()).unwrap();
    let contract_account = EthAccount {
        main_cell: Some(EthCell(
            CellOutput { capacity: 300 * CKB, data: vec![2, 0, 0], lock: Script { code_hash: vec![0x22; 32], args: vec![contract.clone()] } },
            OutPoint { tx_hash: vec![0x77; 32], index: 1 },
        )),
        fund_cells: vec![],
    };
    let sender = EthAccount { main_cell: None, fund_cells: vec![fund_cell(&a, 10 * CKB, 1)] };
    let (c, d) = (codes(), deps());
    let runner = Runner { tx: &tx, block_number: 1, code_hashes: &c, deps: &d };
    assert_eq!(runner.run_kind(Some(&contract_account)).unwrap(), RunKind::Call);
    let state = vec![9u8, 9];
    let t = runner.run(Some(&contract_account), &sender, Some(&state)).unwrap();
    assert_eq!(t.inputs.len(), 2);
    assert_eq!(t.inputs[1].previous_output, Some(OutPoint { tx_hash: vec![0x77; 32], index: 1 }));
    assert_eq!(t.witnesses, vec![vec![raw], vec![]]);
    assert_eq!(t.outputs[1].capacity, 300 * CKB);
    assert_eq!(t.outputs[1].data, vec![2, 9, 9]);
    assert_eq!(t.outputs[1].lock.args, vec![contract]);
}

fn apply(store: &mut BTreeMap<Vec<u8>, KvValue>, ops: Vec<WriteOp>) {
    for op in ops {
        match op {
            WriteOp::Put(k, v) => {
                store.insert(k, v);
            }
            WriteOp::Delete(k) => {
                store.remove(&k);
            }
            WriteOp::DeleteRange(lo, hi) => {
                if lo < hi {
                    let doomed: Vec<Vec<u8>> = store.range(lo..hi).map(|(k, _)| k.clone()).collect();
                    for k in doomed {
                        store.remove(&k);
                    }
                }
            }
        }
    }
}

/// A block whose one transaction carries `raw` in its first witness and
/// creates a cell for `owner` under the normal lock, spending `spent`.
fn block_with(hash: u8, raw: &[u8], owner: &[u8], spent: Option<OutPoint>) -> Block {
    let tx = Transaction {
        deps: vec![],
        inputs: vec![CellInput { previous_output: spent, since: 0 }],
        outputs: vec![CellOutput { capacity: 100 * CKB, data: vec![], lock: Script { code_hash: vec![0x11; 32], args: vec![owner.to_vec()] } }],
        witnesses: vec![vec![raw.to_vec()]],
    };
    Block { hash: vec![hash; 32], transactions: vec![BlockTransaction { hash: vec![hash ^ 0x80; 32], transaction: tx }] }
}

fn ingest(store: &mut BTreeMap<Vec<u8>, KvValue>, height: u64, block: &Block) {
    let owners: Vec<Vec<Option<Vec<u8>>>> = block
        .transactions
        .iter()
        .map(|t| {
            t.transaction
                .inputs
                .iter()
                .map(|i| match &i.previous_output {
                    Some(p) => match store.get(&build_out_point_key(p)) {
                        Some(KvValue::Address(a)) => Some(a.clone()),
                        _ => None,
                    },
                    None => None,
                })
                .collect()
        })
        .collect();
    let diffs = block_diffs(block, &owners, &codes());
    let snapshots: Vec<Vec<OutPoint>> = diffs
        .iter()
        .map(|d| {
            let prefix = build_eth_key(&d.address, None);
            let entries: Vec<(Vec<u8>, Vec<OutPoint>)> = store
                .iter()
                .filter(|(k, _)| k.starts_with(&prefix))
                .filter_map(|(k, v)| match v {
                    KvValue::OutPoints(p) => Some((k.clone(), p.clone())),
                    _ => None,
                })
                .collect();
            load_latest_out_points(&d.address, height - 1, entries)
        })
        .collect();
    let receipts = block_receipts(block, height, &vec![0x11; 32]).unwrap();
    apply(store, ingest_batch(height, &block.hash, &diffs, &snapshots, receipts));
}

fn revert(store: &mut BTreeMap<Vec<u8>, KvValue>, height: u64) {
    let hashes = match store.get(&build_block_receipt_hashes_key(height)) {
        Some(KvValue::Hashes(h)) => Some(h.clone()),
        _ => None,
    };
    let added = match store.get(&build_block_added_out_points_key(height)) {
        Some(KvValue::OutPoints(a)) => Some(a.clone()),
        _ => None,
    };
    let owners: Vec<Option<Vec<u8>>> = added
        .iter()
        .flatten()
        .map(|p| match store.get(&build_out_point_key(p)) {
            Some(KvValue::Address(a)) => Some(a.clone()),
            _ => None,
        })
        .collect();
    let spent = match store.get(&build_block_spent_out_points_key(height)) {
        Some(KvValue::Spent(s)) => Some(s.clone()),
        _ => None,
    };
    let previous = match store.get(&build_block_hash_key(height - 1)) {
        Some(KvValue::BlockHash(h)) => Some(h.clone()),
        _ => None,
    };
    apply(store, revert_batch(height, hashes, added, owners, spent, previous).unwrap());
}

#[test]
fn reorg_replaces_block_and_leaves_no_stale_keys() {
    let sk = SecretKey::from_slice(&[5u8; 32]).unwrap();
    let raw_old = sign(&sk, 0, 2, 3, Some(vec![0xaa; 20]), 0, vec![]);
    let raw_new = sign(&sk, 0, 5, 7, Some(vec![0xab; 20]), 0, vec![]);
    let owner = vec![0x42u8; 20];
    let mut store: BTreeMap<Vec<u8>, KvValue> = BTreeMap::new();
    store.insert(build_block_key(), KvValue::Tip(4, vec![4; 32]));
    store.insert(build_block_hash_key(4), KvValue::BlockHash(vec![4; 32]));

    let h5 = block_with(5, &raw_old, &owner, None);
    assert_eq!(next_step(4, &vec![4; 32], Some(&vec![4; 32])), IndexStep::Advance(5));
    ingest(&mut store, 5, &h5);
    assert_eq!(store.get(&build_block_key()), Some(&KvValue::Tip(5, vec![5; 32])));
    let old_hash = keccak(&raw_old);
    assert!(store.contains_key(&build_receipt_key(&old_hash)));
    let old_point = OutPoint { tx_hash: vec![5 ^ 0x80; 32], index: 0 };
    assert!(store.contains_key(&build_out_point_key(&old_point)));

    // The base chain now has another block at height 5.
    let h5_new = block_with(6, &raw_new, &owner, None);
    assert_eq!(next_step(5, &vec![5; 32], Some(&h5_new.hash)), IndexStep::Revert(5));
    revert(&mut store, 5);
    assert_eq!(store.get(&build_block_key()), Some(&KvValue::Tip(4, vec![4; 32])));
    assert!(!store.contains_key(&build_block_hash_key(5)));
    assert!(!store.contains_key(&build_eth_key(&owner, Some(5))));
    assert_eq!(next_step(4, &vec![4; 32], Some(&vec![4; 32])), IndexStep::Advance(5));
    ingest(&mut store, 5, &h5_new);

    assert_eq!(store.get(&build_block_key()), Some(&KvValue::Tip(5, vec![6; 32])));
    assert!(!store.contains_key(&build_receipt_key(&old_hash)));
    assert!(!store.contains_key(&build_out_point_key(&old_point)));
    assert!(store.contains_key(&build_receipt_key(&keccak(&raw_new))));
    let new_point = OutPoint { tx_hash: vec![6 ^ 0x80; 32], index: 0 };
    assert_eq!(store.get(&build_out_point_key(&new_point)), Some(&KvValue::Address(owner.clone())));
    assert_eq!(store.get(&build_eth_key(&owner, Some(5))), Some(&KvValue::OutPoints(vec![new_point])));
}

#[test]
fn revert_of_first_block_removes_tip() {
    let mut store: BTreeMap<Vec<u8>, KvValue> = BTreeMap::new();
    let sk = SecretKey::from_slice(&[5u8; 32]).unwrap();
    let raw = sign(&sk, 0, 1, 1, Some(vec![0xaa; 20]), 0, vec![]);
    ingest(&mut store, 1, &block_with(1, &raw, &[0x42; 20], None));
    revert(&mut store, 1);
    assert!(store.is_empty(), "left behind: {:?}", store.keys().collect::<Vec<_>>());
}

#[test]
fn revert_with_missing_summary_is_corrupt() {
    let r = revert_batch(3, None, Some(vec![]), vec![], Some(vec![]), Some(vec![2; 32]));
    assert!(matches!(r, Err(Error::MalformedData(_))));
    let r = revert_batch(3, Some(vec![]), Some(vec![]), vec![], Some(vec![]), None);
    assert!(matches!(r, Err(Error::MalformedData(_))));
    let r = revert_batch(3, Some(vec![]), Some(vec![OutPoint { tx_hash: vec![1; 32], index: 0 }]), vec![None], Some(vec![]), Some(vec![2; 32]));
    assert!(matches!(r, Err(Error::MalformedData(_))));
}

#[test]
fn spending_moves_out_point_out_of_snapshot() {
    let sk = SecretKey::from_slice(&[6u8; 32]).unwrap();
    let raw = sign(&sk, 0, 1, 1, Some(vec![0xaa; 20]), 0, vec![]);
    let alice = vec![0x0a; 20];
    let bob = vec![0x0b; 20];
    let mut store: BTreeMap<Vec<u8>, KvValue> = BTreeMap::new();
    ingest(&mut store, 1, &block_with(1, &raw, &alice, None));
    let first = OutPoint { tx_hash: vec![1 ^ 0x80; 32], index: 0 };
    ingest(&mut store, 2, &block_with(2, &raw, &bob, Some(first.clone())));
    assert_eq!(store.get(&build_eth_key(&alice, Some(2))), Some(&KvValue::OutPoints(vec![])));
    assert_eq!(store.get(&build_eth_key(&alice, Some(1))), Some(&KvValue::OutPoints(vec![first.clone()])));
    // The owner entry of a spent out point goes, and a revert brings it back.
    assert!(!store.contains_key(&build_out_point_key(&first)));
    revert(&mut store, 2);
    assert_eq!(store.get(&build_out_point_key(&first)), Some(&KvValue::Address(alice.clone())));
    assert!(!store.contains_key(&build_eth_key(&alice, Some(2))));
    assert!(!store.contains_key(&build_eth_key(&bob, Some(2))));
}

#[test]
fn reingest_after_revert_matches_direct_ingest() {
    let sk = SecretKey::from_slice(&[5u8; 32]).unwrap();
    let raw_old = sign(&sk, 0, 2, 3, Some(vec![0xaa; 20]), 0, vec![]);
    let raw_new = sign(&sk, 1, 5, 7, Some(vec![0xab; 20]), 0, vec![]);
    let mut base: BTreeMap<Vec<u8>, KvValue> = BTreeMap::new();
    base.insert(build_block_key(), KvValue::Tip(6, vec![6; 32]));
    base.insert(build_block_hash_key(6), KvValue::BlockHash(vec![6; 32]));
    let old_block = block_with(7, &raw_old, &[0x42; 20], None);
    let new_block = block_with(8, &raw_new, &[0x43; 20], None);
    let mut direct = base.clone();
    ingest(&mut direct, 7, &new_block);
    let mut store = base.clone();
    ingest(&mut store, 7, &old_block);
    revert(&mut store, 7);
    assert_eq!(store, base);
    ingest(&mut store, 7, &new_block);
    assert_eq!(store, direct);
}

#[test]
fn change_cell_records_transaction_nonce() {
    let sk = SecretKey::from_slice(&[1u8; 32]).unwrap();
    let a = address_of(&sk);
    let raw = sign(&sk, 6, 0, 0, Some(vec![0xbb; 20]), 62 * CKB as u128 * 10_000_000_000, vec![]);
    let tx = EthTransaction::from_raw(raw).unwrap();
    let mut main_data = vec![1u8];
    main_data.extend_from_slice(&5u64.to_le_bytes());
    let main = EthCell(
        CellOutput { capacity: 100 * CKB, data: main_data, lock: Script { code_hash: vec![0x11; 32], args: vec![a.clone()] } },
        OutPoint { tx_hash: vec![9; 32], index: 0 },
    );
    let sender = EthAccount { main_cell: Some(main), fund_cells: vec![] };
    assert_eq!(sender.next_nonce().unwrap(), u256(6));
    let (c, d) = (codes(), deps());
    let runner = Runner { tx: &tx, block_number: 1, code_hashes: &c, deps: &d };
    let t = runner.send_to_normal_account(&sender).unwrap();
    let after = EthAccount {
        main_cell: Some(EthCell(t.outputs[0].clone(), OutPoint { tx_hash: vec![0x55; 32], index: 0 })),
        fund_cells: vec![],
    };
    assert_eq!(after.next_nonce().unwrap(), u256(7));
}

#[test]
fn receipts_number_transactions_and_sum_fees() {
    let sk = SecretKey::from_slice(&[7u8; 32]).unwrap();
    let raw1 = sign(&sk, 0, 2, 10, Some(vec![0xaa; 20]), 0, vec![]);
    let raw2 = sign(&sk, 1, 3, 10, Some(vec![0xaa; 20]), 0, vec![]);
    let tx = Transaction {
        deps: vec![],
        inputs: vec![],
        outputs: vec![CellOutput { capacity: 1, data: vec![], lock: Script { code_hash: vec![0x11; 32], args: vec![] } }],
        witnesses: vec![vec![raw1.clone()], vec![vec![0xde, 0xad]], vec![], vec![raw2.clone()]],
    };
    let block = Block { hash: vec![1; 32], transactions: vec![BlockTransaction { hash: vec![0xee; 32], transaction: tx }] };
    let rs = block_receipts(&block, 8, &vec![0x11; 32]).unwrap();
    assert_eq!(rs.len(), 2);
    assert_eq!(rs[0].0, keccak(&raw1));
    assert_eq!(rs[0].1.transaction_index, 1);
    assert_eq!(rs[0].1.cumulative_gas, u256(20));
    assert_eq!(rs[0].1.witness_index, 0);
    assert_eq!(rs[1].1.transaction_index, 2);
    assert_eq!(rs[1].1.cumulative_gas, u256(50));
    assert_eq!(rs[1].1.witness_index, 3);
    assert_eq!(rs[1].1.block_number, 8);
    assert_eq!(rs[1].1.ckb_transaction_hash, vec![0xee; 32]);
}

#[test]
fn witnesses_outside_lock_transactions_are_ignored() {
    let sk = SecretKey::from_slice(&[7u8; 32]).unwrap();
    let raw = sign(&sk, 0, 2, 10, Some(vec![0xaa; 20]), 0, vec![]);
    let tx = Transaction {
        deps: vec![],
        inputs: vec![],
        outputs: vec![CellOutput { capacity: 1, data: vec![], lock: Script { code_hash: vec![0x33; 32], args: vec![] } }],
        witnesses: vec![vec![raw]],
    };
    let block = Block { hash: vec![1; 32], transactions: vec![BlockTransaction { hash: vec![0xee; 32], transaction: tx }] };
    assert!(block_receipts(&block, 1, &vec![0x11; 32]).unwrap().is_empty());
}

#[test]
fn receipt_appears_once_committed() {
    let sk = SecretKey::from_slice(&[8u8; 32]).unwrap();
    let raw = sign(&sk, 0, 3, 7, None, 0, vec![0x60]);
    let contract = vec![0x99; 20];
    let tx = Transaction {
        deps: vec![],
        inputs: vec![],
        outputs: vec![
            CellOutput { capacity: 1, data: vec![1], lock: Script { code_hash: vec![0x11; 32], args: vec![vec![0x01; 20]] } },
            CellOutput { capacity: 1, data: vec![2], lock: Script { code_hash: vec![0x22; 32], args: vec![contract.clone()] } },
        ],
        witnesses: vec![vec![raw.clone()]],
    };
    let block = Block { hash: vec![3; 32], transactions: vec![BlockTransaction { hash: vec![0xef; 32], transaction: tx }] };
    let rs = block_receipts(&block, 4, &vec![0x11; 32]).unwrap();
    let basic = &rs[0].1;
    let btx = &block.transactions[0];
    assert!(receipt_when_committed(Some(basic), Some(btx), None, &vec![0x22; 32]).unwrap().is_none());
    assert!(receipt_when_committed(None, Some(btx), Some(&vec![3; 32]), &vec![0x22; 32]).unwrap().is_none());
    let rec = receipt_when_committed(Some(basic), Some(btx), Some(&vec![3; 32]), &vec![0x22; 32]).unwrap().unwrap();
    assert!(rec.transaction_index.le_bytes[0] >= 1);
    assert_eq!(rec.cumulative_gas_used, u256(21));
    assert_eq!(rec.gas_used, u256(21));
    assert_eq!(rec.contract_address, Some(contract));
    assert_eq!(rec.from, address_of(&sk));
    assert_eq!(rec.to, None);
    assert_eq!(rec.block_number, u256(4));
    assert_eq!(rec.status, u256(1));
    assert_eq!(rec.transaction_hash, vec![0xef; 32]);
}

#[test]
fn revert_deletes_snapshots_exactly_at_low_byte_255() {
    let p = OutPoint { tx_hash: vec![1; 32], index: 0 };
    let owner = vec![0x42u8; 20];
    let spender = vec![0x43u8; 20];
    let spent = vec![OwnedOutPoint { owner: spender.clone(), out_point: OutPoint { tx_hash: vec![2; 32], index: 1 } }];
    let ops = revert_batch(255, Some(vec![]), Some(vec![p]), vec![Some(owner.clone())], Some(spent), Some(vec![2; 32])).unwrap();
    assert!(ops.iter().any(|o| *o == WriteOp::Delete(build_eth_key(&owner, Some(255)))));
    assert!(ops.iter().any(|o| *o == WriteOp::Delete(build_eth_key(&spender, Some(255)))));
    assert!(ops.iter().any(|o| *o == WriteOp::Put(
        build_out_point_key(&OutPoint { tx_hash: vec![2; 32], index: 1 }),
        KvValue::Address(spender.clone()),
    )));
    assert!(!ops.iter().any(|o| matches!(o, WriteOp::DeleteRange(_, _))));
}

#[test]
fn spend_only_address_loses_snapshot_on_revert() {
    let sk = SecretKey::from_slice(&[6u8; 32]).unwrap();
    let raw = sign(&sk, 0, 1, 1, Some(vec![0xaa; 20]), 0, vec![]);
    let alice = vec![0x0a; 20];
    let mut store: BTreeMap<Vec<u8>, KvValue> = BTreeMap::new();
    ingest(&mut store, 1, &block_with(1, &raw, &alice, None));
    let base = store.clone();
    let first = OutPoint { tx_hash: vec![1 ^ 0x80; 32], index: 0 };
    // Block 2 spends alice's cell and pays a cell under a lock the index does not follow.
    let mut b = block_with(2, &raw, &alice, Some(first));
    b.transactions[0].transaction.outputs[0].lock.code_hash = vec![0x99; 32];
    ingest(&mut store, 2, &b);
    assert_eq!(store.get(&build_eth_key(&alice, Some(2))), Some(&KvValue::OutPoints(vec![])));
    revert(&mut store, 2);
    assert_eq!(store, base);
}

#[test]
fn call_receipt_names_no_contract() {
    let sk = SecretKey::from_slice(&[8u8; 32]).unwrap();
    let contract = vec![0x99; 20];
    let raw = sign(&sk, 0, 3, 7, Some(contract.clone()), 0, vec![0x01]);
    let tx = Transaction {
        deps: vec![],
        inputs: vec![],
        outputs: vec![
            CellOutput { capacity: 1, data: vec![1], lock: Script { code_hash: vec![0x11; 32], args: vec![vec![0x01; 20]] } },
            CellOutput { capacity: 1, data: vec![2], lock: Script { code_hash: vec![0x22; 32], args: vec![contract.clone()] } },
        ],
        witnesses: vec![vec![raw]],
    };
    let block = Block { hash: vec![3; 32], transactions: vec![BlockTransaction { hash: vec![0xef; 32], transaction: tx }] };
    let rs = block_receipts(&block, 4, &vec![0x11; 32]).unwrap();
    let rec = receipt_when_committed(Some(&rs[0].1), Some(&block.transactions[0]), Some(&vec![3; 32]), &vec![0x22; 32])
        .unwrap()
        .unwrap();
    assert_eq!(rec.contract_address, None);
    assert_eq!(rec.to, Some(contract));
    assert_eq!(rec.transaction_index, u256(1));
    assert_eq!(rec.cumulative_gas_used, u256(21));
}

#[test]
fn creation_without_data_is_malformed() {
    let sk = SecretKey::from_slice(&[3u8; 32]).unwrap();
    let a = address_of(&sk);
    let raw = sign(&sk, 0, 0, 0, None, 200 * CKB as u128 * 10_000_000_000, vec![]);
    let tx = EthTransaction::from_raw(raw).unwrap();
    assert!(tx.data.is_none());
    let (c, d) = (codes(), deps());
    let runner = Runner { tx: &tx, block_number: 1, code_hashes: &c, deps: &d };
    let sender = EthAccount { main_cell: None, fund_cells: vec![fund_cell(&a, 1000 * CKB, 1)] };
    let e = runner.create_contract(&sender, &vec![]).unwrap_err();
    assert_eq!(message(e), "Contract creation transaction is missing data!");
}

#[test]
fn evm_call_uses_fees_as_gas() {
    let sk = SecretKey::from_slice(&[3u8; 32]).unwrap();
    let raw = sign(&sk, 0, 3, 7, Some(vec![0xcc; 20]), 9, vec![0x42]);
    let tx = EthTransaction::from_raw(raw).unwrap();
    let contract = polyjuice::address::EthAddress(vec![0xcc; 20]);
    let call = polyjuice::runner::evm_call(&tx, &contract).unwrap();
    assert_eq!(call.gas, u256(21));
    assert_eq!(call.gas_price, u256(3));
    assert_eq!(call.value, u256(9));
    assert_eq!(call.sender, tx.from);
    assert_eq!(call.origin, tx.from);
    assert_eq!(call.address, contract);
    assert_eq!(call.code_address, contract);
    assert_eq!(call.data, Some(vec![0x42]));
}
