use polyjuice::address::BlockNumber;
use polyjuice::chain::{CellOutput, OutPoint, Script, Transaction};
use polyjuice::error::Error;
use polyjuice::keys::{build_block_hash_key, build_block_key, build_eth_key, build_out_point_key, build_receipt_key, build_block_added_out_points_key, build_block_receipt_hashes_key, build_block_spent_out_points_key};
use polyjuice::loader::{LockKind, check_lock_cell, load_latest_out_points, load_lock_out_point, resolve_block_number, resolve_cell, tip_block_number, CellStatus};

fn output(capacity: u64) -> CellOutput {
    CellOutput { capacity, data: vec![], lock: Script { code_hash: vec![1; 32], args: vec![] } }
}

#[test]
fn keys_have_documented_layout() {
    assert_eq!(build_block_key(), b"block".to_vec());
    let mut e = b"e:".to_vec();
    e.extend_from_slice(&[0xaa; 20]);
    e.push(b':');
    assert_eq!(build_eth_key(&vec![0xaa; 20], None), e);
    e.extend_from_slice(&258u64.to_le_bytes());
    assert_eq!(build_eth_key(&vec![0xaa; 20], Some(258)), e);
    let mut h = b"b:".to_vec();
    h.extend_from_slice(&5u64.to_le_bytes());
    h.extend_from_slice(b":h");
    assert_eq!(build_block_hash_key(5), h);
    assert_eq!(build_block_receipt_hashes_key(5)[11], b'r');
    assert_eq!(build_block_spent_out_points_key(5)[11], b's');
    assert_eq!(build_block_added_out_points_key(5)[11], b'a');
    assert_eq!(build_receipt_key(&vec![7; 32])[..2], b"r:"[..]);
    let p = OutPoint { tx_hash: vec![3; 32], index: 1 };
    let mut o = b"o:".to_vec();
    o.extend_from_slice(&32u64.to_le_bytes());
    o.extend_from_slice(&[3; 32]);
    o.extend_from_slice(&1u64.to_le_bytes());
    assert_eq!(build_out_point_key(&p), o);
}

#[test]
fn tip_and_block_resolution() {
    assert_eq!(tip_block_number(None), 0);
    assert_eq!(tip_block_number(Some((12, vec![1]))), 12);
    assert_eq!(resolve_block_number(BlockNumber::Latest, 12), 12);
    assert_eq!(resolve_block_number(BlockNumber::Number(3), 12), 3);
}

#[test]
fn snapshot_lookup_takes_greatest_height_not_above() {
    let a = vec![0xaa; 20];
    let p = |i: u64| OutPoint { tx_hash: vec![1; 32], index: i };
    let entries = vec![
        (build_eth_key(&a, Some(1)), vec![p(1)]),
        (build_eth_key(&a, Some(256)), vec![p(256)]),
        (build_eth_key(&a, Some(300)), vec![p(300)]),
        (build_eth_key(&vec![0xab; 20], Some(299)), vec![p(9)]),
    ];
    assert_eq!(load_latest_out_points(&a, 299, entries.clone()), vec![p(256)]);
    assert_eq!(load_latest_out_points(&a, 255, entries.clone()), vec![p(1)]);
    assert_eq!(load_latest_out_points(&a, 300, entries.clone()), vec![p(300)]);
    assert!(load_latest_out_points(&a, 0, entries).is_empty());
    assert!(load_latest_out_points(&a, 5, vec![]).is_empty());
}

#[test]
fn live_cells_are_taken_spent_ones_only_with_history() {
    let p = OutPoint { tx_hash: vec![1; 32], index: 1 };
    let live = resolve_cell(&p, CellStatus::Live(output(5)), false, None).unwrap();
    assert_eq!(live.0.capacity, 5);
    assert_eq!(live.1, OutPoint { tx_hash: vec![1; 32], index: 1 });
    let creating = Transaction { deps: vec![], inputs: vec![], outputs: vec![output(1), output(2)], witnesses: vec![] };
    let old = resolve_cell(&p, CellStatus::Dead, true, Some(&creating)).unwrap();
    assert_eq!(old.0.capacity, 2);
    assert!(matches!(resolve_cell(&p, CellStatus::Dead, false, Some(&creating)), Err(Error::InvalidOutPoint)));
    assert!(matches!(resolve_cell(&p, CellStatus::Dead, true, None), Err(Error::InvalidOutPoint)));
    assert!(matches!(resolve_cell(&p, CellStatus::Unknown, true, Some(&creating)), Err(Error::InvalidOutPoint)));
    let short = Transaction { deps: vec![], inputs: vec![], outputs: vec![output(1)], witnesses: vec![] };
    assert!(matches!(resolve_cell(&p, CellStatus::Dead, true, Some(&short)), Err(Error::InvalidOutPoint)));
}

#[test]
fn lock_cells_must_exist_and_match() {
    let data = vec![1u8, 2, 3];
    let hash = ckb_hash::blake2b_256(&data).to_vec();
    assert!(check_lock_cell(LockKind::Normal, Some(&data), &hash).is_ok());
    assert!(matches!(check_lock_cell(LockKind::Normal, Some(&data), &vec![0; 32]),
        Err(Error::MalformedData(m)) if m == "Lock data hash does not match!"));
    assert!(matches!(check_lock_cell(LockKind::Contract, Some(&data), &vec![0; 32]),
        Err(Error::MalformedData(m)) if m == "Contract lock data hash does not match!"));
    assert!(matches!(check_lock_cell(LockKind::Normal, None, &hash), Err(Error::MalformedData(m)) if m == "Lock cell is missing!"));
    assert!(matches!(check_lock_cell(LockKind::Contract, None, &hash),
        Err(Error::MalformedData(m)) if m == "Contract lock cell is missing!"));
    assert!(matches!(load_lock_out_point(None), Err(Error::MalformedData(_))));
    let p = OutPoint { tx_hash: vec![4; 32], index: 0 };
    assert_eq!(load_lock_out_point(Some(&p)).unwrap(), p);
}
