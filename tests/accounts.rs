use polyjuice::account::{account_from_cells, CellType, EthAccount, EthCell};
use polyjuice::chain::{CellOutput, OutPoint, Script};
use polyjuice::error::Error;
use polyjuice::num::U256;
use polyjuice::storage::EthContractData;

fn u256(v: u128) -> U256 {
    let mut le_bytes = [0u8; 32];
    le_bytes[..16].copy_from_slice(&v.to_le_bytes());
    U256 { le_bytes }
}

fn cell(capacity: u64, data: Vec<u8>, index: u64) -> EthCell {
    EthCell(
        CellOutput { capacity, data, lock: Script { code_hash: vec![1; 32], args: vec![vec![0xaa; 20]] } },
        OutPoint { tx_hash: vec![index as u8; 32], index },
    )
}

fn main_data(tag: u8, nonce: u64) -> Vec<u8> {
    let mut d = vec![tag];
    d.extend_from_slice(&nonce.to_le_bytes());
    d
}

#[test]
fn cell_type_from_tag() {
    assert_eq!(CellType::try_from(1).unwrap(), CellType::NormalMainCell);
    assert_eq!(CellType::try_from(2).unwrap(), CellType::ContractMainCell);
    assert!(matches!(CellType::try_from(3), Err(Error::MalformedData(_))));
    assert_eq!(CellType::ContractMainCell.tag(), 2);
}

#[test]
fn cells_split_into_main_and_fund() {
    let acct = account_from_cells(vec![cell(5, vec![], 0), cell(7, main_data(1, 3), 1), cell(9, vec![], 2)]).unwrap();
    assert_eq!(acct.main_cell.as_ref().unwrap().0.capacity, 7);
    assert_eq!(acct.fund_cells.len(), 2);
    assert_eq!(acct.fund_cells[0].0.capacity, 5);
    assert_eq!(acct.fund_cells[1].0.capacity, 9);
    assert_eq!(acct.total_capacities().unwrap(), 21);
}

#[test]
fn two_main_cells_are_corrupt() {
    let r = account_from_cells(vec![cell(1, main_data(1, 0), 0), cell(1, main_data(1, 1), 1)]);
    assert!(matches!(r, Err(Error::MalformedData(_))));
}

#[test]
fn empty_account_has_nothing() {
    let acct = account_from_cells(vec![]).unwrap();
    assert!(acct.main_cell.is_none());
    assert_eq!(acct.next_nonce().unwrap(), u256(0));
    assert_eq!(acct.total_capacities().unwrap(), 0);
    assert!(!acct.contract_account().unwrap());
}

#[test]
fn next_nonce_is_stored_plus_one() {
    let acct = EthAccount { main_cell: Some(cell(1, main_data(1, 41), 0)), fund_cells: vec![] };
    assert_eq!(acct.next_nonce().unwrap(), u256(42));
    let max = EthAccount { main_cell: Some(cell(1, main_data(1, u64::MAX), 0)), fund_cells: vec![] };
    assert_eq!(max.next_nonce().unwrap(), u256(u64::MAX as u128 + 1));
}

#[test]
fn short_main_cell_has_no_nonce() {
    let acct = EthAccount { main_cell: Some(cell(1, vec![1, 2, 3], 0)), fund_cells: vec![] };
    assert!(matches!(acct.next_nonce(), Err(Error::MalformedData(_))));
}

#[test]
fn contract_account_by_tag() {
    let c = EthAccount { main_cell: Some(cell(1, vec![2, 9, 9], 0)), fund_cells: vec![] };
    assert!(c.contract_account().unwrap());
    assert_eq!(c.contract_data().unwrap(), vec![9, 9]);
    let n = EthAccount { main_cell: Some(cell(1, main_data(1, 0), 0)), fund_cells: vec![] };
    assert!(!n.contract_account().unwrap());
    let bad = EthAccount { main_cell: Some(cell(1, vec![7], 0)), fund_cells: vec![] };
    assert!(matches!(bad.contract_account(), Err(Error::MalformedData(_))));
    let none = EthAccount { main_cell: None, fund_cells: vec![] };
    assert!(matches!(none.contract_data(), Err(Error::MalformedData(_))));
}

#[test]
fn capacity_overflow_is_malformed() {
    let acct = EthAccount { main_cell: Some(cell(u64::MAX, main_data(1, 0), 0)), fund_cells: vec![cell(1, vec![], 1)] };
    assert!(matches!(acct.total_capacities(), Err(Error::MalformedData(_))));
}

#[test]
fn balance_in_wei() {
    let acct = EthAccount { main_cell: None, fund_cells: vec![cell(100_0000_0000, vec![], 0), cell(5, vec![], 1)] };
    assert_eq!(acct.total_capacities_in_wei().unwrap(), u256(100_0000_0005u128 * 10_000_000_000));
}

#[test]
fn storage_write_then_read() {
    let mut s = EthContractData::new(vec![0x60]);
    assert_eq!(s.storage_at(&u256(7)), u256(0));
    s.set_storage(u256(7), u256(0xabcd));
    assert_eq!(s.storage_at(&u256(7)), u256(0xabcd));
    let mut expected = vec![0u8; 30];
    expected.extend_from_slice(&[0xab, 0xcd]);
    assert_eq!(s.storage_at(&u256(7)).to_be_bytes(), expected);
    s.set_storage(u256(7), u256(1));
    s.set_storage(u256(8), u256(2));
    assert_eq!(s.storage_at(&u256(7)), u256(1));
    assert_eq!(s.storage_at(&u256(8)), u256(2));
    assert_eq!(s.entries.len(), 2);
}

#[test]
fn account_errors_carry_their_messages() {
    let short = EthAccount { main_cell: Some(cell(1, vec![1, 2, 3], 0)), fund_cells: vec![] };
    assert!(matches!(short.next_nonce(), Err(Error::MalformedData(m)) if m == "Invalid main cell"));
    let big = EthAccount { main_cell: Some(cell(u64::MAX, main_data(1, 0), 0)), fund_cells: vec![cell(1, vec![], 1)] };
    assert!(matches!(big.total_capacities(), Err(Error::MalformedData(m)) if m == "Capacity overflow"));
    assert!(matches!(big.total_capacities_in_wei(), Err(Error::MalformedData(m)) if m == "Capacity overflow"));
    let two = account_from_cells(vec![cell(1, main_data(1, 0), 0), cell(1, main_data(1, 1), 1)]);
    assert!(matches!(two, Err(Error::MalformedData(m)) if m == "Invalid account cells"));
}
