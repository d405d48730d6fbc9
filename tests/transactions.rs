use polyjuice::address::EthAddress;
use polyjuice::error::Error;
use polyjuice::num::U256;
use polyjuice::runner::contract_address;
use polyjuice::transaction::{calculate_sig_recovery, EthTransaction, TransactionCall};
use polyjuice::web3::Web3RpcImpl;
use secp256k1::recovery::RecoveryId;
use secp256k1::{Message, PublicKey, Secp256k1, SecretKey};

fn keccak(data: &[u8]) -> Vec<u8> {
    tiny_keccak::keccak256(data).to_vec()
}

fn u256(v: u128) -> U256 {
    let mut le_bytes = [0u8; 32];
    le_bytes[..16].copy_from_slice(&v.to_le_bytes());
    U256 { le_bytes }
}

fn minimal_be(v: u128) -> Vec<u8> {
    let b = v.to_be_bytes();
    let first = b.iter().position(|x| *x != 0).unwrap_or(16);
    b[first..].to_vec()
}

fn address_of(sk: &SecretKey) -> Vec<u8> {
    let secp = Secp256k1::new();
    let pk = PublicKey::from_secret_key(&secp, sk);
    keccak(&pk.serialize_uncompressed()[1..])[12..].to_vec()
}

/// Signs the fields (nonce, gas price, gas limit, to, value, data) for chain
/// id 1 and returns the signed RLP bytes.
fn sign(sk: &SecretKey, fields: [Vec<u8>; 6]) -> Vec<u8> {
    let mut unsigned: Vec<Vec<u8>> = fields.to_vec();
    unsigned.push(vec![1]);
    unsigned.push(vec![]);
    unsigned.push(vec![]);
    let digest = keccak(&rlp::encode_list::<Vec<u8>, _>(&unsigned));
    let secp = Secp256k1::new();
    let sig = secp.sign_recoverable(&Message::from_slice(&digest).unwrap(), sk);
    let (id, compact): (RecoveryId, [u8; 64]) = sig.serialize_compact();
    let mut signed: Vec<Vec<u8>> = fields.to_vec();
    signed.push(vec![37 + id.to_i32() as u8]);
    signed.push(compact[..32].to_vec());
    signed.push(compact[32..].to_vec());
    rlp::encode_list::<Vec<u8>, _>(&signed)
}

fn hex(s: &str) -> Vec<u8> {
    (0..s.len()).step_by(2).map(|i| u8::from_str_radix(&s[i..i + 2], 16).unwrap()).collect()
}

#[test]
fn decodes_eip155_example_and_recovers_sender() {
    let raw = hex("f86c098504a817c800825208943535353535353535353535353535353535353535880de0b6b3a76400008025a028ef61340bd939bc2195fe537567866003e1a15d3c71ff63e1590620aa636276a067cbe9d8997f761aecb703304b3800ccf555c9f3dc64214b297fb1966a3b6d83");
    let tx = EthTransaction::from_raw(raw.clone()).unwrap();
    assert_eq!(tx.nonce, 9);
    assert_eq!(tx.gas_price, u256(20_000_000_000));
    assert_eq!(tx.gas_limit, u256(21000));
    assert_eq!(tx.to.as_ref().unwrap().0, vec![0x35u8; 20]);
    assert_eq!(tx.value, u256(1_000_000_000_000_000_000));
    assert!(tx.data.is_none());
    assert_eq!(tx.v, 37);
    let sk = SecretKey::from_slice(&[0x46u8; 32]).unwrap();
    assert_eq!(tx.from.0, address_of(&sk));
    assert_eq!(tx.hash(), keccak(&raw));
    assert_eq!(tx.raw, raw);
}

#[test]
fn recovers_sender_of_locally_signed_transaction() {
    let sk = SecretKey::from_slice(&[7u8; 32]).unwrap();
    let raw = sign(&sk, [vec![], vec![1], minimal_be(21000), vec![0xbb; 20], minimal_be(5 * 10u128.pow(11)), vec![]]);
    let tx = EthTransaction::from_raw(raw.clone()).unwrap();
    assert_eq!(tx.from.0, address_of(&sk));
    assert_eq!(tx.nonce, 0);
    assert_eq!(tx.fees().unwrap(), u256(21000));
    assert_eq!(tx.value_in_capacity().unwrap(), 50);
    assert_eq!(tx.fees_in_capacity().unwrap(), 0);
}

#[test]
fn reparsing_signed_bytes_keeps_hash_and_fields() {
    let sk = SecretKey::from_slice(&[9u8; 32]).unwrap();
    let raw = sign(&sk, [vec![3], vec![2], vec![0x52, 0x08], vec![], vec![], vec![0x60, 0x00]]);
    let tx = EthTransaction::from_raw(raw).unwrap();
    let again = EthTransaction::from_raw(tx.raw.clone()).unwrap();
    assert_eq!(again.hash(), tx.hash());
    assert_eq!(again.from, tx.from);
    assert_eq!(again.nonce, tx.nonce);
    assert!(again.to.is_none());
    assert_eq!(again.data, Some(vec![0x60, 0x00]));
}

#[test]
fn rejects_non_rlp_bytes() {
    // A list whose item is itself a list is not a list of byte strings.
    assert!(matches!(EthTransaction::from_raw(vec![0xc1, 0xc0]), Err(Error::Rlp(_))));
    // Truncated input decodes to no items at all.
    assert!(matches!(EthTransaction::from_raw(vec![0xf8]), Err(Error::MalformedData(_))));
}

#[test]
fn rejects_wrong_field_count() {
    let raw = rlp::encode_list::<Vec<u8>, _>(&[vec![1u8], vec![2u8]]);
    assert!(matches!(EthTransaction::from_raw(raw), Err(Error::MalformedData(_))));
}

#[test]
fn rejects_short_signature_parts() {
    let mut fields: Vec<Vec<u8>> = vec![vec![], vec![1], vec![1], vec![], vec![], vec![], vec![37], vec![1; 31], vec![1; 32]];
    assert!(matches!(EthTransaction::from_raw(rlp::encode_list::<Vec<u8>, _>(&fields)), Err(Error::MalformedData(_))));
    fields[7] = vec![1; 32];
    fields[8] = vec![1; 33];
    assert!(matches!(EthTransaction::from_raw(rlp::encode_list::<Vec<u8>, _>(&fields)), Err(Error::MalformedData(_))));
}

#[test]
fn rejects_pre_eip155_v() {
    let fields: Vec<Vec<u8>> = vec![vec![], vec![1], vec![1], vec![], vec![], vec![], vec![27], vec![1; 32], vec![1; 32]];
    assert!(matches!(EthTransaction::from_raw(rlp::encode_list::<Vec<u8>, _>(&fields)), Err(Error::MalformedData(_))));
}

#[test]
fn rejects_unrecoverable_signature() {
    let fields: Vec<Vec<u8>> = vec![vec![], vec![1], vec![1], vec![], vec![], vec![], vec![37], vec![0; 32], vec![0; 32]];
    assert!(matches!(EthTransaction::from_raw(rlp::encode_list::<Vec<u8>, _>(&fields)), Err(Error::Secp(_))));
}

#[test]
fn sig_recovery_accepts_only_37_and_38() {
    assert_eq!(calculate_sig_recovery(37).unwrap(), 0);
    assert_eq!(calculate_sig_recovery(38).unwrap(), 1);
    assert!(matches!(calculate_sig_recovery(36), Err(Error::MalformedData(_))));
    assert!(matches!(calculate_sig_recovery(39), Err(Error::MalformedData(_))));
    assert!(matches!(calculate_sig_recovery(0), Err(Error::MalformedData(_))));
}

#[test]
fn fees_overflow_is_malformed() {
    let sk = SecretKey::from_slice(&[7u8; 32]).unwrap();
    let raw = sign(&sk, [vec![], vec![0xff; 32], vec![0xff; 32], vec![0xbb; 20], vec![], vec![]]);
    let tx = EthTransaction::from_raw(raw).unwrap();
    assert!(matches!(tx.fees(), Err(Error::MalformedData(_))));
}

#[test]
fn contract_address_follows_sender_and_nonce() {
    let mut tx = EthTransaction::from_call(TransactionCall {
        from: Some("0x6ac7ea33f8831ea9dcc53393aaa88b25a785dbf0".to_string()),
        to: "0x0000000000000000000000000000000000000000".to_string(),
        gas: None,
        gas_price: None,
        value: None,
        data: None,
    })
    .unwrap();
    assert_eq!(contract_address(&tx).0, hex("cd234a471b72ba2f1ccf0a70fcaba648a5eecd8d"));
    tx.nonce = 1;
    assert_eq!(contract_address(&tx).0, hex("343c43a37d37dff08ae8c4a11544c718abb4fcf8"));
}

#[test]
fn call_parameters_get_defaults() {
    let tx = EthTransaction::from_call(TransactionCall {
        from: None,
        to: "0x1111111111111111111111111111111111111111".to_string(),
        gas: None,
        gas_price: None,
        value: None,
        data: Some(vec![1, 2]),
    })
    .unwrap();
    assert_eq!(tx.nonce, 0);
    assert_eq!(tx.gas_price, u256(1));
    assert_eq!(tx.gas_limit, U256 { le_bytes: [0xff; 32] });
    assert_eq!(tx.value, u256(0));
    assert_eq!(tx.from, EthAddress(vec![0; 20]));
    assert_eq!(tx.to.unwrap().0, vec![0x11; 20]);
    assert_eq!(tx.data, Some(vec![1, 2]));
    assert!(tx.raw.is_empty());
}

#[test]
fn call_with_bad_address_is_malformed() {
    let r = EthTransaction::from_call(TransactionCall {
        from: Some("nope".to_string()),
        to: "0x1111111111111111111111111111111111111111".to_string(),
        gas: None,
        gas_price: None,
        value: None,
        data: None,
    });
    assert!(matches!(r, Err(Error::MalformedData(_))));
}

#[test]
fn web3_sha3_is_keccak() {
    let w = Web3RpcImpl {};
    assert_eq!(w.sha3(&vec![]), hex("c5d2460186f7233c927e7db2dcc703c0e500b653ca82273b7bfad8045d85a470"));
    assert!(w.client_version().starts_with("Nervos Polyjuice/v"));
}
