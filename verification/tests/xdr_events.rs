use attesta::events::{decode, PoolEvent, RawEvent};
use attesta::xdr::{read_payload, read_value, read_whole_symbol, ScPayload, ScVal};
use base64::Engine;

fn b64(b: &[u8]) -> String {
    base64::engine::general_purpose::STANDARD.encode(b)
}

fn word(v: u32) -> Vec<u8> {
    v.to_be_bytes().to_vec()
}

fn opaque(tag: u32, data: &[u8]) -> Vec<u8> {
    let mut out = word(tag);
    out.extend(word(data.len() as u32));
    out.extend_from_slice(data);
    while out.len() % 4 != 0 {
        out.push(0);
    }
    out
}

fn sym(s: &str) -> Vec<u8> {
    opaque(15, s.as_bytes())
}

fn string(s: &str) -> Vec<u8> {
    opaque(14, s.as_bytes())
}

fn bytes(d: &[u8]) -> Vec<u8> {
    opaque(13, d)
}

fn u32v(v: u32) -> Vec<u8> {
    let mut out = word(3);
    out.extend(word(v));
    out
}

fn i64v(v: i64) -> Vec<u8> {
    let mut out = word(6);
    out.extend(v.to_be_bytes());
    out
}

fn i128v(v: i128) -> Vec<u8> {
    let mut out = word(10);
    out.extend(v.to_be_bytes());
    out
}

fn texts(items: &[Vec<u8>]) -> Vec<u8> {
    let mut out = word(16);
    out.extend(word(1));
    out.extend(word(items.len() as u32));
    for i in items {
        out.extend_from_slice(i);
    }
    out
}

fn map(entries: &[(&str, Vec<u8>)]) -> Vec<u8> {
    let mut out = word(17);
    out.extend(word(1));
    out.extend(word(entries.len() as u32));
    for (k, v) in entries {
        out.extend(sym(k));
        out.extend_from_slice(v);
    }
    out
}

fn xdr_event(name: &str, value: &[u8]) -> RawEvent {
    RawEvent {
        id: "0000000042-0000000001".to_string(),
        contract_id: "CPOOL".to_string(),
        ledger: 42,
        tx_hash: "abcd".to_string(),
        topic: vec![b64(&sym(name))],
        value: b64(value),
    }
}

fn node(b: u8) -> [u8; 32] {
    let mut n = [0xabu8; 32];
    n[31] = b;
    n
}

#[test]
fn bare_bytes_nullifier_decodes() {
    let ev = xdr_event("nullifier", &bytes(&node(7)));
    match decode(&ev, None) {
        Some(PoolEvent::NullifierSpent { nullifier }) => assert_eq!(nullifier, node(7)),
        _ => panic!("expected a nullifier"),
    }
    let ev = xdr_event("nullifier", &map(&[("nullifier", bytes(&node(8)))]));
    match decode(&ev, None) {
        Some(PoolEvent::NullifierSpent { nullifier }) => assert_eq!(nullifier, node(8)),
        _ => panic!("expected a nullifier"),
    }
    // 31 bytes is not a nullifier.
    assert!(decode(&xdr_event("nullifier", &bytes(&[1u8; 31])), None).is_none());
}

#[test]
fn new_commitment_map_decodes() {
    let ev = xdr_event(
        "new_commitment",
        &map(&[
            ("asset", string("XLM")),
            ("commitment", bytes(&node(1))),
            ("deposit_amount", i128v(-5_000_000_000_000)),
            ("leaf_index", u32v(3)),
        ]),
    );
    match decode(&ev, None) {
        Some(PoolEvent::NewCommitment { commitment, leaf_index, deposit_amount, asset }) => {
            assert_eq!(commitment, node(1));
            assert_eq!(leaf_index, 3);
            assert_eq!(deposit_amount, Some(-5_000_000_000_000));
            assert_eq!(asset.as_deref(), Some("XLM"));
        }
        _ => panic!("expected a commitment"),
    }
    // A transfer output: no amount, no asset.
    let ev = xdr_event(
        "new_commitment",
        &map(&[("commitment", bytes(&node(2))), ("leaf_index", i64v(9))]),
    );
    match decode(&ev, None) {
        Some(PoolEvent::NewCommitment { leaf_index, deposit_amount, asset, .. }) => {
            assert_eq!((leaf_index, deposit_amount, asset), (9, None, None));
        }
        _ => panic!("expected a commitment"),
    }
    // Missing leaf index.
    assert!(decode(&xdr_event("new_commitment", &map(&[("commitment", bytes(&node(2)))])), None).is_none());
}

#[test]
fn note_withdrawal_and_issuer_decode() {
    let ev = xdr_event(
        "note",
        &map(&[
            ("ciphertext", bytes(&[9, 9, 9])),
            ("commitment", bytes(&node(3))),
            ("ephemeral_pubkey", bytes(&[1, 2])),
        ]),
    );
    match decode(&ev, None) {
        Some(PoolEvent::EncryptedNote { commitment, ephemeral_pubkey, ciphertext }) => {
            assert_eq!((commitment, ephemeral_pubkey, ciphertext), (node(3), vec![1, 2], vec![9, 9, 9]));
        }
        _ => panic!("expected a note"),
    }
    let ev = xdr_event("withdrawal", &map(&[("amount", i128v(250)), ("asset", sym("USDC"))]));
    match decode(&ev, None) {
        Some(PoolEvent::Withdrawal { amount, asset }) => assert_eq!((amount, asset.as_str()), (250, "USDC")),
        _ => panic!("expected a withdrawal"),
    }
    let ev = xdr_event(
        "issuer",
        &map(&[
            ("claim_types", texts(&[sym("kyc"), string("accreditation")])),
            ("issuer_id", string("iss-1")),
            ("name", string("Zürich KYC")),
            ("public_key", bytes(&[7u8; 32])),
            ("status", sym("active")),
        ]),
    );
    match decode(&ev, None) {
        Some(PoolEvent::IssuerUpdated { issuer_id, name, public_key, claim_types, status }) => {
            assert_eq!(issuer_id, "iss-1");
            assert_eq!(name, "Zürich KYC");
            assert_eq!(public_key, vec![7u8; 32]);
            assert_eq!(claim_types, vec!["kyc".to_string(), "accreditation".to_string()]);
            assert_eq!(status, "active");
        }
        _ => panic!("expected an issuer"),
    }
    // A name that is not UTF-8.
    let bad = xdr_event(
        "issuer",
        &map(&[
            ("claim_types", texts(&[])),
            ("issuer_id", string("iss-1")),
            ("name", opaque(14, &[0xff, 0xfe])),
            ("public_key", bytes(&[7u8; 32])),
            ("status", sym("active")),
        ]),
    );
    assert!(decode(&bad, None).is_none());
}

#[test]
fn unknown_or_malformed_xdr_is_skipped() {
    assert!(decode(&xdr_event("transfer", &bytes(&node(1))), None).is_none());
    // Non-zero padding.
    let mut padded = bytes(&[1, 2, 3]);
    *padded.last_mut().unwrap() = 1;
    assert!(decode(&xdr_event("nullifier", &padded), None).is_none());
    // Trailing bytes after the value.
    let mut trailing = bytes(&node(1));
    trailing.extend(word(0));
    assert!(decode(&xdr_event("nullifier", &trailing), None).is_none());
    // A topic that is not base64.
    let mut ev = xdr_event("nullifier", &bytes(&node(1)));
    ev.topic = vec!["!!".to_string()];
    assert!(decode(&ev, None).is_none());
}

#[test]
fn xdr_reading() {
    assert_eq!(read_whole_symbol(&sym("new_commitment")), Some(b"new_commitment".to_vec()));
    assert_eq!(read_whole_symbol(&sym("bad-symbol")), None);
    assert_eq!(read_whole_symbol(&string("text")), None);
    match read_value(&i128v(i128::MIN), 0) {
        Some((ScVal::Int(v), 20)) => assert_eq!(v, i128::MIN),
        _ => panic!("expected an i128"),
    }
    let mut i32v = word(4);
    i32v.extend((-7i32).to_be_bytes());
    match read_value(&i32v, 0) {
        Some((ScVal::Int(v), 8)) => assert_eq!(v, -7),
        _ => panic!("expected an i32"),
    }
    match read_payload(&map(&[("a", u32v(1)), ("b", string("x"))])) {
        Some(ScPayload::Entries(es)) => assert_eq!(es.len(), 2),
        _ => panic!("expected a map"),
    }
    assert!(read_payload(&word(1)).is_none());
}
