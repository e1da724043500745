use attesta::codec::{base64_decode, decode_hex0x, encode_hex0x, hex_decode, hex_encode, sha256, trim_0x};
use attesta::events::{
    decode, event_kind, event_name, hex32, hex_bytes, EventKind, EventPayload, IssuerShim,
    NewCommitmentShim, NoteShim, NullifierShim, PoolEvent, RawEvent, WithdrawalShim,
};
use attesta::models::hex_bytes::{deserialize, serialize};
use attesta::text::{
    append_decimal, parse_i128, parse_i64, parse_u32, parse_u64, split_list, str_equals, to_decimal,
    trim,
};

fn raw(topic: &str, value: &str) -> RawEvent {
    RawEvent {
        id: "0001".to_string(),
        contract_id: "CPOOL".to_string(),
        ledger: 42,
        tx_hash: "abcd".to_string(),
        topic: vec![topic.to_string()],
        value: value.to_string(),
    }
}

fn hex32_text(b: u8) -> String {
    format!("0x{}", "ab".repeat(31) + &format!("{:02x}", b))
}

#[test]
fn hex_encode_is_lowercase_high_nibble_first() {
    assert_eq!(hex_encode(&[0x00, 0x0f, 0xa5, 0xff]), "000fa5ff");
    assert_eq!(encode_hex0x(&[0xde, 0xad]), "0xdead");
}

#[test]
fn hex_decode_accepts_both_cases_and_rejects_odd_or_foreign() {
    assert_eq!(hex_decode("DEadBE"), Some(vec![0xde, 0xad, 0xbe]));
    assert_eq!(hex_decode(""), Some(vec![]));
    assert_eq!(hex_decode("abc"), None);
    assert_eq!(hex_decode("zz"), None);
    assert_eq!(hex_decode("é1"), None);
}

#[test]
fn leading_0x_prefixes_are_all_stripped() {
    assert_eq!(trim_0x("0x0xab"), "ab");
    assert_eq!(trim_0x("x0ab"), "x0ab");
    assert_eq!(decode_hex0x("0x0102"), Some(vec![1, 2]));
    assert_eq!(decode_hex0x("0102"), Some(vec![1, 2]));
    assert_eq!(decode_hex0x("0x"), Some(vec![]));
}

#[test]
fn hex_column_roundtrip() {
    let bytes = vec![0u8, 1, 2, 250, 255];
    let text = serialize(&bytes);
    assert_eq!(text, "0x000102faff");
    assert_eq!(deserialize(&text), Some(bytes));
    assert_eq!(deserialize("0xzz"), None);
}

#[test]
fn sha256_known_digest() {
    assert_eq!(
        hex_encode(&sha256(b"abc")),
        "ba7816bf8f01cfea414140de5dae2223b00361a396177a9cb410ff61f20015ad"
    );
}

#[test]
fn base64_standard_decoding() {
    assert_eq!(base64_decode("aGVsbG8="), Some(b"hello".to_vec()));
    assert_eq!(base64_decode(""), Some(vec![]));
    assert_eq!(base64_decode("not base64!"), None);
    assert_eq!(base64_decode("aGVsbG8"), None);
}

#[test]
fn integer_parsing_follows_from_str() {
    assert_eq!(parse_u32("42"), Some(42));
    assert_eq!(parse_u32("+7"), Some(7));
    assert_eq!(parse_u32("-0"), None);
    assert_eq!(parse_u32("4294967295"), Some(u32::MAX));
    assert_eq!(parse_u32("4294967296"), None);
    assert_eq!(parse_u32(""), None);
    assert_eq!(parse_u32("+"), None);
    assert_eq!(parse_u32(" 1"), None);
    assert_eq!(parse_u64("18446744073709551615"), Some(u64::MAX));
    assert_eq!(parse_i64("-9223372036854775808"), Some(i64::MIN));
    assert_eq!(parse_i64("9223372036854775808"), None);
    assert_eq!(parse_i64("-"), None);
    assert_eq!(parse_i128("-170141183460469231731687303715884105728"), Some(i128::MIN));
    assert_eq!(parse_i128("170141183460469231731687303715884105728"), None);
    assert_eq!(parse_i128("000123"), Some(123));
    assert_eq!(parse_i128("99999999999999999999999999999999999999999999"), None);
}

#[test]
fn trimming_and_lists() {
    assert_eq!(trim("  a b \t\n"), "a b");
    assert_eq!(trim("\u{3000}x\u{2009}"), "x");
    assert_eq!(trim("   "), "");
    assert_eq!(split_list(" a, ,b ,, c"), vec!["a", "b", "c"]);
    assert_eq!(split_list(""), Vec::<String>::new());
    assert_eq!(split_list(","), Vec::<String>::new());
    assert!(str_equals("note", "note"));
    assert!(!str_equals("note", "notes"));
}

#[test]
fn event_names_are_plain_lowercase() {
    assert_eq!(event_name(&raw("new_commitment", "")), Some("new_commitment".to_string()));
    assert_eq!(event_name(&raw("AAAADwAAAA5uZXc=", "")), None);
    let mut no_topic = raw("x", "");
    no_topic.topic.clear();
    assert_eq!(event_name(&no_topic), None);
    assert_eq!(event_kind("withdrawal"), Some(EventKind::Withdrawal));
    assert_eq!(event_kind("transfer"), None);
}

#[test]
fn hex_fields() {
    assert_eq!(hex_bytes("0x00ff"), Some(vec![0, 255]));
    assert!(hex32(&hex32_text(1)).is_some());
    assert!(hex32("0x00ff").is_none());
    assert!(hex32("nothex").is_none());
}

#[test]
fn decode_new_commitment_with_deposit() {
    let payload = EventPayload::NewCommitment(NewCommitmentShim {
        commitment: hex32_text(7),
        leaf_index: 3,
        deposit_amount: Some("1000000".to_string()),
        asset: Some("XLM".to_string()),
    });
    match decode(&raw("new_commitment", "{}"), Some(payload)) {
        Some(PoolEvent::NewCommitment { commitment, leaf_index, deposit_amount, asset }) => {
            assert_eq!(commitment[31], 7);
            assert_eq!(commitment[0], 0xab);
            assert_eq!(leaf_index, 3);
            assert_eq!(deposit_amount, Some(1_000_000));
            assert_eq!(asset.as_deref(), Some("XLM"));
        }
        _ => panic!("expected a commitment"),
    }
}

#[test]
fn decode_unparsable_deposit_amount_is_dropped_not_fatal() {
    let payload = EventPayload::NewCommitment(NewCommitmentShim {
        commitment: hex32_text(7),
        leaf_index: 0,
        deposit_amount: Some("lots".to_string()),
        asset: None,
    });
    match decode(&raw("new_commitment", "{}"), Some(payload)) {
        Some(PoolEvent::NewCommitment { deposit_amount, .. }) => assert_eq!(deposit_amount, None),
        _ => panic!("expected a commitment"),
    }
}

#[test]
fn decode_rejects_bad_fields_and_mismatches() {
    let bad_commitment = EventPayload::Nullifier(NullifierShim { nullifier: "0x1234".to_string() });
    assert!(decode(&raw("nullifier", "{}"), Some(bad_commitment)).is_none());
    let bad_amount = EventPayload::Withdrawal(WithdrawalShim {
        amount: "1.5".to_string(),
        asset: "XLM".to_string(),
    });
    assert!(decode(&raw("withdrawal", "{}"), Some(bad_amount)).is_none());
    let wrong_kind = EventPayload::Nullifier(NullifierShim { nullifier: hex32_text(1) });
    assert!(decode(&raw("note", "{}"), Some(wrong_kind)).is_none());
    assert!(decode(&raw("note", "{}"), None).is_none());
    let unknown = EventPayload::Nullifier(NullifierShim { nullifier: hex32_text(1) });
    assert!(decode(&raw("mint", "{}"), Some(unknown)).is_none());
}

#[test]
fn decode_note_withdrawal_and_issuer() {
    let note = EventPayload::Note(NoteShim {
        commitment: hex32_text(2),
        ephemeral_pubkey: "0x0102".to_string(),
        ciphertext: "ff".to_string(),
    });
    match decode(&raw("note", "{}"), Some(note)) {
        Some(PoolEvent::EncryptedNote { ephemeral_pubkey, ciphertext, .. }) => {
            assert_eq!(ephemeral_pubkey, vec![1, 2]);
            assert_eq!(ciphertext, vec![255]);
        }
        _ => panic!("expected a note"),
    }
    let w = EventPayload::Withdrawal(WithdrawalShim {
        amount: "-5".to_string(),
        asset: "USDC".to_string(),
    });
    match decode(&raw("withdrawal", "{}"), Some(w)) {
        Some(PoolEvent::Withdrawal { amount, asset }) => {
            assert_eq!(amount, -5);
            assert_eq!(asset, "USDC");
        }
        _ => panic!("expected a withdrawal"),
    }
    let i = EventPayload::Issuer(IssuerShim {
        issuer_id: "kyc-1".to_string(),
        name: "KYC One".to_string(),
        public_key: "0xaa".to_string(),
        claim_types: vec!["kyc".to_string(), "age".to_string()],
        status: "active".to_string(),
    });
    match decode(&raw("issuer", "{}"), Some(i)) {
        Some(PoolEvent::IssuerUpdated { issuer_id, public_key, claim_types, status, .. }) => {
            assert_eq!(issuer_id, "kyc-1");
            assert_eq!(public_key, vec![0xaa]);
            assert_eq!(claim_types, vec!["kyc".to_string(), "age".to_string()]);
            assert_eq!(status, "active");
        }
        _ => panic!("expected an issuer"),
    }
}

#[test]
fn decimal_rendering_round_trips() {
    assert_eq!(to_decimal(0), "0");
    assert_eq!(to_decimal(7), "7");
    assert_eq!(to_decimal(10), "10");
    assert_eq!(to_decimal(1_234_567_890), "1234567890");
    assert_eq!(to_decimal(u64::MAX), "18446744073709551615");
    for n in [0u64, 9, 10, 99, 100, 65_535, 31_536_000, u64::MAX] {
        assert_eq!(parse_u64(&to_decimal(n)), Some(n));
    }
    let mut text = "max-age=".to_string();
    append_decimal(&mut text, 3600);
    assert_eq!(text, "max-age=3600");
}
