use attesta::api_error::{ApiError, CoreError};
use attesta::config::{Config, EnvVars};
use attesta::credentials::{
    check_issuer_quota, claim_update_outcome, decide_claim, presented_claim_hash,
    require_active_issuer, validate_delivery, ClaimRequest, ClaimState, DeliverCredentialRequest,
};
use attesta::codec::sha256;
use attesta::disclosure::{build_report, NoteScan, REPORT_VERSION};
use attesta::ingest::{advance_ledger, start_ledger, store_ops, StoreOp};
use attesta::events::PoolEvent;
use attesta::notes::{next_cursor, replay_outcome, resume_cursor, FanoutCursor, LiveCursor};
use attesta::service::{
    acceptable_request_id, after_connect_failure, artifact_digest_hex, check_artifact_segments,
    cors_policy, is_retryable_code, retention_plan, stats_cache_control, stats_cache_fresh, sweep_again,
    valid_segment,
    ConnectStep, CorsPolicy, SweepKind,
};
use attesta::tree_service::{
    history_root_response, parse_node, root_lookup, unzip3, PoolTree, RootLookup,
};

fn vars(database_url: Option<&str>) -> EnvVars {
    EnvVars {
        database_url: database_url.map(String::from),
        bind_addr: None,
        soroban_rpc_url: None,
        network_passphrase: None,
        pool_contract_ids: None,
        registry_contract_id: None,
        indexer_poll_secs: None,
        artifacts_dir: None,
        credential_retention_claimed_days: None,
        credential_retention_unclaimed_days: None,
        rate_limit_read_per_sec: None,
        rate_limit_read_burst: None,
        rate_limit_write_per_sec: None,
        rate_limit_write_burst: None,
        rate_limit_sse_per_ip: None,
        rate_limit_sse_global: None,
        rate_limit_issuer_deliveries_per_hour: None,
        cors_allowed_origins: None,
        ready_max_indexer_staleness_secs: None,
        stats_cache_ttl_secs: None,
    }
}

fn node(b: u8) -> [u8; 32] {
    [b; 32]
}

#[test]
fn config_defaults_and_required_url() {
    assert_eq!(
        Config::from_vars(&vars(None)).err().unwrap().message,
        "DATABASE_URL must be set"
    );
    let c = Config::from_vars(&vars(Some("postgres://x"))).ok().unwrap();
    assert_eq!(c.database_url, "postgres://x");
    assert_eq!(c.bind_addr, "0.0.0.0:8080");
    assert_eq!(c.indexer_poll_secs, 5);
    assert_eq!(c.credential_retention_unclaimed_days, 180);
    assert_eq!(c.rate_limits.read_burst, 200);
    assert_eq!(c.rate_limits.issuer_deliveries_per_hour, 600);
    assert_eq!(c.stats_cache_ttl_secs, 10);
    assert!(c.pool_contract_ids.is_empty());
    assert!(c.registry_contract_id.is_none());
}

#[test]
fn config_parses_lists_and_numbers() {
    let mut v = vars(Some("db"));
    v.pool_contract_ids = Some(" CA1 , ,CB2".to_string());
    v.registry_contract_id = Some("   ".to_string());
    v.rate_limit_read_per_sec = Some("0".to_string());
    v.indexer_poll_secs = Some("soon".to_string());
    v.cors_allowed_origins = Some("*".to_string());
    let c = Config::from_vars(&v).ok().unwrap();
    assert_eq!(c.pool_contract_ids, vec!["CA1".to_string(), "CB2".to_string()]);
    assert!(c.registry_contract_id.is_none());
    assert_eq!(c.rate_limits.read_per_sec, 0);
    assert_eq!(c.indexer_poll_secs, 5);
    assert_eq!(c.cors_allowed_origins, vec!["*".to_string()]);
    v.registry_contract_id = Some(" CREG ".to_string());
    let c = Config::from_vars(&v).ok().unwrap();
    assert_eq!(c.registry_contract_id.as_deref(), Some(" CREG "));
}

fn delivery(ct: &str, sig: &str, hint: &str, hash: Option<&str>) -> DeliverCredentialRequest {
    DeliverCredentialRequest {
        issuer_id: "kyc-1".to_string(),
        recipient_hint: hint.to_string(),
        ciphertext: ct.to_string(),
        issuer_signature: sig.to_string(),
        claim_token_hash: hash.map(String::from),
    }
}

fn error_of(req: &DeliverCredentialRequest) -> (u16, String) {
    let e = validate_delivery(req).err().unwrap();
    (e.status, e.message)
}

#[test]
fn delivery_checks_in_order() {
    let ok_hash = "AAAAAAAAAAAAAAAAAAAAAAAAAAAAAAAAAAAAAAAAAAA="; // 32 zero bytes
    let d = validate_delivery(&delivery("aGVsbG8=", "c2ln", "mbox", Some(ok_hash))).ok().unwrap();
    assert_eq!(d.ciphertext, b"hello".to_vec());
    assert_eq!(d.signature, b"sig".to_vec());
    assert_eq!(d.claim_token_hash, Some(vec![0u8; 32]));
    assert_eq!(
        error_of(&delivery("!!", "c2ln", "mbox", None)),
        (400, "ciphertext must be base64".to_string())
    );
    assert_eq!(
        error_of(&delivery("", "c2ln", "mbox", None)),
        (400, "ciphertext size out of bounds".to_string())
    );
    assert_eq!(
        error_of(&delivery("aGVsbG8=", "??", "mbox", None)),
        (400, "issuer_signature must be base64".to_string())
    );
    assert_eq!(
        error_of(&delivery("aGVsbG8=", "c2ln", "", None)),
        (400, "recipient_hint size out of bounds".to_string())
    );
    let long_hint = "h".repeat(129);
    assert_eq!(
        error_of(&delivery("aGVsbG8=", "c2ln", &long_hint, None)),
        (400, "recipient_hint size out of bounds".to_string())
    );
    assert_eq!(
        error_of(&delivery("aGVsbG8=", "c2ln", "mbox", Some("%%"))),
        (400, "claim_token_hash must be base64".to_string())
    );
    assert_eq!(
        error_of(&delivery("aGVsbG8=", "c2ln", "mbox", Some("aGVsbG8="))),
        (400, "claim_token_hash must be 32 bytes".to_string())
    );
    let big = "A".repeat(87_384); // 65 538 bytes once decoded
    assert_eq!(
        error_of(&delivery(&big, "c2ln", "mbox", None)),
        (400, "ciphertext size out of bounds".to_string())
    );
}

#[test]
fn issuer_checks() {
    assert!(require_active_issuer(true).is_ok());
    assert_eq!(require_active_issuer(false).err().unwrap().status, 400);
    assert!(check_issuer_quota(599, 600).is_ok());
    let e = check_issuer_quota(600, 600).err().unwrap();
    assert_eq!((e.status, e.message.as_str()), (429, "issuer hourly delivery quota exceeded"));
    assert!(check_issuer_quota(1_000_000, 0).is_ok());
}

#[test]
fn claims_need_the_token_preimage() {
    let req = ClaimRequest { claim_token: "dG9rZW4=".to_string() }; // "token"
    let h = presented_claim_hash(&req).ok().unwrap();
    assert_eq!(h, sha256(b"token"));
    let stored = ClaimState { claim_token_hash: Some(h.to_vec()), claimed: false };
    assert!(decide_claim(Some(stored), &h).is_ok());
    let wrong = ClaimState { claim_token_hash: Some(vec![0u8; 32]), claimed: false };
    assert_eq!(decide_claim(Some(wrong), &h).err().unwrap().status, 403);
    let none = ClaimState { claim_token_hash: None, claimed: false };
    assert_eq!(decide_claim(Some(none), &h).err().unwrap().status, 403);
    let claimed = ClaimState { claim_token_hash: Some(h.to_vec()), claimed: true };
    assert_eq!(decide_claim(Some(claimed), &h).err().unwrap().status, 409);
    assert_eq!(decide_claim(None, &h).err().unwrap().status, 404);
    assert_eq!(claim_update_outcome(0).err().unwrap().status, 409);
    assert!(claim_update_outcome(1).is_ok());
    let bad = ClaimRequest { claim_token: "***".to_string() };
    assert_eq!(presented_claim_hash(&bad).err().unwrap().message, "claim_token must be base64");
    let empty = ClaimRequest { claim_token: "".to_string() };
    assert_eq!(presented_claim_hash(&empty).err().unwrap().message, "claim_token size out of bounds");
}

#[test]
fn artifact_segments() {
    assert!(valid_segment("transfer"));
    assert!(valid_segment("proving_key.zkey"));
    assert!(!valid_segment(""));
    assert!(!valid_segment(".."));
    assert!(!valid_segment("a..b"));
    assert!(!valid_segment("a/b"));
    assert!(!valid_segment(&"x".repeat(129)));
    assert!(valid_segment(&"x".repeat(128)));
    assert!(check_artifact_segments("transfer", "v1", "prover.wasm").is_ok());
    let e = check_artifact_segments("transfer", "..", "prover.wasm").err().unwrap();
    assert_eq!((e.status, e.message.as_str()), (400, "invalid artifact path segment"));
    assert_eq!(
        artifact_digest_hex(b"abc"),
        "ba7816bf8f01cfea414140de5dae2223b00361a396177a9cb410ff61f20015ad"
    );
}

#[test]
fn small_policies() {
    assert!(stats_cache_fresh(10, 9));
    assert!(!stats_cache_fresh(10, 10));
    assert!(!stats_cache_fresh(0, 0));
    assert_eq!(
        retention_plan(30, 180),
        vec![(SweepKind::Claimed, 30), (SweepKind::Unclaimed, 180)]
    );
    assert_eq!(retention_plan(0, 7), vec![(SweepKind::Unclaimed, 7)]);
    assert!(retention_plan(0, 0).is_empty());
    assert!(sweep_again(10_000));
    assert!(!sweep_again(9_999));
    assert!(acceptable_request_id("req-123"));
    assert!(!acceptable_request_id(""));
    assert!(!acceptable_request_id("has space"));
    assert!(!acceptable_request_id(&"a".repeat(129)));
    assert!(matches!(cors_policy(&vec![]), CorsPolicy::Disabled));
    assert!(matches!(cors_policy(&vec!["https://a".to_string(), "*".to_string()]), CorsPolicy::AnyOrigin));
    match cors_policy(&vec!["https://a".to_string()]) {
        CorsPolicy::Origins(list) => assert_eq!(list, vec!["https://a".to_string()]),
        _ => panic!("expected an allowlist"),
    }
}

#[test]
fn connection_retry_policy() {
    assert!(!is_retryable_code(Some("28P01")));
    assert!(!is_retryable_code(Some("3D000")));
    assert!(is_retryable_code(Some("57P03")));
    assert!(is_retryable_code(None));
    assert!(matches!(after_connect_failure(1, 500, false), ConnectStep::GiveUp));
    assert!(matches!(after_connect_failure(10, 500, true), ConnectStep::GiveUp));
    match after_connect_failure(1, 500, true) {
        ConnectStep::Retry { wait_ms, next_backoff_ms } => {
            assert_eq!(wait_ms, 500);
            assert_eq!(next_backoff_ms, 1000);
        }
        _ => panic!("expected a retry"),
    }
    match after_connect_failure(5, 8000, true) {
        ConnectStep::Retry { next_backoff_ms, .. } => assert_eq!(next_backoff_ms, 10_000),
        _ => panic!("expected a retry"),
    }
}

#[test]
fn paging_and_stream_cursors() {
    assert_eq!(next_cursor(&vec![1, 2, 3], 3), Some(3));
    assert_eq!(next_cursor(&vec![1, 2], 3), None);
    assert_eq!(next_cursor(&vec![], 0), None);
    assert_eq!(resume_cursor(Some("17"), Some(3)), Some(17));
    assert_eq!(resume_cursor(Some("x"), Some(3)), Some(3));
    assert_eq!(resume_cursor(None, None), None);
    let r = replay_outcome(&vec![5, 6], 4);
    assert_eq!((r.last_seen, r.resync), (6, false));
    let r = replay_outcome(&vec![], 4);
    assert_eq!(r.last_seen, 4);
    let mut live = LiveCursor::new(6);
    assert!(!live.should_send(6));
    assert!(live.should_send(7));
    assert!(!live.should_send(5));
    assert_eq!(live.last_seen(), 7);
    let mut f = FanoutCursor::new(0);
    assert!(!f.advance(&vec![1, 2, 3]));
    assert_eq!(f.last_id(), 3);
    assert!(!f.advance(&vec![]));
    assert_eq!(f.last_id(), 3);
}

#[test]
fn ingest_cursor_and_writes() {
    assert_eq!(start_ledger(0), 1);
    assert_eq!(advance_ledger(10, &vec![12, 11], 99), (12, false));
    assert_eq!(advance_ledger(10, &vec![], 99), (99, true));
    assert_eq!(advance_ledger(10, &vec![], 3), (10, true));
    let ops = store_ops(
        "CPOOL",
        "0000000042-0000000001",
        7,
        "tx",
        PoolEvent::NewCommitment {
            commitment: node(1),
            leaf_index: 0,
            deposit_amount: Some(50),
            asset: Some("XLM".to_string()),
        },
    );
    assert_eq!(ops.len(), 2);
    match &ops[1] {
        StoreOp::RecordFlow { event_id, inflow, outflow, asset, .. } => {
            assert_eq!((event_id.as_str(), *inflow, *outflow, asset.as_str()), ("0000000042-0000000001", 50, 0, "XLM"));
        }
        _ => panic!("expected a flow"),
    }
    let ops = store_ops("CPOOL", "0000000043-0000000002", 7, "tx", PoolEvent::Withdrawal { amount: 20, asset: "XLM".to_string() });
    match &ops[0] {
        StoreOp::RecordFlow { event_id, inflow, outflow, .. } => {
            assert_eq!((event_id.as_str(), *inflow, *outflow), ("0000000043-0000000002", 0, 20))
        }
        _ => panic!("expected a flow"),
    }
    let ops = store_ops(
        "CPOOL",
        "0000000044-0000000001",
        7,
        "tx",
        PoolEvent::NewCommitment { commitment: node(1), leaf_index: 1, deposit_amount: None, asset: Some("XLM".to_string()) },
    );
    assert_eq!(ops.len(), 1);
    let ops = store_ops(
        "CPOOL",
        "0000000045-0000000001",
        8,
        "tx2",
        PoolEvent::EncryptedNote { commitment: node(3), ephemeral_pubkey: vec![1, 2], ciphertext: vec![3] },
    );
    match &ops[0] {
        StoreOp::InsertNote { commitment, ledger, .. } => assert_eq!((commitment.as_slice(), *ledger), (&node(3)[..], 8)),
        _ => panic!("expected a note row"),
    }
}

#[test]
fn pool_tree_top_up_paths_and_gaps() {
    let mut t = PoolTree::new();
    assert_eq!(t.require_nonempty("CPOOL").err().unwrap().message, "unknown or empty pool: CPOOL");
    let rows = vec![
        (0i64, node(1).to_vec(), 10i64),
        (1, node(2).to_vec(), 12),
        (3, node(4).to_vec(), 15), // gap: leaf 2 missing
    ];
    let (roots, outcome) = t.absorb_leaves(&rows);
    assert!(outcome.is_ok());
    assert_eq!(t.len(), 2);
    assert_eq!(roots.len(), 2);
    assert_eq!(roots[0].0, 1);
    assert_eq!(roots[1].0, 2);
    assert_eq!(roots[1].2, 12);
    let (counts, hashes, ledgers) = unzip3(roots);
    assert_eq!(counts, vec![1, 2]);
    assert_eq!(ledgers, vec![10, 12]);
    assert_eq!(hashes[1].len(), 32);
    let resp = t.path_response("CPOOL".to_string(), &node(2)).ok().unwrap();
    assert_eq!(resp.leaf_index, 1);
    assert_eq!(resp.leaf_count, 2);
    assert_eq!(resp.anchored_ledger, 12);
    assert_eq!(resp.path.len(), 32);
    assert!(!resp.path[0].sibling_on_right);
    assert_eq!(resp.path[0].sibling, format!("0x{}", "01".repeat(32)));
    assert_eq!(resp.root, format!("0x{}", attesta::codec::hex_encode(&hashes[1])));
    let root = t.root_response("CPOOL".to_string());
    assert_eq!(root.root, resp.root);
    let missing = t.path_response("CPOOL".to_string(), &node(9)).err().unwrap();
    assert_eq!((missing.status, missing.message.as_str()), (404, "commitment not found in tree"));
    // A corrupt row at the right index is an error; nothing past it is taken.
    let bad = vec![(2i64, vec![1u8, 2, 3], 20i64)];
    let (none, outcome) = t.absorb_leaves(&bad);
    let e = outcome.err().unwrap();
    assert_eq!((e.status, e.message.as_str()), (400, "corrupt commitment in index"));
    assert!(none.is_empty());
    assert_eq!(t.len(), 2);
    // Leaves appended before a corrupt row keep their roots.
    let mixed = vec![(2i64, node(3).to_vec(), 21i64), (3, node(4).to_vec(), 22), (4, vec![9u8], 23)];
    let (kept, outcome) = t.absorb_leaves(&mixed);
    assert!(outcome.is_err());
    assert_eq!(t.len(), 4);
    assert_eq!(kept.len(), 2);
    assert_eq!((kept[0].0, kept[0].2), (3, 21));
    assert_eq!((kept[1].0, kept[1].2), (4, 22));
    assert_eq!(format!("0x{}", attesta::codec::hex_encode(&kept[1].1)), t.root_response("CPOOL".to_string()).root);
    assert!(t.require_nonempty("CPOOL").is_ok());
}

#[test]
fn duplicate_commitments_map_to_the_latest_leaf() {
    let mut t = PoolTree::new();
    let rows = vec![(0i64, node(5).to_vec(), 1i64), (1, node(5).to_vec(), 1)];
    assert!(t.absorb_leaves(&rows).1.is_ok());
    assert_eq!(t.lookup(&node(5)), Some(1));
    assert_eq!(t.lookup(&node(6)), None);
}

#[test]
fn request_parsing_for_tree_endpoints() {
    assert_eq!(parse_node(&format!("0x{}", "02".repeat(32))).ok().unwrap(), node(2));
    assert_eq!(parse_node("0x12").err().unwrap().message, "commitment must be 32 bytes");
    assert_eq!(parse_node("xyz").err().unwrap().message, "commitment must be 0x-hex");
    assert!(matches!(root_lookup(None, None), Ok(RootLookup::Current)));
    assert!(matches!(root_lookup(Some(5), None), Ok(RootLookup::AtLedger(5))));
    assert!(matches!(root_lookup(None, Some(2)), Ok(RootLookup::AtLeafCount(2))));
    assert_eq!(root_lookup(Some(1), Some(2)).err().unwrap().status, 400);
    let e = history_root_response("P".to_string(), None).err().unwrap();
    assert_eq!((e.status, e.message.as_str()), (404, "no root recorded at or before that point"));
    let e = history_root_response("P".to_string(), Some((vec![1, 2], 1, 1))).err().unwrap();
    assert_eq!(e.message, "corrupt root in history");
    let ok = history_root_response("P".to_string(), Some((vec![0u8; 32], 4, 9))).ok().unwrap();
    assert_eq!((ok.leaf_count, ok.anchored_ledger), (4, 9));
    assert_eq!(ok.root, format!("0x{}", "00".repeat(32)));
}

#[test]
fn disclosure_report_and_scan() {
    let r = build_report("P".to_string(), "now".to_string(), None, None, 3);
    assert_eq!(r.version, REPORT_VERSION);
    assert_eq!(r.tree_root, "");
    assert_eq!(r.anchored_ledger, 0);
    assert_eq!(r.total_notes_scanned, 3);
    let mut scan = NoteScan::new();
    assert_eq!(scan.cursor(), None);
    scan.record_page(Some(500));
    assert!(!scan.is_done());
    assert_eq!(scan.cursor(), Some(500));
    scan.record_page(None);
    assert!(scan.is_done());
}

#[test]
fn core_failures_map_to_answers() {
    let db = ApiError::from_core(CoreError::Db);
    assert_eq!((db.status, db.message.as_str()), (500, "internal error"));
    let mig = ApiError::from_core(CoreError::Migrate);
    assert_eq!((mig.status, mig.message.as_str()), (500, "internal error"));
    let pool = ApiError::from_core(CoreError::UnknownPool("CPOOL".to_string()));
    assert_eq!((pool.status, pool.message.as_str()), (404, "unknown pool: CPOOL"));
    let missing = ApiError::from_core(CoreError::CommitmentNotFound);
    assert_eq!((missing.status, missing.message.as_str()), (404, "commitment not found"));
    let bad = ApiError::from_core(CoreError::InvalidInput("leaf index out of range".to_string()));
    assert_eq!((bad.status, bad.message.as_str()), (400, "leaf index out of range"));
}

#[test]
fn stats_cache_header() {
    assert_eq!(stats_cache_control(0), None);
    assert_eq!(stats_cache_control(10), Some("public, max-age=10".to_string()));
    assert_eq!(stats_cache_control(3600), Some("public, max-age=3600".to_string()));
}
