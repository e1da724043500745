//! Ingest decisions: where the next `getEvents` page starts, how the stored
//! cursor advances over a page, and which writes one decoded event makes.
//! Every write is keyed: rows are inserted only when their natural key is
//! new, and a deposit or withdrawal reaches the pool totals only through a
//! flow record keyed by the event's id. So replaying an event (a cursor
//! reset, a crash-restart) writes nothing new; see [`law_replay_adds_nothing`].

use vstd::prelude::*;
use crate::events::PoolEvent;

verus! {

/// The first ledger to fetch after `last_ledger`.
pub fn start_ledger(last_ledger: i64) -> (start: u64)
    requires
        (last_ledger as u64) < u64::MAX,
    ensures
        start == (last_ledger as u64) + 1,
{
    last_ledger as u64 + 1
}

/// The stored ledger after the events of a page: the highest ledger seen
/// so far.
pub open spec fn ledger_after(last_ledger: i64, ledgers: Seq<u64>) -> i64
    decreases ledgers.len(),
{
    if ledgers.len() == 0 {
        last_ledger
    } else {
        let before = ledger_after(last_ledger, ledgers.drop_last());
        let l = ledgers.last() as i64;
        if l > before {
            l
        } else {
            before
        }
    }
}

/// The stored ledger after a page is the highest ledger seen: at least
/// the one before and every event's, and equal to one of them.
pub proof fn law_ledger_after_is_highest(last_ledger: i64, ledgers: Seq<u64>)
    ensures
        ledger_after(last_ledger, ledgers) >= last_ledger,
        forall|i: int| 0 <= i < ledgers.len() ==> ledger_after(last_ledger, ledgers) >= #[trigger] (ledgers[i] as i64),
        ledger_after(last_ledger, ledgers) == last_ledger || exists|i: int|
            0 <= i < ledgers.len() && ledger_after(last_ledger, ledgers) == #[trigger] (ledgers[i] as i64),
    decreases ledgers.len(),
{
    if ledgers.len() > 0 {
        let init = ledgers.drop_last();
        law_ledger_after_is_highest(last_ledger, init);
        let m = ledger_after(last_ledger, init);
        assert forall|i: int| 0 <= i < init.len() implies #[trigger] init[i] == ledgers[i] by {}
        if !((ledgers.last() as i64) > m) && m != last_ledger {
            let j = choose|j: int| 0 <= j < init.len() && m == #[trigger] (init[j] as i64);
            assert(ledgers[j] == init[j]);
        }
        assert(ledgers[ledgers.len() - 1] == ledgers.last());
        assert forall|i: int| 0 <= i < ledgers.len() implies ledger_after(last_ledger, ledgers)
            >= #[trigger] (ledgers[i] as i64) by {
            if i < init.len() {
                assert(m >= (init[i] as i64));
            }
        }
    }
}

/// Advance the stored ledger over a page whose events carry `ledgers`.
/// An empty page means the contract is drained: the ledger then also moves
/// up to the chain head `latest_ledger`. Returns the new ledger and
/// whether the contract is drained.
pub fn advance_ledger(last_ledger: i64, ledgers: &Vec<u64>, latest_ledger: u64) -> (r: (i64, bool))
    ensures
        r.1 == (ledgers@.len() == 0),
        r.0 == if ledgers@.len() == 0 {
            if latest_ledger as i64 > last_ledger {
                latest_ledger as i64
            } else {
                last_ledger
            }
        } else {
            ledger_after(last_ledger, ledgers@)
        },
{
    let mut last = last_ledger;
    for i in 0..ledgers.len()
        invariant
            last == ledger_after(last_ledger, ledgers@.take(i as int)),
    {
        assert(ledgers@.take(i + 1).drop_last() == ledgers@.take(i as int));
        let l = ledgers[i] as i64;
        if l > last {
            last = l;
        }
    }
    assert(ledgers@.take(ledgers@.len() as int) == ledgers@);
    let done = ledgers.len() == 0;
    if done {
        let l = latest_ledger as i64;
        if l > last {
            last = l;
        }
    }
    (last, done)
}

/// One database write of the ingest.
pub enum StoreOp {
    /// `commitments` row, unless the pool already has a row with this leaf
    /// index or this commitment.
    InsertCommitment { pool: String, leaf_index: i64, commitment: Vec<u8>, ledger: i64, tx_hash: String },
    /// `nullifiers` row, unless the pool already has it.
    InsertNullifier { pool: String, nullifier: Vec<u8>, ledger: i64, tx_hash: String },
    /// `encrypted_notes` row, unless the pool already has a note for this
    /// commitment (a note is published once per output commitment).
    InsertNote {
        pool: String,
        commitment: Vec<u8>,
        ephemeral_pubkey: Vec<u8>,
        ciphertext: Vec<u8>,
        ledger: i64,
        tx_hash: String,
    },
    /// A public flow of value in or out of a pool, keyed by the event that
    /// carried it: recorded, and added to the pool's running totals, only
    /// when no flow with this key was recorded before.
    RecordFlow { pool: String, event_id: String, asset: String, inflow: i128, outflow: i128 },
    /// Insert an `issuers` row, or update its name, key, claim types and
    /// status (keeping the ledger it was registered at).
    UpsertIssuer {
        issuer_id: String,
        name: String,
        public_key: Vec<u8>,
        claim_types: Vec<String>,
        status: String,
        ledger: i64,
    },
}

/// The writes an event makes, for contract `pool` at `ledger`/`tx_hash`,
/// the event having id `event_id`: a commitment row (plus the deposit as a
/// flow when the event carries both an amount and an asset), a nullifier
/// row, a note row, a withdrawal as a flow, or an issuer upsert.
pub open spec fn spec_store_ops(
    pool: Seq<char>,
    event_id: Seq<char>,
    ledger: i64,
    tx_hash: Seq<char>,
    event: PoolEvent,
    ops: Seq<StoreOp>,
) -> bool {
    match event {
        PoolEvent::NewCommitment { commitment, leaf_index, deposit_amount, asset } => {
            &&& ops.len() == if deposit_amount is Some && asset is Some {
                2int
            } else {
                1int
            }
            &&& ops[0] matches StoreOp::InsertCommitment { pool: p, leaf_index: li, commitment: c, ledger: l, tx_hash: t }
                && p@ == pool && li == leaf_index && c@ == commitment@ && l == ledger && t@ == tx_hash
            &&& ops.len() == 2 ==> (ops[1] matches StoreOp::RecordFlow { pool: p, event_id: k, asset: a, inflow, outflow }
                && p@ == pool && k@ == event_id && a@ == asset.unwrap()@ && inflow == deposit_amount.unwrap()
                && outflow == 0)
        },
        PoolEvent::NullifierSpent { nullifier } => {
            &&& ops.len() == 1
            &&& ops[0] matches StoreOp::InsertNullifier { pool: p, nullifier: n, ledger: l, tx_hash: t }
                && p@ == pool && n@ == nullifier@ && l == ledger && t@ == tx_hash
        },
        PoolEvent::EncryptedNote { commitment, ephemeral_pubkey, ciphertext } => {
            &&& ops.len() == 1
            &&& ops[0] matches StoreOp::InsertNote { pool: p, commitment: c, ephemeral_pubkey: e, ciphertext: x, ledger: l, tx_hash: t }
                && p@ == pool && c@ == commitment@ && e@ == ephemeral_pubkey@ && x@ == ciphertext@
                && l == ledger && t@ == tx_hash
        },
        PoolEvent::Withdrawal { amount, asset } => {
            &&& ops.len() == 1
            &&& ops[0] matches StoreOp::RecordFlow { pool: p, event_id: k, asset: a, inflow, outflow }
                && p@ == pool && k@ == event_id && a@ == asset@ && inflow == 0 && outflow == amount
        },
        PoolEvent::IssuerUpdated { issuer_id, name, public_key, claim_types, status } => {
            &&& ops.len() == 1
            &&& ops[0] matches StoreOp::UpsertIssuer { issuer_id: i, name: n, public_key: k, claim_types: c, status: s, ledger: l }
                && i@ == issuer_id@ && n@ == name@ && k@ == public_key@
                && c.deep_view() == claim_types.deep_view() && s@ == status@ && l == ledger
        },
    }
}

// ---------------------------------------------------------------------------
// What the writes do to the database
// ---------------------------------------------------------------------------

/// The indexer's tables, by natural key.
pub struct IngestDb {
    /// `(pool, leaf_index)` to `(commitment, ledger, tx_hash)`.
    pub commitments: Map<(Seq<char>, i64), (Seq<u8>, i64, Seq<char>)>,
    /// `(pool, nullifier)` to `(ledger, tx_hash)`.
    pub nullifiers: Map<(Seq<char>, Seq<u8>), (i64, Seq<char>)>,
    /// `(pool, commitment)` to `(ephemeral_pubkey, ciphertext, ledger, tx_hash)`.
    pub notes: Map<(Seq<char>, Seq<u8>), (Seq<u8>, Seq<u8>, i64, Seq<char>)>,
    /// `(pool, event_id)` to `(asset, inflow, outflow)`.
    pub flows: Map<(Seq<char>, Seq<char>), (Seq<char>, int, int)>,
    /// `pool` to `(asset, total_in, total_out)`.
    pub totals: Map<Seq<char>, (Seq<char>, int, int)>,
    /// `issuer_id` to `(name, public_key, claim_types, status, registered_ledger)`.
    pub issuers: Map<Seq<char>, (Seq<char>, Seq<u8>, Seq<Seq<char>>, Seq<char>, i64)>,
}

/// The pool already holds a commitment row with this leaf index or this
/// commitment.
pub open spec fn commitment_taken(db: IngestDb, pool: Seq<char>, leaf_index: i64, c: Seq<u8>) -> bool {
    db.commitments.contains_key((pool, leaf_index)) || exists|k: (Seq<char>, i64)|
        #[trigger] db.commitments.contains_key(k) && k.0 == pool && db.commitments[k].0 == c
}

/// The database after one write.
pub open spec fn apply_op(db: IngestDb, op: StoreOp) -> IngestDb {
    match op {
        StoreOp::InsertCommitment { pool, leaf_index, commitment, ledger, tx_hash } => {
            if commitment_taken(db, pool@, leaf_index, commitment@) {
                db
            } else {
                IngestDb {
                    commitments: db.commitments.insert((pool@, leaf_index), (commitment@, ledger, tx_hash@)),
                    ..db
                }
            }
        },
        StoreOp::InsertNullifier { pool, nullifier, ledger, tx_hash } => {
            if db.nullifiers.contains_key((pool@, nullifier@)) {
                db
            } else {
                IngestDb { nullifiers: db.nullifiers.insert((pool@, nullifier@), (ledger, tx_hash@)), ..db }
            }
        },
        StoreOp::InsertNote { pool, commitment, ephemeral_pubkey, ciphertext, ledger, tx_hash } => {
            if db.notes.contains_key((pool@, commitment@)) {
                db
            } else {
                IngestDb {
                    notes: db.notes.insert(
                        (pool@, commitment@),
                        (ephemeral_pubkey@, ciphertext@, ledger, tx_hash@),
                    ),
                    ..db
                }
            }
        },
        StoreOp::RecordFlow { pool, event_id, asset, inflow, outflow } => {
            if db.flows.contains_key((pool@, event_id@)) {
                db
            } else {
                let total = if db.totals.contains_key(pool@) {
                    let (a, tin, tout) = db.totals[pool@];
                    (a, tin + inflow, tout + outflow)
                } else {
                    (asset@, inflow as int, outflow as int)
                };
                IngestDb {
                    flows: db.flows.insert((pool@, event_id@), (asset@, inflow as int, outflow as int)),
                    totals: db.totals.insert(pool@, total),
                    ..db
                }
            }
        },
        StoreOp::UpsertIssuer { issuer_id, name, public_key, claim_types, status, ledger } => {
            let registered = if db.issuers.contains_key(issuer_id@) {
                db.issuers[issuer_id@].4
            } else {
                ledger
            };
            IngestDb {
                issuers: db.issuers.insert(
                    issuer_id@,
                    (name@, public_key@, claim_types.deep_view(), status@, registered),
                ),
                ..db
            }
        },
    }
}

/// The database after a sequence of writes, in order.
pub open spec fn apply_ops(db: IngestDb, ops: Seq<StoreOp>) -> IngestDb
    decreases ops.len(),
{
    if ops.len() == 0 {
        db
    } else {
        apply_op(apply_ops(db, ops.drop_last()), ops.last())
    }
}

proof fn lemma_op_idempotent(db: IngestDb, op: StoreOp)
    ensures
        apply_op(apply_op(db, op), op) == apply_op(db, op),
{
    let once = apply_op(db, op);
    match op {
        StoreOp::InsertCommitment { pool, leaf_index, commitment, ledger, tx_hash } => {
            if !commitment_taken(db, pool@, leaf_index, commitment@) {
                assert(once.commitments.contains_key((pool@, leaf_index)));
            }
        },
        StoreOp::RecordFlow { pool, event_id, asset, inflow, outflow } => {
            if !db.flows.contains_key((pool@, event_id@)) {
                assert(once.flows.contains_key((pool@, event_id@)));
            }
        },
        StoreOp::UpsertIssuer { issuer_id, name, public_key, claim_types, status, ledger } => {
            assert(once.issuers.contains_key(issuer_id@));
            assert(apply_op(once, op).issuers =~= once.issuers);
        },
        _ => {},
    }
}

/// What storing an event writes: the event's own fields, in their own
/// columns. A new commitment row holds the commitment at its leaf index; a
/// deposit (amount and asset both given) and a withdrawal are recorded as a
/// flow under the event's id and move the pool's totals by their amount;
/// a new nullifier row and a new note row hold the event's values (the
/// note's ephemeral key and ciphertext each in its own column); an issuer
/// row takes the event's name, key, claim types and status, keeping the
/// ledger it was first registered at. Rows whose key is already taken
/// stay as they were.
pub proof fn law_store_writes_event_fields(
    db: IngestDb,
    pool: Seq<char>,
    event_id: Seq<char>,
    ledger: i64,
    tx_hash: Seq<char>,
    event: PoolEvent,
    ops: Seq<StoreOp>,
)
    requires
        spec_store_ops(pool, event_id, ledger, tx_hash, event, ops),
    ensures
        ({
            let after = apply_ops(db, ops);
            match event {
                PoolEvent::NewCommitment { commitment, leaf_index, deposit_amount, asset } => {
                    &&& !commitment_taken(db, pool, leaf_index, commitment@) ==> after.commitments
                        == db.commitments.insert((pool, leaf_index), (commitment@, ledger, tx_hash))
                    &&& commitment_taken(db, pool, leaf_index, commitment@) ==> after.commitments == db.commitments
                    &&& (deposit_amount is Some && asset is Some && !db.flows.contains_key((pool, event_id)))
                        ==> {
                        &&& after.flows == db.flows.insert(
                            (pool, event_id),
                            (asset.unwrap()@, deposit_amount.unwrap() as int, 0),
                        )
                        &&& after.totals[pool] == if db.totals.contains_key(pool) {
                            (
                                db.totals[pool].0,
                                db.totals[pool].1 + deposit_amount.unwrap(),
                                db.totals[pool].2,
                            )
                        } else {
                            (asset.unwrap()@, deposit_amount.unwrap() as int, 0int)
                        }
                    }
                    &&& !(deposit_amount is Some && asset is Some && !db.flows.contains_key((pool, event_id)))
                        ==> after.flows == db.flows && after.totals == db.totals
                    &&& after.nullifiers == db.nullifiers && after.notes == db.notes && after.issuers == db.issuers
                },
                PoolEvent::NullifierSpent { nullifier } => {
                    &&& !db.nullifiers.contains_key((pool, nullifier@)) ==> after.nullifiers
                        == db.nullifiers.insert((pool, nullifier@), (ledger, tx_hash))
                    &&& db.nullifiers.contains_key((pool, nullifier@)) ==> after.nullifiers == db.nullifiers
                    &&& after.commitments == db.commitments && after.notes == db.notes
                    &&& after.flows == db.flows && after.totals == db.totals && after.issuers == db.issuers
                },
                PoolEvent::EncryptedNote { commitment, ephemeral_pubkey, ciphertext } => {
                    &&& !db.notes.contains_key((pool, commitment@)) ==> after.notes == db.notes.insert(
                        (pool, commitment@),
                        (ephemeral_pubkey@, ciphertext@, ledger, tx_hash),
                    )
                    &&& db.notes.contains_key((pool, commitment@)) ==> after.notes == db.notes
                    &&& after.commitments == db.commitments && after.nullifiers == db.nullifiers
                    &&& after.flows == db.flows && after.totals == db.totals && after.issuers == db.issuers
                },
                PoolEvent::Withdrawal { amount, asset } => {
                    &&& !db.flows.contains_key((pool, event_id)) ==> {
                        &&& after.flows == db.flows.insert((pool, event_id), (asset@, 0int, amount as int))
                        &&& after.totals[pool] == if db.totals.contains_key(pool) {
                            (db.totals[pool].0, db.totals[pool].1, db.totals[pool].2 + amount)
                        } else {
                            (asset@, 0int, amount as int)
                        }
                    }
                    &&& db.flows.contains_key((pool, event_id)) ==> after.flows == db.flows && after.totals
                        == db.totals
                    &&& after.commitments == db.commitments && after.nullifiers == db.nullifiers
                    &&& after.notes == db.notes && after.issuers == db.issuers
                },
                PoolEvent::IssuerUpdated { issuer_id, name, public_key, claim_types, status } => {
                    &&& after.issuers == db.issuers.insert(
                        issuer_id@,
                        (
                            name@,
                            public_key@,
                            claim_types.deep_view(),
                            status@,
                            if db.issuers.contains_key(issuer_id@) {
                                db.issuers[issuer_id@].4
                            } else {
                                ledger
                            },
                        ),
                    )
                    &&& after.commitments == db.commitments && after.nullifiers == db.nullifiers
                    &&& after.notes == db.notes && after.flows == db.flows && after.totals == db.totals
                },
            }
        }),
{
    if ops.len() == 1 {
        assert(ops.drop_last() =~= Seq::<StoreOp>::empty());
        assert(apply_ops(db, ops.drop_last()) == db);
        assert(apply_ops(db, ops) == apply_op(db, ops[0]));
    } else {
        assert(ops.drop_last().drop_last() =~= Seq::<StoreOp>::empty());
        assert(ops.drop_last() =~= seq![ops[0]]);
        assert(apply_ops(db, ops.drop_last().drop_last()) == db);
        let a = apply_op(db, ops[0]);
        assert(apply_ops(db, ops.drop_last()) == a);
        assert(apply_ops(db, ops) == apply_op(a, ops[1]));
    }
}

/// The write's effect is already in the database: its key is taken (or,
/// for an issuer, the row already holds these values).
pub open spec fn effect_present(db: IngestDb, op: StoreOp) -> bool {
    match op {
        StoreOp::InsertCommitment { pool, leaf_index, commitment, .. } => commitment_taken(
            db,
            pool@,
            leaf_index,
            commitment@,
        ),
        StoreOp::InsertNullifier { pool, nullifier, .. } => db.nullifiers.contains_key((pool@, nullifier@)),
        StoreOp::InsertNote { pool, commitment, .. } => db.notes.contains_key((pool@, commitment@)),
        StoreOp::RecordFlow { pool, event_id, .. } => db.flows.contains_key((pool@, event_id@)),
        StoreOp::UpsertIssuer { issuer_id, name, public_key, claim_types, status, .. } => {
            &&& db.issuers.contains_key(issuer_id@)
            &&& db.issuers[issuer_id@].0 == name@
            &&& db.issuers[issuer_id@].1 == public_key@
            &&& db.issuers[issuer_id@].2 == claim_types.deep_view()
            &&& db.issuers[issuer_id@].3 == status@
        },
    }
}

proof fn lemma_present_no_change(db: IngestDb, op: StoreOp)
    requires
        effect_present(db, op),
    ensures
        apply_op(db, op) == db,
{
    match op {
        StoreOp::UpsertIssuer { issuer_id, .. } => {
            assert(apply_op(db, op).issuers =~= db.issuers);
        },
        _ => {},
    }
}

proof fn lemma_apply_makes_present(db: IngestDb, op: StoreOp)
    ensures
        effect_present(apply_op(db, op), op),
{
    match op {
        StoreOp::InsertCommitment { pool, leaf_index, commitment, .. } => {
            if commitment_taken(db, pool@, leaf_index, commitment@) {
                let after = apply_op(db, op);
                assert(after == db);
            }
        },
        _ => {},
    }
}

/// Keyed inserts and flows stay present whatever is written later.
proof fn lemma_present_kept(db: IngestDb, op: StoreOp, other: StoreOp)
    requires
        effect_present(db, op),
        !(op is UpsertIssuer),
    ensures
        effect_present(apply_op(db, other), op),
{
    let after = apply_op(db, other);
    match op {
        StoreOp::InsertCommitment { pool, leaf_index, commitment, .. } => {
            assert forall|k: (Seq<char>, i64)| #[trigger] db.commitments.contains_key(k) implies after.commitments.contains_key(k)
                && after.commitments[k] == db.commitments[k] by {}
            if db.commitments.contains_key((pool@, leaf_index)) {
            } else {
                let k = choose|k: (Seq<char>, i64)|
                    #[trigger] db.commitments.contains_key(k) && k.0 == pool@ && db.commitments[k].0 == commitment@;
                assert(after.commitments.contains_key(k));
            }
        },
        _ => {},
    }
}

proof fn lemma_present_kept_all(db: IngestDb, op: StoreOp, later: Seq<StoreOp>)
    requires
        effect_present(db, op),
        !(op is UpsertIssuer),
    ensures
        effect_present(apply_ops(db, later), op),
    decreases later.len(),
{
    if later.len() > 0 {
        lemma_present_kept_all(db, op, later.drop_last());
        lemma_present_kept(apply_ops(db, later.drop_last()), op, later.last());
    }
}

/// Every write of a plan is present once the plan was applied.
proof fn lemma_plan_present(
    db: IngestDb,
    pool: Seq<char>,
    event_id: Seq<char>,
    ledger: i64,
    tx_hash: Seq<char>,
    event: PoolEvent,
    ops: Seq<StoreOp>,
)
    requires
        spec_store_ops(pool, event_id, ledger, tx_hash, event, ops),
    ensures
        forall|j: int| 0 <= j < ops.len() ==> #[trigger] effect_present(apply_ops(db, ops), ops[j]),
        forall|j: int| 0 <= j < ops.len() ==> !(event is IssuerUpdated) ==> !(#[trigger] ops[j] is UpsertIssuer),
{
    if ops.len() == 1 {
        assert(ops.drop_last() =~= Seq::<StoreOp>::empty());
        assert(apply_ops(db, ops.drop_last()) == db);
        lemma_apply_makes_present(db, ops[0]);
    } else {
        assert(ops.drop_last().drop_last() =~= Seq::<StoreOp>::empty());
        assert(ops.drop_last() =~= seq![ops[0]]);
        assert(apply_ops(db, ops.drop_last().drop_last()) == db);
        let a = apply_op(db, ops[0]);
        assert(apply_ops(db, ops.drop_last()) == a);
        lemma_apply_makes_present(db, ops[0]);
        lemma_apply_makes_present(a, ops[1]);
        lemma_present_kept(a, ops[0], ops[1]);
    }
}

/// Replaying an event whose writes are all present changes nothing.
proof fn lemma_replay_present(db: IngestDb, ops: Seq<StoreOp>)
    requires
        forall|j: int| 0 <= j < ops.len() ==> #[trigger] effect_present(db, ops[j]),
        ops.len() <= 2,
    ensures
        apply_ops(db, ops) == db,
    decreases ops.len(),
{
    if ops.len() > 0 {
        assert forall|j: int| 0 <= j < ops.drop_last().len() implies #[trigger] effect_present(
            db,
            ops.drop_last()[j],
        ) by {
            assert(ops.drop_last()[j] == ops[j]);
        }
        lemma_replay_present(db, ops.drop_last());
        assert(effect_present(db, ops[ops.len() - 1]));
        lemma_present_no_change(db, ops.last());
    }
}

/// Ingest survives a cursor reset: once a pool event (any event but an
/// issuer update) was stored, storing it again later, after any other
/// writes, changes nothing. (An issuer update is an upsert: replayed after
/// a newer update of the same issuer it writes its own values again.)
pub proof fn law_replay_after_later_writes(
    db: IngestDb,
    pool: Seq<char>,
    event_id: Seq<char>,
    ledger: i64,
    tx_hash: Seq<char>,
    event: PoolEvent,
    ops: Seq<StoreOp>,
    later: Seq<StoreOp>,
)
    requires
        spec_store_ops(pool, event_id, ledger, tx_hash, event, ops),
        !(event is IssuerUpdated),
    ensures
        ({
            let now = apply_ops(apply_ops(db, ops), later);
            apply_ops(now, ops) == now
        }),
{
    let stored = apply_ops(db, ops);
    let now = apply_ops(stored, later);
    lemma_plan_present(db, pool, event_id, ledger, tx_hash, event, ops);
    assert forall|j: int| 0 <= j < ops.len() implies #[trigger] effect_present(now, ops[j]) by {
        assert(effect_present(stored, ops[j]));
        assert(!(ops[j] is UpsertIssuer));
        lemma_present_kept_all(stored, ops[j], later);
    }
    lemma_replay_present(now, ops);
}

/// Ingest is idempotent: storing the same event a second time (a replay
/// after a cursor reset or a crash-restart) leaves the database as the
/// first store left it, for every kind of event.
pub proof fn law_replay_adds_nothing(
    db: IngestDb,
    pool: Seq<char>,
    event_id: Seq<char>,
    ledger: i64,
    tx_hash: Seq<char>,
    event: PoolEvent,
    ops: Seq<StoreOp>,
)
    requires
        spec_store_ops(pool, event_id, ledger, tx_hash, event, ops),
    ensures
        apply_ops(apply_ops(db, ops), ops) == apply_ops(db, ops),
{
    assert(ops.len() == 1 || ops.len() == 2);
    if ops.len() == 1 {
        assert(ops.drop_last() =~= Seq::<StoreOp>::empty());
        assert(apply_ops(db, ops.drop_last()) == db);
        let once = apply_op(db, ops[0]);
        assert(apply_ops(once, ops.drop_last()) == once);
        assert(apply_ops(db, ops) == once);
        assert(apply_ops(once, ops) == apply_op(once, ops[0]));
        lemma_op_idempotent(db, ops[0]);
    } else {
        assert(ops.drop_last().drop_last() =~= Seq::<StoreOp>::empty());
        assert(ops.drop_last() =~= seq![ops[0]]);
        assert(apply_ops(db, ops.drop_last().drop_last()) == db);
        let a = apply_op(db, ops[0]);
        let b = apply_op(a, ops[1]);
        assert(apply_ops(db, ops.drop_last()) == a);
        assert(apply_ops(b, ops.drop_last().drop_last()) == b);
        assert(apply_ops(b, ops.drop_last()) == apply_op(b, ops[0]));
        assert(apply_ops(db, ops) == b);
        assert(apply_ops(b, ops) == apply_op(apply_op(b, ops[0]), ops[1]));
        // The commitment row is already there, and the flow does not touch
        // the commitments.
        lemma_op_idempotent(db, ops[0]);
        assert(apply_op(b, ops[0]) == b) by {
            match ops[0] {
                StoreOp::InsertCommitment { pool: p, leaf_index: li, commitment: c, .. } => {
                    assert(b.commitments == a.commitments);
                    assert(commitment_taken(a, p@, li, c@)) by {
                        if !commitment_taken(db, p@, li, c@) {
                            assert(a.commitments.contains_key((p@, li)));
                        } else if db.commitments.contains_key((p@, li)) {
                        } else {
                            let k = choose|k: (Seq<char>, i64)|
                                #[trigger] db.commitments.contains_key(k) && k.0 == p@
                                    && db.commitments[k].0 == c@;
                            assert(a.commitments.contains_key(k));
                        }
                    }
                },
                _ => {},
            }
        }
        lemma_op_idempotent(b, ops[1]);
        assert(apply_op(b, ops[1]) == b) by {
            match ops[1] {
                StoreOp::RecordFlow { pool: p, event_id: k, .. } => {
                    assert(b.flows.contains_key((p@, k@)));
                },
                _ => {},
            }
        }
    }
}

fn bytes_of(node: &[u8; 32]) -> (v: Vec<u8>)
    ensures
        v@ == node@,
{
    let mut v: Vec<u8> = Vec::with_capacity(32);
    for i in 0..32
        invariant
            v@ == node@.take(i as int),
    {
        v.push(node[i]);
        assert(v@ == node@.take(i + 1));
    }
    assert(node@.take(32) == node@);
    v
}

/// The writes of one decoded event, which had id `event_id`.
pub fn store_ops(pool: &str, event_id: &str, ledger: i64, tx_hash: &str, event: PoolEvent) -> (ops: Vec<StoreOp>)
    ensures
        spec_store_ops(pool@, event_id@, ledger, tx_hash@, event, ops@),
{
    let mut ops: Vec<StoreOp> = Vec::new();
    match event {
        PoolEvent::NewCommitment { commitment, leaf_index, deposit_amount, asset } => {
            ops.push(
                StoreOp::InsertCommitment {
                    pool: String::from_str(pool),
                    leaf_index,
                    commitment: bytes_of(&commitment),
                    ledger,
                    tx_hash: String::from_str(tx_hash),
                },
            );
            match (deposit_amount, asset) {
                (Some(amount), Some(asset)) => {
                    ops.push(
                        StoreOp::RecordFlow {
                            pool: String::from_str(pool),
                            event_id: String::from_str(event_id),
                            asset,
                            inflow: amount,
                            outflow: 0,
                        },
                    );
                },
                _ => {},
            }
        },
        PoolEvent::NullifierSpent { nullifier } => {
            ops.push(
                StoreOp::InsertNullifier {
                    pool: String::from_str(pool),
                    nullifier: bytes_of(&nullifier),
                    ledger,
                    tx_hash: String::from_str(tx_hash),
                },
            );
        },
        PoolEvent::EncryptedNote { commitment, ephemeral_pubkey, ciphertext } => {
            ops.push(
                StoreOp::InsertNote {
                    pool: String::from_str(pool),
                    commitment: bytes_of(&commitment),
                    ephemeral_pubkey,
                    ciphertext,
                    ledger,
                    tx_hash: String::from_str(tx_hash),
                },
            );
        },
        PoolEvent::Withdrawal { amount, asset } => {
            ops.push(
                StoreOp::RecordFlow {
                    pool: String::from_str(pool),
                    event_id: String::from_str(event_id),
                    asset,
                    inflow: 0,
                    outflow: amount,
                },
            );
        },
        PoolEvent::IssuerUpdated { issuer_id, name, public_key, claim_types, status } => {
            ops.push(
                StoreOp::UpsertIssuer { issuer_id, name, public_key, claim_types, status, ledger },
            );
        },
    }
    ops
}

} // verus!
