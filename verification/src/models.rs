//! Rows served by the API and written by the indexer. Byte columns are
//! rendered as `0x`-hex in JSON (see [`hex_bytes`]).

use vstd::prelude::*;

pub mod hex_bytes;

verus! {

/// A commitment-tree leaf mirrored from chain events.
pub struct CommitmentRow {
    pub pool: String,
    pub leaf_index: i64,
    pub commitment: Vec<u8>,
    pub ledger: i64,
    pub tx_hash: String,
}

/// A spent-note nullifier mirrored from chain events.
pub struct NullifierRow {
    pub pool: String,
    pub nullifier: Vec<u8>,
    pub ledger: i64,
    pub tx_hash: String,
}

/// An encrypted note blob. Ciphertext only — the relay cannot decrypt it.
pub struct EncryptedNoteRow {
    /// Monotonic id, used as the pagination cursor.
    pub id: i64,
    pub pool: String,
    pub commitment: Vec<u8>,
    pub ephemeral_pubkey: Vec<u8>,
    pub ciphertext: Vec<u8>,
    pub ledger: i64,
    pub tx_hash: String,
}

/// Issuer registry mirror entry (public on-chain state).
pub struct IssuerRow {
    pub issuer_id: String,
    pub name: String,
    pub public_key: Vec<u8>,
    pub claim_types: Vec<String>,
    pub status: String,
    pub registered_ledger: i64,
}

/// Public protocol statistics (everything here is public by construction).
pub struct ProtocolStats {
    pub pools: Vec<PoolStats>,
    pub total_commitments: i64,
    pub total_nullifiers: i64,
    pub active_issuers: i64,
    pub credentials_delivered: i64,
}

pub struct PoolStats {
    pub pool: String,
    pub asset: String,
    /// TVL as a decimal string: deposits minus withdrawals.
    pub tvl: String,
}

} // verus!
