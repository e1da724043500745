-- Natural keys that make every indexer write idempotent.

-- One encrypted note per output commitment of a pool.
CREATE UNIQUE INDEX IF NOT EXISTS encrypted_notes_pool_commitment
    ON encrypted_notes (pool, commitment);

-- Public flows in and out of a pool, one row per event that carried one.
-- pool_totals moves only when a row here is new.
CREATE TABLE IF NOT EXISTS pool_flows (
    pool      TEXT    NOT NULL,
    event_id  TEXT    NOT NULL,
    asset     TEXT    NOT NULL,
    inflow    NUMERIC NOT NULL,
    outflow   NUMERIC NOT NULL,
    PRIMARY KEY (pool, event_id)
);
