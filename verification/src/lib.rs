//! A to-do list kept in a remote key-value store: a record per item, keyed by
//! a content hash of its fields, beside one index ordered by due date.
//!
//! The library holds the verified core: item identity, the record codec, the
//! store semantics (records plus a date-ordered index), and the repository
//! operations over them. Connecting to a real server and running its commands
//! is left to the surrounding program.

mod cli;
mod codec;
mod errors;
mod item;
mod keys;
mod repo;
mod store;

pub use cli::{resolve_ordinal, select_ordinal, Cli, Command, RedisCommand};
pub use codec::{
    decode_record, decoded_item, encode_record, record_of, rfc3339_of, rfc3339_ts, RecordModel,
    StoredRecord,
};
pub use errors::Error;
pub use item::{
    identity_of, lemma_identity_deterministic, spec_identity, wf_item, ItemModel, ToDoItem, TS_MAX,
    TS_MIN,
};
pub use keys::{dec_str, index_key, index_key_of, record_key, record_key_of, u64_to_dec};
pub use repo::{
    entry_ok, lemma_deleted_absent, lemma_listing_sorted, lemma_listing_under_inv,
    lemma_round_trip, lemma_update_semantics, list_upto, listing_model, repo_inv, stored_entry,
    views_of, Repository,
};
pub use store::{
    lemma_pairs_map_absent, lemma_pairs_map_get, lemma_pairs_map_insert, lemma_pairs_map_key_at,
    lemma_pairs_map_key_exists, lemma_pairs_map_push, lemma_pairs_map_remove, pairs_map,
    rec_pairs_model, sorted_scores, unique_keys, Store, StoreModel,
};
