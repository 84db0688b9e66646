//! Field-level codec adapters: each module pairs a `read` (wire to typed)
//! and a `write` (typed to wire) operation for one kind of field, with the
//! round-trip and canonical-write laws proved where they hold.

pub mod decimal;
pub mod hex;
pub mod naivedatetime;
pub mod optional_nullable;
pub mod query_sequence;
pub mod str_enum;
pub mod stringified;
