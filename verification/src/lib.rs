//! A minimal in-memory record store with an `insert`/`select` interface.
//!
//! Rows have a fixed schema (`id`, `username`, `email`) and are kept in a
//! paginated byte arena: each row is encoded into a fixed-width slot inside
//! a lazily allocated fixed-size page.  The row codec, the slot addressing
//! arithmetic and the capacity bookkeeping are all verified.

pub mod input;
pub mod row;
pub mod statement;
pub mod table;
