//! An embedded, ordered key-value storage engine: point operations, atomic
//! batched writes, ordered iteration, and backup/restore, with the whole
//! client-visible contract stated and verified.

pub mod backup;
pub mod batch;
pub mod db;
pub mod errors;
pub mod iterator;
pub mod keyspace;
pub mod laws;
pub mod order;
