//! Block-building core: picks fragments out of a pending pool into the
//! contents of the next block, against a working copy of the ledger.
pub mod fragment;
pub mod logs;
pub mod pool;
pub mod selection;
pub mod witness;
