//! Reconciliation of a ledger of transaction rows against a folder of receipt files.
//!
//! The library holds the session state: the ledger rows, one metadata record per
//! row (hidden flag, assigned receipt), the pool of unassigned receipts, the
//! index of displayed rows, and the canonical file name of a row's receipt.
//! Reading files, the directory scan, the state file's serialization and the
//! user interface live outside it; they hand plain values in and take them back.

pub mod ledger;
pub mod naming;
pub mod project;
pub mod rowmetadata;

pub use ledger::CsvRow;
pub use project::{Project, ProjectError, RenameStep, StateData};
pub use rowmetadata::RowMetaData;
