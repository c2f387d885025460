//! An access-control ledger for encrypted documents: records owned by one
//! identity, each with a bounded list of per-recipient wrapped content keys
//! that the owner may grant, rotate and revoke.

pub mod identity;
pub mod ledger;
pub mod laws;

pub use identity::Identity;
pub use ledger::{
    AccessEntry, AccessEntryView, Config, CreateRecord, ErrorCode, GrantAccess, Initialize,
    Record, RecordView, RevokeAccess, create_record, grant_access, initialize, revoke_access,
};
