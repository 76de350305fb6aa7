//! Verified model of the Windows security object graph.
//!
//! The platform hands out security identifiers (SIDs), access-control lists
//! (ACLs) made of access-control entries (ACEs), and self-relative security
//! descriptors as variable-length byte records. This crate decodes and
//! builds those records with contracts that state, field by field, what each
//! accessor returns, and models trustees and the textual SID form.
//!
//! Calls into the platform itself belong to the caller: the caller hands the
//! bytes the platform returned to the constructors here, and hands the bytes
//! built here back to the platform.

mod bytes;
pub mod constants;
pub mod sid;
pub mod sid_text;
pub mod sizing;
pub mod ace;
pub mod acl;
pub mod sd;
pub mod secure;
pub mod trustee;
pub mod utilities;
