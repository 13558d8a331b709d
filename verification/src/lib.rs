//! Conversion of vCard contacts into JSON records whose fields are keyed by
//! absolute property identifiers.
//!
//! A contact is a list of tagged properties. Its record carries a fixed
//! classification, a display name, a local identifier, one collection for
//! each array tag that the contact has, its birth date, and a bucket with
//! every property that no rule classifies.
//!
//! - `property`: a property and its view
//! - `description`: the description string of a property's parameters
//! - `classify`: the policy table
//! - `emit`: entities, scalars and bucket entries
//! - `group`: grouping by tag
//! - `record`: emission of a list of groups into the fields of a record
//! - `contact`: the record of a contact, stated over its properties
//! - `driver`: from the bytes of a file to the array of records
//! - `laws`: what holds of every record
//! - `json`: the documents, and the calls into `serde_json`
//! - `error`: why a contact has no record

pub mod classify;
pub mod contact;
pub mod description;
pub mod driver;
pub mod emit;
pub mod error;
pub mod group;
pub mod json;
pub mod laws;
pub mod property;
pub mod record;
