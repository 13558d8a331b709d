//! The policy table: which tag is emitted how, and under which keys.

use vstd::prelude::*;
use vstd::string::*;

verus! {

/// Key of the classification field that every record and entity carries.
pub const IS_A_KEY: &'static str = "https://atomicdata.dev/properties/isA";

/// Key of the optional description of an entity.
pub const DESCRIPTION_KEY: &'static str = "https://atomicdata.dev/properties/description";

/// Key of the display name of a record.
pub const NAME_KEY: &'static str = "https://atomicdata.dev/properties/name";

/// Key of the local identifier of a record.
pub const LOCAL_ID_KEY: &'static str = "https://atomicdata.dev/properties/localId";

/// Key of the bucket of unclassified properties of a record.
pub const UNKNOWNS_KEY: &'static str = "https://atomicdata.dev/properties/vCardUnknowns";

/// Key of the tag name of an unclassified entry.
pub const UNKNOWN_TAG_KEY: &'static str = "https://atomicdata.dev/properties/key";

/// Key of the value of an unclassified entry.
pub const UNKNOWN_VALUE_KEY: &'static str = "https://atomicdata.dev/properties/atom/value";

/// Classification label of a record.
pub const PERSON_CLASS: &'static str = "https://atomicdata.dev/classes/Person";

/// Classification label of an unclassified entry.
pub const UNKNOWN_CLASS: &'static str = "https://atomicdata.dev/classes/VCardUnknown";

/// How the properties of one tag are emitted.
#[derive(Debug)]
pub enum Policy {
    /// One entity per property, collected in an array under `collection_key`.
    Array { class_label: &'static str, field_key: &'static str, collection_key: &'static str },
    /// Exactly one property, emitted as a bare string under `field_key`.
    Singleton { field_key: &'static str },
    /// Consumed when the record's name and identifier are derived.
    Skip,
    /// No rule: collected in the bucket of unclassified properties.
    Unknown,
}

/// The policy of a tag. Tags are compared exactly, in the case given.
pub open spec fn policy_of(tag: Seq<char>) -> Policy {
    if tag == "TEL"@ {
        Policy::Array {
            class_label: "https://atomicdata.dev/classes/PhoneNumber",
            field_key: "https://atomicdata.dev/properties/phoneNumber",
            collection_key: "https://atomicdata.dev/properties/phoneNumbers",
        }
    } else if tag == "ADR"@ {
        Policy::Array {
            class_label: "https://atomicdata.dev/classes/Adress",
            field_key: "https://atomicdata.dev/properties/adress",
            collection_key: "https://atomicdata.dev/properties/adresses",
        }
    } else if tag == "EMAIL"@ {
        Policy::Array {
            class_label: "https://atomicdata.dev/classes/EmailAddress",
            field_key: "https://atomicdata.dev/properties/emailAddress",
            collection_key: "https://atomicdata.dev/properties/emailAddresses",
        }
    } else if tag == "BDAY"@ {
        Policy::Singleton { field_key: "https://atomicdata.dev/properties/birthdate" }
    } else if tag == "VERSION"@ || tag == "FN"@ || tag == "N"@ {
        Policy::Skip
    } else {
        Policy::Unknown
    }
}

/// Whether a string holds exactly the given text.
pub fn has_text(tag: &String, text: &str) -> (same: bool)
    ensures
        same == (tag@ == text@),
{
    let other = String::from_str(text);
    *tag == other
}

/// Looks a tag up in the policy table.
pub fn classify(tag: &String) -> (policy: Policy)
    ensures
        policy == policy_of(tag@),
{
    if has_text(tag, "TEL") {
        Policy::Array {
            class_label: "https://atomicdata.dev/classes/PhoneNumber",
            field_key: "https://atomicdata.dev/properties/phoneNumber",
            collection_key: "https://atomicdata.dev/properties/phoneNumbers",
        }
    } else if has_text(tag, "ADR") {
        Policy::Array {
            class_label: "https://atomicdata.dev/classes/Adress",
            field_key: "https://atomicdata.dev/properties/adress",
            collection_key: "https://atomicdata.dev/properties/adresses",
        }
    } else if has_text(tag, "EMAIL") {
        Policy::Array {
            class_label: "https://atomicdata.dev/classes/EmailAddress",
            field_key: "https://atomicdata.dev/properties/emailAddress",
            collection_key: "https://atomicdata.dev/properties/emailAddresses",
        }
    } else if has_text(tag, "BDAY") {
        Policy::Singleton { field_key: "https://atomicdata.dev/properties/birthdate" }
    } else if has_text(tag, "VERSION") || has_text(tag, "FN") || has_text(tag, "N") {
        Policy::Skip
    } else {
        Policy::Unknown
    }
}

} // verus!
