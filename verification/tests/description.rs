use vcard_json::classify::{classify, has_text, Policy};
use vcard_json::description::{join_values, synthesize_description};

fn param(name: &str, values: &[&str]) -> (String, Vec<String>) {
    (name.to_string(), values.iter().map(|value| value.to_string()).collect())
}

#[test]
fn description_of_absent_params_is_omitted() {
    assert_eq!(synthesize_description(&None), None);
}

#[test]
fn description_of_empty_params_is_omitted() {
    assert_eq!(synthesize_description(&Some(vec![])), None);
}

#[test]
fn description_of_two_type_params() {
    let params = Some(vec![param("TYPE", &["WORK"]), param("TYPE", &["pref"])]);
    assert_eq!(synthesize_description(&params), Some("TYPE=WORK,TYPE=pref,".to_string()));
}

#[test]
fn description_of_one_param_ends_with_comma() {
    let params = Some(vec![param("TYPE", &["WORK"])]);
    assert_eq!(synthesize_description(&params), Some("TYPE=WORK,".to_string()));
}

#[test]
fn description_joins_values_with_dash() {
    let params = Some(vec![param("TYPE", &["HOME", "pref"]), param("VALUE", &["uri"])]);
    assert_eq!(synthesize_description(&params), Some("TYPE=HOME-pref,VALUE=uri,".to_string()));
}

#[test]
fn description_of_param_without_values() {
    let params = Some(vec![param("TYPE", &[])]);
    assert_eq!(synthesize_description(&params), Some("TYPE=,".to_string()));
}

#[test]
fn join_values_of_none_one_and_many() {
    assert_eq!(join_values(&vec![]), "");
    assert_eq!(join_values(&vec!["a".to_string()]), "a");
    assert_eq!(join_values(&vec!["a".to_string(), "b".to_string(), "c".to_string()]), "a-b-c");
    assert_eq!(join_values(&vec!["".to_string(), "b".to_string()]), "-b");
}

#[test]
fn has_text_compares_exactly() {
    assert!(has_text(&"TEL".to_string(), "TEL"));
    assert!(!has_text(&"tel".to_string(), "TEL"));
    assert!(!has_text(&"TEL ".to_string(), "TEL"));
}

#[test]
fn classify_array_tags() {
    assert!(matches!(
        classify(&"TEL".to_string()),
        Policy::Array {
            class_label: "https://atomicdata.dev/classes/PhoneNumber",
            field_key: "https://atomicdata.dev/properties/phoneNumber",
            collection_key: "https://atomicdata.dev/properties/phoneNumbers",
        }
    ));
    assert!(matches!(
        classify(&"ADR".to_string()),
        Policy::Array {
            class_label: "https://atomicdata.dev/classes/Adress",
            field_key: "https://atomicdata.dev/properties/adress",
            collection_key: "https://atomicdata.dev/properties/adresses",
        }
    ));
    assert!(matches!(
        classify(&"EMAIL".to_string()),
        Policy::Array {
            class_label: "https://atomicdata.dev/classes/EmailAddress",
            field_key: "https://atomicdata.dev/properties/emailAddress",
            collection_key: "https://atomicdata.dev/properties/emailAddresses",
        }
    ));
}

#[test]
fn classify_singleton_skip_and_unknown() {
    assert!(matches!(
        classify(&"BDAY".to_string()),
        Policy::Singleton { field_key: "https://atomicdata.dev/properties/birthdate" }
    ));
    assert!(matches!(classify(&"VERSION".to_string()), Policy::Skip));
    assert!(matches!(classify(&"FN".to_string()), Policy::Skip));
    assert!(matches!(classify(&"N".to_string()), Policy::Skip));
    assert!(matches!(classify(&"NOTE".to_string()), Policy::Unknown));
    assert!(matches!(classify(&"item1.ADR".to_string()), Policy::Unknown));
    assert!(matches!(classify(&"tel".to_string()), Policy::Unknown));
    assert!(matches!(classify(&"".to_string()), Policy::Unknown));
}
