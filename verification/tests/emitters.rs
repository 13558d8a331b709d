use vcard_json::emit::{
    parse_array_property, parse_params, parse_single_property, parse_unknown_property, unknown_entry,
};
use vcard_json::error::AssemblyError;
use vcard_json::group::{find_group, group_properties};
use vcard_json::property::Property;
use vcard_json::record::{get_vcard_value, parse_grouped_properties};

fn prop(name: &str, value: Option<&str>, params: Option<Vec<(&str, Vec<&str>)>>) -> Property {
    Property {
        name: name.to_string(),
        value: value.map(|text| text.to_string()),
        params: params.map(|list| {
            list.into_iter()
                .map(|(key, values)| (key.to_string(), values.into_iter().map(|v| v.to_string()).collect()))
                .collect()
        }),
    }
}

fn json(text: &str) -> serde_json::Value {
    serde_json::from_str(text).unwrap()
}

const PHONE_CLASS: &str = "https://atomicdata.dev/classes/PhoneNumber";
const PHONE_KEY: &str = "https://atomicdata.dev/properties/phoneNumber";

#[test]
fn entity_with_description() {
    let property = prop("TEL", Some("+1 617 555 1212"), Some(vec![("TYPE", vec!["WORK"])]));
    let entity = parse_params(&property, PHONE_CLASS, PHONE_KEY).unwrap();
    assert_eq!(
        entity,
        json(
            r#"{
                "https://atomicdata.dev/properties/isA": ["https://atomicdata.dev/classes/PhoneNumber"],
                "https://atomicdata.dev/properties/phoneNumber": "+1 617 555 1212",
                "https://atomicdata.dev/properties/description": "TYPE=WORK,"
            }"#
        )
    );
}

#[test]
fn entity_without_params_has_no_description() {
    let property = prop("TEL", Some("112"), None);
    let entity = parse_params(&property, PHONE_CLASS, PHONE_KEY).unwrap();
    assert_eq!(
        entity,
        json(
            r#"{
                "https://atomicdata.dev/properties/isA": ["https://atomicdata.dev/classes/PhoneNumber"],
                "https://atomicdata.dev/properties/phoneNumber": "112"
            }"#
        )
    );
    let empty = prop("TEL", Some("112"), Some(vec![]));
    assert_eq!(parse_params(&empty, PHONE_CLASS, PHONE_KEY).unwrap(), entity);
}

#[test]
fn entity_of_property_without_value_is_omitted() {
    let property = prop("TEL", None, Some(vec![("TYPE", vec!["WORK"])]));
    assert_eq!(parse_params(&property, PHONE_CLASS, PHONE_KEY), None);
}

#[test]
fn entity_field_key_replaces_classification_of_same_key() {
    let property = prop("TEL", Some("112"), None);
    let entity = parse_params(&property, PHONE_CLASS, "https://atomicdata.dev/properties/isA").unwrap();
    assert_eq!(entity, json(r#"{"https://atomicdata.dev/properties/isA": "112"}"#));
}

#[test]
fn array_keeps_order_and_drops_valueless() {
    let first = prop("TEL", Some("1"), Some(vec![("TYPE", vec!["HOME"])]));
    let second = prop("TEL", None, Some(vec![("TYPE", vec!["WORK"])]));
    let third = prop("TEL", Some("3"), None);
    let list = parse_array_property(PHONE_CLASS, PHONE_KEY, &vec![&first, &second, &third]);
    assert_eq!(
        list,
        json(
            r#"[
                {
                    "https://atomicdata.dev/properties/isA": ["https://atomicdata.dev/classes/PhoneNumber"],
                    "https://atomicdata.dev/properties/phoneNumber": "1",
                    "https://atomicdata.dev/properties/description": "TYPE=HOME,"
                },
                {
                    "https://atomicdata.dev/properties/isA": ["https://atomicdata.dev/classes/PhoneNumber"],
                    "https://atomicdata.dev/properties/phoneNumber": "3"
                }
            ]"#
        )
    );
}

#[test]
fn array_of_no_property_is_empty() {
    assert_eq!(parse_array_property(PHONE_CLASS, PHONE_KEY, &vec![]), json("[]"));
    let valueless = prop("TEL", None, None);
    assert_eq!(parse_array_property(PHONE_CLASS, PHONE_KEY, &vec![&valueless]), json("[]"));
}

#[test]
fn unknown_entry_carries_tag_value_and_description() {
    let property = prop("item3.URL", Some("http\\://www.example/com/doe"), Some(vec![("TYPE", vec!["pref"])]));
    assert_eq!(
        unknown_entry(&property).unwrap(),
        json(
            r#"{
                "https://atomicdata.dev/properties/isA": ["https://atomicdata.dev/classes/VCardUnknown"],
                "https://atomicdata.dev/properties/key": "item3.URL",
                "https://atomicdata.dev/properties/atom/value": "http\\://www.example/com/doe",
                "https://atomicdata.dev/properties/description": "TYPE=pref,"
            }"#
        )
    );
    assert_eq!(unknown_entry(&prop("NOTE", None, None)), None);
}

#[test]
fn unknown_group_is_appended_to_the_bucket() {
    let note = prop("NOTE", Some("first"), None);
    let empty = prop("NOTE", None, None);
    let other = prop("NOTE", Some("second"), None);
    let mut bucket = vec![json(r#""kept""#)];
    parse_unknown_property(&vec![&note, &empty, &other], &mut bucket);
    assert_eq!(bucket.len(), 3);
    assert_eq!(bucket[0], json(r#""kept""#));
    assert_eq!(bucket[1]["https://atomicdata.dev/properties/atom/value"], json(r#""first""#));
    assert_eq!(bucket[1]["https://atomicdata.dev/properties/key"], json(r#""NOTE""#));
    assert_eq!(bucket[2]["https://atomicdata.dev/properties/atom/value"], json(r#""second""#));
}

#[test]
fn single_property_gives_bare_string() {
    let birth = prop("BDAY", Some("19910101"), Some(vec![("VALUE", vec!["date"])]));
    let scalar = parse_single_property(&"BDAY".to_string(), &vec![&birth]).unwrap();
    assert_eq!(scalar, json(r#""19910101""#));
}

#[test]
fn single_property_twice_is_a_cardinality_error() {
    let one = prop("BDAY", Some("19910101"), None);
    let two = prop("BDAY", Some("19920202"), None);
    let error = parse_single_property(&"BDAY".to_string(), &vec![&one, &two]).unwrap_err();
    assert!(matches!(error, AssemblyError::Cardinality { tag } if tag == "BDAY"));
}

#[test]
fn single_property_without_value_is_a_missing_value_error() {
    let birth = prop("BDAY", None, None);
    let error = parse_single_property(&"BDAY".to_string(), &vec![&birth]).unwrap_err();
    assert!(matches!(error, AssemblyError::MissingValue { tag } if tag == "BDAY"));
    let error = parse_single_property(&"BDAY".to_string(), &vec![]).unwrap_err();
    assert!(matches!(error, AssemblyError::MissingValue { tag } if tag == "BDAY"));
}

#[test]
fn grouping_keeps_first_appearance_and_source_order() {
    let properties = vec![
        prop("TEL", Some("1"), None),
        prop("NOTE", Some("a"), None),
        prop("TEL", Some("2"), None),
        prop("tel", Some("lower"), None),
        prop("NOTE", None, None),
        prop("TEL", Some("3"), None),
    ];
    let groups = group_properties(&properties);
    let names: Vec<&str> = groups.iter().map(|group| group.name.as_str()).collect();
    assert_eq!(names, vec!["TEL", "NOTE", "tel"]);
    let phones: Vec<Option<&str>> = groups[0].members.iter().map(|p| p.value.as_deref()).collect();
    assert_eq!(phones, vec![Some("1"), Some("2"), Some("3")]);
    let notes: Vec<Option<&str>> = groups[1].members.iter().map(|p| p.value.as_deref()).collect();
    assert_eq!(notes, vec![Some("a"), None]);
    assert_eq!(groups[2].members.len(), 1);
    let total: usize = groups.iter().map(|group| group.members.len()).sum();
    assert_eq!(total, properties.len());
}

#[test]
fn grouping_nothing_gives_no_group() {
    assert!(group_properties(&vec![]).is_empty());
}

#[test]
fn find_group_by_exact_name() {
    let properties = vec![prop("FN", Some("x"), None), prop("N", Some("y"), None)];
    let groups = group_properties(&properties);
    assert_eq!(find_group(&groups, &"N".to_string()), Some(1));
    assert_eq!(find_group(&groups, &"FN".to_string()), Some(0));
    assert_eq!(find_group(&groups, &"fn".to_string()), None);
}

#[test]
fn vcard_value_is_that_of_the_first_property() {
    let properties = vec![
        prop("FN", Some("John Doe"), None),
        prop("FN", Some("Other"), None),
        prop("N", None, None),
        prop("N", Some("Doe;John"), None),
    ];
    let groups = group_properties(&properties);
    assert_eq!(get_vcard_value("FN", &groups), Some("John Doe".to_string()));
    assert_eq!(get_vcard_value("N", &groups), None);
    assert_eq!(get_vcard_value("VERSION", &groups), None);
}

#[test]
fn grouped_properties_set_collections_and_bucket() {
    let properties = vec![
        prop("NOTE", Some("n"), None),
        prop("EMAIL", Some("a@b.c"), None),
        prop("FN", Some("ignored"), None),
        prop("BDAY", Some("19910101"), None),
    ];
    let groups = group_properties(&properties);
    let mut map = serde_json::Map::new();
    map.insert("kept".to_string(), json("1"));
    parse_grouped_properties(&mut map, &groups).unwrap();
    let keys: Vec<&str> = map.keys().map(|key| key.as_str()).collect();
    assert_eq!(
        keys,
        vec![
            "https://atomicdata.dev/properties/birthdate",
            "https://atomicdata.dev/properties/emailAddresses",
            "https://atomicdata.dev/properties/vCardUnknowns",
            "kept",
        ]
    );
    assert_eq!(map["https://atomicdata.dev/properties/birthdate"], json(r#""19910101""#));
    assert_eq!(map["https://atomicdata.dev/properties/vCardUnknowns"].as_array().unwrap().len(), 1);
}

#[test]
fn grouped_properties_stop_at_a_bad_birth_date() {
    let properties = vec![
        prop("EMAIL", Some("a@b.c"), None),
        prop("BDAY", Some("19910101"), None),
        prop("TEL", Some("1"), None),
        prop("BDAY", Some("19920202"), None),
    ];
    let groups = group_properties(&properties);
    let mut map = serde_json::Map::new();
    let error = parse_grouped_properties(&mut map, &groups).unwrap_err();
    assert!(matches!(error, AssemblyError::Cardinality { tag } if tag == "BDAY"));
    let keys: Vec<&str> = map.keys().map(|key| key.as_str()).collect();
    assert_eq!(keys, vec!["https://atomicdata.dev/properties/emailAddresses"]);
}
