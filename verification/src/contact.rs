//! The record of a contact, stated over its properties, and its assembly.

use vstd::prelude::*;
use vstd::string::*;
use crate::classify::{policy_of, IS_A_KEY, LOCAL_ID_KEY, NAME_KEY, PERSON_CLASS, UNKNOWNS_KEY};
use crate::emit::class_list;
use crate::error::{AssemblyError, Failure};
use crate::group::{
    group_properties, grouped, lemma_members_of_absent_tag, lemma_tag_order_distinct, members_of, tag_order,
    GroupView,
};
use crate::json::{
    documents_of, fields_insert, fields_new, fields_of, json_list, json_object, json_of, json_text, no_fields,
    Json,
};
use crate::property::{properties_view, Property, PropertyView};
use crate::record::{
    first_failure, get_vcard_value, group_failure, group_fields, group_value, groups_fields, groups_unknowns,
    lemma_position_of, parse_grouped_properties, position_of,
};

verus! {

/// The value that a contact gives for `tag`: that of its first property with
/// that tag.
pub open spec fn first_value(properties: Seq<PropertyView>, tag: Seq<char>) -> Option<Seq<char>> {
    let members = members_of(properties, tag);
    if members.len() > 0 {
        members[0].value
    } else {
        None
    }
}

/// The display name of a contact: the value of `FN`, else that of `N`.
pub open spec fn display_name(properties: Seq<PropertyView>) -> Option<Seq<char>> {
    match first_value(properties, "FN"@) {
        Some(name) => Some(name),
        None => first_value(properties, "N"@),
    }
}

/// The local identifier of a contact: its version followed by its display name.
pub open spec fn local_id(version: Seq<char>, name: Seq<char>) -> Seq<char> {
    version + name
}

/// All properties of a contact with the tag `tag`, as one group.
pub open spec fn tag_group(properties: Seq<PropertyView>, tag: Seq<char>) -> GroupView {
    GroupView { name: tag, members: members_of(properties, tag) }
}

/// The fields that every record has: its classification, its display name
/// and its local identifier.
pub open spec fn record_base(name: Seq<char>, version: Seq<char>) -> Map<Seq<char>, Json> {
    no_fields().insert(IS_A_KEY@, class_list(PERSON_CLASS@)).insert(NAME_KEY@, Json::Text(name)).insert(
        LOCAL_ID_KEY@,
        Json::Text(local_id(version, name)),
    )
}

/// The bucket of unclassified properties of a contact: tag after tag in the
/// order of the tags' first appearance, and in source order within a tag.
pub open spec fn unknown_bucket(properties: Seq<PropertyView>) -> Seq<Json> {
    groups_unknowns(grouped(properties))
}

/// The fields of the record of a contact with the given display name and
/// version: the base fields, the collections of the phone numbers, addresses
/// and email addresses that it has, its birth date if it has one, and the
/// bucket of its unclassified properties.
pub open spec fn contact_fields(properties: Seq<PropertyView>, name: Seq<char>, version: Seq<char>) -> Map<
    Seq<char>,
    Json,
> {
    group_fields(
        group_fields(
            group_fields(
                group_fields(record_base(name, version), tag_group(properties, "TEL"@)),
                tag_group(properties, "ADR"@),
            ),
            tag_group(properties, "EMAIL"@),
        ),
        tag_group(properties, "BDAY"@),
    ).insert(UNKNOWNS_KEY@, Json::List(unknown_bucket(properties)))
}

/// Why a contact has no record, if it has none: it gives no display name, or
/// no version, or its birth date is given twice or without a value.
pub open spec fn contact_failure(properties: Seq<PropertyView>) -> Option<Failure> {
    if display_name(properties) is None {
        Some(Failure::MissingName)
    } else if first_value(properties, "VERSION"@) is None {
        Some(Failure::MissingVersion)
    } else {
        group_failure(tag_group(properties, "BDAY"@))
    }
}

/// The record of a contact, or the reason why it has none.
pub open spec fn contact_outcome(properties: Seq<PropertyView>) -> Result<Json, Failure> {
    match contact_failure(properties) {
        Some(failure) => Err(failure),
        None => Ok(
            Json::Object(
                contact_fields(
                    properties,
                    display_name(properties).unwrap(),
                    first_value(properties, "VERSION"@).unwrap(),
                ),
            ),
        ),
    }
}

/// The four classified tags are distinct, and so are the keys under which
/// their policies emit.
pub proof fn lemma_classified_tags()
    ensures
        policy_of("TEL"@) is Array,
        policy_of("ADR"@) is Array,
        policy_of("EMAIL"@) is Array,
        policy_of("BDAY"@) is Singleton,
        "TEL"@ != "ADR"@,
        "TEL"@ != "EMAIL"@,
        "TEL"@ != "BDAY"@,
        "ADR"@ != "EMAIL"@,
        "ADR"@ != "BDAY"@,
        "EMAIL"@ != "BDAY"@,
        policy_of("TEL"@)->collection_key@ != policy_of("ADR"@)->collection_key@,
        policy_of("TEL"@)->collection_key@ != policy_of("EMAIL"@)->collection_key@,
        policy_of("ADR"@)->collection_key@ != policy_of("EMAIL"@)->collection_key@,
        policy_of("TEL"@)->collection_key@ != policy_of("BDAY"@)->Singleton_field_key@,
        policy_of("ADR"@)->collection_key@ != policy_of("BDAY"@)->Singleton_field_key@,
        policy_of("EMAIL"@)->collection_key@ != policy_of("BDAY"@)->Singleton_field_key@,
{
    reveal_strlit("TEL");
    reveal_strlit("ADR");
    reveal_strlit("EMAIL");
    reveal_strlit("BDAY");
    reveal_strlit("https://atomicdata.dev/properties/phoneNumbers");
    reveal_strlit("https://atomicdata.dev/properties/adresses");
    reveal_strlit("https://atomicdata.dev/properties/emailAddresses");
    reveal_strlit("https://atomicdata.dev/properties/birthdate");
    assert("TEL"@.len() == 3 && "ADR"@.len() == 3 && "EMAIL"@.len() == 5 && "BDAY"@.len() == 4);
    assert("TEL"@[0] == 'T' && "ADR"@[0] == 'A');
    assert("https://atomicdata.dev/properties/phoneNumbers"@.len() == 46);
    assert("https://atomicdata.dev/properties/adresses"@.len() == 42);
    assert("https://atomicdata.dev/properties/emailAddresses"@.len() == 48);
    assert("https://atomicdata.dev/properties/birthdate"@.len() == 43);
}

/// Groups of different tags can be emitted in either order.
pub proof fn lemma_group_fields_commute(fields: Map<Seq<char>, Json>, one: GroupView, other: GroupView)
    requires
        one.name != other.name,
    ensures
        group_fields(group_fields(fields, one), other) == group_fields(group_fields(fields, other), one),
{
    lemma_classified_tags();
    assert(group_fields(group_fields(fields, one), other) =~= group_fields(group_fields(fields, other), one));
}

/// `fields` with the group of `tag` emitted, where `on` holds.
pub open spec fn optional_field(
    fields: Map<Seq<char>, Json>,
    on: bool,
    properties: Seq<PropertyView>,
    tag: Seq<char>,
) -> Map<Seq<char>, Json> {
    if on {
        group_fields(fields, tag_group(properties, tag))
    } else {
        fields
    }
}

/// `fields` with those of the four classified tags emitted that are switched on.
pub open spec fn classified_fields(
    fields: Map<Seq<char>, Json>,
    properties: Seq<PropertyView>,
    tel: bool,
    adr: bool,
    email: bool,
    bday: bool,
) -> Map<Seq<char>, Json> {
    optional_field(
        optional_field(
            optional_field(optional_field(fields, tel, properties, "TEL"@), adr, properties, "ADR"@),
            email,
            properties,
            "EMAIL"@,
        ),
        bday,
        properties,
        "BDAY"@,
    )
}

/// Whether one of the first `count` groups is named `tag`.
pub open spec fn has_tag(groups: Seq<GroupView>, count: int, tag: Seq<char>) -> bool {
    exists|j: int| 0 <= j < count && (#[trigger] groups[j]).name == tag
}

proof fn lemma_optional_commute(
    fields: Map<Seq<char>, Json>,
    on: bool,
    properties: Seq<PropertyView>,
    tag: Seq<char>,
    group: GroupView,
)
    requires
        group.name != tag,
    ensures
        group_fields(optional_field(fields, on, properties, tag), group) == optional_field(
            group_fields(fields, group),
            on,
            properties,
            tag,
        ),
{
    if on {
        lemma_group_fields_commute(fields, tag_group(properties, tag), group);
    }
}

/// The fields after the first `count` groups of a contact are those of the
/// classified tags among them, and the first group that cannot be emitted,
/// if any, is that of the birth date.
pub proof fn lemma_prefix_fields(properties: Seq<PropertyView>, fields: Map<Seq<char>, Json>, count: int)
    requires
        0 <= count <= grouped(properties).len(),
    ensures
        groups_fields(fields, grouped(properties).take(count)) == classified_fields(
            fields,
            properties,
            has_tag(grouped(properties), count, "TEL"@),
            has_tag(grouped(properties), count, "ADR"@),
            has_tag(grouped(properties), count, "EMAIL"@),
            has_tag(grouped(properties), count, "BDAY"@),
        ),
        first_failure(grouped(properties).take(count)) is Some <==> has_tag(
            grouped(properties),
            count,
            "BDAY"@,
        ) && group_failure(tag_group(properties, "BDAY"@)) is Some,
        first_failure(grouped(properties).take(count)) is Some ==> grouped(properties)[first_failure(
            grouped(properties).take(count),
        ).unwrap()] == tag_group(properties, "BDAY"@),
    decreases count,
{
    let groups = grouped(properties);
    lemma_classified_tags();
    if count == 0 {
        assert(groups.take(0) =~= Seq::<GroupView>::empty());
    } else {
        let group = groups[count - 1];
        let earlier = groups.take(count - 1);
        let before = groups_fields(fields, earlier);
        assert(groups.take(count).drop_last() == earlier);
        assert(groups.take(count).last() == group);
        lemma_prefix_fields(properties, fields, count - 1);
        lemma_tag_order_distinct(properties);
        assert(group == tag_group(properties, group.name));
        assert forall|j: int| 0 <= j < count - 1 implies (#[trigger] groups[j]).name != group.name by {
            assert(tag_order(properties)[j] != tag_order(properties)[count - 1]);
        }
        assert forall|tag: Seq<char>|
            has_tag(groups, count, tag) == (has_tag(groups, count - 1, tag) || group.name == tag) by {
            if has_tag(groups, count - 1, tag) {
                let j = choose|j: int| 0 <= j < count - 1 && (#[trigger] groups[j]).name == tag;
                assert(0 <= j < count && groups[j].name == tag);
            }
            if group.name == tag {
                assert(0 <= count - 1 < count && groups[count - 1].name == tag);
            }
        }
        let tel = has_tag(groups, count - 1, "TEL"@);
        let adr = has_tag(groups, count - 1, "ADR"@);
        let email = has_tag(groups, count - 1, "EMAIL"@);
        let bday = has_tag(groups, count - 1, "BDAY"@);
        let one = optional_field(fields, tel, properties, "TEL"@);
        let two = optional_field(one, adr, properties, "ADR"@);
        let three = optional_field(two, email, properties, "EMAIL"@);
        if group.name == "TEL"@ {
            lemma_optional_commute(three, bday, properties, "BDAY"@, group);
            lemma_optional_commute(two, email, properties, "EMAIL"@, group);
            lemma_optional_commute(one, adr, properties, "ADR"@, group);
        } else if group.name == "ADR"@ {
            lemma_optional_commute(three, bday, properties, "BDAY"@, group);
            lemma_optional_commute(two, email, properties, "EMAIL"@, group);
        } else if group.name == "EMAIL"@ {
            lemma_optional_commute(three, bday, properties, "BDAY"@, group);
        } else if group.name == "BDAY"@ {
        } else {
            assert(group_fields(before, group) == before);
        }
    }
}

/// A tag that names none of the groups of a contact has no members in it.
pub proof fn lemma_tag_without_group(properties: Seq<PropertyView>, tag: Seq<char>)
    requires
        !has_tag(grouped(properties), grouped(properties).len() as int, tag),
    ensures
        members_of(properties, tag) == Seq::<PropertyView>::empty(),
{
    let tags = tag_order(properties);
    if tags.contains(tag) {
        let j = choose|j: int| 0 <= j < tags.len() && tags[j] == tag;
        assert(grouped(properties)[j].name == tag);
    }
    lemma_members_of_absent_tag(properties, tag);
}

/// Emitting the groups of a contact in their order gives the fields of its
/// four classified tags, and fails exactly where its birth date does.
pub proof fn lemma_grouped_fields(properties: Seq<PropertyView>, fields: Map<Seq<char>, Json>)
    ensures
        groups_fields(fields, grouped(properties)) == classified_fields(
            fields,
            properties,
            true,
            true,
            true,
            true,
        ),
        first_failure(grouped(properties)) is Some <==> group_failure(tag_group(properties, "BDAY"@)) is Some,
        first_failure(grouped(properties)) is Some ==> grouped(properties)[first_failure(
            grouped(properties),
        ).unwrap()] == tag_group(properties, "BDAY"@),
{
    let groups = grouped(properties);
    let count = groups.len() as int;
    lemma_prefix_fields(properties, fields, count);
    assert(groups.take(count) == groups);
    if !has_tag(groups, count, "TEL"@) {
        lemma_tag_without_group(properties, "TEL"@);
    }
    if !has_tag(groups, count, "ADR"@) {
        lemma_tag_without_group(properties, "ADR"@);
    }
    if !has_tag(groups, count, "EMAIL"@) {
        lemma_tag_without_group(properties, "EMAIL"@);
    }
    if !has_tag(groups, count, "BDAY"@) {
        lemma_tag_without_group(properties, "BDAY"@);
    }
}

/// The groups of a contact give for a tag the value of its first property
/// with that tag.
pub proof fn lemma_group_value(properties: Seq<PropertyView>, tag: Seq<char>)
    ensures
        group_value(grouped(properties), tag) == first_value(properties, tag),
{
    let groups = grouped(properties);
    lemma_position_of(groups, tag);
    match position_of(groups, tag) {
        Some(at) => {
            assert(groups[at] == tag_group(properties, tag));
        },
        None => {
            assert(!has_tag(groups, groups.len() as int, tag));
            lemma_tag_without_group(properties, tag);
        },
    }
}

/// Assembles the record of one contact: its classification, its display name
/// (the value of `FN`, else that of `N`), its local identifier (the version
/// followed by the display name), the collections and the scalar of its
/// classified tags, and the bucket of its unclassified properties. Fails
/// where the contact gives no display name, no version, or a birth date that
/// is no single value.
pub fn parse_contact(properties: &Vec<Property>) -> (record: Result<serde_json::Value, AssemblyError>)
    ensures
        match record {
            Ok(value) => contact_outcome(properties_view(properties@)) == Ok::<Json, Failure>(json_of(value)),
            Err(error) => contact_outcome(properties_view(properties@)) == Err::<Json, Failure>(error@),
        },
{
    let groups = group_properties(properties);
    proof {
        lemma_group_value(properties_view(properties@), "FN"@);
        lemma_group_value(properties_view(properties@), "N"@);
        lemma_group_value(properties_view(properties@), "VERSION"@);
    }
    let name = match get_vcard_value("FN", &groups) {
        Some(name) => name,
        None => match get_vcard_value("N", &groups) {
            Some(name) => name,
            None => {
                return Err(AssemblyError::MissingName);
            },
        },
    };
    let mut local_id = match get_vcard_value("VERSION", &groups) {
        Some(version) => version,
        None => {
            return Err(AssemblyError::MissingVersion);
        },
    };
    let ghost version = local_id@;
    local_id.append(name.as_str());
    let mut labels: Vec<serde_json::Value> = Vec::new();
    labels.push(json_text(String::from_str(PERSON_CLASS)));
    assert(documents_of(labels@) == seq![Json::Text(PERSON_CLASS@)]);
    let mut map = fields_new();
    fields_insert(&mut map, String::from_str(IS_A_KEY), json_list(labels));
    fields_insert(&mut map, String::from_str(NAME_KEY), json_text(name));
    fields_insert(&mut map, String::from_str(LOCAL_ID_KEY), json_text(local_id));
    proof {
        assert(fields_of(map) == record_base(name@, version));
        lemma_grouped_fields(properties_view(properties@), record_base(name@, version));
    }
    match parse_grouped_properties(&mut map, &groups) {
        Ok(done) => Ok(json_object(map)),
        Err(error) => Err(error),
    }
}

} // verus!
