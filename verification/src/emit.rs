//! The three emitters: entities of an array tag, the scalar of a
//! single-valued tag, and entries of the bucket of unclassified tags.

use vstd::prelude::*;
use vstd::string::*;
use crate::classify::{DESCRIPTION_KEY, IS_A_KEY, UNKNOWN_CLASS, UNKNOWN_TAG_KEY, UNKNOWN_VALUE_KEY};
use crate::description::{description_of, synthesize_description};
use crate::error::{AssemblyError, Failure};
use crate::json::{
    documents_of, fields_insert, fields_new, json_list, json_object, json_of, json_text, no_fields, Json,
};
use crate::property::{Property, PropertyView, ParamView};

verus! {

/// The views of the members of a group, in order.
pub open spec fn members_view(members: Seq<&Property>) -> Seq<PropertyView> {
    members.map_values(|member: &Property| member@)
}

/// The classification of an entity: an array that holds its one label.
pub open spec fn class_list(label: Seq<char>) -> Json {
    Json::List(seq![Json::Text(label)])
}

/// `fields`, with the description of `params` where there is one.
pub open spec fn with_description(fields: Map<Seq<char>, Json>, params: Option<Seq<ParamView>>) -> Map<Seq<char>, Json> {
    match description_of(params) {
        Some(text) => fields.insert(DESCRIPTION_KEY@, Json::Text(text)),
        None => fields,
    }
}

/// The entity of a property with the text `value` under an array policy:
/// its classification, the value under the field key, and its description.
pub open spec fn array_entity(
    value: Seq<char>,
    params: Option<Seq<ParamView>>,
    class_label: Seq<char>,
    field_key: Seq<char>,
) -> Json {
    Json::Object(
        with_description(
            no_fields().insert(IS_A_KEY@, class_list(class_label)).insert(field_key, Json::Text(value)),
            params,
        ),
    )
}

/// The bucket entry of an unclassified property named `tag` with the text
/// `value`: its classification, tag, value and description.
pub open spec fn unknown_entity(tag: Seq<char>, value: Seq<char>, params: Option<Seq<ParamView>>) -> Json {
    Json::Object(
        with_description(
            no_fields().insert(IS_A_KEY@, class_list(UNKNOWN_CLASS@)).insert(
                UNKNOWN_TAG_KEY@,
                Json::Text(tag),
            ).insert(UNKNOWN_VALUE_KEY@, Json::Text(value)),
            params,
        ),
    )
}

/// Whether a property has a value.
pub open spec fn has_value(property: PropertyView) -> bool {
    property.value is Some
}

/// The properties of `group` that have a value, in order.
pub open spec fn valued(group: Seq<PropertyView>) -> Seq<PropertyView> {
    group.filter(|property: PropertyView| has_value(property))
}

/// The entities of a group under an array policy: one for each property that
/// has a value, in order.
pub open spec fn array_entities(group: Seq<PropertyView>, class_label: Seq<char>, field_key: Seq<char>) -> Seq<Json> {
    valued(group).map_values(
        |property: PropertyView|
            array_entity(property.value.unwrap(), property.params, class_label, field_key),
    )
}

/// The bucket entries of an unclassified group: one for each property that
/// has a value, in order.
pub open spec fn unknown_entities(group: Seq<PropertyView>) -> Seq<Json> {
    valued(group).map_values(
        |property: PropertyView| unknown_entity(property.name, property.value.unwrap(), property.params),
    )
}

/// The scalar of a single-valued group named `tag`: the value of its one
/// property, or the reason why there is none.
pub open spec fn single_value(tag: Seq<char>, group: Seq<PropertyView>) -> Result<Seq<char>, Failure> {
    if group.len() > 1 {
        Err(Failure::Cardinality { tag })
    } else if group.len() == 1 && group[0].value is Some {
        Ok(group[0].value.unwrap())
    } else {
        Err(Failure::MissingValue { tag })
    }
}

/// The properties with a value after one more property.
pub proof fn lemma_valued_push(group: Seq<PropertyView>, property: PropertyView)
    ensures
        valued(group.push(property)) == if has_value(property) {
            valued(group).push(property)
        } else {
            valued(group)
        },
{
    Seq::lemma_filter_push(group, property, |property: PropertyView| has_value(property));
}

/// Emits the entity of one property under an array policy, or nothing where
/// the property has no value.
pub fn parse_params(property: &Property, class_label: &str, field_key: &str) -> (entity: Option<serde_json::Value>)
    ensures
        match entity {
            Some(value) => property@.value is Some && json_of(value) == array_entity(
                property@.value.unwrap(),
                property@.params,
                class_label@,
                field_key@,
            ),
            None => property@.value is None,
        },
{
    match &property.value {
        None => None,
        Some(text) => {
            let mut labels: Vec<serde_json::Value> = Vec::new();
            labels.push(json_text(String::from_str(class_label)));
            let mut fields = fields_new();
            fields_insert(&mut fields, String::from_str(IS_A_KEY), json_list(labels));
            fields_insert(&mut fields, String::from_str(field_key), json_text(text.clone()));
            match synthesize_description(&property.params) {
                Some(description) => {
                    fields_insert(&mut fields, String::from_str(DESCRIPTION_KEY), json_text(description));
                },
                None => {},
            }
            proof {
                assert(documents_of(labels@) == seq![Json::Text(class_label@)]);
            }
            Some(json_object(fields))
        },
    }
}

/// Emits the entities of a group under an array policy, in order, leaving out
/// the properties that have no value.
pub fn parse_array_property(class_label: &str, field_key: &str, group: &Vec<&Property>) -> (list: serde_json::Value)
    ensures
        json_of(list) == Json::List(
            array_entities(members_view(group@), class_label@, field_key@),
        ),
{
    let mut entities: Vec<serde_json::Value> = Vec::new();
    let mut i: usize = 0;
    while i < group.len()
        invariant
            i <= group.len(),
            documents_of(entities@) == array_entities(
                members_view(group@).take(i as int),
                class_label@,
                field_key@,
            ),
        decreases group.len() - i,
    {
        proof {
            let all = members_view(group@);
            assert(all.take(i + 1) == all.take(i as int).push(group@[i as int]@));
            lemma_valued_push(all.take(i as int), group@[i as int]@);
        }
        let ghost before = documents_of(entities@);
        match parse_params(group[i], class_label, field_key) {
            Some(entity) => {
                entities.push(entity);
                assert(documents_of(entities@) =~= before.push(json_of(entity)));
            },
            None => {},
        }
        i += 1;
        assert(documents_of(entities@) =~= array_entities(
            members_view(group@).take(i as int),
            class_label@,
            field_key@,
        ));
    }
    proof {
        let all = members_view(group@);
        assert(all.take(group.len() as int) == all);
    }
    json_list(entities)
}

/// Emits the bucket entry of one unclassified property, or nothing where the
/// property has no value.
pub fn unknown_entry(property: &Property) -> (entry: Option<serde_json::Value>)
    ensures
        match entry {
            Some(value) => property@.value is Some && json_of(value) == unknown_entity(
                property@.name,
                property@.value.unwrap(),
                property@.params,
            ),
            None => property@.value is None,
        },
{
    match &property.value {
        None => None,
        Some(text) => {
            let mut labels: Vec<serde_json::Value> = Vec::new();
            labels.push(json_text(String::from_str(UNKNOWN_CLASS)));
            let mut fields = fields_new();
            fields_insert(&mut fields, String::from_str(IS_A_KEY), json_list(labels));
            fields_insert(&mut fields, String::from_str(UNKNOWN_TAG_KEY), json_text(property.name.clone()));
            fields_insert(&mut fields, String::from_str(UNKNOWN_VALUE_KEY), json_text(text.clone()));
            match synthesize_description(&property.params) {
                Some(description) => {
                    fields_insert(&mut fields, String::from_str(DESCRIPTION_KEY), json_text(description));
                },
                None => {},
            }
            proof {
                assert(documents_of(labels@) == seq![Json::Text(UNKNOWN_CLASS@)]);
            }
            Some(json_object(fields))
        },
    }
}

/// Appends to `bucket` the entries of an unclassified group, in order,
/// leaving out the properties that have no value.
pub fn parse_unknown_property(group: &Vec<&Property>, bucket: &mut Vec<serde_json::Value>)
    ensures
        documents_of(final(bucket)@) == documents_of(old(bucket)@) + unknown_entities(members_view(group@)),
{
    let mut i: usize = 0;
    while i < group.len()
        invariant
            i <= group.len(),
            documents_of(bucket@) == documents_of(old(bucket)@) + unknown_entities(
                members_view(group@).take(i as int),
            ),
        decreases group.len() - i,
    {
        proof {
            let all = members_view(group@);
            assert(all.take(i + 1) == all.take(i as int).push(group@[i as int]@));
            lemma_valued_push(all.take(i as int), group@[i as int]@);
        }
        let ghost before = documents_of(bucket@);
        match unknown_entry(group[i]) {
            Some(entry) => {
                bucket.push(entry);
                assert(documents_of(bucket@) =~= before.push(json_of(entry)));
            },
            None => {},
        }
        i += 1;
        assert(documents_of(bucket@) =~= documents_of(old(bucket)@) + unknown_entities(
            members_view(group@).take(i as int),
        ));
    }
    proof {
        let all = members_view(group@);
        assert(all.take(group.len() as int) == all);
    }
}

/// Emits the scalar of a single-valued group named `tag`: the value of its
/// one property. Fails where the group holds more than one property, and
/// where it holds none or one without a value.
pub fn parse_single_property(tag: &String, group: &Vec<&Property>) -> (scalar: Result<serde_json::Value, AssemblyError>)
    ensures
        match scalar {
            Ok(value) => single_value(tag@, members_view(group@)) == Ok::<Seq<char>, Failure>(
                json_of(value)->Text_0,
            ) && json_of(value) is Text,
            Err(error) => single_value(tag@, members_view(group@)) == Err::<Seq<char>, Failure>(error@),
        },
{
    if group.len() > 1 {
        return Err(AssemblyError::Cardinality { tag: tag.clone() });
    }
    if group.len() == 1 {
        match &group[0].value {
            Some(text) => {
                return Ok(json_text(text.clone()));
            },
            None => {},
        }
    }
    Err(AssemblyError::MissingValue { tag: tag.clone() })
}

} // verus!
