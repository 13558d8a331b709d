//! Assembly of the record of one contact.

use vstd::prelude::*;
use vstd::string::*;
use crate::classify::{classify, policy_of, Policy, UNKNOWNS_KEY};
use crate::emit::{
    array_entities, parse_array_property, parse_single_property, parse_unknown_property, single_value,
    unknown_entities,
};
use crate::error::{AssemblyError, Failure};
use crate::group::{find_group, groups_view, GroupView, PropertyGroup};
use crate::json::{documents_of, fields_insert, fields_of, json_list, Json};

verus! {

/// The position of the first group named `tag`.
pub open spec fn position_of(groups: Seq<GroupView>, tag: Seq<char>) -> Option<int>
    decreases groups.len(),
{
    if groups.len() == 0 {
        None
    } else {
        match position_of(groups.drop_last(), tag) {
            Some(at) => Some(at),
            None => if groups.last().name == tag {
                Some(groups.len() - 1)
            } else {
                None
            },
        }
    }
}

/// The value that a list of groups gives for `tag`: that of the first
/// property of the first group with that name.
pub open spec fn group_value(groups: Seq<GroupView>, tag: Seq<char>) -> Option<Seq<char>> {
    match position_of(groups, tag) {
        Some(at) => if groups[at].members.len() > 0 {
            groups[at].members[0].value
        } else {
            None
        },
        None => None,
    }
}

/// `position_of` gives the first position with the name, where there is one.
pub proof fn lemma_position_of(groups: Seq<GroupView>, tag: Seq<char>)
    ensures
        match position_of(groups, tag) {
            Some(at) => 0 <= at < groups.len() && groups[at].name == tag && forall|j: int|
                0 <= j < at ==> groups[j].name != tag,
            None => forall|j: int| 0 <= j < groups.len() ==> groups[j].name != tag,
        },
    decreases groups.len(),
{
    if groups.len() > 0 {
        let earlier = groups.drop_last();
        lemma_position_of(earlier, tag);
        assert(forall|j: int| 0 <= j < earlier.len() ==> earlier[j] == groups[j]);
        match position_of(earlier, tag) {
            Some(at) => {
                assert(earlier[at] == groups[at]);
            },
            None => {
                assert forall|j: int| 0 <= j < groups.len() - 1 implies groups[j].name != tag by {
                    assert(earlier[j] == groups[j]);
                }
            },
        }
    }
}

/// Reads the value that the groups give for the tag `name`: the value of the
/// first property of the group with that name, if there is such a group and
/// that property has a value.
pub fn get_vcard_value(name: &str, groups: &Vec<PropertyGroup>) -> (value: Option<String>)
    ensures
        match value {
            Some(text) => group_value(groups_view(groups@), name@) == Some(text@),
            None => group_value(groups_view(groups@), name@) is None,
        },
{
    let tag = String::from_str(name);
    proof {
        lemma_position_of(groups_view(groups@), name@);
    }
    match find_group(groups, &tag) {
        Some(at) => {
            assert(groups_view(groups@)[at as int].name == name@);
            assert(position_of(groups_view(groups@), name@) == Some(at as int)) by {
                let views = groups_view(groups@);
                match position_of(views, name@) {
                    Some(first) => {
                        if first < at {
                            assert(views[first] == groups@[first]@);
                        }
                    },
                    None => {},
                }
            }
            let group = &groups[at];
            if group.members.len() > 0 {
                match &group.members[0].value {
                    Some(text) => Some(text.clone()),
                    None => None,
                }
            } else {
                None
            }
        },
        None => None,
    }
}

/// Why a group cannot be emitted: it is single-valued and gives no scalar.
pub open spec fn group_failure(group: GroupView) -> Option<Failure> {
    match policy_of(group.name) {
        Policy::Singleton { field_key } => if group.members.len() > 0 {
            match single_value(group.name, group.members) {
                Ok(text) => None,
                Err(failure) => Some(failure),
            }
        } else {
            None
        },
        _ => None,
    }
}

/// The position of the first group that cannot be emitted.
pub open spec fn first_failure(groups: Seq<GroupView>) -> Option<int>
    decreases groups.len(),
{
    if groups.len() == 0 {
        None
    } else {
        match first_failure(groups.drop_last()) {
            Some(at) => Some(at),
            None => if group_failure(groups.last()) is Some {
                Some(groups.len() - 1)
            } else {
                None
            },
        }
    }
}

/// `fields` after one group: an array policy sets its collection, a
/// single-valued policy its scalar; an empty group, a consumed tag and an
/// unclassified tag leave the fields as they are.
pub open spec fn group_fields(fields: Map<Seq<char>, Json>, group: GroupView) -> Map<Seq<char>, Json> {
    if group.members.len() == 0 {
        fields
    } else {
        match policy_of(group.name) {
            Policy::Array { class_label, field_key, collection_key } => fields.insert(
                collection_key@,
                Json::List(array_entities(group.members, class_label@, field_key@)),
            ),
            Policy::Singleton { field_key } => match single_value(group.name, group.members) {
                Ok(text) => fields.insert(field_key@, Json::Text(text)),
                Err(failure) => fields,
            },
            Policy::Skip => fields,
            Policy::Unknown => fields,
        }
    }
}

/// `fields` after a list of groups, taken in order.
pub open spec fn groups_fields(fields: Map<Seq<char>, Json>, groups: Seq<GroupView>) -> Map<Seq<char>, Json>
    decreases groups.len(),
{
    if groups.len() == 0 {
        fields
    } else {
        group_fields(groups_fields(fields, groups.drop_last()), groups.last())
    }
}

/// The bucket entries that one group gives: those of its properties, where
/// its tag is unclassified.
pub open spec fn group_unknowns(group: GroupView) -> Seq<Json> {
    match policy_of(group.name) {
        Policy::Unknown => unknown_entities(group.members),
        _ => Seq::empty(),
    }
}

/// The bucket entries that a list of groups gives, group after group.
pub open spec fn groups_unknowns(groups: Seq<GroupView>) -> Seq<Json>
    decreases groups.len(),
{
    if groups.len() == 0 {
        Seq::empty()
    } else {
        groups_unknowns(groups.drop_last()) + group_unknowns(groups.last())
    }
}

/// Emits every group into `map` by the policy of its tag, and then the bucket
/// of unclassified properties, which is always set. Stops at the first group
/// that cannot be emitted, with the fields of the groups before it set.
pub fn parse_grouped_properties(
    map: &mut serde_json::Map<String, serde_json::Value>,
    groups: &Vec<PropertyGroup>,
) -> (outcome: Result<(), AssemblyError>)
    ensures
        match outcome {
            Ok(done) => first_failure(groups_view(groups@)) is None && fields_of(*final(map))
                == groups_fields(fields_of(*old(map)), groups_view(groups@)).insert(
                UNKNOWNS_KEY@,
                Json::List(groups_unknowns(groups_view(groups@))),
            ),
            Err(error) => first_failure(groups_view(groups@)) is Some && group_failure(
                groups_view(groups@)[first_failure(groups_view(groups@)).unwrap()],
            ) == Some(error@) && fields_of(*final(map)) == groups_fields(
                fields_of(*old(map)),
                groups_view(groups@).take(first_failure(groups_view(groups@)).unwrap()),
            ),
        },
{
    let mut bucket: Vec<serde_json::Value> = Vec::new();
    let mut i: usize = 0;
    let ghost views = groups_view(groups@);
    assert(views.take(0) =~= Seq::<GroupView>::empty());
    assert(documents_of(bucket@) =~= Seq::<Json>::empty());
    while i < groups.len()
        invariant
            i <= groups.len(),
            views == groups_view(groups@),
            first_failure(views.take(i as int)) is None,
            fields_of(*map) == groups_fields(fields_of(*old(map)), views.take(i as int)),
            documents_of(bucket@) == groups_unknowns(views.take(i as int)),
        decreases groups.len() - i,
    {
        let group = &groups[i];
        proof {
            assert(views.take(i + 1).drop_last() == views.take(i as int));
            assert(views.take(i + 1).last() == group@);
        }
        if group.members.len() > 0 {
            match classify(&group.name) {
                Policy::Array { class_label, field_key, collection_key } => {
                    let list = parse_array_property(class_label, field_key, &group.members);
                    fields_insert(map, String::from_str(collection_key), list);
                },
                Policy::Singleton { field_key } => {
                    match parse_single_property(&group.name, &group.members) {
                        Ok(scalar) => {
                            fields_insert(map, String::from_str(field_key), scalar);
                        },
                        Err(error) => {
                            proof {
                                lemma_first_failure_prefix(views, i as int);
                            }
                            return Err(error);
                        },
                    }
                },
                Policy::Skip => {},
                Policy::Unknown => {
                    parse_unknown_property(&group.members, &mut bucket);
                },
            }
        } else {
            assert(unknown_entities(group@.members) =~= Seq::<Json>::empty()) by {
                reveal(Seq::filter);
            }
        }
        i += 1;
    }
    assert(views.take(groups.len() as int) == views);
    fields_insert(map, String::from_str(UNKNOWNS_KEY), json_list(bucket));
    Ok(())
}

/// The first failure of a list is that of its shortest prefix that has one.
pub proof fn lemma_first_failure_prefix(groups: Seq<GroupView>, at: int)
    requires
        0 <= at < groups.len(),
        first_failure(groups.take(at)) is None,
        group_failure(groups[at]) is Some,
    ensures
        first_failure(groups) == Some(at),
    decreases groups.len(),
{
    if at == groups.len() - 1 {
        assert(groups.take(at) == groups.drop_last());
    } else {
        assert(groups.drop_last().take(at) == groups.take(at));
        lemma_first_failure_prefix(groups.drop_last(), at);
    }
}

} // verus!
