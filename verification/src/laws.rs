//! What holds of every record: which fields it has, and that each property
//! with a value is emitted exactly once.

use vstd::prelude::*;
use vstd::multiset::Multiset;
use vstd::string::*;
use crate::classify::{policy_of, Policy, IS_A_KEY, LOCAL_ID_KEY, NAME_KEY, PERSON_CLASS, UNKNOWNS_KEY};
use crate::contact::{
    contact_outcome, display_name, first_value, lemma_classified_tags, local_id, unknown_bucket,
};
use crate::emit::{
    array_entities, class_list, has_value, lemma_valued_push, single_value, unknown_entities, unknown_entity,
    valued,
};
use crate::error::Failure;
use crate::group::{grouped, lemma_grouped_push, lemma_members_of_push, members_of, GroupView};
use crate::record::{group_unknowns, groups_unknowns};
use crate::json::Json;
use crate::property::PropertyView;

verus! {

/// The keys of the fields of a record differ from each other.
pub proof fn lemma_record_keys_distinct()
    ensures
        IS_A_KEY@.len() == 37,
        NAME_KEY@.len() == 38,
        LOCAL_ID_KEY@.len() == 41,
        UNKNOWNS_KEY@.len() == 47,
        policy_of("TEL"@)->collection_key@.len() == 46,
        policy_of("ADR"@)->collection_key@.len() == 42,
        policy_of("EMAIL"@)->collection_key@.len() == 48,
        policy_of("BDAY"@)->Singleton_field_key@.len() == 43,
{
    lemma_classified_tags();
    reveal_strlit("https://atomicdata.dev/properties/isA");
    reveal_strlit("https://atomicdata.dev/properties/name");
    reveal_strlit("https://atomicdata.dev/properties/localId");
    reveal_strlit("https://atomicdata.dev/properties/vCardUnknowns");
    reveal_strlit("https://atomicdata.dev/properties/phoneNumbers");
    reveal_strlit("https://atomicdata.dev/properties/adresses");
    reveal_strlit("https://atomicdata.dev/properties/emailAddresses");
    reveal_strlit("https://atomicdata.dev/properties/birthdate");
}

/// The fields of the record of a contact, one by one: the classification is
/// `Person`; the name is the display name; the local identifier is the
/// version followed by the display name; the bucket of unclassified
/// properties is there, also where it is empty; the collection of an array
/// tag is there exactly where the contact has a property of that tag, and
/// holds the entities of those properties; the birth date is there exactly
/// where the contact has one.
pub proof fn lemma_record_fields(properties: Seq<PropertyView>)
    requires
        contact_outcome(properties) is Ok,
    ensures
        contact_outcome(properties)->Ok_0 is Object,
        ({
            let fields = contact_outcome(properties)->Ok_0->Object_0;
            let name = display_name(properties).unwrap();
            let version = first_value(properties, "VERSION"@).unwrap();
            &&& fields.dom().contains(IS_A_KEY@) && fields[IS_A_KEY@] == class_list(PERSON_CLASS@)
            &&& fields.dom().contains(NAME_KEY@) && fields[NAME_KEY@] == Json::Text(name)
            &&& fields.dom().contains(LOCAL_ID_KEY@) && fields[LOCAL_ID_KEY@] == Json::Text(
                local_id(version, name),
            )
            &&& fields.dom().contains(UNKNOWNS_KEY@) && fields[UNKNOWNS_KEY@] == Json::List(
                unknown_bucket(properties),
            )
            &&& forall|tag: Seq<char>| #[trigger]
                policy_of(tag) matches Policy::Array { class_label, field_key, collection_key } ==> {
                    &&& fields.dom().contains(collection_key@) <==> members_of(properties, tag).len() > 0
                    &&& members_of(properties, tag).len() > 0 ==> fields[collection_key@] == Json::List(
                        array_entities(members_of(properties, tag), class_label@, field_key@),
                    )
                }
            &&& forall|tag: Seq<char>| #[trigger]
                policy_of(tag) matches Policy::Singleton { field_key } ==> {
                    &&& fields.dom().contains(field_key@) <==> members_of(properties, tag).len() > 0
                    &&& members_of(properties, tag).len() > 0 ==> single_value(
                        tag,
                        members_of(properties, tag),
                    ) == Ok::<Seq<char>, crate::error::Failure>(fields[field_key@]->Text_0)
                        && fields[field_key@] is Text
                }
        }),
{
    lemma_record_keys_distinct();
    lemma_classified_tags();
}

/// Whether a property is emitted into the bucket of unclassified properties:
/// no rule names its tag, and it has a value.
pub open spec fn is_bucketed(property: PropertyView) -> bool {
    policy_of(property.name) is Unknown && has_value(property)
}

/// The bucket entries of the properties of a contact that are emitted into
/// the bucket, in source order.
pub open spec fn bucketed_entries(properties: Seq<PropertyView>) -> Seq<Json> {
    properties.filter(|property: PropertyView| is_bucketed(property)).map_values(
        |property: PropertyView| unknown_entity(property.name, property.value.unwrap(), property.params),
    )
}

/// What one property adds to the bucket: its entry, or nothing.
pub open spec fn entry_bag(property: PropertyView) -> Multiset<Json> {
    if is_bucketed(property) {
        Multiset::singleton(unknown_entity(property.name, property.value.unwrap(), property.params))
    } else {
        Multiset::empty()
    }
}

proof fn lemma_empty_bag()
    ensures
        Seq::<Json>::empty().to_multiset() == Multiset::<Json>::empty(),
{
    broadcast use vstd::multiset::group_multiset_axioms, vstd::seq_lib::to_multiset_len;

    let bag = Seq::<Json>::empty().to_multiset();
    assert(bag.len() == 0);
    assert(bag =~= Multiset::<Json>::empty());
}

proof fn lemma_unknowns_after_update(groups: Seq<GroupView>, at: int, group: GroupView)
    requires
        0 <= at < groups.len(),
    ensures
        groups_unknowns(groups.update(at, group)).to_multiset().add(group_unknowns(groups[at]).to_multiset())
            == groups_unknowns(groups).to_multiset().add(group_unknowns(group).to_multiset()),
    decreases groups.len(),
{
    broadcast use vstd::multiset::group_multiset_axioms;

    let updated = groups.update(at, group);
    let earlier = groups.drop_last();
    vstd::seq_lib::lemma_multiset_commutative(groups_unknowns(earlier), group_unknowns(groups.last()));
    if at == groups.len() - 1 {
        assert(updated.drop_last() == earlier);
        assert(updated.last() == group);
        vstd::seq_lib::lemma_multiset_commutative(groups_unknowns(earlier), group_unknowns(group));
        assert(groups_unknowns(updated) == groups_unknowns(earlier) + group_unknowns(group));
        assert(groups_unknowns(groups) == groups_unknowns(earlier) + group_unknowns(groups[at]));
        let base = groups_unknowns(earlier).to_multiset();
        let old_part = group_unknowns(groups[at]).to_multiset();
        let new_part = group_unknowns(group).to_multiset();
        assert(groups_unknowns(updated).to_multiset() == base.add(new_part));
        assert(groups_unknowns(groups).to_multiset() == base.add(old_part));
        assert(base.add(new_part).add(old_part) =~= base.add(old_part).add(new_part));
        assert(groups_unknowns(updated).to_multiset().add(group_unknowns(groups[at]).to_multiset())
            =~= groups_unknowns(groups).to_multiset().add(group_unknowns(group).to_multiset()));
    } else {
        assert(updated.drop_last() == earlier.update(at, group));
        assert(updated.last() == groups.last());
        lemma_unknowns_after_update(earlier, at, group);
        vstd::seq_lib::lemma_multiset_commutative(
            groups_unknowns(earlier.update(at, group)),
            group_unknowns(groups.last()),
        );
        assert(earlier[at] == groups[at]);
        let tail = group_unknowns(groups.last()).to_multiset();
        let old_part = group_unknowns(groups[at]).to_multiset();
        let new_part = group_unknowns(group).to_multiset();
        let changed = groups_unknowns(earlier.update(at, group)).to_multiset();
        let base = groups_unknowns(earlier).to_multiset();
        assert(groups_unknowns(updated) == groups_unknowns(earlier.update(at, group)) + group_unknowns(
            groups.last(),
        ));
        assert(groups_unknowns(updated).to_multiset() == changed.add(tail));
        assert(groups_unknowns(groups).to_multiset() == base.add(tail));
        assert(changed.add(old_part) == base.add(new_part));
        assert forall|entry: Json|
            changed.add(tail).add(old_part).count(entry) == base.add(tail).add(new_part).count(entry) by {
            assert(changed.add(old_part).count(entry) == base.add(new_part).count(entry));
        }
        assert(changed.add(tail).add(old_part) =~= base.add(tail).add(new_part));
        assert(groups_unknowns(updated).to_multiset().add(group_unknowns(groups[at]).to_multiset())
            =~= groups_unknowns(groups).to_multiset().add(group_unknowns(group).to_multiset()));
    }
}

proof fn lemma_group_unknowns_push(group: GroupView, property: PropertyView)
    requires
        group.name == property.name,
    ensures
        group_unknowns(GroupView { name: group.name, members: group.members.push(property) }).to_multiset()
            == group_unknowns(group).to_multiset().add(entry_bag(property)),
{
    broadcast use vstd::multiset::group_multiset_axioms;

    lemma_valued_push(group.members, property);
    let longer = GroupView { name: group.name, members: group.members.push(property) };
    if is_bucketed(property) {
        let entry = unknown_entity(property.name, property.value.unwrap(), property.params);
        assert(group_unknowns(longer) =~= group_unknowns(group).push(entry));
        vstd::seq_lib::to_multiset_build(group_unknowns(group), entry);
        assert(group_unknowns(group).to_multiset().insert(entry) =~= group_unknowns(group).to_multiset().add(
            entry_bag(property),
        ));
    } else {
        assert(group_unknowns(longer) =~= group_unknowns(group));
        assert(group_unknowns(group).to_multiset() =~= group_unknowns(group).to_multiset().add(
            entry_bag(property),
        ));
    }
}

proof fn lemma_bucket_push(properties: Seq<PropertyView>, property: PropertyView)
    ensures
        unknown_bucket(properties.push(property)).to_multiset() == unknown_bucket(properties).to_multiset().add(
            entry_bag(property),
        ),
{
    broadcast use vstd::multiset::group_multiset_axioms;

    let groups = grouped(properties);
    let longer = grouped(properties.push(property));
    lemma_grouped_push(properties, property);
    lemma_empty_bag();
    if exists|j: int| 0 <= j < groups.len() && (#[trigger] groups[j]).name == property.name {
        let at = choose|j: int| 0 <= j < groups.len() && (#[trigger] groups[j]).name == property.name;
        let joined = GroupView { name: property.name, members: groups[at].members.push(property) };
        assert(longer == groups.update(at, joined));
        lemma_unknowns_after_update(groups, at, joined);
        lemma_group_unknowns_push(groups[at], property);
        let longer_bag = groups_unknowns(longer).to_multiset();
        let shorter_bag = groups_unknowns(groups).to_multiset();
        let old_part = group_unknowns(groups[at]).to_multiset();
        let new_part = group_unknowns(joined).to_multiset();
        assert(joined == GroupView { name: groups[at].name, members: groups[at].members.push(property) });
        assert(new_part == old_part.add(entry_bag(property)));
        assert forall|entry: Json|
            longer_bag.count(entry) == shorter_bag.add(entry_bag(property)).count(entry) by {
            assert(longer_bag.add(old_part).count(entry) == shorter_bag.add(new_part).count(entry));
        }
        assert(longer_bag =~= shorter_bag.add(entry_bag(property)));
        assert(unknown_bucket(properties.push(property)).to_multiset() =~= unknown_bucket(
            properties,
        ).to_multiset().add(entry_bag(property)));
    } else {
        let opened = GroupView { name: property.name, members: seq![property] };
        assert(longer == groups.push(opened));
        assert(longer.drop_last() == groups);
        vstd::seq_lib::lemma_multiset_commutative(groups_unknowns(groups), group_unknowns(opened));
        let none = GroupView { name: property.name, members: Seq::<PropertyView>::empty() };
        assert(none.members.push(property) =~= seq![property]);
        lemma_group_unknowns_push(none, property);
        assert(valued(none.members) =~= Seq::<PropertyView>::empty()) by {
            reveal(Seq::filter);
        }
        assert(group_unknowns(none) =~= Seq::<Json>::empty());
        assert(group_unknowns(none).to_multiset() =~= Multiset::<Json>::empty());
        assert(unknown_bucket(properties.push(property)).to_multiset() =~= unknown_bucket(
            properties,
        ).to_multiset().add(entry_bag(property)));
    }
}

/// The bucket of unclassified properties holds the entry of each property
/// that has a value and an unclassified tag exactly once, and nothing else:
/// as a multiset it is the entries of those properties.
pub proof fn lemma_bucket_holds_each_once(properties: Seq<PropertyView>)
    ensures
        unknown_bucket(properties).to_multiset() == bucketed_entries(properties).to_multiset(),
        unknown_bucket(properties).len() == properties.filter(
            |property: PropertyView| is_bucketed(property),
        ).len(),
    decreases properties.len(),
{
    broadcast use vstd::seq_lib::to_multiset_len, vstd::multiset::group_multiset_axioms;

    bucketed_entries(properties).to_multiset_ensures();
    unknown_bucket(properties).to_multiset_ensures();
    if properties.len() == 0 {
        reveal(Seq::filter);
        assert(grouped(properties) =~= Seq::<GroupView>::empty());
        assert(bucketed_entries(properties) =~= Seq::<Json>::empty());
        assert(unknown_bucket(properties) =~= Seq::<Json>::empty());
    } else {
        let earlier = properties.drop_last();
        let last = properties.last();
        assert(earlier.push(last) == properties);
        lemma_bucket_holds_each_once(earlier);
        lemma_bucket_push(earlier, last);
        Seq::lemma_filter_push(earlier, last, |property: PropertyView| is_bucketed(property));
        if is_bucketed(last) {
            let entry = unknown_entity(last.name, last.value.unwrap(), last.params);
            assert(bucketed_entries(properties) =~= bucketed_entries(earlier).push(entry));
            vstd::seq_lib::to_multiset_build(bucketed_entries(earlier), entry);
            assert(bucketed_entries(earlier).to_multiset().insert(entry) =~= bucketed_entries(
                earlier,
            ).to_multiset().add(entry_bag(last)));
        } else {
            assert(bucketed_entries(properties) =~= bucketed_entries(earlier));
            assert(bucketed_entries(earlier).to_multiset() =~= bucketed_entries(earlier).to_multiset().add(
                entry_bag(last),
            ));
        }
    }
}

/// Whether a property is carried into the record as an entry of its own: it
/// has a value, and its tag is not one of those that the record's name and
/// identifier are derived from.
pub open spec fn is_carried(property: PropertyView) -> bool {
    has_value(property) && !(policy_of(property.name) is Skip)
}

/// The number of properties of `tag` that have a value.
pub open spec fn valued_count(properties: Seq<PropertyView>, tag: Seq<char>) -> nat {
    valued(members_of(properties, tag)).len()
}

/// The number of elements of the array under `key`, where `fields` has one.
pub open spec fn list_count(fields: Map<Seq<char>, Json>, key: Seq<char>) -> nat {
    if fields.dom().contains(key) && fields[key] is List {
        fields[key]->List_0.len()
    } else {
        0
    }
}

/// One where `fields` has a scalar under `key`, else zero.
pub open spec fn scalar_count(fields: Map<Seq<char>, Json>, key: Seq<char>) -> nat {
    if fields.dom().contains(key) && fields[key] is Text {
        1
    } else {
        0
    }
}

/// The number of entries that a record holds for properties: the elements of
/// its three collections and of its bucket, and its birth date.
pub open spec fn entry_count(fields: Map<Seq<char>, Json>) -> nat {
    list_count(fields, policy_of("TEL"@)->collection_key@) + list_count(
        fields,
        policy_of("ADR"@)->collection_key@,
    ) + list_count(fields, policy_of("EMAIL"@)->collection_key@) + scalar_count(
        fields,
        policy_of("BDAY"@)->Singleton_field_key@,
    ) + list_count(fields, UNKNOWNS_KEY@)
}

/// The carried properties of a contact are those of the four classified tags
/// that have a value, and those that are emitted into the bucket.
pub proof fn lemma_carried_count(properties: Seq<PropertyView>)
    ensures
        properties.filter(|property: PropertyView| is_carried(property)).len() == valued_count(
            properties,
            "TEL"@,
        ) + valued_count(properties, "ADR"@) + valued_count(properties, "EMAIL"@) + valued_count(
            properties,
            "BDAY"@,
        ) + properties.filter(|property: PropertyView| is_bucketed(property)).len(),
    decreases properties.len(),
{
    lemma_classified_tags();
    if properties.len() == 0 {
        reveal(Seq::filter);
    } else {
        let earlier = properties.drop_last();
        let last = properties.last();
        assert(earlier.push(last) == properties);
        lemma_carried_count(earlier);
        Seq::lemma_filter_push(earlier, last, |property: PropertyView| is_carried(property));
        Seq::lemma_filter_push(earlier, last, |property: PropertyView| is_bucketed(property));
        lemma_members_of_push(earlier, last, "TEL"@);
        lemma_members_of_push(earlier, last, "ADR"@);
        lemma_members_of_push(earlier, last, "EMAIL"@);
        lemma_members_of_push(earlier, last, "BDAY"@);
        lemma_valued_push(members_of(earlier, "TEL"@), last);
        lemma_valued_push(members_of(earlier, "ADR"@), last);
        lemma_valued_push(members_of(earlier, "EMAIL"@), last);
        lemma_valued_push(members_of(earlier, "BDAY"@), last);
    }
}

/// Every property of a contact that has a value is represented exactly once
/// in its record, but for those of the tags that the name and the identifier
/// are derived from: the record holds as many entries as the contact has
/// such properties; each collection holds, in source order, the entities of
/// the properties of its tag that have a value; the birth date is the value
/// of the one property of its tag; and the bucket holds the entry of each
/// property with a value and an unclassified tag exactly once.
pub proof fn lemma_each_property_emitted_once(properties: Seq<PropertyView>)
    requires
        contact_outcome(properties) is Ok,
    ensures
        contact_outcome(properties)->Ok_0 is Object,
        entry_count(contact_outcome(properties)->Ok_0->Object_0) == properties.filter(
            |property: PropertyView| is_carried(property),
        ).len(),
        forall|tag: Seq<char>| #[trigger]
            policy_of(tag) matches Policy::Array { class_label, field_key, collection_key } ==> {
                &&& list_count(contact_outcome(properties)->Ok_0->Object_0, collection_key@) == valued_count(
                    properties,
                    tag,
                )
                &&& members_of(properties, tag).len() > 0 ==> contact_outcome(
                    properties,
                )->Ok_0->Object_0[collection_key@] == Json::List(
                    array_entities(members_of(properties, tag), class_label@, field_key@),
                )
            },
        members_of(properties, "BDAY"@).len() > 0 ==> members_of(properties, "BDAY"@).len() == 1
            && members_of(properties, "BDAY"@)[0].value == Some(
            contact_outcome(properties)->Ok_0->Object_0[policy_of("BDAY"@)->Singleton_field_key@]->Text_0,
        ),
        contact_outcome(properties)->Ok_0->Object_0[UNKNOWNS_KEY@] == Json::List(unknown_bucket(properties)),
        unknown_bucket(properties).to_multiset() == bucketed_entries(properties).to_multiset(),
{
    lemma_record_fields(properties);
    lemma_record_keys_distinct();
    lemma_classified_tags();
    lemma_bucket_holds_each_once(properties);
    lemma_carried_count(properties);
    let fields = contact_outcome(properties)->Ok_0->Object_0;
    assert forall|tag: Seq<char>| #[trigger] policy_of(tag) is Array implies list_count(
        fields,
        policy_of(tag)->collection_key@,
    ) == valued_count(properties, tag) by {
        if members_of(properties, tag).len() == 0 {
            assert(valued(members_of(properties, tag)).len() == 0) by {
                reveal(Seq::filter);
            }
        }
    }
    assert(policy_of("TEL"@) is Array);
    assert(policy_of("ADR"@) is Array);
    assert(policy_of("EMAIL"@) is Array);
    assert(policy_of("BDAY"@) is Singleton);
    let birth = members_of(properties, "BDAY"@);
    if birth.len() == 0 {
        assert(valued(birth).len() == 0) by {
            reveal(Seq::filter);
        }
    } else {
        assert(birth.len() == 1 && has_value(birth[0]));
        assert(valued(birth).len() == 1) by {
            assert(birth =~= Seq::<PropertyView>::empty().push(birth[0]));
            lemma_valued_push(Seq::<PropertyView>::empty(), birth[0]);
            reveal(Seq::filter);
        }
    }
}

/// Properties without a value are dropped where entities and bucket entries
/// are emitted: there are as many of either as the group has properties with
/// a value, and one more property without a value changes neither. A
/// single-valued group of one property without a value gives no scalar.
pub proof fn lemma_valueless_dropped(
    group: Seq<PropertyView>,
    property: PropertyView,
    class_label: Seq<char>,
    field_key: Seq<char>,
    tag: Seq<char>,
)
    requires
        property.value is None,
    ensures
        array_entities(group, class_label, field_key).len() == valued(group).len(),
        unknown_entities(group).len() == valued(group).len(),
        array_entities(group.push(property), class_label, field_key) == array_entities(
            group,
            class_label,
            field_key,
        ),
        unknown_entities(group.push(property)) == unknown_entities(group),
        single_value(tag, seq![property]) == Err::<Seq<char>, Failure>(Failure::MissingValue { tag }),
{
    lemma_valued_push(group, property);
}

/// The local identifier depends on the version and the display name alone:
/// it is the version followed by the display name, so that two contacts that
/// agree in both have the same identifier.
pub proof fn lemma_local_id_determined(one: Seq<PropertyView>, other: Seq<PropertyView>)
    requires
        contact_outcome(one) is Ok,
        contact_outcome(other) is Ok,
        first_value(one, "VERSION"@) == first_value(other, "VERSION"@),
        display_name(one) == display_name(other),
    ensures
        contact_outcome(one)->Ok_0->Object_0[LOCAL_ID_KEY@] == contact_outcome(
            other,
        )->Ok_0->Object_0[LOCAL_ID_KEY@],
        contact_outcome(one)->Ok_0->Object_0[LOCAL_ID_KEY@] == Json::Text(
            first_value(one, "VERSION"@).unwrap() + display_name(one).unwrap(),
        ),
{
    lemma_record_fields(one);
    lemma_record_fields(other);
}

} // verus!
