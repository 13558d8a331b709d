//! Grouping of a contact's properties by tag.

use vstd::prelude::*;
use crate::emit::members_view;
use crate::property::{properties_view, Property, PropertyView};

verus! {

/// The properties of one contact that share a tag, in source order.
#[derive(Debug)]
pub struct PropertyGroup<'a> {
    /// The tag that the members share.
    pub name: String,
    /// The properties with that tag, in source order.
    pub members: Vec<&'a Property>,
}

/// The view of a group.
pub struct GroupView {
    pub name: Seq<char>,
    pub members: Seq<PropertyView>,
}

impl<'a> View for PropertyGroup<'a> {
    type V = GroupView;

    open spec fn view(&self) -> GroupView {
        GroupView { name: self.name@, members: members_view(self.members@) }
    }
}

/// The views of a list of groups.
pub open spec fn groups_view(groups: Seq<PropertyGroup>) -> Seq<GroupView> {
    groups.map_values(|group: PropertyGroup| group@)
}

/// The properties of `properties` with the tag `tag`, in source order. Tags are
/// compared exactly.
pub open spec fn members_of(properties: Seq<PropertyView>, tag: Seq<char>) -> Seq<PropertyView> {
    properties.filter(|property: PropertyView| property.name == tag)
}

/// The tags of `properties`, each once, in the order of their first appearance.
pub open spec fn tag_order(properties: Seq<PropertyView>) -> Seq<Seq<char>>
    decreases properties.len(),
{
    if properties.len() == 0 {
        Seq::empty()
    } else {
        let earlier = tag_order(properties.drop_last());
        if earlier.contains(properties.last().name) {
            earlier
        } else {
            earlier.push(properties.last().name)
        }
    }
}

/// The grouping of `properties`: one group for each tag, in the order of the
/// tags' first appearance, with all properties of that tag in source order.
pub open spec fn grouped(properties: Seq<PropertyView>) -> Seq<GroupView> {
    tag_order(properties).map_values(
        |tag: Seq<char>| GroupView { name: tag, members: members_of(properties, tag) },
    )
}

/// A tag that is no tag of `properties` has no members there.
pub proof fn lemma_members_of_absent_tag(properties: Seq<PropertyView>, tag: Seq<char>)
    requires
        !tag_order(properties).contains(tag),
    ensures
        members_of(properties, tag) == Seq::<PropertyView>::empty(),
    decreases properties.len(),
{
    reveal(Seq::filter);
    if properties.len() > 0 {
        let earlier = tag_order(properties.drop_last());
        let last = properties.last().name;
        if earlier.contains(last) {
        } else {
            assert(earlier.push(last)[earlier.len() as int] == last);
            assert forall|i: int| 0 <= i < earlier.len() implies earlier[i] != tag by {
                assert(earlier.push(last)[i] == earlier[i]);
            }
        }
        lemma_members_of_absent_tag(properties.drop_last(), tag);
    }
}

/// No tag occurs twice in the order of tags.
pub proof fn lemma_tag_order_distinct(properties: Seq<PropertyView>)
    ensures
        tag_order(properties).no_duplicates(),
    decreases properties.len(),
{
    if properties.len() > 0 {
        lemma_tag_order_distinct(properties.drop_last());
    }
}

/// The members of a tag after one more property.
pub proof fn lemma_members_of_push(properties: Seq<PropertyView>, property: PropertyView, tag: Seq<char>)
    ensures
        members_of(properties.push(property), tag) == if property.name == tag {
            members_of(properties, tag).push(property)
        } else {
            members_of(properties, tag)
        },
{
    Seq::lemma_filter_push(properties, property, |property: PropertyView| property.name == tag);
}

/// Grouping one more property: it joins the group of its tag where there is
/// one, and else opens a new group at the end.
pub proof fn lemma_grouped_push(properties: Seq<PropertyView>, property: PropertyView)
    ensures
        forall|j: int|
            0 <= j < grouped(properties).len() && #[trigger] grouped(properties)[j].name == property.name
                ==> grouped(properties.push(property)) == grouped(properties).update(
                j,
                GroupView { name: property.name, members: grouped(properties)[j].members.push(property) },
            ),
        (forall|j: int| 0 <= j < grouped(properties).len() ==> #[trigger] grouped(properties)[j].name != property.name)
            ==> grouped(properties.push(property)) == grouped(properties).push(
            GroupView { name: property.name, members: seq![property] },
        ),
{
    let longer = properties.push(property);
    let tags = tag_order(properties);
    assert(longer.drop_last() == properties);
    lemma_tag_order_distinct(properties);
    assert forall|tag: Seq<char>|
        members_of(longer, tag) == if property.name == tag {
            members_of(properties, tag).push(property)
        } else {
            members_of(properties, tag)
        } by {
        lemma_members_of_push(properties, property, tag);
    }
    if tags.contains(property.name) {
        let at = choose|j: int| 0 <= j < tags.len() && tags[j] == property.name;
        assert(grouped(properties)[at].name == property.name);
        assert forall|j: int| 0 <= j < tags.len() && tags[j] == property.name implies grouped(longer)
            == grouped(properties).update(
            j,
            GroupView { name: property.name, members: grouped(properties)[j].members.push(property) },
        ) by {
            assert(grouped(longer) =~= grouped(properties).update(
                j,
                GroupView { name: property.name, members: grouped(properties)[j].members.push(property) },
            ));
        }
    } else {
        lemma_members_of_absent_tag(properties, property.name);
        assert(grouped(longer) =~= grouped(properties).push(
            GroupView { name: property.name, members: seq![property] },
        ));
    }
}

/// Every tag of `properties` is in the order of tags, and has members.
pub proof fn lemma_tag_order_complete(properties: Seq<PropertyView>)
    ensures
        forall|k: int|
            0 <= k < properties.len() ==> tag_order(properties).contains((#[trigger] properties[k]).name),
        forall|j: int|
            0 <= j < tag_order(properties).len() ==> members_of(
                properties,
                #[trigger] tag_order(properties)[j],
            ).len() > 0,
    decreases properties.len(),
{
    if properties.len() > 0 {
        let earlier = properties.drop_last();
        let last = properties.last();
        let tags = tag_order(earlier);
        assert(earlier.push(last) == properties);
        lemma_tag_order_complete(earlier);
        assert forall|k: int| 0 <= k < properties.len() implies tag_order(properties).contains(
            (#[trigger] properties[k]).name,
        ) by {
            if k < earlier.len() {
                assert(earlier[k] == properties[k]);
                let at = choose|j: int| 0 <= j < tags.len() && tags[j] == properties[k].name;
                assert(tag_order(properties)[at] == properties[k].name);
            } else if tags.contains(last.name) {
            } else {
                assert(tag_order(properties)[tags.len() as int] == last.name);
            }
        }
        assert forall|j: int| 0 <= j < tag_order(properties).len() implies members_of(
            properties,
            #[trigger] tag_order(properties)[j],
        ).len() > 0 by {
            lemma_members_of_push(earlier, last, tag_order(properties)[j]);
            if j < tags.len() {
                assert(tag_order(properties)[j] == tags[j]);
            }
        }
    }
}

/// The number of properties in a list of groups.
pub open spec fn member_count(groups: Seq<GroupView>) -> nat
    decreases groups.len(),
{
    if groups.len() == 0 {
        0
    } else {
        member_count(groups.drop_last()) + groups.last().members.len()
    }
}

proof fn lemma_member_count_update(groups: Seq<GroupView>, at: int, group: GroupView)
    requires
        0 <= at < groups.len(),
    ensures
        member_count(groups.update(at, group)) + groups[at].members.len() == member_count(groups)
            + group.members.len(),
    decreases groups.len(),
{
    let updated = groups.update(at, group);
    if at == groups.len() - 1 {
        assert(updated.drop_last() == groups.drop_last());
    } else {
        assert(updated.drop_last() == groups.drop_last().update(at, group));
        lemma_member_count_update(groups.drop_last(), at, group);
    }
}

/// Grouping puts every property into exactly one group, that of its tag: no
/// group is empty, no two groups share a name, each group holds the
/// properties of its name in source order, each property's tag names a
/// group, and the groups together hold as many properties as the contact.
pub proof fn lemma_grouping(properties: Seq<PropertyView>)
    ensures
        forall|j: int|
            0 <= j < grouped(properties).len() ==> (#[trigger] grouped(properties)[j]).members.len() > 0
                && grouped(properties)[j].members == members_of(properties, grouped(properties)[j].name),
        forall|i: int, j: int|
            0 <= i < j < grouped(properties).len() ==> (#[trigger] grouped(properties)[i]).name != (
            #[trigger] grouped(properties)[j]).name,
        forall|k: int|
            0 <= k < properties.len() ==> exists|j: int|
                0 <= j < grouped(properties).len() && (#[trigger] grouped(properties)[j]).name == (
                #[trigger] properties[k]).name,
        member_count(grouped(properties)) == properties.len(),
    decreases properties.len(),
{
    let groups = grouped(properties);
    let tags = tag_order(properties);
    lemma_tag_order_complete(properties);
    lemma_tag_order_distinct(properties);
    assert forall|j: int| 0 <= j < groups.len() implies (#[trigger] groups[j]).members.len() > 0 by {
        assert(groups[j].name == tags[j]);
    }
    assert forall|k: int| 0 <= k < properties.len() implies exists|j: int|
        0 <= j < groups.len() && (#[trigger] groups[j]).name == (#[trigger] properties[k]).name by {
        let at = choose|j: int| 0 <= j < tags.len() && tags[j] == properties[k].name;
        assert(groups[at].name == properties[k].name);
    }
    if properties.len() == 0 {
        assert(groups =~= Seq::<GroupView>::empty());
    } else {
        let earlier = properties.drop_last();
        let last = properties.last();
        let before = grouped(earlier);
        assert(earlier.push(last) == properties);
        lemma_grouping(earlier);
        lemma_grouped_push(earlier, last);
        if exists|j: int| 0 <= j < before.len() && (#[trigger] before[j]).name == last.name {
            let at = choose|j: int| 0 <= j < before.len() && (#[trigger] before[j]).name == last.name;
            let joined = GroupView { name: last.name, members: before[at].members.push(last) };
            assert(groups == before.update(at, joined));
            lemma_member_count_update(before, at, joined);
        } else {
            let opened = GroupView { name: last.name, members: seq![last] };
            assert(groups == before.push(opened));
            assert(groups.drop_last() == before);
        }
    }
}

/// Finds the group named `tag`.
pub fn find_group(groups: &Vec<PropertyGroup>, tag: &String) -> (found: Option<usize>)
    ensures
        match found {
            Some(at) => at < groups.len() && groups@[at as int].name@ == tag@ && forall|j: int|
                0 <= j < at ==> groups@[j].name@ != tag@,
            None => forall|j: int| 0 <= j < groups.len() ==> groups@[j].name@ != tag@,
        },
{
    let mut j: usize = 0;
    while j < groups.len()
        invariant
            j <= groups.len(),
            forall|k: int| 0 <= k < j ==> groups@[k].name@ != tag@,
        decreases groups.len() - j,
    {
        if groups[j].name == *tag {
            return Some(j);
        }
        j += 1;
    }
    None
}

/// Groups the properties of one contact by tag: one group for each tag, in
/// the order of the tags' first appearance, each with all properties of its
/// tag in source order.
pub fn group_properties<'a>(properties: &'a Vec<Property>) -> (groups: Vec<PropertyGroup<'a>>)
    ensures
        groups_view(groups@) == grouped(properties_view(properties@)),
{
    let mut groups: Vec<PropertyGroup<'a>> = Vec::new();
    let mut i: usize = 0;
    assert(groups_view(groups@) =~= grouped(properties_view(properties@).take(0)));
    while i < properties.len()
        invariant
            i <= properties.len(),
            groups_view(groups@) == grouped(properties_view(properties@).take(i as int)),
        decreases properties.len() - i,
    {
        let property = &properties[i];
        proof {
            let all = properties_view(properties@);
            assert(all.take(i + 1) == all.take(i as int).push(property@));
            lemma_grouped_push(all.take(i as int), property@);
        }
        let ghost before = groups_view(groups@);
        match find_group(&groups, &property.name) {
            Some(at) => {
                assert(before[at as int].name == property@.name);
                let ghost earlier = groups@;
                groups[at].members.push(property);
                assert(groups@.len() == earlier.len());
                assert(groups@[at as int].name == earlier[at as int].name);
                assert(groups@[at as int].members@ == earlier[at as int].members@.push(property));
                assert(members_view(groups@[at as int].members@) =~= members_view(
                    earlier[at as int].members@,
                ).push(property@));
                assert(forall|j: int| 0 <= j < earlier.len() && j != at ==> groups@[j] == earlier[j]);
                assert(groups_view(groups@) =~= before.update(
                    at as int,
                    GroupView { name: property@.name, members: before[at as int].members.push(property@) },
                ));
            },
            None => {
                let mut members: Vec<&'a Property> = Vec::new();
                members.push(property);
                assert(members_view(members@) =~= seq![property@]);
                groups.push(PropertyGroup { name: property.name.clone(), members });
                assert(groups_view(groups@) =~= before.push(
                    GroupView { name: property@.name, members: seq![property@] },
                ));
            },
        }
        i += 1;
    }
    proof {
        let all = properties_view(properties@);
        assert(all.take(properties.len() as int) == all);
    }
    groups
}

} // verus!
