//! From the text of a vCard file to the records of its contacts.

use vstd::prelude::*;
use crate::contact::{contact_failure, contact_outcome, parse_contact};
use crate::error::{AssemblyError, Failure};
use crate::json::{documents_of, json_list, json_of, Json};
use crate::property::{properties_view, texts_of, Property, PropertyView};

verus! {

/// One unit of a vCard file as the parser hands it out: the properties of a
/// contact, or the message of the error that made the unit unreadable.
pub type Unit = Result<Vec<Property>, String>;

/// The view of a unit.
pub type UnitView = Result<Seq<PropertyView>, Seq<char>>;

/// The view of one unit.
pub open spec fn unit_view(unit: Unit) -> UnitView {
    match unit {
        Ok(properties) => Ok(properties_view(properties@)),
        Err(message) => Err(message@),
    }
}

/// The views of a list of units.
pub open spec fn units_view(units: Seq<Unit>) -> Seq<UnitView> {
    units.map_values(|unit: Unit| unit_view(unit))
}

/// The units that `ical`'s vCard parser reads from the bytes of a file, in
/// order.
pub uninterp spec fn vcard_units(bytes: Seq<u8>) -> Seq<UnitView>;

/// `ical::VcardParser`: iterates the parser over the bytes to its end and
/// hands out each unit, a contact as its properties and an error as its
/// message.
#[verifier::external_body]
fn read_units(bytes: &[u8]) -> (units: Vec<Unit>)
    ensures
        units_view(units@) == vcard_units(bytes@),
{
    ical::VcardParser::new(bytes).map(
        |unit| match unit {
            Ok(contact) => Ok(
                contact.properties.into_iter().map(
                    |p| Property { name: p.name, params: p.params, value: p.value },
                ).collect(),
            ),
            Err(error) => Err(error.to_string()),
        },
    ).collect()
}

/// What a run over the units of a file gives.
#[derive(Debug)]
pub struct Conversion {
    /// The array of the records of the readable contacts, in the order read.
    pub records: serde_json::Value,
    /// The messages of the unreadable units, in the order read.
    pub skipped: Vec<String>,
}

/// Why a unit stops the run: it is a contact that has no record.
pub open spec fn unit_failure(unit: UnitView) -> Option<Failure> {
    match unit {
        Ok(properties) => contact_failure(properties),
        Err(message) => None,
    }
}

/// The position of the first unit that stops the run.
pub open spec fn first_fatal(units: Seq<UnitView>) -> Option<int>
    decreases units.len(),
{
    if units.len() == 0 {
        None
    } else {
        match first_fatal(units.drop_last()) {
            Some(at) => Some(at),
            None => if unit_failure(units.last()) is Some {
                Some(units.len() - 1)
            } else {
                None
            },
        }
    }
}

/// The records of the contacts among the units that have one, in order.
pub open spec fn records_of(units: Seq<UnitView>) -> Seq<Json>
    decreases units.len(),
{
    if units.len() == 0 {
        Seq::empty()
    } else {
        let earlier = records_of(units.drop_last());
        match units.last() {
            Ok(properties) => match contact_outcome(properties) {
                Ok(record) => earlier.push(record),
                Err(failure) => earlier,
            },
            Err(message) => earlier,
        }
    }
}

/// The messages of the unreadable units, in order.
pub open spec fn skipped_of(units: Seq<UnitView>) -> Seq<Seq<char>>
    decreases units.len(),
{
    if units.len() == 0 {
        Seq::empty()
    } else {
        let earlier = skipped_of(units.drop_last());
        match units.last() {
            Ok(properties) => earlier,
            Err(message) => earlier.push(message),
        }
    }
}

/// The first unit that stops a run is that of the shortest prefix that has one.
pub proof fn lemma_first_fatal_prefix(units: Seq<UnitView>, at: int)
    requires
        0 <= at < units.len(),
        first_fatal(units.take(at)) is None,
        unit_failure(units[at]) is Some,
    ensures
        first_fatal(units) == Some(at),
    decreases units.len(),
{
    if at == units.len() - 1 {
        assert(units.take(at) == units.drop_last());
    } else {
        assert(units.drop_last().take(at) == units.take(at));
        lemma_first_fatal_prefix(units.drop_last(), at);
    }
}

/// Runs over the units of a file in order: assembles the record of each
/// contact and notes the message of each unreadable unit, which is skipped.
/// Stops at the first contact that has no record, with its reason.
pub fn assemble_records(units: &Vec<Unit>) -> (outcome: Result<Conversion, AssemblyError>)
    ensures
        match outcome {
            Ok(conversion) => first_fatal(units_view(units@)) is None && json_of(conversion.records)
                == Json::List(records_of(units_view(units@))) && texts_of(conversion.skipped@)
                == skipped_of(units_view(units@)),
            Err(error) => first_fatal(units_view(units@)) is Some && unit_failure(
                units_view(units@)[first_fatal(units_view(units@)).unwrap()],
            ) == Some(error@),
        },
{
    let mut records: Vec<serde_json::Value> = Vec::new();
    let mut skipped: Vec<String> = Vec::new();
    let ghost views = units_view(units@);
    let mut i: usize = 0;
    assert(views.take(0) =~= Seq::<UnitView>::empty());
    assert(documents_of(records@) =~= Seq::<Json>::empty());
    assert(texts_of(skipped@) =~= Seq::<Seq<char>>::empty());
    while i < units.len()
        invariant
            i <= units.len(),
            views == units_view(units@),
            first_fatal(views.take(i as int)) is None,
            documents_of(records@) == records_of(views.take(i as int)),
            texts_of(skipped@) == skipped_of(views.take(i as int)),
        decreases units.len() - i,
    {
        proof {
            assert(views.take(i + 1).drop_last() == views.take(i as int));
            assert(views.take(i + 1).last() == unit_view(units@[i as int]));
        }
        let ghost records_before = documents_of(records@);
        let ghost skipped_before = texts_of(skipped@);
        match &units[i] {
            Ok(properties) => {
                match parse_contact(properties) {
                    Ok(record) => {
                        records.push(record);
                        assert(documents_of(records@) =~= records_before.push(json_of(record)));
                    },
                    Err(error) => {
                        proof {
                            lemma_first_fatal_prefix(views, i as int);
                        }
                        return Err(error);
                    },
                }
            },
            Err(message) => {
                skipped.push(message.clone());
                assert(texts_of(skipped@) =~= skipped_before.push(message@));
            },
        }
        i += 1;
    }
    assert(views.take(units.len() as int) == views);
    Ok(Conversion { records: json_list(records), skipped })
}

/// Converts the bytes of a vCard file: reads its units with the vCard parser
/// and runs over them as `assemble_records` does.
pub fn parse_vcard_file(bytes: &[u8]) -> (outcome: Result<Conversion, AssemblyError>)
    ensures
        match outcome {
            Ok(conversion) => first_fatal(vcard_units(bytes@)) is None && json_of(conversion.records)
                == Json::List(records_of(vcard_units(bytes@))) && texts_of(conversion.skipped@)
                == skipped_of(vcard_units(bytes@)),
            Err(error) => first_fatal(vcard_units(bytes@)) is Some && unit_failure(
                vcard_units(bytes@)[first_fatal(vcard_units(bytes@)).unwrap()],
            ) == Some(error@),
        },
{
    let units = read_units(bytes);
    assemble_records(&units)
}

} // verus!
