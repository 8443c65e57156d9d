//! Resolving the ordered list of zones.
//!
//! The list comes from an authority file where one is supplied, and from the
//! triples themselves otherwise. Its length is the dimension of the matrix.

use crate::order::{
    dedup_ascending, is_sorted_form_of, is_strictly_ascending, lemma_same_members,
    lemma_strictly_ascending_same_members, sort,
};
use crate::reader::Triple;
use crate::records::{csv_records, read_records, records_model};
use crate::text::{int_reading, parse_i32};
use vstd::prelude::*;
use vstd::seq_lib::lemma_sorted_unique;

verus! {

/// Whether `zone` is the origin or the destination of a triple of `data`.
pub open spec fn is_endpoint(data: Seq<Triple>, zone: i32) -> bool {
    exists|k: int|
        0 <= k < data.len() && (#[trigger] data[k].origin == zone || data[k].destination == zone)
}

/// The origin and the destination of every triple, in the order of the
/// triples.
pub open spec fn endpoints(data: Seq<Triple>) -> Seq<i32> {
    Seq::new(
        2 * data.len(),
        |i: int|
            if i % 2 == 0 {
                data[i / 2].origin
            } else {
                data[i / 2].destination
            },
    )
}

/// Whether `zones` is the zone list of `data`: the zones that occur in it as
/// origin or destination, each once, in ascending order.
pub open spec fn is_zone_list_of(zones: Seq<i32>, data: Seq<Triple>) -> bool {
    &&& is_strictly_ascending(zones)
    &&& forall|zone: i32| zones.contains(zone) <==> is_endpoint(data, zone)
}

/// The zone that one record of an authority file names: its first field,
/// read as an integer.
pub open spec fn authority_id(record: Option<Seq<Seq<u8>>>) -> Option<i32> {
    match record {
        Some(fields) => if fields.len() >= 1 {
            int_reading(fields[0])
        } else {
            None
        },
        None => None,
    }
}

/// The zones that the records of an authority file name, in the order of the
/// records, repetitions included.
pub open spec fn authority_ids(records: Seq<Option<Seq<Seq<u8>>>>) -> Seq<i32>
    decreases records.len(),
{
    if records.len() == 0 {
        Seq::empty()
    } else {
        match authority_id(records.last()) {
            Some(id) => authority_ids(records.drop_last()).push(id),
            None => authority_ids(records.drop_last()),
        }
    }
}

/// Whether `zones` is the zone list for an authority file with content
/// `zone_file`, where there is one, and for the triples `data` otherwise.
/// The first record of an authority file is its header.
pub open spec fn is_zone_list(zones: Seq<i32>, zone_file: Option<Seq<u8>>, data: Seq<Triple>) -> bool {
    match zone_file {
        Some(content) => is_sorted_form_of(zones, authority_ids(csv_records(content, true))),
        None => is_zone_list_of(zones, data),
    }
}

/// A zone list derived from the triples is strictly ascending and holds no
/// zone twice.
pub proof fn law_zone_list_has_no_duplicates(zones: Seq<i32>, data: Seq<Triple>)
    requires
        is_zone_list_of(zones, data),
    ensures
        is_strictly_ascending(zones),
        zones.no_duplicates(),
{
    assert forall|i: int, j: int| 0 <= i < zones.len() && 0 <= j < zones.len() && i != j implies
        zones[i] != zones[j] by {
        if i < j {
            assert(zones[i] < zones[j]);
        } else {
            assert(zones[j] < zones[i]);
        }
    }
}

/// The triples determine their zone list: no two sequences are both the
/// zone list of the same triples.
pub proof fn law_zone_list_is_determined(a: Seq<i32>, b: Seq<i32>, data: Seq<Triple>)
    requires
        is_zone_list_of(a, data),
        is_zone_list_of(b, data),
    ensures
        a == b,
{
    lemma_strictly_ascending_same_members(a, b);
}

/// The zones that an authority file names determine the list made of them:
/// no two sequences are both the sorted form of the same identifiers.
pub proof fn law_sorted_form_is_determined(a: Seq<i32>, b: Seq<i32>, ids: Seq<i32>)
    requires
        is_sorted_form_of(a, ids),
        is_sorted_form_of(b, ids),
    ensures
        a == b,
{
    lemma_sorted_unique(a, b, |x: i32, y: i32| x <= y);
}

/// The members of the endpoint sequence are the endpoints.
pub proof fn lemma_endpoints_members(data: Seq<Triple>)
    ensures
        forall|zone: i32| endpoints(data).contains(zone) <==> is_endpoint(data, zone),
{
    let e = endpoints(data);
    assert forall|zone: i32| e.contains(zone) implies is_endpoint(data, zone) by {
        let i = choose|i: int| 0 <= i < e.len() && e[i] == zone;
        assert(data[i / 2].origin == zone || data[i / 2].destination == zone);
    }
    assert forall|zone: i32| is_endpoint(data, zone) implies e.contains(zone) by {
        let k = choose|k: int|
            0 <= k < data.len() && (#[trigger] data[k].origin == zone || data[k].destination
                == zone);
        if data[k].origin == zone {
            assert(e[2 * k] == zone);
        } else {
            assert(e[2 * k + 1] == zone);
        }
    }
}

/// Collects the origin and the destination of every triple.
pub fn collect_endpoints(data: &[Triple]) -> (all: Vec<i32>)
    ensures
        all@ == endpoints(data@),
{
    let mut all: Vec<i32> = Vec::new();
    let mut k: usize = 0;
    while k < data.len()
        invariant
            k <= data.len(),
            all@ == endpoints(data@.take(k as int)),
        decreases data.len() - k,
    {
        all.push(data[k].origin);
        all.push(data[k].destination);
        k += 1;
    }
    all
}

/// Derives the zone list from the triples: every zone that occurs as origin
/// or destination, once, in ascending order.
pub fn zones_from_data(data: &[Triple]) -> (zones: Vec<i32>)
    ensures
        is_zone_list_of(zones@, data@),
{
    let all = collect_endpoints(data);
    let sorted = sort(all.as_slice());
    proof {
        lemma_same_members(sorted@, endpoints(data@));
        lemma_endpoints_members(data@);
    }
    dedup_ascending(sorted.as_slice())
}

/// Reads the zone that each record of an authority file names.
pub fn read_authority_ids(records: &[Option<Vec<Vec<u8>>>]) -> (ids: Vec<i32>)
    ensures
        ids@ == authority_ids(records_model(records@)),
{
    let ghost model = records_model(records@);
    let mut ids: Vec<i32> = Vec::new();
    let mut i: usize = 0;
    while i < records.len()
        invariant
            i <= records.len(),
            model == records_model(records@),
            ids@ == authority_ids(model.take(i as int)),
        decreases records.len() - i,
    {
        assert(model.take(i + 1).drop_last() =~= model.take(i as int));
        match &records[i] {
            Some(fields) => {
                if fields.len() >= 1 {
                    match parse_i32(fields[0].as_slice()) {
                        Some(id) => {
                            ids.push(id);
                        },
                        None => {},
                    }
                }
            },
            None => {},
        }
        i += 1;
    }
    assert(model.take(records.len() as int) =~= model);
    ids
}

/// Takes the zone list from the records of an authority file: the zones it
/// names, in ascending order. A zone that the file names more than once
/// stays in the list as often.
pub fn zones_from_authority(records: &[Option<Vec<Vec<u8>>>]) -> (zones: Vec<i32>)
    ensures
        is_sorted_form_of(zones@, authority_ids(records_model(records@))),
{
    let ids = read_authority_ids(records);
    sort(ids.as_slice())
}

/// Resolves the zone list: from the authority file with content `zone_file`
/// where there is one, whose first record is a header, and from `data`
/// otherwise.
pub fn get_all_zones(zone_file: Option<&[u8]>, data: &[Triple]) -> (zones: Vec<i32>)
    ensures
        is_zone_list(
            zones@,
            match zone_file {
                Some(content) => Some(content@),
                None => None,
            },
            data@,
        ),
{
    match zone_file {
        Some(content) => {
            let records = read_records(content, true);
            zones_from_authority(records.as_slice())
        },
        None => zones_from_data(data),
    }
}

} // verus!
