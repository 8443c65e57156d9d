//! Reading flow triples from the records of a delimited text.
//!
//! The shape of the input is decided once, by its first record: with exactly
//! three fields the input is a list of triples, one per record; with any
//! other number of fields it is a cross-tab, whose first record names the
//! destinations and whose other records each hold an origin and one value per
//! destination.

use crate::records::{Field, FieldModel};
use crate::text::{int_reading, parse_i32};
use vstd::prelude::*;
use vstd::slice::slice_subrange;

verus! {

/// One observation: the flow `value` from zone `origin` to zone
/// `destination`. The value is the bit pattern of an IEEE-754
/// single-precision number.
#[derive(Clone, Copy, Debug, PartialEq, Eq, Structural)]
pub struct Triple {
    pub origin: i32,
    pub destination: i32,
    pub value: u32,
}

/// The records of an input, as the contracts speak of them.
pub type Records = Seq<Option<Seq<FieldModel>>>;

/// Whether a bit pattern encodes zero, of either sign.
pub open spec fn is_zero(bits: u32) -> bool {
    bits == 0 || bits == 0x8000_0000
}

/// The triple that one record of a triple list holds: its first three fields
/// read as origin, destination and value. A malformed record, one with fewer
/// than three fields, or one with a field that does not read as its kind,
/// holds none.
pub open spec fn sparse_row(row: Option<Seq<FieldModel>>) -> Option<Triple> {
    match row {
        Some(fields) => if fields.len() >= 3 {
            match (int_reading(fields[0].text), int_reading(fields[1].text), fields[2].number) {
                (Some(origin), Some(destination), Some(value)) => Some(
                    Triple { origin, destination, value },
                ),
                _ => None,
            }
        } else {
            None
        },
        None => None,
    }
}

/// The triples of a triple list, in the order of its records.
pub open spec fn sparse_triples(rows: Records) -> Seq<Triple>
    decreases rows.len(),
{
    if rows.len() == 0 {
        Seq::empty()
    } else {
        match sparse_row(rows.last()) {
            Some(triple) => sparse_triples(rows.drop_last()).push(triple),
            None => sparse_triples(rows.drop_last()),
        }
    }
}

/// The destinations that the first record of a cross-tab names: its fields
/// but the first, each read as an integer, without those that read as none.
pub open spec fn destinations(header: Seq<FieldModel>) -> Seq<i32>
    decreases header.len(),
{
    if header.len() <= 1 {
        Seq::empty()
    } else {
        match int_reading(header.last().text) {
            Some(id) => destinations(header.drop_last()).push(id),
            None => destinations(header.drop_last()),
        }
    }
}

/// The triples of one cross-tab record with origin `origin`: the field at
/// position `k` after the first gives a triple to destination `k` where there
/// is such a destination and the field reads as a number other than zero.
pub open spec fn rectangular_cells(origin: i32, fields: Seq<FieldModel>, dests: Seq<i32>) -> Seq<
    Triple,
>
    decreases fields.len(),
{
    if fields.len() <= 1 {
        Seq::empty()
    } else {
        let before = rectangular_cells(origin, fields.drop_last(), dests);
        let k = fields.len() - 2;
        match fields.last().number {
            Some(value) => if k < dests.len() && !is_zero(value) {
                before.push(Triple { origin, destination: dests[k], value })
            } else {
                before
            },
            None => before,
        }
    }
}

/// The triples of one cross-tab record: none for a malformed record or one
/// whose first field does not read as an origin.
pub open spec fn rectangular_row(row: Option<Seq<FieldModel>>, dests: Seq<i32>) -> Seq<Triple> {
    match row {
        Some(fields) => if fields.len() >= 1 {
            match int_reading(fields[0].text) {
                Some(origin) => rectangular_cells(origin, fields, dests),
                None => Seq::empty(),
            }
        } else {
            Seq::empty()
        },
        None => Seq::empty(),
    }
}

/// The triples of the records of a cross-tab after its first, in order.
pub open spec fn rectangular_rows(rows: Records, dests: Seq<i32>) -> Seq<Triple>
    decreases rows.len(),
{
    if rows.len() == 0 {
        Seq::empty()
    } else {
        rectangular_rows(rows.drop_last(), dests) + rectangular_row(rows.last(), dests)
    }
}

/// The triples of a cross-tab with first record `header` and further records
/// `rows`. A first record that names no destination gives none.
pub open spec fn rectangular_triples(header: Seq<FieldModel>, rows: Records) -> Seq<Triple> {
    if destinations(header).len() == 0 {
        Seq::empty()
    } else {
        rectangular_rows(rows, destinations(header))
    }
}

/// The triples of an input with records `rows`. No record, or a malformed
/// first record, gives none.
pub open spec fn triples_of(rows: Records) -> Seq<Triple> {
    if rows.len() == 0 {
        Seq::empty()
    } else {
        match rows[0] {
            Some(first) => if first.len() == 3 {
                sparse_triples(rows)
            } else {
                rectangular_triples(first, rows.skip(1))
            },
            None => Seq::empty(),
        }
    }
}

/// An input whose first record has exactly three fields is read as a triple
/// list, whatever the records after it look like.
pub proof fn law_three_fields_mean_triple_list(rows: Records)
    requires
        rows.len() > 0,
        rows[0] matches Some(first) && first.len() == 3,
    ensures
        triples_of(rows) == sparse_triples(rows),
{
}

/// An input whose first record has any other number of fields than three is
/// read as a cross-tab, whatever the records after it look like.
pub proof fn law_other_field_counts_mean_cross_tab(rows: Records)
    requires
        rows.len() > 0,
        rows[0] matches Some(first) && first.len() != 3,
    ensures
        triples_of(rows) == rectangular_triples(rows[0]->0, rows.skip(1)),
{
}

/// Whether no triple of `triples` has a value of zero.
pub open spec fn has_no_zero(triples: Seq<Triple>) -> bool {
    forall|k: int| 0 <= k < triples.len() ==> !is_zero((#[trigger] triples[k]).value)
}

/// No triple of one cross-tab record has a value of zero.
pub proof fn lemma_cells_are_not_zero(origin: i32, fields: Seq<FieldModel>, dests: Seq<i32>)
    ensures
        has_no_zero(rectangular_cells(origin, fields, dests)),
    decreases fields.len(),
{
    if fields.len() > 1 {
        lemma_cells_are_not_zero(origin, fields.drop_last(), dests);
    }
}

/// No triple of the records of a cross-tab has a value of zero.
pub proof fn lemma_rows_are_not_zero(rows: Records, dests: Seq<i32>)
    ensures
        has_no_zero(rectangular_rows(rows, dests)),
    decreases rows.len(),
{
    if rows.len() > 0 {
        lemma_rows_are_not_zero(rows.drop_last(), dests);
        match rows.last() {
            Some(fields) => {
                if fields.len() >= 1 {
                    match int_reading(fields[0].text) {
                        Some(origin) => {
                            lemma_cells_are_not_zero(origin, fields, dests);
                        },
                        None => {},
                    }
                }
            },
            None => {},
        }
    }
}

/// A cell of a cross-tab with a value of zero never gives a triple: no
/// triple read from a cross-tab has a value of zero.
pub proof fn law_cross_tab_leaves_zero_out(header: Seq<FieldModel>, rows: Records)
    ensures
        has_no_zero(rectangular_triples(header, rows)),
{
    lemma_rows_are_not_zero(rows, destinations(header));
}

/// A record of a triple list whose three fields read as origin, destination
/// and value always gives its triple, a value of zero included.
pub proof fn law_triple_list_keeps_zero(
    rows: Records,
    r: int,
    origin: i32,
    destination: i32,
    value: u32,
)
    requires
        0 <= r < rows.len(),
        rows[r] matches Some(fields) && fields.len() >= 3 && int_reading(fields[0].text) == Some(
            origin,
        ) && int_reading(fields[1].text) == Some(destination) && fields[2].number == Some(value),
    ensures
        sparse_triples(rows).contains(Triple { origin, destination, value }),
    decreases rows.len(),
{
    let triple = Triple { origin, destination, value };
    if r == rows.len() - 1 {
        let all = sparse_triples(rows);
        assert(all[all.len() - 1] == triple);
    } else {
        law_triple_list_keeps_zero(rows.drop_last(), r, origin, destination, value);
        let before = sparse_triples(rows.drop_last());
        let k = choose|k: int| 0 <= k < before.len() && before[k] == triple;
        assert(sparse_triples(rows)[k] == triple);
    }
}

/// Reads one record of a triple list.
pub fn read_sparse_row(row: &Option<Vec<Field>>) -> (triple: Option<Triple>)
    ensures
        triple == sparse_row(row.deep_view()),
{
    match row {
        Some(fields) => {
            if fields.len() < 3 {
                return None;
            }
            let origin = parse_i32(fields[0].text.as_slice());
            let destination = parse_i32(fields[1].text.as_slice());
            match (origin, destination, fields[2].number) {
                (Some(origin), Some(destination), Some(value)) => Some(
                    Triple { origin, destination, value },
                ),
                _ => None,
            }
        },
        None => None,
    }
}

/// Reads the records of a triple list.
pub fn read_sparse_csv_from_records(rows: &[Option<Vec<Field>>]) -> (data: Vec<Triple>)
    ensures
        data@ == sparse_triples(rows.deep_view()),
{
    let ghost model = rows.deep_view();
    let mut data: Vec<Triple> = Vec::new();
    let mut i: usize = 0;
    while i < rows.len()
        invariant
            i <= rows.len(),
            model == rows.deep_view(),
            data@ == sparse_triples(model.take(i as int)),
        decreases rows.len() - i,
    {
        assert(model.take(i + 1).drop_last() =~= model.take(i as int));
        match read_sparse_row(&rows[i]) {
            Some(triple) => {
                data.push(triple);
            },
            None => {},
        }
        i += 1;
    }
    assert(model.take(rows.len() as int) =~= model);
    data
}

/// Reads the destinations that the first record of a cross-tab names.
pub fn read_destinations(header: &[Field]) -> (dests: Vec<i32>)
    ensures
        dests@ == destinations(header.deep_view()),
{
    let ghost model = header.deep_view();
    let mut dests: Vec<i32> = Vec::new();
    let mut i: usize = 1;
    if header.len() <= 1 {
        return dests;
    }
    while i < header.len()
        invariant
            1 <= i <= header.len(),
            model == header.deep_view(),
            dests@ == destinations(model.take(i as int)),
        decreases header.len() - i,
    {
        assert(model.take(i + 1).drop_last() =~= model.take(i as int));
        match parse_i32(header[i].text.as_slice()) {
            Some(id) => {
                dests.push(id);
            },
            None => {},
        }
        i += 1;
    }
    assert(model.take(header.len() as int) =~= model);
    dests
}

/// Appends to `data` the triples of one cross-tab record.
pub fn read_rectangular_row(row: &Option<Vec<Field>>, dests: &[i32], data: &mut Vec<Triple>)
    ensures
        final(data)@ == old(data)@ + rectangular_row(row.deep_view(), dests@),
{
    match row {
        Some(fields) => {
            if fields.len() < 1 {
                return ;
            }
            match parse_i32(fields[0].text.as_slice()) {
                Some(origin) => {
                    let ghost model = fields.deep_view();
                    let ghost before = data@;
                    let mut col: usize = 1;
                    while col < fields.len()
                        invariant
                            1 <= col <= fields.len(),
                            model == fields.deep_view(),
                            data@ == before + rectangular_cells(
                                origin,
                                model.take(col as int),
                                dests@,
                            ),
                        decreases fields.len() - col,
                    {
                        assert(model.take(col + 1).drop_last() =~= model.take(col as int));
                        let k: usize = col - 1;
                        match fields[col].number {
                            Some(value) => {
                                if k < dests.len() && !(value == 0 || value == 0x8000_0000) {
                                    data.push(Triple { origin, destination: dests[k], value });
                                    assert(data@ =~= before + rectangular_cells(
                                        origin,
                                        model.take(col + 1),
                                        dests@,
                                    ));
                                }
                            },
                            None => {},
                        }
                        col += 1;
                    }
                    assert(model.take(fields.len() as int) =~= model);
                },
                None => {},
            }
        },
        None => {},
    }
}

/// Reads a cross-tab whose first record is `header_record` and whose further
/// records are `records`.
pub fn read_rectangular_csv_from_records(
    header_record: &[Field],
    records: &[Option<Vec<Field>>],
) -> (data: Vec<Triple>)
    ensures
        data@ == rectangular_triples(header_record.deep_view(), records.deep_view()),
{
    let dests = read_destinations(header_record);
    let mut data: Vec<Triple> = Vec::new();
    if dests.len() == 0 {
        return data;
    }
    let ghost model = records.deep_view();
    let mut i: usize = 0;
    while i < records.len()
        invariant
            i <= records.len(),
            model == records.deep_view(),
            data@ == rectangular_rows(model.take(i as int), dests@),
        decreases records.len() - i,
    {
        assert(model.take(i + 1).drop_last() =~= model.take(i as int));
        read_rectangular_row(&records[i], dests.as_slice(), &mut data);
        i += 1;
    }
    assert(model.take(records.len() as int) =~= model);
    data
}

/// Reads the flow triples of an input from its records.
///
/// The first record decides the shape of the whole input, whatever the
/// records after it look like. In a triple list a value of zero is kept; in a
/// cross-tab it is left out.
pub fn read_csv(rows: &[Option<Vec<Field>>]) -> (data: Vec<Triple>)
    ensures
        data@ == triples_of(rows.deep_view()),
{
    if rows.len() == 0 {
        return Vec::new();
    }
    match &rows[0] {
        Some(first) => {
            if first.len() == 3 {
                read_sparse_csv_from_records(rows)
            } else {
                let rest = slice_subrange(rows, 1, rows.len());
                assert(rest.deep_view() =~= rows.deep_view().skip(1));
                read_rectangular_csv_from_records(first.as_slice(), rest)
            }
        },
        None => Vec::new(),
    }
}

} // verus!
