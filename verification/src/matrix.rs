//! Assembling flow triples into a dense square matrix.
//!
//! The matrix has one row and one column per position of the zone list. A
//! zone identifier stands for the last position that holds it, so that with a
//! list without repetitions every zone stands for its own position.

use crate::reader::Triple;
use std::collections::HashMap;
use vstd::arithmetic::div_mod::{lemma_fundamental_div_mod, lemma_fundamental_div_mod_converse};
use vstd::arithmetic::mul::{lemma_mul_inequality, lemma_mul_is_commutative, lemma_mul_is_distributive_add_other_way};
use vstd::prelude::*;
use vstd::std_specs::hash::group_hash_axioms;

verus! {

/// The rank of zone `id`: the last position of `zones` that holds it, or
/// `None` where no position does.
pub open spec fn rank_of(zones: Seq<i32>, id: i32) -> Option<int>
    decreases zones.len(),
{
    if zones.len() == 0 {
        None
    } else if zones.last() == id {
        Some(zones.len() - 1)
    } else {
        rank_of(zones.drop_last(), id)
    }
}

/// Whether `triple` belongs in row `i`, column `j`.
pub open spec fn addresses(triple: Triple, zones: Seq<i32>, i: int, j: int) -> bool {
    rank_of(zones, triple.origin) == Some(i) && rank_of(zones, triple.destination) == Some(j)
}

/// The value in row `i`, column `j`: that of the last triple of `data` that
/// belongs there, or zero where none does.
pub open spec fn cell(data: Seq<Triple>, zones: Seq<i32>, i: int, j: int) -> u32
    decreases data.len(),
{
    if data.len() == 0 {
        0
    } else if addresses(data.last(), zones, i, j) {
        data.last().value
    } else {
        cell(data.drop_last(), zones, i, j)
    }
}

/// The dense matrix for `data` over `zones`, row after row: with `n` zones it
/// has `n * n` cells, and cell `k` is the value in row `k / n`, column
/// `k % n`.
pub open spec fn dense_matrix(data: Seq<Triple>, zones: Seq<i32>) -> Seq<u32> {
    let n = zones.len() as int;
    Seq::new((n * n) as nat, |k: int| cell(data, zones, k / n, k % n))
}

/// A rank is a position of the list, and that position holds the zone.
pub proof fn lemma_rank_in_range(zones: Seq<i32>, id: i32)
    ensures
        match rank_of(zones, id) {
            Some(r) => 0 <= r < zones.len() && zones[r] == id,
            None => !zones.contains(id),
        },
    decreases zones.len(),
{
    if zones.len() == 0 {
    } else if zones.last() == id {
    } else {
        lemma_rank_in_range(zones.drop_last(), id);
        if zones.contains(id) {
            let k = choose|k: int| 0 <= k < zones.len() && zones[k] == id;
            assert(zones.drop_last()[k] == id);
        }
    }
}

/// Row `i`, column `j` of a matrix with `n` rows lies at `i * n + j`, inside
/// the matrix, and no other row and column lie there.
pub proof fn lemma_cell_position(n: int, i: int, j: int)
    requires
        0 <= i < n,
        0 <= j < n,
    ensures
        0 <= i * n + j < n * n,
        (i * n + j) / n == i,
        (i * n + j) % n == j,
{
    lemma_mul_is_commutative(i, n);
    lemma_fundamental_div_mod_converse(i * n + j, n, i, j);
    lemma_mul_inequality(i, n - 1, n);
    lemma_mul_is_distributive_add_other_way(n, n - 1, 1);
    assert(i * n >= 0) by (nonlinear_arith)
        requires
            i >= 0,
            n > 0,
    ;
}

/// The cell of row `i`, column `j` of the dense matrix holds the value of
/// row `i`, column `j`.
pub proof fn lemma_dense_matrix_cell(data: Seq<Triple>, zones: Seq<i32>, i: int, j: int)
    requires
        0 <= i < zones.len(),
        0 <= j < zones.len(),
    ensures
        0 <= i * zones.len() + j < dense_matrix(data, zones).len(),
        dense_matrix(data, zones)[i * zones.len() + j] == cell(data, zones, i, j),
{
    lemma_cell_position(zones.len() as int, i, j);
}

/// The matrix has as many rows and as many columns as there are zones.
pub proof fn law_matrix_dimension(data: Seq<Triple>, zones: Seq<i32>)
    ensures
        dense_matrix(data, zones).len() == zones.len() * zones.len(),
{
}

/// Of the triples that belong in one cell the last one wins: after a triple
/// that belongs in row `i`, column `j`, that cell holds its value, whatever
/// came before.
pub proof fn law_last_write_wins(data: Seq<Triple>, zones: Seq<i32>, triple: Triple, i: int, j: int)
    requires
        addresses(triple, zones, i, j),
    ensures
        cell(data.push(triple), zones, i, j) == triple.value,
        dense_matrix(data.push(triple), zones)[i * zones.len() + j] == triple.value,
{
    lemma_rank_in_range(zones, triple.origin);
    lemma_rank_in_range(zones, triple.destination);
    lemma_dense_matrix_cell(data.push(triple), zones, i, j);
}

/// A triple whose origin or destination is not among the zones changes
/// neither the cells nor the dimension of the matrix.
pub proof fn law_unknown_zone_changes_nothing(data: Seq<Triple>, zones: Seq<i32>, triple: Triple)
    requires
        !zones.contains(triple.origin) || !zones.contains(triple.destination),
    ensures
        dense_matrix(data.push(triple), zones) == dense_matrix(data, zones),
{
    lemma_rank_in_range(zones, triple.origin);
    lemma_rank_in_range(zones, triple.destination);
    assert(data.push(triple).drop_last() =~= data);
}

/// Builds the map from zone to rank by one pass over `zones`.
pub fn build_zone_index(zones: &[i32]) -> (index: HashMap<i32, usize>)
    ensures
        forall|id: i32| #[trigger] index@.contains_key(id) <==> rank_of(zones@, id) is Some,
        forall|id: i32| #[trigger]
            index@.contains_key(id) ==> rank_of(zones@, id) == Some(index@[id] as int),
{
    broadcast use group_hash_axioms;

    let mut index: HashMap<i32, usize> = HashMap::new();
    let mut i: usize = 0;
    while i < zones.len()
        invariant
            i <= zones.len(),
            forall|id: i32| #[trigger]
                index@.contains_key(id) <==> rank_of(zones@.take(i as int), id) is Some,
            forall|id: i32| #[trigger]
                index@.contains_key(id) ==> rank_of(zones@.take(i as int), id) == Some(
                    index@[id] as int,
                ),
        decreases zones.len() - i,
    {
        assert(zones@.take(i + 1).drop_last() =~= zones@.take(i as int));
        index.insert(zones[i], i);
        i += 1;
    }
    assert(zones@.take(zones.len() as int) =~= zones@);
    index
}

/// Builds the dense matrix for `data` over `all_zones`.
///
/// Every cell starts as zero. Each triple whose origin and destination both
/// have a rank overwrites the cell of that row and column; a triple with a
/// zone that is not in the list changes nothing.
pub fn build_matrix(data: &[Triple], all_zones: &[i32]) -> (matrix: Vec<u32>)
    requires
        all_zones@.len() * all_zones@.len() <= usize::MAX,
    ensures
        matrix@ == dense_matrix(data@, all_zones@),
{
    broadcast use group_hash_axioms;

    let zone_count: usize = all_zones.len();
    let zone_index = build_zone_index(all_zones);
    let mut matrix: Vec<u32> = vec![0u32; zone_count * zone_count];
    let ghost n = zone_count as int;
    let mut t: usize = 0;
    while t < data.len()
        invariant
            t <= data.len(),
            n == zone_count == all_zones@.len(),
            n * n <= usize::MAX,
            matrix@.len() == n * n,
            matrix@ == dense_matrix(data@.take(t as int), all_zones@),
            forall|id: i32| #[trigger]
                zone_index@.contains_key(id) <==> rank_of(all_zones@, id) is Some,
            forall|id: i32| #[trigger]
                zone_index@.contains_key(id) ==> rank_of(all_zones@, id) == Some(
                    zone_index@[id] as int,
                ),
        decreases data.len() - t,
    {
        let triple = data[t];
        let ghost before = data@.take(t as int);
        let ghost after = data@.take(t + 1);
        assert(after.drop_last() =~= before);
        match (zone_index.get(&triple.origin), zone_index.get(&triple.destination)) {
            (Some(origin_idx), Some(destination_idx)) => {
                let i: usize = *origin_idx;
                let j: usize = *destination_idx;
                proof {
                    lemma_rank_in_range(all_zones@, triple.origin);
                    lemma_rank_in_range(all_zones@, triple.destination);
                    lemma_cell_position(n, i as int, j as int);
                }
                matrix.set(i * zone_count + j, triple.value);
                assert forall|k: int| 0 <= k < n * n implies matrix@[k] == dense_matrix(
                    after,
                    all_zones@,
                )[k] by {
                    lemma_fundamental_div_mod(k, n);
                    lemma_mul_is_commutative(n, k / n);
                }
            },
            _ => {},
        }
        t += 1;
    }
    assert(data@.take(data.len() as int) =~= data@);
    matrix
}

} // verus!
