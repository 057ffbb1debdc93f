//! What holds of every aggregation, whatever the regions.

use crate::aggregate::{
    aggregated, last_placed, lemma_aggregated_push, lemma_last_placed, mentions_file, names_file,
    placed_at,
};
use crate::region::{region_views, MemoryRegion, RegionView};
use vstd::prelude::*;

verus! {

/// The keys of an aggregated table are exactly the backing paths of the
/// file-backed regions: no key without a region mapped from that file, no
/// such region without its key, and never an empty key.
pub proof fn lemma_keys_are_backing_paths(regions: Seq<RegionView>, path: Seq<char>)
    ensures
        aggregated(regions).dom().contains(path) <==> exists|i: int|
            0 <= i < regions.len() && (#[trigger] regions[i]).is_file_backed()
                && regions[i].backing_path == Some(path),
        aggregated(regions).dom().contains(path) ==> path.len() > 0,
{
    if mentions_file(regions, path) {
        let i = choose|i: int| 0 <= i < regions.len() && names_file(#[trigger] regions[i], path);
        assert(regions[i].is_file_backed() && regions[i].backing_path == Some(path));
    }
    if exists|i: int|
        0 <= i < regions.len() && (#[trigger] regions[i]).is_file_backed()
            && regions[i].backing_path == Some(path) {
        let i = choose|i: int|
            0 <= i < regions.len() && (#[trigger] regions[i]).is_file_backed()
                && regions[i].backing_path == Some(path);
        assert(names_file(regions[i], path));
    }
}

/// Regions that are not mapped from a file leave no trace: aggregating only
/// the file-backed regions gives the same table.
pub proof fn lemma_unbacked_regions_are_left_out(regions: Seq<RegionView>)
    ensures
        aggregated(regions.filter(|r: RegionView| r.is_file_backed())) == aggregated(regions),
    decreases regions.len(),
{
    let backed = |r: RegionView| r.is_file_backed();
    reveal(Seq::filter);
    if regions.len() > 0 {
        let rest = regions.drop_last();
        let r = regions.last();
        lemma_unbacked_regions_are_left_out(rest);
        assert(regions == rest.push(r));
        lemma_aggregated_push(rest, r);
        if backed(r) {
            lemma_aggregated_push(rest.filter(backed), r);
        }
    }
}

/// A file's entry holds exactly the start addresses of the regions mapped
/// from it.
pub proof fn lemma_entries_are_region_starts(
    regions: Seq<RegionView>,
    path: Seq<char>,
    start: usize,
)
    ensures
        (aggregated(regions).dom().contains(path) && aggregated(regions)[path].dom().contains(
            start,
        )) <==> exists|i: int| 0 <= i < regions.len() && placed_at(#[trigger] regions[i], path, start),
{
    lemma_last_placed(regions, path, start);
    let k = last_placed(regions, path, start);
    if k >= 0 {
        assert(placed_at(regions[k], path, start));
        assert(names_file(regions[k], path));
    }
    if exists|i: int| 0 <= i < regions.len() && placed_at(#[trigger] regions[i], path, start) {
        let i = choose|i: int| 0 <= i < regions.len() && placed_at(#[trigger] regions[i], path, start);
        assert(names_file(regions[i], path));
        assert(k >= i);
    }
}

/// Of the regions that share a backing path and a start address, the last
/// one gives the size.
pub proof fn lemma_last_region_wins(regions: Seq<RegionView>, i: int)
    requires
        0 <= i < regions.len(),
        regions[i].is_file_backed(),
        forall|j: int|
            i < j < regions.len() ==> !placed_at(
                #[trigger] regions[j],
                regions[i].backing_path.unwrap(),
                regions[i].start_address,
            ),
    ensures
        aggregated(regions).dom().contains(regions[i].backing_path.unwrap()),
        aggregated(regions)[regions[i].backing_path.unwrap()].contains_pair(
            regions[i].start_address,
            regions[i].size,
        ),
{
    let path = regions[i].backing_path.unwrap();
    let start = regions[i].start_address;
    lemma_last_placed(regions, path, start);
    assert(placed_at(regions[i], path, start));
    assert(names_file(regions[i], path));
    assert(last_placed(regions, path, start) == i);
}

/// In a concatenation the last region placed somewhere is the last such
/// region of the second part, or else of the first.
pub proof fn lemma_last_placed_concat(
    a: Seq<RegionView>,
    b: Seq<RegionView>,
    path: Seq<char>,
    start: usize,
)
    ensures
        last_placed(a + b, path, start) == (if last_placed(b, path, start) >= 0 {
            a.len() + last_placed(b, path, start)
        } else {
            last_placed(a, path, start)
        }),
    decreases b.len(),
{
    if b.len() == 0 {
        assert(a + b == a);
    } else {
        assert((a + b).drop_last() == a + b.drop_last());
        assert((a + b).last() == b.last());
        lemma_last_placed_concat(a, b.drop_last(), path, start);
    }
}

/// Aggregation is idempotent: going over the same regions a second time
/// changes nothing.
pub proof fn lemma_aggregation_is_idempotent(regions: Seq<RegionView>)
    ensures
        aggregated(regions + regions) == aggregated(regions),
{
    let twice = regions + regions;
    assert forall|path: Seq<char>| mentions_file(twice, path) <==> mentions_file(
        regions,
        path,
    ) by {
        if mentions_file(regions, path) {
            let i = choose|i: int| 0 <= i < regions.len() && names_file(#[trigger] regions[i], path);
            assert(names_file(twice[i], path));
        }
        if mentions_file(twice, path) {
            let i = choose|i: int| 0 <= i < twice.len() && names_file(#[trigger] twice[i], path);
            if i < regions.len() {
                assert(names_file(regions[i], path));
            } else {
                assert(names_file(regions[i - regions.len()], path));
            }
        }
    }
    assert forall|path: Seq<char>| #[trigger]
        aggregated(regions).dom().contains(path) implies aggregated(twice)[path] == aggregated(
        regions,
    )[path] by {
        assert forall|start: usize|
            ({
                let k = #[trigger] last_placed(regions, path, start);
                let t = last_placed(twice, path, start);
                (k >= 0 <==> t >= 0) && (k >= 0 ==> twice[t] == regions[k])
            }) by {
            lemma_last_placed_concat(regions, regions, path, start);
            lemma_last_placed(regions, path, start);
        }
        assert(aggregated(twice)[path] =~= aggregated(regions)[path]);
    }
    assert(aggregated(twice) =~= aggregated(regions));
}

/// Whether no two regions are mapped from the same file at the same start
/// address.
pub open spec fn places_are_distinct(regions: Seq<RegionView>) -> bool {
    forall|i: int, j: int|
        0 <= i < j < regions.len() && (#[trigger] regions[i]).is_file_backed() ==> !(
        regions[i].backing_path == (#[trigger] regions[j]).backing_path
            && regions[i].start_address == regions[j].start_address)
}

/// Two equal items of a sequence count at least twice in its multiset.
proof fn lemma_counts_twice<A>(r: Seq<A>, i: int, j: int)
    requires
        0 <= i < j < r.len(),
        r[i] == r[j],
    ensures
        r.to_multiset().count(r[i]) >= 2,
    decreases r.len(),
{
    let rest = r.drop_last();
    rest.to_multiset_ensures();
    assert(r == rest.push(r.last()));
    if j == r.len() - 1 {
        assert(rest[i] == r[i]);
        assert(rest.contains(r[i]));
    } else {
        assert(rest[i] == r[i] && rest[j] == r[j]);
        lemma_counts_twice(rest, i, j);
    }
}

/// What counts at least twice in the multiset of a sequence stands at two
/// places in it.
proof fn lemma_twice_counted<A>(r: Seq<A>, x: A)
    requires
        r.to_multiset().count(x) >= 2,
    ensures
        exists|i: int, j: int| 0 <= i < j < r.len() && r[i] == x && r[j] == x,
    decreases r.len(),
{
    r.to_multiset_ensures();
    if r.len() > 0 {
        let rest = r.drop_last();
        rest.to_multiset_ensures();
        assert(r == rest.push(r.last()));
        if rest.to_multiset().count(x) >= 2 {
            lemma_twice_counted(rest, x);
            let (i, j) = choose|i: int, j: int|
                0 <= i < j < rest.len() && rest[i] == x && rest[j] == x;
            assert(r[i] == x && r[j] == x);
        } else {
            assert(r.last() == x);
            assert(rest.contains(x));
            let i = choose|i: int| 0 <= i < rest.len() && rest[i] == x;
            let j = r.len() - 1;
            assert(r[i] == x && r[j] == x);
        }
    }
}

/// What stands in a sequence stands in each reordering of it.
proof fn lemma_reordering_keeps_items<A>(a: Seq<A>, b: Seq<A>, x: A)
    requires
        a.to_multiset() == b.to_multiset(),
        a.contains(x),
    ensures
        b.contains(x),
{
    a.to_multiset_ensures();
    b.to_multiset_ensures();
    assert(a.to_multiset().count(x) > 0);
    assert(b.to_multiset().count(x) > 0);
}

/// Reordering keeps places distinct.
proof fn lemma_places_stay_distinct(a: Seq<RegionView>, b: Seq<RegionView>)
    requires
        a.to_multiset() == b.to_multiset(),
        places_are_distinct(a),
    ensures
        places_are_distinct(b),
{
    assert forall|i: int, j: int|
        0 <= i < j < b.len() && (#[trigger] b[i]).is_file_backed() implies !(
    b[i].backing_path == (#[trigger] b[j]).backing_path && b[i].start_address
        == b[j].start_address) by {
        if b[i].backing_path == b[j].backing_path && b[i].start_address == b[j].start_address {
            if b[i] == b[j] {
                lemma_counts_twice(b, i, j);
                lemma_twice_counted(a, b[i]);
                let (m, n) = choose|m: int, n: int|
                    0 <= m < n < a.len() && a[m] == b[i] && a[n] == b[i];
                assert(a[m].backing_path == a[n].backing_path);
            } else {
                assert(b.contains(b[i]) && b.contains(b[j]));
                lemma_reordering_keeps_items(b, a, b[i]);
                lemma_reordering_keeps_items(b, a, b[j]);
                let m = choose|m: int| 0 <= m < a.len() && a[m] == b[i];
                let n = choose|n: int| 0 <= n < a.len() && a[n] == b[j];
                if m < n {
                    assert(a[m].backing_path == a[n].backing_path);
                } else {
                    assert(a[n].backing_path == a[m].backing_path);
                }
            }
        }
    }
}

/// Where places are distinct, a region is the last one at its place.
proof fn lemma_single_place(regions: Seq<RegionView>, i: int)
    requires
        places_are_distinct(regions),
        0 <= i < regions.len(),
        regions[i].is_file_backed(),
    ensures
        last_placed(regions, regions[i].backing_path.unwrap(), regions[i].start_address) == i,
{
    let path = regions[i].backing_path.unwrap();
    let start = regions[i].start_address;
    lemma_last_placed(regions, path, start);
    let k = last_placed(regions, path, start);
    assert(placed_at(regions[i], path, start));
    if k > i {
        assert(placed_at(regions[k], path, start));
        assert(regions[i].backing_path == regions[k].backing_path);
    }
}

/// Where no two regions are mapped from the same file at the same start
/// address, the order of the regions does not matter: any reordering
/// aggregates to the same table.
pub proof fn lemma_order_is_immaterial(a: Seq<RegionView>, b: Seq<RegionView>)
    requires
        a.to_multiset() == b.to_multiset(),
        places_are_distinct(a),
    ensures
        aggregated(a) == aggregated(b),
{
    lemma_places_stay_distinct(a, b);
    lemma_half_of_order(a, b);
    lemma_half_of_order(b, a);
    assert forall|path: Seq<char>| #[trigger]
        aggregated(a).dom().contains(path) implies aggregated(a)[path] == aggregated(b)[path] by {
        assert(aggregated(a)[path] =~= aggregated(b)[path]);
    }
    assert(aggregated(a) =~= aggregated(b));
}

/// What one sequence files, a reordering of it files too, with the same
/// size.
proof fn lemma_half_of_order(a: Seq<RegionView>, b: Seq<RegionView>)
    requires
        a.to_multiset() == b.to_multiset(),
        places_are_distinct(a),
        places_are_distinct(b),
    ensures
        forall|path: Seq<char>| #[trigger] mentions_file(a, path) ==> mentions_file(b, path),
        forall|path: Seq<char>, start: usize|
            last_placed(a, path, start) >= 0 ==> (#[trigger] last_placed(b, path, start)) >= 0
                && b[last_placed(b, path, start)].size == a[last_placed(a, path, start)].size,
{
    assert forall|path: Seq<char>| #[trigger] mentions_file(a, path) implies mentions_file(
        b,
        path,
    ) by {
        let i = choose|i: int| 0 <= i < a.len() && names_file(#[trigger] a[i], path);
        assert(a.contains(a[i]));
        lemma_reordering_keeps_items(a, b, a[i]);
        let j = choose|j: int| 0 <= j < b.len() && b[j] == a[i];
        assert(names_file(b[j], path));
    }
    assert forall|path: Seq<char>, start: usize|
        last_placed(a, path, start) >= 0 implies (#[trigger] last_placed(b, path, start)) >= 0
        && b[last_placed(b, path, start)].size == a[last_placed(a, path, start)].size by {
        lemma_last_placed(a, path, start);
        let k = last_placed(a, path, start);
        assert(a.contains(a[k]));
        lemma_reordering_keeps_items(a, b, a[k]);
        let j = choose|j: int| 0 <= j < b.len() && b[j] == a[k];
        lemma_single_place(b, j);
    }
}

/// Two passes over regions with the same contents yield the same table:
/// the table depends on nothing but what the regions hold.
pub proof fn lemma_aggregation_is_repeatable(first: Seq<MemoryRegion>, second: Seq<MemoryRegion>)
    requires
        region_views(first) == region_views(second),
    ensures
        aggregated(region_views(first)) == aggregated(region_views(second)),
{
}

} // verus!
