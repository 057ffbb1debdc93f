//! Grouping memory regions by the file they are mapped from.

use crate::error::{ErrorView, InspectError};
use crate::region::{region_views, MemoryRegion, RegionView};
use std::collections::HashMap;
use vstd::prelude::*;
use vstd::std_specs::iter::IteratorSpec;

verus! {

/// The aggregated content: backing path, then start address, then size.
pub type FileTable = Map<Seq<char>, Map<usize, usize>>;

/// Whether `r` is mapped from the file at `path`. An empty path names no
/// file.
pub open spec fn names_file(r: RegionView, path: Seq<char>) -> bool {
    r.backing_path == Some(path) && path.len() > 0
}

/// Whether `r` is mapped from the file at `path` and starts at `start`.
pub open spec fn placed_at(r: RegionView, path: Seq<char>, start: usize) -> bool {
    names_file(r, path) && r.start_address == start
}

/// Whether some region of `regions` is mapped from the file at `path`.
pub open spec fn mentions_file(regions: Seq<RegionView>, path: Seq<char>) -> bool {
    exists|i: int| 0 <= i < regions.len() && names_file(#[trigger] regions[i], path)
}

/// The index of the last region of `regions` that is mapped from `path` at
/// `start`, or `-1` when there is none.
pub open spec fn last_placed(regions: Seq<RegionView>, path: Seq<char>, start: usize) -> int
    decreases regions.len(),
{
    if regions.len() == 0 {
        -1
    } else if placed_at(regions.last(), path, start) {
        regions.len() - 1
    } else {
        last_placed(regions.drop_last(), path, start)
    }
}

/// The regions of one file: each start address that occurs for `path`, with
/// the size of the last region that has it.
pub open spec fn file_regions(regions: Seq<RegionView>, path: Seq<char>) -> Map<usize, usize> {
    Map::new(
        |start: usize| last_placed(regions, path, start) >= 0,
        |start: usize| regions[last_placed(regions, path, start)].size,
    )
}

/// What aggregating `regions` yields: one entry for each backing path that
/// occurs, holding that file's regions. Regions that are not mapped from a
/// file contribute nothing.
pub open spec fn aggregated(regions: Seq<RegionView>) -> FileTable {
    Map::new(
        |path: Seq<char>| mentions_file(regions, path),
        |path: Seq<char>| file_regions(regions, path),
    )
}

/// The effect of one more region on an aggregated table.
pub open spec fn recorded(table: FileTable, r: RegionView) -> FileTable {
    if r.is_file_backed() {
        let path = r.backing_path.unwrap();
        let known = if table.dom().contains(path) {
            table[path]
        } else {
            Map::empty()
        };
        table.insert(path, known.insert(r.start_address, r.size))
    } else {
        table
    }
}

/// `last_placed` points at a region that is placed there, and at the last one.
pub proof fn lemma_last_placed(regions: Seq<RegionView>, path: Seq<char>, start: usize)
    ensures
        -1 <= last_placed(regions, path, start) < regions.len(),
        last_placed(regions, path, start) >= 0 ==> placed_at(
            regions[last_placed(regions, path, start)],
            path,
            start,
        ),
        forall|j: int|
            last_placed(regions, path, start) < j < regions.len() ==> !placed_at(
                #[trigger] regions[j],
                path,
                start,
            ),
    decreases regions.len(),
{
    if regions.len() > 0 && !placed_at(regions.last(), path, start) {
        let shorter = regions.drop_last();
        lemma_last_placed(shorter, path, start);
        assert forall|j: int|
            last_placed(regions, path, start) < j < regions.len() implies !placed_at(
            #[trigger] regions[j],
            path,
            start,
        ) by {
            if j < shorter.len() {
                assert(regions[j] == shorter[j]);
            }
        }
    }
}

/// Aggregating one region more is recording it in what was aggregated so far.
pub proof fn lemma_aggregated_push(regions: Seq<RegionView>, r: RegionView)
    ensures
        aggregated(regions.push(r)) == recorded(aggregated(regions), r),
{
    let longer = regions.push(r);
    let before = aggregated(regions);
    let after = aggregated(longer);
    let expected = recorded(before, r);
    assert(longer.drop_last() == regions);
    assert(longer.last() == r);
    assert forall|path: Seq<char>| mentions_file(longer, path) <==> (mentions_file(regions, path)
        || names_file(r, path)) by {
        if mentions_file(regions, path) {
            let i = choose|i: int| 0 <= i < regions.len() && names_file(#[trigger] regions[i], path);
            assert(names_file(longer[i], path));
        }
        if names_file(r, path) {
            assert(names_file(longer[longer.len() - 1], path));
        }
        if mentions_file(longer, path) {
            let i = choose|i: int| 0 <= i < longer.len() && names_file(#[trigger] longer[i], path);
            if i < regions.len() {
                assert(names_file(regions[i], path));
            }
        }
    }
    assert forall|path: Seq<char>| #[trigger] after.dom().contains(path) implies after[path]
        == expected[path] by {
        assert forall|start: usize| #[trigger]
            last_placed(longer, path, start) == (if placed_at(r, path, start) {
                regions.len() as int
            } else {
                last_placed(regions, path, start)
            }) by {}
        assert forall|start: usize| #[trigger]
            last_placed(regions, path, start) >= 0 implies longer[last_placed(
                regions,
                path,
                start,
            )] == regions[last_placed(regions, path, start)] by {
            lemma_last_placed(regions, path, start);
        }
        if !mentions_file(regions, path) {
            assert forall|start: usize| #[trigger] last_placed(regions, path, start) < 0 by {
                lemma_last_placed(regions, path, start);
                let k = last_placed(regions, path, start);
                if k >= 0 {
                    assert(names_file(regions[k], path));
                }
            }
        }
        assert(after[path] =~= expected[path]);
    }
    assert(after =~= expected);
}

/// The regions of one backing file.
#[derive(Debug)]
struct FileRegions {
    path: String,
    regions: HashMap<usize, usize>,
}

/// Memory regions grouped by backing file: for each file that backs at least
/// one region, the start address and size of each of its regions.
#[derive(Debug)]
pub struct AggregatedMap {
    files: Vec<FileRegions>,
}

/// The index at which `path` is filed, or `-1`.
spec fn filed_at(files: Seq<FileRegions>, path: Seq<char>) -> int {
    if exists|i: int| 0 <= i < files.len() && (#[trigger] files[i]).path@ == path {
        choose|i: int| 0 <= i < files.len() && (#[trigger] files[i]).path@ == path
    } else {
        -1
    }
}

/// No path is filed twice.
spec fn distinct_paths(files: Seq<FileRegions>) -> bool {
    forall|i: int, j: int|
        0 <= i < files.len() && 0 <= j < files.len() && i != j ==> (#[trigger] files[i]).path@ != (
        #[trigger] files[j]).path@
}

/// The table that `files` stands for.
spec fn table_of(files: Seq<FileRegions>) -> FileTable {
    Map::new(
        |path: Seq<char>| filed_at(files, path) >= 0,
        |path: Seq<char>| files[filed_at(files, path)].regions@,
    )
}

/// Where paths are distinct, `filed_at` is the one index that holds the path.
proof fn lemma_filed_at(files: Seq<FileRegions>, path: Seq<char>)
    requires
        distinct_paths(files),
    ensures
        -1 <= filed_at(files, path) < files.len(),
        filed_at(files, path) >= 0 ==> files[filed_at(files, path)].path@ == path,
        forall|i: int|
            0 <= i < files.len() && (#[trigger] files[i]).path@ == path ==> filed_at(files, path)
                == i,
{
}

/// The paths of `files`, in filing order.
spec fn filed_paths(files: Seq<FileRegions>) -> Seq<Seq<char>> {
    files.map_values(|f: FileRegions| f.path@)
}

/// The table of `files` has exactly the filed paths as its keys, once each.
proof fn lemma_table_domain(files: Seq<FileRegions>)
    requires
        distinct_paths(files),
    ensures
        filed_paths(files).no_duplicates(),
        table_of(files).dom() == filed_paths(files).to_set(),
        table_of(files).dom().finite(),
        table_of(files).dom().len() == files.len(),
{
    let names = filed_paths(files);
    assert(names.no_duplicates()) by {
        assert forall|i: int, j: int|
            0 <= i < names.len() && 0 <= j < names.len() && i != j implies names[i]
            != names[j] by {
            assert(files[i].path@ != files[j].path@);
        }
    }
    assert(table_of(files).dom() =~= names.to_set()) by {
        assert forall|p: Seq<char>| table_of(files).dom().contains(p) <==> names.to_set().contains(
            p,
        ) by {
            lemma_filed_at(files, p);
            if filed_at(files, p) >= 0 {
                assert(names[filed_at(files, p)] == p);
            }
            if names.contains(p) {
                let i = choose|i: int| 0 <= i < names.len() && names[i] == p;
                assert(files[i].path@ == p);
            }
        }
    }
    names.unique_seq_to_set();
    vstd::seq_lib::seq_to_set_is_finite(names);
}

impl View for AggregatedMap {
    type V = FileTable;

    closed spec fn view(&self) -> FileTable {
        table_of(self.files@)
    }
}

impl AggregatedMap {
    #[verifier::type_invariant]
    spec fn well_formed(&self) -> bool {
        distinct_paths(self.files@)
    }

    /// A map without files.
    pub fn new() -> (m: AggregatedMap)
        ensures
            m@ == FileTable::empty(),
    {
        let m = AggregatedMap { files: Vec::new() };
        assert(m@ =~= FileTable::empty());
        m
    }

    /// Files `region` under its backing path; a region that is not mapped
    /// from a file is left out. A region already filed under the same path
    /// and start address is replaced.
    pub fn record(&mut self, region: &MemoryRegion)
        ensures
            final(self)@ == recorded(old(self)@, region@),
    {
        broadcast use vstd::std_specs::hash::group_hash_axioms;

        proof {
            use_type_invariant(&*self);
        }
        match &region.backing_path {
            None => {},
            Some(path) => if !path.as_str().is_empty() {
                let mut files: Vec<FileRegions> = Vec::new();
                core::mem::swap(&mut self.files, &mut files);
                let ghost before = files@;
                match find(&files, path) {
                    Some(i) => {
                        files[i].regions.insert(region.start_address, region.size);
                        proof {
                            let after = files@;
                            assert forall|j: int| 0 <= j < after.len() implies (
                            #[trigger] after[j]).path@ == before[j].path@ by {}
                            assert forall|p: Seq<char>|
                                filed_at(after, p) == #[trigger] filed_at(before, p) by {
                                lemma_filed_at(before, p);
                                let k = filed_at(before, p);
                                if k >= 0 {
                                    assert(after[k].path@ == p);
                                    lemma_filed_at(after, p);
                                } else if filed_at(after, p) >= 0 {
                                    lemma_filed_at(after, p);
                                    assert(before[filed_at(after, p)].path@ == p);
                                }
                            }
                            lemma_filed_at(before, path@);
                            assert forall|p: Seq<char>| #[trigger]
                                table_of(before).dom().contains(p) && p != path@ implies table_of(
                                after,
                            )[p] == table_of(before)[p] by {
                                lemma_filed_at(before, p);
                            }
                            assert(table_of(after) =~= recorded(table_of(before), region@));
                        }
                    },
                    None => {
                        let mut regions: HashMap<usize, usize> = HashMap::new();
                        regions.insert(region.start_address, region.size);
                        files.push(FileRegions { path: path.clone(), regions });
                        proof {
                            let after = files@;
                            let last = before.len() as int;
                            assert forall|j: int| 0 <= j < before.len() implies (
                            #[trigger] after[j]) == before[j] by {}
                            assert(distinct_paths(after));
                            assert forall|p: Seq<char>|
                                #[trigger] filed_at(after, p) == (if p == path@ {
                                    last
                                } else {
                                    filed_at(before, p)
                                }) by {
                                lemma_filed_at(before, p);
                                lemma_filed_at(after, p);
                                let k = filed_at(before, p);
                                if k >= 0 {
                                    assert(after[k].path@ == p);
                                } else if p != path@ && filed_at(after, p) >= 0 {
                                    assert(before[filed_at(after, p)].path@ == p);
                                } else if p == path@ {
                                    assert(after[last].path@ == p);
                                }
                            }
                            assert(table_of(after) =~= recorded(table_of(before), region@));
                        }
                    },
                }
                core::mem::swap(&mut self.files, &mut files);
            },
        }
    }

    /// How many files back at least one region.
    pub fn file_count(&self) -> (n: usize)
        ensures
            self@.dom().finite(),
            n == self@.dom().len(),
    {
        proof {
            use_type_invariant(self);
            lemma_table_domain(self.files@);
        }
        self.files.len()
    }

    /// Whether no region is filed at all.
    pub fn is_empty(&self) -> (b: bool)
        ensures
            b == (self@ == FileTable::empty()),
    {
        proof {
            use_type_invariant(self);
            lemma_table_domain(self.files@);
            if self.files.len() == 0 {
                assert(self@ =~= FileTable::empty());
            } else {
                assert(self@.dom().len() > 0);
                assert(FileTable::empty().dom().len() == 0);
            }
        }
        self.files.len() == 0
    }

    /// The backing paths, each once, in no particular order.
    pub fn paths(&self) -> (names: Vec<String>)
        ensures
            names.len() == self@.dom().len(),
            forall|i: int| 0 <= i < names.len() ==> self@.dom().contains(#[trigger] names[i]@),
            forall|i: int, j: int|
                0 <= i < names.len() && 0 <= j < names.len() && i != j ==> (#[trigger] names[i])@
                    != (#[trigger] names[j])@,
            forall|path: Seq<char>|
                self@.dom().contains(path) ==> exists|i: int|
                    0 <= i < names.len() && (#[trigger] names[i])@ == path,
    {
        proof {
            use_type_invariant(self);
            lemma_table_domain(self.files@);
        }
        let mut names: Vec<String> = Vec::new();
        let mut i: usize = 0;
        while i < self.files.len()
            invariant
                i <= self.files.len(),
                names.len() == i,
                forall|j: int| 0 <= j < i ==> (#[trigger] names[j])@ == self.files[j].path@,
            decreases self.files.len() - i,
        {
            names.push(self.files[i].path.clone());
            i += 1;
        }
        proof {
            assert forall|j: int| 0 <= j < names.len() implies self@.dom().contains(
                #[trigger] names[j]@,
            ) by {
                lemma_filed_at(self.files@, names[j]@);
            }
            assert forall|path: Seq<char>| self@.dom().contains(path) implies exists|j: int|
                0 <= j < names.len() && (#[trigger] names[j])@ == path by {
                lemma_filed_at(self.files@, path);
                assert(names[filed_at(self.files@, path)]@ == path);
            }
        }
        names
    }

    /// Whether some region is filed under `path`.
    pub fn contains_file(&self, path: &str) -> (b: bool)
        ensures
            b == self@.dom().contains(path@),
    {
        proof {
            use_type_invariant(self);
        }
        let key = path.to_owned();
        find(&self.files, &key).is_some()
    }

    /// The size filed under `path` at `start`, if there is one.
    pub fn size_at(&self, path: &str, start: usize) -> (size: Option<usize>)
        ensures
            size == (if self@.dom().contains(path@) && self@[path@].dom().contains(start) {
                Some(self@[path@][start])
            } else {
                None
            }),
    {
        broadcast use vstd::std_specs::hash::group_hash_axioms;

        proof {
            use_type_invariant(self);
        }
        let key = path.to_owned();
        match find(&self.files, &key) {
            Some(i) => match self.files[i].regions.get(&start) {
                Some(size) => Some(*size),
                None => None,
            },
            None => None,
        }
    }

    /// The regions filed under `path` as (start address, size) pairs, each
    /// once, in no particular order; none when nothing is filed under `path`.
    pub fn regions_of(&self, path: &str) -> (entries: Vec<(usize, usize)>)
        ensures
            !self@.dom().contains(path@) ==> entries.len() == 0,
            self@.dom().contains(path@) ==> {
                &&& entries.len() == self@[path@].len()
                &&& forall|i: int|
                    0 <= i < entries.len() ==> self@[path@].contains_pair(
                        (#[trigger] entries[i]).0,
                        entries[i].1,
                    )
                &&& forall|i: int, j: int|
                    0 <= i < entries.len() && 0 <= j < entries.len() && i != j ==> (
                    #[trigger] entries[i]).0 != (#[trigger] entries[j]).0
                &&& forall|start: usize|
                    self@[path@].dom().contains(start) ==> exists|i: int|
                        0 <= i < entries.len() && (#[trigger] entries[i]).0 == start
            },
    {
        proof {
            use_type_invariant(self);
        }
        let key = path.to_owned();
        match find(&self.files, &key) {
            Some(i) => entries_of(&self.files[i].regions),
            None => Vec::new(),
        }
    }

    /// Whether `self` and `other` hold the same files with the same regions,
    /// whatever the order in which they were filed.
    pub fn same_content(&self, other: &AggregatedMap) -> (same: bool)
        ensures
            same == (self@ == other@),
    {
        proof {
            use_type_invariant(self);
            use_type_invariant(other);
            lemma_table_domain(self.files@);
            lemma_table_domain(other.files@);
        }
        if self.files.len() != other.files.len() {
            return false;
        }
        let mut i: usize = 0;
        while i < self.files.len()
            invariant
                i <= self.files.len(),
                distinct_paths(self.files@),
                distinct_paths(other.files@),
                forall|j: int|
                    0 <= j < i ==> other@.dom().contains((#[trigger] self.files[j]).path@)
                        && other@[self.files[j].path@] == self.files[j].regions@,
            decreases self.files.len() - i,
        {
            let file = &self.files[i];
            proof {
                lemma_filed_at(self.files@, file.path@);
            }
            match find(&other.files, &file.path) {
                Some(k) => {
                    if !same_regions(&file.regions, &other.files[k].regions) {
                        assert(self@[file.path@] != other@[file.path@]);
                        return false;
                    }
                },
                None => {
                    assert(self@.dom().contains(file.path@) && !other@.dom().contains(file.path@));
                    return false;
                },
            }
            i += 1;
        }
        proof {
            assert forall|p: Seq<char>| self@.dom().contains(p) implies other@.dom().contains(p)
                && self@[p] == other@[p] by {
                lemma_filed_at(self.files@, p);
                let j = filed_at(self.files@, p);
                assert(self.files[j].path@ == p);
            }
            assert(self@.dom().subset_of(other@.dom()));
            vstd::set_lib::lemma_subset_equality(self@.dom(), other@.dom());
            assert(self@ =~= other@);
        }
        true
    }

    /// How many regions are filed under `path`.
    pub fn region_count(&self, path: &str) -> (n: usize)
        ensures
            n == (if self@.dom().contains(path@) {
                self@[path@].len()
            } else {
                0
            }),
    {
        broadcast use vstd::std_specs::hash::group_hash_axioms;

        proof {
            use_type_invariant(self);
        }
        let key = path.to_owned();
        match find(&self.files, &key) {
            Some(i) => self.files[i].regions.len(),
            None => 0,
        }
    }
}

/// The entries of `regions` as (start, size) pairs, each once, in no
/// particular order.
fn entries_of(regions: &HashMap<usize, usize>) -> (entries: Vec<(usize, usize)>)
    ensures
        entries.len() == regions@.len(),
        forall|i: int|
            0 <= i < entries.len() ==> regions@.contains_pair(
                (#[trigger] entries[i]).0,
                entries[i].1,
            ),
        forall|i: int, j: int|
            0 <= i < entries.len() && 0 <= j < entries.len() && i != j ==> (#[trigger] entries[i]).0
                != (#[trigger] entries[j]).0,
        forall|start: usize|
            regions@.dom().contains(start) ==> exists|i: int|
                0 <= i < entries.len() && (#[trigger] entries[i]).0 == start,
{
    broadcast use vstd::std_specs::hash::group_hash_axioms;

    let mut entries: Vec<(usize, usize)> = Vec::new();
    let iter = regions.iter();
    let ghost all = iter.remaining();
    for pair in it: iter
        invariant
            it.seq() == all,
            entries.len() == it.index(),
            forall|i: int|
                0 <= i < entries.len() ==> (#[trigger] entries[i]) == (*all[i].0, *all[i].1),
    {
        entries.push((*pair.0, *pair.1));
    }
    proof {
        assert forall|i: int, j: int|
            0 <= i < entries.len() && 0 <= j < entries.len() && i != j implies (
        #[trigger] entries[i]).0 != (#[trigger] entries[j]).0 by {
            assert(regions@.contains_key(*all[i].0) && regions@[*all[i].0] == *all[i].1);
            assert(regions@.contains_key(*all[j].0) && regions@[*all[j].0] == *all[j].1);
            if entries[i].0 == entries[j].0 {
                assert(all[i] == all[j]);
            }
        }
        assert forall|start: usize| regions@.dom().contains(start) implies exists|i: int|
            0 <= i < entries.len() && (#[trigger] entries[i]).0 == start by {
            assert(regions@.contains_key(start));
            assert(all.contains((&start, &regions@[start])));
            let i = choose|i: int| 0 <= i < all.len() && all[i] == (&start, &regions@[start]);
            assert(entries[i].0 == start);
        }
    }
    entries
}

/// Whether two files hold the same regions.
fn same_regions(a: &HashMap<usize, usize>, b: &HashMap<usize, usize>) -> (same: bool)
    ensures
        same == (a@ == b@),
{
    broadcast use vstd::std_specs::hash::group_hash_axioms;

    if a.len() != b.len() {
        return false;
    }
    let entries = entries_of(a);
    let mut i: usize = 0;
    while i < entries.len()
        invariant
            i <= entries.len(),
            forall|j: int|
                0 <= j < entries.len() ==> a@.contains_pair((#[trigger] entries[j]).0, entries[j].1),
            forall|j: int|
                0 <= j < i ==> b@.contains_pair((#[trigger] entries[j]).0, entries[j].1),
        decreases entries.len() - i,
    {
        let (start, size) = entries[i];
        match b.get(&start) {
            Some(other) => {
                if *other != size {
                    assert(a@[start] != b@[start]);
                    return false;
                }
            },
            None => {
                assert(a@.dom().contains(start) && !b@.dom().contains(start));
                return false;
            },
        }
        i += 1;
    }
    proof {
        assert forall|start: usize| a@.dom().contains(start) implies b@.dom().contains(start)
            && a@[start] == b@[start] by {
            let j = choose|j: int| 0 <= j < entries.len() && (#[trigger] entries[j]).0 == start;
            assert(b@.contains_pair(entries[j].0, entries[j].1));
        }
        assert(a@.dom().subset_of(b@.dom()));
        vstd::set_lib::lemma_subset_equality(a@.dom(), b@.dom());
        assert(a@ =~= b@);
    }
    true
}

/// Where `path` is filed in `files`, if it is.
fn find(files: &Vec<FileRegions>, path: &String) -> (at: Option<usize>)
    requires
        distinct_paths(files@),
    ensures
        match at {
            Some(i) => i < files.len() && files[i as int].path@ == path@ && filed_at(
                files@,
                path@,
            ) == i,
            None => filed_at(files@, path@) == -1,
        },
{
    let mut i: usize = 0;
    while i < files.len()
        invariant
            i <= files.len(),
            distinct_paths(files@),
            forall|j: int| 0 <= j < i ==> (#[trigger] files[j]).path@ != path@,
        decreases files.len() - i,
    {
        if files[i].path == *path {
            proof {
                lemma_filed_at(files@, path@);
            }
            return Some(i);
        }
        i += 1;
    }
    proof {
        lemma_filed_at(files@, path@);
    }
    None
}

/// Groups `regions` by backing path. Regions that are not mapped from a
/// file are skipped; of two regions with the same path and start address
/// the later one counts.
pub fn aggregate(regions: &Vec<MemoryRegion>) -> (out: AggregatedMap)
    ensures
        out@ == aggregated(region_views(regions@)),
{
    let mut out = AggregatedMap::new();
    let mut i: usize = 0;
    assert(region_views(regions@).take(0) =~= Seq::<RegionView>::empty());
    assert(aggregated(Seq::<RegionView>::empty()) =~= FileTable::empty());
    while i < regions.len()
        invariant
            i <= regions.len(),
            out@ == aggregated(region_views(regions@).take(i as int)),
        decreases regions.len() - i,
    {
        out.record(&regions[i]);
        proof {
            let views = region_views(regions@);
            assert(views.take(i + 1) =~= views.take(i as int).push(regions[i as int]@));
            lemma_aggregated_push(views.take(i as int), regions[i as int]@);
        }
        i += 1;
    }
    assert(region_views(regions@).take(regions.len() as int) =~= region_views(regions@));
    out
}

/// The memory view of a process, from what reading its memory map gave:
/// the regions grouped by backing file, or, where the map could not be
/// read for `reason`, the failure to access the process. A process without
/// regions has an empty view.
pub fn memory_view(reading: Result<Vec<MemoryRegion>, String>) -> (view: Result<
    AggregatedMap,
    InspectError,
>)
    ensures
        match reading {
            Ok(regions) => view matches Ok(map) && map@ == aggregated(region_views(regions@)),
            Err(reason) => view matches Err(error) && error@ == ErrorView::ProcessAccess(reason@),
        },
{
    match reading {
        Ok(regions) => Ok(aggregate(&regions)),
        Err(reason) => Err(InspectError::ProcessAccess(reason)),
    }
}

} // verus!
