//! A single mapped memory region of a process.

use vstd::prelude::*;

verus! {

/// One region of a process's virtual address space, as the operating system
/// reports it.
#[derive(Clone, Debug, PartialEq, Eq)]
pub struct MemoryRegion {
    /// Address of the first byte of the region.
    pub start_address: usize,
    /// Length of the region in bytes.
    pub size: usize,
    /// The path of the file the region was mapped from; `None` for
    /// anonymous memory. An empty path names no file and counts as none.
    pub backing_path: Option<String>,
}

/// The mathematical content of a [`MemoryRegion`].
pub struct RegionView {
    pub start_address: usize,
    pub size: usize,
    pub backing_path: Option<Seq<char>>,
}

impl RegionView {
    /// Whether the region is mapped from a file: it has a backing path, and
    /// the path is not empty.
    pub open spec fn is_file_backed(self) -> bool {
        self.backing_path matches Some(path) && path.len() > 0
    }
}

impl View for MemoryRegion {
    type V = RegionView;

    open spec fn view(&self) -> RegionView {
        RegionView {
            start_address: self.start_address,
            size: self.size,
            backing_path: match self.backing_path {
                Some(p) => Some(p@),
                None => None,
            },
        }
    }
}

/// The contents of a list of regions, in order.
pub open spec fn region_views(regions: Seq<MemoryRegion>) -> Seq<RegionView> {
    regions.map_values(|r: MemoryRegion| r@)
}

impl MemoryRegion {
    /// A region backed by the file at `path`.
    pub fn mapped(start_address: usize, size: usize, path: String) -> (r: MemoryRegion)
        ensures
            r@ == (RegionView { start_address, size, backing_path: Some(path@) }),
    {
        MemoryRegion { start_address, size, backing_path: Some(path) }
    }

    /// A region of anonymous memory.
    pub fn anonymous(start_address: usize, size: usize) -> (r: MemoryRegion)
        ensures
            r@ == (RegionView { start_address, size, backing_path: None }),
    {
        MemoryRegion { start_address, size, backing_path: None }
    }

    /// Whether the region is mapped from a file.
    pub fn is_file_backed(&self) -> (b: bool)
        ensures
            b == self@.is_file_backed(),
    {
        match &self.backing_path {
            Some(path) => !path.as_str().is_empty(),
            None => false,
        }
    }
}

} // verus!
