//! Memory regions: the records that the whole library works on.

use vstd::prelude::*;

verus! {

/// The permissions of a region, and whether it is mapped at all.
#[derive(Debug, Clone, Copy, PartialEq, Eq, Structural)]
pub struct MemoryAttributes {
    pub readable: bool,
    pub writable: bool,
    pub executable: bool,
    pub private: bool,
    /// `false` only for the synthetic regions that stand for unmapped space.
    pub allocated: bool,
}

/// One contiguous range `[start, end)` of the address space.
#[derive(Debug, PartialEq, Eq)]
pub struct MemoryRegion {
    pub start: u64,
    pub end: u64,
    /// Always `end - start` in a well-formed region.
    pub size: u64,
    pub attributes: MemoryAttributes,
    /// The mapped file, absent for anonymous mappings and for gaps.
    pub file_name: Option<String>,
}

/// The mathematical value of a [`MemoryRegion`].
pub struct RegionModel {
    pub start: nat,
    pub end: nat,
    pub size: nat,
    pub attributes: MemoryAttributes,
    pub file_name: Option<Seq<char>>,
}

impl RegionModel {
    /// The range is not empty and `size` is its length.
    pub open spec fn well_formed(self) -> bool {
        &&& self.start < self.end
        &&& self.size == self.end - self.start
    }

    /// The region stands for unmapped space: no permission, no file.
    pub open spec fn is_gap(self) -> bool {
        &&& self.attributes == no_access()
        &&& self.file_name is None
    }
}

/// The attributes of unmapped space.
pub open spec fn no_access() -> MemoryAttributes {
    MemoryAttributes {
        readable: false,
        writable: false,
        executable: false,
        private: false,
        allocated: false,
    }
}

/// The unmapped region `[from, to)`.
pub open spec fn gap_model(from: nat, to: nat) -> RegionModel {
    RegionModel {
        start: from,
        end: to,
        size: (to - from) as nat,
        attributes: no_access(),
        file_name: None,
    }
}

impl View for MemoryRegion {
    type V = RegionModel;

    open spec fn view(&self) -> RegionModel {
        RegionModel {
            start: self.start as nat,
            end: self.end as nat,
            size: self.size as nat,
            attributes: self.attributes,
            file_name: match self.file_name {
                Some(name) => Some(name@),
                None => None,
            },
        }
    }
}

/// The values of a sequence of regions, one by one.
pub open spec fn region_models(regions: Seq<MemoryRegion>) -> Seq<RegionModel> {
    regions.map_values(|r: MemoryRegion| r@)
}

impl Clone for MemoryRegion {
    fn clone(&self) -> (copy: MemoryRegion)
        ensures
            copy == *self,
    {
        MemoryRegion {
            start: self.start,
            end: self.end,
            size: self.size,
            attributes: self.attributes,
            file_name: match &self.file_name {
                Some(name) => Some(name.clone()),
                None => None,
            },
        }
    }
}

impl MemoryRegion {
    /// The synthetic region for the unmapped range `[from, to)`.
    pub fn gap(from: u64, to: u64) -> (region: MemoryRegion)
        requires
            from < to,
        ensures
            region@ == gap_model(from as nat, to as nat),
            region@.well_formed(),
            region@.is_gap(),
    {
        MemoryRegion {
            start: from,
            end: to,
            size: to - from,
            attributes: MemoryAttributes {
                readable: false,
                writable: false,
                executable: false,
                private: false,
                allocated: false,
            },
            file_name: None,
        }
    }
}

} // verus!
