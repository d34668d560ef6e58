use vstd::prelude::*;

use crate::path::{file_name_of, parent_of, path_file_name, path_parent};

verus! {

/// One module loaded in the target process: its file path, its base
/// address, and its size in bytes, giving it the half-open address range
/// `[base, base + size)`.
#[derive(Debug)]
pub struct ModuleInfo {
    pub path: String,
    pub base_address: u64,
    pub size: u32,
}

impl ModuleInfo {
    pub fn new(path: String, base_address: u64, size: u32) -> (r: Self)
        ensures
            r.path == path,
            r.base_address == base_address,
            r.size == size,
    {
        Self { path, base_address, size }
    }

    /// The final component of the module's path, trailing separators
    /// ignored; absent for a root or prefix-only path and for a `.` or
    /// `..` final component.
    pub fn name(&self) -> (r: Option<&str>)
        ensures
            match r {
                Some(name) => path_file_name(self.path@) == Some(name@),
                None => path_file_name(self.path@) is None,
            },
    {
        file_name_of(self.path.as_str())
    }

    /// The module's whole path.
    pub fn file_path(&self) -> (r: Option<&str>)
        ensures
            r is Some,
            r->0@ == self.path@,
    {
        Some(self.path.as_str())
    }

    /// The module's path without its final component, trailing separators
    /// ignored; absent for a root or prefix-only path, and possibly empty
    /// where nothing but the popped component stood.
    pub fn module_dir(&self) -> (r: Option<&str>)
        ensures
            match r {
                Some(dir) => path_parent(self.path@) == Some(dir@),
                None => path_parent(self.path@) is None,
            },
    {
        parent_of(self.path.as_str())
    }

    /// The half-open address range the module occupies.
    pub fn address_range(&self) -> (r: std::ops::Range<u64>)
        requires
            self.base_address + self.size <= u64::MAX,
        ensures
            r.start == self.base_address,
            r.end == self.base_address + self.size,
    {
        self.base_address..(self.base_address + self.size as u64)
    }
}

} // verus!
