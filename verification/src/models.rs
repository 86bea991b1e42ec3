//! The data a directory listing is made of.

use vstd::prelude::*;

verus! {

/// Whether a listing entry is a directory or a plain file.
#[derive(Debug, Clone, PartialEq, Eq, Structural)]
pub enum PathType {
    Dir,
    File,
}

/// One row of a directory listing, as the listing endpoint reports it:
/// a base name (no path separators), the entry's kind, an optional size in
/// bytes (present for files), and a modification timestamp.
#[derive(Debug, Clone, PartialEq)]
pub struct DufsItem {
    pub name: String,
    pub path_type: PathType,
    pub size: Option<u64>,
    pub mtime: u64,
}

/// The mathematical content of a `DufsItem`: the name as its characters,
/// the rest as plain values.
#[verifier::ext_equal]
pub ghost struct EntryV {
    pub name: Seq<char>,
    pub path_type: PathType,
    pub size: Option<u64>,
    pub mtime: u64,
}

impl View for DufsItem {
    type V = EntryV;

    open spec fn view(&self) -> EntryV {
        EntryV {
            name: self.name@,
            path_type: self.path_type,
            size: self.size,
            mtime: self.mtime,
        }
    }
}

impl DeepView for DufsItem {
    type V = EntryV;

    open spec fn deep_view(&self) -> EntryV {
        self.view()
    }
}

} // verus!
