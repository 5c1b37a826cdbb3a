//! Files to upload.
use vstd::prelude::*;

verus! {

/// A file found by a file source.
#[derive(Debug, Clone)]
pub struct FileEntry {
    /// Path under the upload root, with forward slashes.
    pub rel_path: String,
    /// Where the file is on the local disk.
    pub abs_path: String,
    pub size: u64,
    /// Modification time in seconds since the epoch, when known.
    pub mtime: Option<i64>,
}

/// What a `FileEntry` holds.
pub struct FileModel {
    pub rel_path: Seq<char>,
    pub abs_path: Seq<char>,
    pub size: u64,
    pub mtime: Option<i64>,
}

impl View for FileEntry {
    type V = FileModel;

    open spec fn view(&self) -> FileModel {
        FileModel { rel_path: self.rel_path@, abs_path: self.abs_path@, size: self.size, mtime: self.mtime }
    }
}

impl FileEntry {
    /// A copy of the entry.
    pub fn copy_entry(&self) -> (r: FileEntry)
        ensures
            r@ == self@,
    {
        FileEntry {
            rel_path: self.rel_path.clone(),
            abs_path: self.abs_path.clone(),
            size: self.size,
            mtime: self.mtime,
        }
    }
}

/// The models of a list of entries.
pub open spec fn models(v: Seq<FileEntry>) -> Seq<FileModel> {
    v.map_values(|e: FileEntry| e@)
}

/// Sum of the sizes of the files.
pub open spec fn total_size(fs: Seq<FileModel>) -> nat
    decreases fs.len(),
{
    if fs.len() == 0 {
        0
    } else {
        total_size(fs.drop_last()) + fs.last().size as nat
    }
}

} // verus!
