//! Values exchanged with the frontend by the filesystem commands.

use vstd::prelude::*;

verus! {

/// Metadata of a path: whether it is a directory, and its size in bytes.
#[derive(Debug)]
pub struct FileStat {
    pub is_directory: bool,
    pub size: u64,
}

/// One entry returned by the remote-attach file walker (`~` picker).
///
/// `path` is the absolute, canonicalized filesystem path that the frontend
/// hands back to `readAttachFileBase64` when the user picks the entry. `name`
/// is just the basename for display. `is_dir` is true for folders so the
/// picker can render a folder icon (folders are listed but not selectable).
#[derive(Debug)]
pub struct AttachFileEntry {
    pub name: String,
    pub path: String,
    pub is_dir: bool,
    pub size: u64,
}

/// The mathematical value of an [`AttachFileEntry`].
pub struct EntryView {
    pub name: Seq<char>,
    pub path: Seq<char>,
    pub is_dir: bool,
    pub size: u64,
}

impl View for AttachFileEntry {
    type V = EntryView;

    open spec fn view(&self) -> EntryView {
        EntryView { name: self.name@, path: self.path@, is_dir: self.is_dir, size: self.size }
    }
}

/// Bytes for a remotely-attached file, returned by `readAttachFileBase64`.
/// `base64` carries the raw file content (so the browser can rebuild a
/// `Blob`/`File` identical to an uploaded one); `size` is the original byte
/// length, useful for size validation on the frontend.
#[derive(Debug)]
pub struct AttachFileBytes {
    pub base64: String,
    pub size: u64,
}

/// A named group of file extensions for an open dialog.
#[derive(Debug)]
pub struct DialogFilter {
    pub name: String,
    pub extensions: Vec<String>,
}

/// Options of an open dialog; every field may be absent.
#[derive(Debug)]
pub struct DialogOpenOptions {
    pub multiple: Option<bool>,
    pub directory: Option<bool>,
    pub default_path: Option<String>,
    pub filters: Option<Vec<DialogFilter>>,
}

} // verus!
