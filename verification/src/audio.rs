//! Basic facts about a media file, as the interface shows them before a transcription.
use vstd::prelude::*;

use crate::models::Platform;

verus! {

/// A file's name and size (the human-readable size is formatted by the caller).
pub struct FileInfo {
    pub name: String,
    pub size_bytes: u64,
    pub size_human: String,
}

/// The information of the file at `path`: its file name (empty when the path has none) and
/// the size the system reported.
pub fn file_info(path: &str, platform: Platform, size_bytes: u64, size_human: String) -> (f: FileInfo)
    ensures
        f.name@ == (match crate::decode::file_name_spec(path@, platform) {
            Some(n) => n,
            None => Seq::<char>::empty(),
        }),
        f.size_bytes == size_bytes,
        f.size_human@ == size_human@,
{
    let name = match crate::decode::file_name(path, platform) {
        Some(n) => n,
        None => String::new(),
    };
    FileInfo { name, size_bytes, size_human }
}

} // verus!
