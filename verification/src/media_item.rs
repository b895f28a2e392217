//! A media file known to the library.

use std::path::PathBuf;
use vstd::prelude::*;

verus! {

/// `std::path::PathBuf`, carried through the library without being read.
#[verifier::external_type_specification]
#[verifier::external_body]
pub struct ExPathBuf(PathBuf);

/// `PathBuf::clone`, used by the derived `Clone` of [`MediaItem`]; nothing is
/// stated of the copy.
pub assume_specification[ <PathBuf as Clone>::clone ](p: &PathBuf) -> PathBuf;

/// Represents a single media file in the library.
#[derive(Debug, Clone)]
pub struct MediaItem {
    pub id: String,
    pub path: PathBuf,
    pub title: String,
    /// e.g. "video/mp4"
    pub mime_type: String,
    pub size: u64,
    /// e.g. "mp4", "mkv"
    pub container: Option<String>,
    /// e.g. "h264", "hevc"
    pub video_codec: Option<String>,
    /// e.g. "aac", "ac3"
    pub audio_codec: Option<String>,
}

impl MediaItem {
    /// An item with the given identity and no stream information.
    pub fn new(id: String, path: PathBuf, title: String, mime_type: String, size: u64) -> (r: Self)
        ensures
            r.id == id,
            r.path == path,
            r.title == title,
            r.mime_type == mime_type,
            r.size == size,
            r.container is None,
            r.video_codec is None,
            r.audio_codec is None,
    {
        MediaItem {
            id,
            path,
            title,
            mime_type,
            size,
            container: None,
            video_codec: None,
            audio_codec: None,
        }
    }
}

} // verus!
