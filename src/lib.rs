//! Format-agnostic audio metadata: a canonical tag model, the mapping between it and
//! four native tag schemes, artist splitting, artwork selection and lyric timestamps.
pub mod text;
pub mod split;
pub mod lyrics;
pub mod pic;
pub mod error;
pub mod reader;
pub mod info;

pub use error::{Error, Result};
pub use info::{MusicFormat, MusicTag};
pub use pic::{Artwork, ImgFmt};
pub use reader::{AudioReader, SeekPos};

use vstd::prelude::*;

verus! {

/// The container formats, as the byte-source entry point names them.
#[derive(Debug, PartialEq, Eq, Clone, Copy, Structural)]
pub enum MusicFmt {
    M4a,
    Mp3,
    Flac,
    Ogg,
}

} // verus!
