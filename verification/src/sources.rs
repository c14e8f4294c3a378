//! Which source files a content directory accepts, by file extension.

use crate::error::ADHDError;
use crate::text::same_text;
use vstd::prelude::*;
use vstd::string::StringExecFns;

verus! {

/// The format of a song source.
#[derive(Debug, Clone, Copy)]
pub enum SongFormat {
    /// A structured beatmap, extension `osu`.
    Osu,
    /// The legacy format, extension `v2`.
    LegacyV2,
}

/// The text of an optional string.
pub open spec fn text_of(extension: Option<&str>) -> Option<Seq<char>> {
    match extension {
        Some(e) => Some(e@),
        None => None,
    }
}

/// The song format that an extension stands for.
pub open spec fn song_format_of(extension: Option<Seq<char>>) -> Option<SongFormat> {
    if extension == Some("osu"@) {
        Some(SongFormat::Osu)
    } else if extension == Some("v2"@) {
        Some(SongFormat::LegacyV2)
    } else {
        None
    }
}

/// The format of the song source at `path`, by its extension.
///
/// Fails with [`ADHDError::InvalidFileExtension`], which carries `path`, where
/// the extension is missing or neither `osu` nor `v2`.
pub fn song_format(path: &str, extension: Option<&str>) -> (r: Result<SongFormat, ADHDError>)
    ensures
        match r {
            Ok(format) => song_format_of(text_of(extension)) == Some(format),
            Err(e) => song_format_of(text_of(extension)) is None && e is InvalidFileExtension
                && e.subject() == path@,
        },
{
    match extension {
        Some(e) => {
            if same_text(e, "osu") {
                Ok(SongFormat::Osu)
            } else if same_text(e, "v2") {
                Ok(SongFormat::LegacyV2)
            } else {
                Err(ADHDError::InvalidFileExtension(String::from_str(path)))
            }
        },
        None => Err(ADHDError::InvalidFileExtension(String::from_str(path))),
    }
}

/// Accepts the menu source at `path` where its extension is `men`.
///
/// Fails with [`ADHDError::InvalidFileExtension`], which carries `path`, on
/// any other extension and on none.
pub fn menu_source(path: &str, extension: Option<&str>) -> (r: Result<(), ADHDError>)
    ensures
        r is Ok <==> text_of(extension) == Some("men"@),
        r matches Err(e) ==> e is InvalidFileExtension && e.subject() == path@,
{
    match extension {
        Some(e) => {
            if same_text(e, "men") {
                Ok(())
            } else {
                Err(ADHDError::InvalidFileExtension(String::from_str(path)))
            }
        },
        None => Err(ADHDError::InvalidFileExtension(String::from_str(path))),
    }
}

} // verus!
