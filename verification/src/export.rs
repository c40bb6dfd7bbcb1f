pub mod rasterize;
pub mod bone_export;
pub mod ron_meta;
pub mod spritesheet;
pub mod svg_gen;
pub mod watcher;

use vstd::prelude::*;
use crate::text::push_str;

verus! {

#[verifier::external_type_specification]
#[verifier::external_body]
pub struct ExIoError(std::io::Error);

#[verifier::external_type_specification]
#[verifier::external_body]
pub struct ExPathBuf(std::path::PathBuf);

/// Error of an export operation.
pub enum ExportError {
    Io(std::io::Error),
    Svg(String),
    Rasterize(String),
    Ron(String),
}

impl From<std::io::Error> for ExportError {
    fn from(e: std::io::Error) -> (r: Self) {
        ExportError::Io(e)
    }
}

impl vstd::std_specs::convert::FromSpecImpl<std::io::Error> for ExportError {
    open spec fn obeys_from_spec() -> bool {
        true
    }

    open spec fn from_spec(v: std::io::Error) -> Self {
        ExportError::Io(v)
    }
}

/// Calls `std::io::Error`'s `to_string`. Its text is not stated.
#[verifier::external_body]
fn io_error_text(e: &std::io::Error) -> String {
    e.to_string()
}

impl ExportError {
    /// The message shown for the error: its kind, a colon and its detail.
    pub fn describe(&self) -> (s: String)
        ensures
            self matches ExportError::Svg(m) ==> s@ == "SVG generation error: "@ + m@,
            self matches ExportError::Rasterize(m) ==> s@ == "Rasterization error: "@ + m@,
            self matches ExportError::Ron(m) ==> s@ == "RON export error: "@ + m@,
            self is Io ==> exists|d: Seq<char>| s@ == "IO error: "@ + d,
    {
        match self {
            ExportError::Io(e) => {
                let d = io_error_text(e);
                let mut s = String::from_str("IO error: ");
                push_str(&mut s, d.as_str());
                assert(s@ == "IO error: "@ + d@);
                s
            },
            ExportError::Svg(m) => {
                let mut s = String::from_str("SVG generation error: ");
                push_str(&mut s, m.as_str());
                s
            },
            ExportError::Rasterize(m) => {
                let mut s = String::from_str("Rasterization error: ");
                push_str(&mut s, m.as_str());
                s
            },
            ExportError::Ron(m) => {
                let mut s = String::from_str("RON export error: ");
                push_str(&mut s, m.as_str());
                s
            },
        }
    }
}

/// Result of a bone export: the atlas files (one per skin and the default), the
/// RON animation file, and a summary for the export dialog.
pub struct BoneExportResult {
    pub atlas_paths: Vec<std::path::PathBuf>,
    pub ron_path: std::path::PathBuf,
    pub summary: String,
}

/// Result of a spritesheet export: the atlas file, its RON layout file and a summary.
pub struct SpritesheetExportResult {
    pub atlas_path: std::path::PathBuf,
    pub ron_path: std::path::PathBuf,
    pub summary: String,
}

/// A file change that the main loop should process: the changed `.sprite` file.
pub struct SpriteChangeEvent {
    pub path: std::path::PathBuf,
}

} // verus!
