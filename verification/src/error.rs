//! The crate's error type. Each variant names the phase that failed and
//! carries the context needed to find the cause (a path, a field name, a
//! message from the component that failed).

use vstd::prelude::*;

verus! {

/// Everything that can go wrong while turning a manuscript into an EPUB.
#[derive(Debug)]
#[non_exhaustive]
pub enum Error {
    /// The manuscript root or one of its files could not be read.
    DiscoverIo { path: String, message: String },
    /// `book.toml` is not valid TOML or lacks a required field.
    MetadataParse { path: String, message: String },
    /// A metadata field holds a value the package cannot carry.
    MetadataInvalid { field: &'static str, reason: String },
    /// The XML writer failed while building the EPUB scaffolding.
    XmlBuild(String),
    /// A source could not be rendered.
    RenderParse { path: String, message: String },
    /// The ZIP container could not be written.
    Package { path: String, message: String },
    /// An I/O error while writing the `.epub` file.
    PackageIo { path: String, message: String },
    /// A source is not valid UTF-8; the bytes before `valid_up_to` are.
    Utf8 { valid_up_to: usize },
    /// A Shift_JIS source could not be decoded.
    Sjis,
}

/// Result alias for the crate.
pub type Result<T> = core::result::Result<T, Error>;

} // verus!
