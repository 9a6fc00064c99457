//! The errors a save or a load can end with. Every error aborts the whole
//! call; no partial project is ever handed to the caller.

use vstd::prelude::*;

verus! {

/// Kind code used in error values and reference contexts.
pub const KIND_OBJECT: u32 = 1;
pub const KIND_SPRITE: u32 = 2;
pub const KIND_SOUND: u32 = 3;
pub const KIND_ROOM: u32 = 4;
pub const KIND_BACKGROUND: u32 = 6;
pub const KIND_SCRIPT: u32 = 7;
pub const KIND_PATH: u32 = 8;
pub const KIND_FONT: u32 = 9;
pub const KIND_TIMELINE: u32 = 12;
pub const KIND_TRIGGER: u32 = 13;
pub const KIND_INCLUDED_FILE: u32 = 14;
pub const KIND_EXTENSION: u32 = 15;

#[derive(Clone, Debug, PartialEq, Eq)]
pub enum Error {
    /// A file the tree format requires is absent; carries its path.
    FileMissing(Vec<Vec<u8>>),
    /// A textual reference did not resolve: name, expected kind, context.
    AssetNotFound(Vec<u8>, u32, Vec<u8>),
    /// A text file is not line-oriented key=value; carries its path.
    SyntaxError(Vec<Vec<u8>>),
    /// A key this codec does not know: path and key.
    UnknownKey(Vec<Vec<u8>>, u8),
    /// A value did not parse as its field's type: path and key.
    BadValue(Vec<Vec<u8>>, u8),
    /// An action block names a library id and action id the catalog lacks.
    UnknownAction(u32, u32),
    /// An image sidecar did not decode; carries its path.
    InvalidImage(Vec<Vec<u8>>),
    /// A value cannot be represented in the text format (an embedded newline).
    UnicodeError(Vec<u8>),
    /// The manifest's version stamp did not parse; carries its text.
    InvalidVersion(Vec<u8>),
    /// Two assets of one kind share a name; carries the name.
    DuplicateAsset(Vec<u8>),
    DuplicateIncludedFile(Vec<u8>),
    DuplicateTrigger(Vec<u8>),
    /// A name holds a character the tree format reserves: name and character.
    BadAssetName(Vec<u8>, u8),
    BadIncludedFileName(Vec<u8>, u8),
    BadTriggerName(Vec<u8>, u8),
    /// The tree was produced by a newer version of this codec.
    OldGM82,
}

pub type Result<T> = core::result::Result<T, Error>;

} // verus!
