use vstd::prelude::*;

verus! {

/// Failures of the keyed-archive layer: a broken object graph or a value of the wrong shape.
#[derive(Debug, Clone, Copy, PartialEq, Eq, Structural)]
pub enum NsArchiveError {
    /// A required key is absent from a dictionary.
    MissingKey,
    /// A value cannot be read as the requested type.
    TypeMismatch,
    /// A `UID` points outside the `$objects` table.
    BadUid,
    /// The object graph nests deeper than it has objects, so it holds a cycle.
    Cycle,
    /// A `$class` names a class that is not understood here.
    UnknownClass,
}

/// Every way in which opening a document can fail.
#[derive(Debug, Clone, Copy, PartialEq, Eq, Structural)]
pub enum ProcreateError {
    /// The container or one of its entries could not be read.
    Io,
    /// The property list could not be parsed.
    PlistError,
    /// The zip container is malformed or lacks a required entry.
    ZipError,
    /// The dictionary codec rejected a tile.
    LzoError,
    /// The framed block codec rejected a tile.
    Lz4Error,
    /// A tile decoded to a length other than its rectangle needs.
    TileLength,
    /// The keyed archive does not hold what the document needs.
    NsArchiveError(NsArchiveError),
    /// A field holds a value outside its range (a blend code, a tile name).
    InvalidValue,
    /// Anything else.
    Unknown,
}

} // verus!
