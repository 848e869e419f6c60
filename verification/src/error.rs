//! The errors of a store import, over any kind of text, with the message of each.

use vstd::prelude::*;
use vstd::string::*;

use crate::text::{concat2, concat3, decimal, decimal_text};

verus! {

/// Why a store object could not be imported. `S` is the kind of text: `String` at run time,
/// a sequence of characters in contracts.
#[derive(Debug)]
pub enum StoreImportActionError<S> {
    WrongNumberOfOutputs(usize),
    MissingLogicalStorePath(S),
    InvalidStorePath(S),
    InvalidCanonicalTreeHash(S),
    ManifestInputNotSingleton,
    InvalidManifest { path: S, error: S },
    ManifestMetadataMismatch { field: S },
    CanonicalTreePathTooLong(S),
    UnsupportedStoreEntry(S),
    CanonicalTreeHashMismatch { store_path: S, expected: S, actual: S },
    NonUtf8Entry { directory: S },
    InvalidFileName(S),
    ChangedWhileImported(S),
    ArchiveTooLarge,
    Absent { store_path: S, hint: S },
    /// A failed read, with what was being done.
    Reading { context: S, error: S },
    /// A failure that is passed on as it came.
    Failed(S),
}

impl View for StoreImportActionError<String> {
    type V = StoreImportActionError<Seq<char>>;

    open spec fn view(&self) -> StoreImportActionError<Seq<char>> {
        match *self {
            StoreImportActionError::WrongNumberOfOutputs(n) =>
                StoreImportActionError::WrongNumberOfOutputs(n),
            StoreImportActionError::MissingLogicalStorePath(s) =>
                StoreImportActionError::MissingLogicalStorePath(s@),
            StoreImportActionError::InvalidStorePath(s) =>
                StoreImportActionError::InvalidStorePath(s@),
            StoreImportActionError::InvalidCanonicalTreeHash(s) =>
                StoreImportActionError::InvalidCanonicalTreeHash(s@),
            StoreImportActionError::ManifestInputNotSingleton =>
                StoreImportActionError::ManifestInputNotSingleton,
            StoreImportActionError::InvalidManifest { path, error } =>
                StoreImportActionError::InvalidManifest { path: path@, error: error@ },
            StoreImportActionError::ManifestMetadataMismatch { field } =>
                StoreImportActionError::ManifestMetadataMismatch { field: field@ },
            StoreImportActionError::CanonicalTreePathTooLong(s) =>
                StoreImportActionError::CanonicalTreePathTooLong(s@),
            StoreImportActionError::UnsupportedStoreEntry(s) =>
                StoreImportActionError::UnsupportedStoreEntry(s@),
            StoreImportActionError::CanonicalTreeHashMismatch { store_path, expected, actual } =>
                StoreImportActionError::CanonicalTreeHashMismatch {
                    store_path: store_path@,
                    expected: expected@,
                    actual: actual@,
                },
            StoreImportActionError::NonUtf8Entry { directory } =>
                StoreImportActionError::NonUtf8Entry { directory: directory@ },
            StoreImportActionError::InvalidFileName(s) =>
                StoreImportActionError::InvalidFileName(s@),
            StoreImportActionError::ChangedWhileImported(s) =>
                StoreImportActionError::ChangedWhileImported(s@),
            StoreImportActionError::ArchiveTooLarge => StoreImportActionError::ArchiveTooLarge,
            StoreImportActionError::Absent { store_path, hint } =>
                StoreImportActionError::Absent { store_path: store_path@, hint: hint@ },
            StoreImportActionError::Reading { context, error } =>
                StoreImportActionError::Reading { context: context@, error: error@ },
            StoreImportActionError::Failed(s) => StoreImportActionError::Failed(s@),
        }
    }
}

/// The message that belongs to an error.
pub open spec fn import_error_text(e: StoreImportActionError<Seq<char>>) -> Seq<char> {
    match e {
        StoreImportActionError::WrongNumberOfOutputs(n) =>
            "store import action should have exactly 1 output, got "@ + decimal_text(n as nat),
        StoreImportActionError::MissingLogicalStorePath(s) =>
            "store import output does not carry a logical store path: `"@ + s + "`"@,
        StoreImportActionError::InvalidStorePath(s) =>
            "store path is not absolute and normalized: `"@ + s + "`"@,
        StoreImportActionError::InvalidCanonicalTreeHash(s) =>
            "canonical store tree hash must be a `sha256:` digest: `"@ + s + "`"@,
        StoreImportActionError::ManifestInputNotSingleton =>
            "store import manifest input must resolve to exactly one artifact"@,
        StoreImportActionError::InvalidManifest { path, error } =>
            "failed to parse store manifest `"@ + path + "`: "@ + error,
        StoreImportActionError::ManifestMetadataMismatch { field } =>
            "store manifest metadata field `"@ + field
            + "` does not match its import declaration"@,
        StoreImportActionError::CanonicalTreePathTooLong(s) =>
            "canonical store tree path is too long for the archive format: `"@ + s + "`"@,
        StoreImportActionError::UnsupportedStoreEntry(s) =>
            "hydrated store object contains unsupported filesystem entry: `"@ + s + "`"@,
        StoreImportActionError::CanonicalTreeHashMismatch { store_path, expected, actual } =>
            "hydrated store object `"@ + store_path
            + "` does not match canonical tree hash: expected "@ + expected + ", got "@ + actual,
        StoreImportActionError::NonUtf8Entry { directory } =>
            "hydrated store object contains a non-UTF-8 entry below `"@ + directory + "`"@,
        StoreImportActionError::InvalidFileName(s) =>
            "file name is not a single path entry: `"@ + s + "`"@,
        StoreImportActionError::ChangedWhileImported(s) =>
            "hydrated store file `"@ + s + "` changed while it was imported"@,
        StoreImportActionError::ArchiveTooLarge =>
            "canonical store tree is too large to be hashed"@,
        StoreImportActionError::Absent { store_path, hint } =>
            "Hydrated store object `"@ + store_path + "` is absent."@ + hint,
        StoreImportActionError::Reading { context, error } => context + ": "@ + error,
        StoreImportActionError::Failed(s) => s,
    }
}

impl StoreImportActionError<String> {
    /// The message for people.
    pub fn message(&self) -> (res: String)
        ensures
            res@ == import_error_text(self@),
    {
        match self {
            StoreImportActionError::WrongNumberOfOutputs(n) => {
                concat2(
                    "store import action should have exactly 1 output, got ",
                    &decimal(*n as u64),
                )
            },
            StoreImportActionError::MissingLogicalStorePath(s) => {
                concat3("store import output does not carry a logical store path: `", s, "`")
            },
            StoreImportActionError::InvalidStorePath(s) => {
                concat3("store path is not absolute and normalized: `", s, "`")
            },
            StoreImportActionError::InvalidCanonicalTreeHash(s) => {
                concat3("canonical store tree hash must be a `sha256:` digest: `", s, "`")
            },
            StoreImportActionError::ManifestInputNotSingleton => {
                "store import manifest input must resolve to exactly one artifact".to_owned()
            },
            StoreImportActionError::InvalidManifest { path, error } => {
                let mut m = concat3("failed to parse store manifest `", path, "`: ");
                m.append(error);
                m
            },
            StoreImportActionError::ManifestMetadataMismatch { field } => {
                concat3(
                    "store manifest metadata field `",
                    field,
                    "` does not match its import declaration",
                )
            },
            StoreImportActionError::CanonicalTreePathTooLong(s) => {
                concat3(
                    "canonical store tree path is too long for the archive format: `",
                    s,
                    "`",
                )
            },
            StoreImportActionError::UnsupportedStoreEntry(s) => {
                concat3("hydrated store object contains unsupported filesystem entry: `", s, "`")
            },
            StoreImportActionError::CanonicalTreeHashMismatch { store_path, expected, actual } => {
                let mut m = concat3(
                    "hydrated store object `",
                    store_path,
                    "` does not match canonical tree hash: expected ",
                );
                m.append(expected);
                m.append(", got ");
                m.append(actual);
                m
            },
            StoreImportActionError::NonUtf8Entry { directory } => {
                concat3(
                    "hydrated store object contains a non-UTF-8 entry below `",
                    directory,
                    "`",
                )
            },
            StoreImportActionError::InvalidFileName(s) => {
                concat3("file name is not a single path entry: `", s, "`")
            },
            StoreImportActionError::ChangedWhileImported(s) => {
                concat3("hydrated store file `", s, "` changed while it was imported")
            },
            StoreImportActionError::ArchiveTooLarge => {
                "canonical store tree is too large to be hashed".to_owned()
            },
            StoreImportActionError::Absent { store_path, hint } => {
                let mut m = concat3("Hydrated store object `", store_path, "` is absent.");
                m.append(hint);
                m
            },
            StoreImportActionError::Reading { context, error } => {
                concat3(context, ": ", error)
            },
            StoreImportActionError::Failed(s) => s.clone(),
        }
    }
}

/// Whom an error is for: the user, whose input is wrong, or whoever looks after the placement of
/// objects.
#[derive(Debug, Clone, Copy, PartialEq, Eq, Structural)]
pub enum ErrorTag {
    Input,
    MaterializationError,
}

/// The tag of an import error. A failure that was met while reading, and one that is passed on,
/// has the tag that it came with, which is not kept here; an archive that is too large is nobody's
/// input.
pub open spec fn import_error_tag(e: StoreImportActionError<Seq<char>>) -> Option<ErrorTag> {
    match e {
        StoreImportActionError::InvalidStorePath(_) => None,
        StoreImportActionError::InvalidFileName(_) => None,
        StoreImportActionError::ArchiveTooLarge => None,
        StoreImportActionError::Reading { .. } => None,
        StoreImportActionError::Failed(_) => None,
        _ => Some(ErrorTag::Input),
    }
}

impl StoreImportActionError<String> {
    /// Whom the error is for, where the import itself found it.
    pub fn tag(&self) -> (res: Option<ErrorTag>)
        ensures
            res == import_error_tag(self@),
    {
        match self {
            StoreImportActionError::InvalidStorePath(_) => None,
            StoreImportActionError::InvalidFileName(_) => None,
            StoreImportActionError::ArchiveTooLarge => None,
            StoreImportActionError::Reading { .. } => None,
            StoreImportActionError::Failed(_) => None,
            _ => Some(ErrorTag::Input),
        }
    }
}

} // verus!
