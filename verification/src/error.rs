//! The errors of archiving and extraction.

use vstd::prelude::*;
use vstd::utf8::encode_utf8;

verus! {

/// Why an operation on an archive was given up, or an entry left out.
#[derive(Debug, PartialEq, Eq)]
pub enum ArchiveError {
    /// A path relative to the traversal root is not valid UTF-8. Holds the
    /// bytes of that path.
    NonUtf8Path(Vec<u8>),
    /// The directory walker could not read an entry. Holds its message.
    Traversal(String),
    /// A source file could not be read. Holds the message of the failure.
    Io(String),
    /// A traversed path does not lie under the traversal root. Holds the
    /// bytes of the path, its components joined by `/`.
    OutsideRoot(Vec<u8>),
    /// An entry name is longer than the container format can store. Holds
    /// the name.
    NameTooLong(String),
    /// The container refused an operation. Holds its message.
    Container(String),
    /// The name of a stored entry would resolve outside the extraction root.
    /// Holds the name. The entry is skipped; extraction goes on.
    UnsafeEntryName(String),
    /// The payload of a stored file is kept under a method that is not
    /// decoded here: LZMA. Holds the name of the entry.
    UnsupportedMethod(String),
}

/// The mathematical value of an `ArchiveError`: paths and entry names as
/// sequences of bytes, names by their UTF-8 encoding; messages as sequences
/// of characters.
pub enum ErrorView {
    NonUtf8Path(Seq<u8>),
    Traversal(Seq<char>),
    Io(Seq<char>),
    OutsideRoot(Seq<u8>),
    NameTooLong(Seq<u8>),
    Container(Seq<char>),
    UnsafeEntryName(Seq<u8>),
    UnsupportedMethod(Seq<u8>),
}

impl View for ArchiveError {
    type V = ErrorView;

    open spec fn view(&self) -> ErrorView {
        match self {
            ArchiveError::NonUtf8Path(path) => ErrorView::NonUtf8Path(path@),
            ArchiveError::Traversal(message) => ErrorView::Traversal(message@),
            ArchiveError::Io(message) => ErrorView::Io(message@),
            ArchiveError::OutsideRoot(path) => ErrorView::OutsideRoot(path@),
            ArchiveError::NameTooLong(name) => ErrorView::NameTooLong(encode_utf8(name@)),
            ArchiveError::Container(message) => ErrorView::Container(message@),
            ArchiveError::UnsafeEntryName(name) => ErrorView::UnsafeEntryName(encode_utf8(name@)),
            ArchiveError::UnsupportedMethod(name) => ErrorView::UnsupportedMethod(
                encode_utf8(name@),
            ),
        }
    }
}

impl ArchiveError {
    /// Whether the whole operation is given up on this error. Only an unsafe
    /// entry name is recovered from, by skipping the entry.
    pub open spec fn spec_is_fatal(&self) -> bool {
        !(self is UnsafeEntryName)
    }

    /// Whether the whole operation is given up on this error.
    #[verifier::when_used_as_spec(spec_is_fatal)]
    pub fn is_fatal(&self) -> (fatal: bool)
        ensures
            fatal == self.spec_is_fatal(),
    {
        match self {
            ArchiveError::UnsafeEntryName(_) => false,
            _ => true,
        }
    }
}

} // verus!
