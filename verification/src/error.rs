//! Error values for the packaging pipeline: configuration errors, invalid
//! archive members, and failures reported by the compression libraries.

use vstd::prelude::*;

verus! {

/// Everything that can go wrong while assembling an installer package.
/// Each variant carries the offending path, token, or the message the
/// compression library reported.
#[derive(Debug, Clone, PartialEq, Eq)]
pub enum Error {
    /// A compression-format token in the configuration string was not
    /// recognized; carries the token.
    UnknownFormat(Vec<u8>),
    /// The requested input path does not lie inside the work directory.
    InputNotRelative(Vec<u8>),
    /// An archive member's path cannot be encoded (empty, absolute,
    /// contains a NUL byte, or longer than a header name field).
    InvalidPath(Vec<u8>),
    /// A symlink member's target cannot be encoded.
    InvalidLinkTarget(Vec<u8>),
    /// A member's metadata or size does not fit its header field.
    FieldTooLarge(Vec<u8>),
    /// Two collected members share a path, which one archive cannot hold;
    /// carries that path.
    DuplicatePath(Vec<u8>),
    /// A compression library failed; carries its message.
    Compression(Vec<u8>),
    /// A merged package declared an installer version other than
    /// `RUST_INSTALLER_VERSION`; carries the version text found.
    BadVersion(Vec<u8>),
}

impl Error {
    /// The payload bytes carried by this error, for display by callers.
    pub open spec fn detail_spec(self) -> Seq<u8> {
        match self {
            Error::UnknownFormat(t) => t@,
            Error::InputNotRelative(p) => p@,
            Error::InvalidPath(p) => p@,
            Error::InvalidLinkTarget(p) => p@,
            Error::FieldTooLarge(p) => p@,
            Error::DuplicatePath(p) => p@,
            Error::Compression(m) => m@,
            Error::BadVersion(v) => v@,
        }
    }

    /// Returns the payload carried by the error.
    pub fn detail(&self) -> (r: &Vec<u8>)
        ensures
            r@ == self.detail_spec(),
    {
        match self {
            Error::UnknownFormat(t) => t,
            Error::InputNotRelative(p) => p,
            Error::InvalidPath(p) => p,
            Error::InvalidLinkTarget(p) => p,
            Error::FieldTooLarge(p) => p,
            Error::DuplicatePath(p) => p,
            Error::Compression(m) => m,
            Error::BadVersion(v) => v,
        }
    }
}

} // verus!
