//! The errors that decoding and encoding can report.

use vstd::prelude::*;

verus! {

/// What exactly was wrong with input that is not in the expected format.
#[derive(Clone, Copy, Debug, PartialEq, Eq)]
pub enum FormatFault {
    /// The buffer does not begin with the index signature.
    BadSignature,
    /// The index version is none of the known ones; carries the value found.
    BadVersion(u32),
    /// The buffer ended before a field or a terminator that had to be there.
    Truncated,
    /// The four-bit object type of an entry is not a known one; carries the code.
    BadObjectType(u8),
    /// The nine-bit permission of an entry is not a known one; carries the bits.
    BadPermission(u16),
    /// An entry of a version 2 index has its extended flag set.
    ExtendedFlagInVersion2,
    /// A reserved bit of an entry's extended flags is set.
    ReservedNotZero,
    /// The path name of an entry is not valid UTF-8.
    BadPathEncoding,
    /// The bytes of a stored object are not a complete zlib stream.
    BadCompression,
    /// The header of an object lacks its space or its terminating zero byte.
    MissingSeparator,
}

/// An error from the object codec or the index decoder.
#[derive(Clone, Copy, Debug, PartialEq, Eq)]
pub enum GeneralError {
    /// The input is malformed.
    InvalidFormat(FormatFault),
    /// The index has a version that is known but not decoded here; carries it.
    UnsupportedVersion(u32),
    /// The compressor's sink reported a failure.
    Io,
}

impl FormatFault {
    /// The text of [`FormatFault::message`].
    pub open spec fn spec_message(self) -> Seq<char> {
        match self {
            FormatFault::BadSignature => "Index file header was invalid."@,
            FormatFault::BadVersion(_) => "Index file version was invalid."@,
            FormatFault::Truncated => "The data ended in the middle of a field."@,
            FormatFault::BadObjectType(_) => "Invalid object type value."@,
            FormatFault::BadPermission(_) => "Invalid permission type."@,
            FormatFault::ExtendedFlagInVersion2 =>
                "Extend flag cannot be used in index file version 2."@,
            FormatFault::ReservedNotZero => "The field which must be zero was not zero."@,
            FormatFault::BadPathEncoding => "The path name was not valid UTF-8."@,
            FormatFault::BadCompression => "The object could not be decompressed."@,
            FormatFault::MissingSeparator => "The object header was incomplete."@,
        }
    }

    /// A sentence for a human reader that says what check failed.
    pub fn message(&self) -> (text: &'static str)
        ensures
            text@ == self.spec_message(),
    {
        match self {
            FormatFault::BadSignature => "Index file header was invalid.",
            FormatFault::BadVersion(_) => "Index file version was invalid.",
            FormatFault::Truncated => "The data ended in the middle of a field.",
            FormatFault::BadObjectType(_) => "Invalid object type value.",
            FormatFault::BadPermission(_) => "Invalid permission type.",
            FormatFault::ExtendedFlagInVersion2 =>
                "Extend flag cannot be used in index file version 2.",
            FormatFault::ReservedNotZero => "The field which must be zero was not zero.",
            FormatFault::BadPathEncoding => "The path name was not valid UTF-8.",
            FormatFault::BadCompression => "The object could not be decompressed.",
            FormatFault::MissingSeparator => "The object header was incomplete.",
        }
    }
}

} // verus!
