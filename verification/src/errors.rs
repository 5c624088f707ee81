//! The failure taxonomy of the library.
//!
//! Extraction distinguishes unreadable input, a PDF decode failure, a DOCX
//! decode failure, and an unrecognized file extension, so that a caller can
//! tell a format-detection problem from a content-decode problem.

use vstd::prelude::*;
use crate::trusted::{chars_to_string, str_to_chars};

verus! {

/// A typed extraction failure. Each variant carries a message or, for
/// `UnsupportedFileType`, the offending extension (or `"No extension"`).
#[derive(Debug)]
pub enum BlitzParseError {
    /// The input could not be read or was not valid text.
    Io(String),
    /// The PDF decoder failed; the decoder's message is attached.
    Pdf(String),
    /// The DOCX decode failed in the fallback tier; a message is attached.
    Docx(String),
    /// The file's extension is missing or names no supported format.
    UnsupportedFileType(String),
}

impl BlitzParseError {
    /// The human-readable description: the kind's prefix followed by the
    /// attached message or extension.
    pub open spec fn message_spec(&self) -> Seq<char> {
        match self {
            BlitzParseError::Io(m) => "I/O Error: "@ + m@,
            BlitzParseError::Pdf(m) => "PDF Parsing Error: "@ + m@,
            BlitzParseError::Docx(m) => "DOCX Parsing Error: "@ + m@,
            BlitzParseError::UnsupportedFileType(m) => "Unsupported file type: "@ + m@,
        }
    }

    /// Renders the failure for a reader, exactly as `message_spec` says.
    pub fn message(&self) -> (r: String)
        ensures
            r@ == self.message_spec(),
    {
        let (prefix, m): (&str, &String) = match self {
            BlitzParseError::Io(m) => ("I/O Error: ", m),
            BlitzParseError::Pdf(m) => ("PDF Parsing Error: ", m),
            BlitzParseError::Docx(m) => ("DOCX Parsing Error: ", m),
            BlitzParseError::UnsupportedFileType(m) => ("Unsupported file type: ", m),
        };
        let mut v = str_to_chars(prefix);
        let mut mc = str_to_chars(m.as_str());
        v.append(&mut mc);
        chars_to_string(&v)
    }
}

} // verus!
