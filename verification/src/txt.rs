//! Plain-text extraction: the bytes read back verbatim as UTF-8 text.

use vstd::prelude::*;
use crate::errors::BlitzParseError;
use crate::text::{decodes_ascii, is_ascii_bytes};
use crate::trusted::{utf8_outcome_of, utf8_to_string};

verus! {

/// Decodes the file's bytes as text, unchanged: the whole content verbatim
/// exactly when the bytes are valid UTF-8 (ASCII input byte for byte), and
/// an I/O-class failure otherwise, as an unreadable file would be.
pub fn parse_txt(bytes: &Vec<u8>) -> (r: Result<String, BlitzParseError>)
    ensures
        (match r {
            Ok(t) => utf8_outcome_of(bytes@) == Some(t@),
            Err(e) => utf8_outcome_of(bytes@) is None && (e matches BlitzParseError::Io(m) && m@
                == "stream did not contain valid UTF-8"@),
        }),
        is_ascii_bytes(bytes@) ==> (r matches Ok(t) && decodes_ascii(bytes@, t@)),
{
    match utf8_to_string(bytes) {
        Some(s) => Ok(s),
        None => Err(BlitzParseError::Io("stream did not contain valid UTF-8".to_owned())),
    }
}

} // verus!
