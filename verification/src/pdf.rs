//! PDF extraction: byte-level decoding is the decoder's business; its
//! failure message is carried in the PDF error kind.

use vstd::prelude::*;
use crate::errors::BlitzParseError;
use crate::trusted::{pdf_extract_text, pdf_outcome_of};

verus! {

/// Hands the whole file to the PDF text decoder: exactly the decoder's text
/// when it succeeds on these bytes, and a `Pdf` error carrying exactly its
/// message when it fails.
pub fn parse_pdf(bytes: &Vec<u8>) -> (r: Result<String, BlitzParseError>)
    ensures
        (match r {
            Ok(t) => pdf_outcome_of(bytes@) == Ok::<Seq<char>, Seq<char>>(t@),
            Err(e) => e matches BlitzParseError::Pdf(m) && pdf_outcome_of(bytes@) == Err::<
                Seq<char>,
                Seq<char>,
            >(m@),
        }),
{
    match pdf_extract_text(bytes) {
        Ok(t) => Ok(t),
        Err(m) => Err(BlitzParseError::Pdf(m)),
    }
}

} // verus!
