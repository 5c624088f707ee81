//! Document ingestion pipeline: format-dispatching text extraction, text
//! chunking, and construction of a small labeled knowledge graph from
//! document metadata and content chunks.
//!
//! Format detection and every extractor work over plain values (a path
//! string, the file's bytes); reading the file itself is the caller's
//! business.

pub mod builder;
pub mod chunker;
pub mod docx;
pub mod errors;
pub mod models;
pub mod pdf;
pub mod text;
pub mod trusted;
pub mod txt;

use vstd::prelude::*;
use crate::errors::BlitzParseError;
use crate::text::{rfind_ch, split_chars, split_on};
use crate::trusted::{chars_to_string, lower_of, str_to_chars, to_lower};

verus! {

/// The three supported input formats.
#[derive(Debug, Clone, Copy, PartialEq, Eq, Structural)]
pub enum FileFormat {
    Txt,
    Pdf,
    Docx,
}

/// The final path component: what follows the last `/`.
pub open spec fn file_name_of(path: Seq<char>) -> Seq<char> {
    split_on(path, '/').last()
}

/// The extension: what follows the last `.` of the file name, unless the
/// name has no `.` or only a leading one.
pub open spec fn ext_of(path: Seq<char>) -> Option<Seq<char>> {
    let f = file_name_of(path);
    let i = rfind_ch(f, '.');
    if i <= 0 {
        None
    } else {
        Some(f.skip(i + 1))
    }
}

/// Reads the format off the path's extension, case-insensitively. A missing
/// extension and an unrecognized one each fail with `UnsupportedFileType`
/// carrying `"No extension"` or the extension as written.
pub fn detect_format(path: &str) -> (r: Result<FileFormat, BlitzParseError>)
    ensures
        ({
            match ext_of(path@) {
                None => r matches Err(e) && e matches BlitzParseError::UnsupportedFileType(m)
                    && m@ == "No extension"@,
                Some(ext) => {
                    let le = lower_of(ext);
                    if le == "pdf"@ {
                        r == Ok::<FileFormat, BlitzParseError>(FileFormat::Pdf)
                    } else if le == "docx"@ {
                        r == Ok::<FileFormat, BlitzParseError>(FileFormat::Docx)
                    } else if le == "txt"@ {
                        r == Ok::<FileFormat, BlitzParseError>(FileFormat::Txt)
                    } else {
                        r matches Err(e) && e matches BlitzParseError::UnsupportedFileType(m)
                            && m@ == ext
                    }
                },
            }
        }),
{
    let pc = str_to_chars(path);
    let segs = split_chars(&pc, '/');
    proof {
        crate::text::lemma_split_on_len(path@, '/');
        assert(segs@.len() >= 1);
    }
    let f = &segs[segs.len() - 1];
    proof {
        assert(f@ == segs@.map_values(|v: Vec<char>| v@)[segs@.len() - 1]);
        assert(f@ == file_name_of(path@));
    }
    let mut j: usize = f.len();
    let mut dot: usize = 0;
    let mut found = false;
    proof {
        assert(f@.take(f@.len() as int) =~= f@);
    }
    while j > 0
        invariant_except_break
            0 <= j <= f@.len(),
            !found,
            rfind_ch(f@, '.') == rfind_ch(f@.take(j as int), '.'),
        ensures
            found ==> rfind_ch(f@, '.') == dot && dot < f@.len(),
            !found ==> rfind_ch(f@, '.') == -1,
        decreases j,
    {
        proof {
            let t = f@.take(j as int);
            assert(t[t.len() - 1] == f@[j - 1]);
            assert(t.drop_last() =~= f@.take(j - 1));
        }
        if f[j - 1] == '.' {
            dot = j - 1;
            found = true;
            break ;
        }
        j = j - 1;
    }
    proof {
        if !found {
            assert(f@.take(0) =~= Seq::<char>::empty());
        }
    }
    if !found || dot == 0 {
        return Err(BlitzParseError::UnsupportedFileType("No extension".to_owned()));
    }
    let mut ext: Vec<char> = Vec::new();
    let mut m = dot + 1;
    proof {
        assert(ext@ =~= f@.subrange(dot + 1, dot + 1));
    }
    while m < f.len()
        invariant
            dot + 1 <= m <= f@.len(),
            ext@ == f@.subrange(dot + 1, m as int),
        decreases f@.len() - m,
    {
        ext.push(f[m]);
        proof {
            assert(f@.subrange(dot + 1, m + 1) =~= f@.subrange(dot + 1, m as int).push(
                f@[m as int],
            ));
        }
        m = m + 1;
    }
    proof {
        assert(ext@ =~= f@.skip(dot + 1));
    }
    let ext_s = chars_to_string(&ext);
    let low = to_lower(ext_s.as_str());
    let pdf_key: String = "pdf".to_owned();
    let docx_key: String = "docx".to_owned();
    let txt_key: String = "txt".to_owned();
    if low == pdf_key {
        Ok(FileFormat::Pdf)
    } else if low == docx_key {
        Ok(FileFormat::Docx)
    } else if low == txt_key {
        Ok(FileFormat::Txt)
    } else {
        Err(BlitzParseError::UnsupportedFileType(ext_s))
    }
}

} // verus!
