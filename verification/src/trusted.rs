//! The boundary to outside collaborators: the archive reader, the streaming
//! markup reader, the document-model decoder, the PDF text decoder, grapheme
//! segmentation, and the few std string conversions vstd gives no
//! specification to. Every function here is believed, not verified; each doc
//! comment names exactly what it relies on. Each collaborator's outcome is a
//! function of the arguments alone, so it carries a name that pins success
//! and failure, not only the successful value.

use vstd::prelude::*;
use crate::docx::RawEvent;
use crate::docx::RawEvent::{End, Eof, Failed, Other, Start, Text};
use crate::text::{ascii_lower, ascii_upper, decodes_ascii, is_ascii_bytes, is_ascii_seq};
use quick_xml::escape::unescape;
use quick_xml::events::Event::{End as XE, Eof as XEof, Start as XS, Text as XT};

verus! {

/// Relies on str::chars: it yields exactly the characters of the string, in
/// order.
#[verifier::external_body]
pub fn str_to_chars(s: &str) -> (r: Vec<char>)
    ensures
        r@ == s@,
{
    s.chars().collect()
}

/// Relies on String's FromIterator<char> impl: collecting characters
/// concatenates them into a string.
#[verifier::external_body]
pub fn chars_to_string(v: &Vec<char>) -> (r: String)
    ensures
        r@ == v@,
{
    v.iter().collect()
}

/// What `String::from_utf8` returns for a byte sequence: the decoded text
/// when the bytes are valid UTF-8, `None` otherwise.
pub uninterp spec fn utf8_outcome_of(b: Seq<u8>) -> Option<Seq<char>>;

/// Relies on String::from_utf8: decoding is a function of the bytes alone,
/// succeeding exactly on valid UTF-8; ASCII bytes always decode, each to its
/// own character.
#[verifier::external_body]
pub fn utf8_to_string(b: &Vec<u8>) -> (r: Option<String>)
    ensures
        (match r {
            Some(s) => utf8_outcome_of(b@) == Some(s@) && (is_ascii_bytes(b@) ==> decodes_ascii(
                b@,
                s@,
            )),
            None => utf8_outcome_of(b@) is None && !is_ascii_bytes(b@),
        }),
{
    match String::from_utf8(b.clone()) {
        Ok(s) => Some(s),
        Err(_) => None,
    }
}

/// What `str::to_uppercase` returns: a function of the characters alone.
pub uninterp spec fn upper_of(s: Seq<char>) -> Seq<char>;

/// Relies on str::to_uppercase: the result depends on the characters alone,
/// and on ASCII input it upper-cases the letters and keeps the rest.
#[verifier::external_body]
pub fn to_upper(s: &str) -> (r: String)
    ensures
        r@ == upper_of(s@),
        is_ascii_seq(s@) ==> r@ == s@.map_values(|c: char| ascii_upper(c)),
{
    s.to_uppercase()
}

/// What `str::to_lowercase` returns: a function of the characters alone.
pub uninterp spec fn lower_of(s: Seq<char>) -> Seq<char>;

/// Relies on str::to_lowercase: the result depends on the characters alone,
/// and on ASCII input it lower-cases the letters and keeps the rest.
#[verifier::external_body]
pub fn to_lower(s: &str) -> (r: String)
    ensures
        r@ == lower_of(s@),
        is_ascii_seq(s@) ==> r@ == s@.map_values(|c: char| ascii_lower(c)),
{
    s.to_lowercase()
}

/// The extended grapheme clusters of a string, in order.
pub uninterp spec fn graphemes_of(s: Seq<char>) -> Seq<Seq<char>>;

/// Relies on unicode_segmentation::UnicodeSegmentation::graphemes (extended
/// clusters): the clusters are non-empty substrings that partition the
/// string, a function of the characters alone.
#[verifier::external_body]
pub fn grapheme_clusters(s: &str) -> (r: Vec<String>)
    ensures
        r@.map_values(|g: String| g@) == graphemes_of(s@),
        r@.map_values(|g: String| g@).flatten() == s@,
        forall|i: int| 0 <= i < r@.len() ==> r@[i]@.len() >= 1,
{
    unicode_segmentation::UnicodeSegmentation::graphemes(s, true).map(|g| g.to_string()).collect()
}

/// What pdf_extract returns for a PDF's bytes: the recovered text, or the
/// decoder's failure message.
pub uninterp spec fn pdf_outcome_of(b: Seq<u8>) -> Result<Seq<char>, Seq<char>>;

/// Relies on pdf_extract::extract_text_from_mem: on the from-memory path the
/// decoder consults nothing but the bytes, so its whole outcome — the text
/// or the failure message — is a function of them. On some malformed inputs
/// the decoder aborts instead of returning; a caller that must not abort
/// catches the unwind (the library's own functions never raise one).
#[verifier::external_body]
pub fn pdf_extract_text(b: &Vec<u8>) -> (r: Result<String, String>)
    ensures
        (match r {
            Ok(t) => pdf_outcome_of(b@) == Ok::<Seq<char>, Seq<char>>(t@),
            Err(m) => pdf_outcome_of(b@) == Err::<Seq<char>, Seq<char>>(m@),
        }),
{
    match pdf_extract::extract_text_from_mem(b.as_slice()) {
        Ok(t) => Ok(t),
        Err(e) => Err(format!("{}", e)),
    }
}

/// What reading a named archive member as text returns: its contents, or
/// the failure message when the archive does not open, the member is absent,
/// or its contents are not text.
pub uninterp spec fn zip_text_of(archive: Seq<u8>, member: Seq<char>) -> Result<Seq<char>, Seq<
    char,
>>;

/// Relies on zip::ZipArchive::new, ZipArchive::by_name and
/// std::io::Read::read_to_string: every failure path returns an error, and
/// the whole outcome is a function of the archive bytes and the member name.
#[verifier::external_body]
pub fn zip_member_text(archive: &Vec<u8>, member: &str) -> (r: Result<String, String>)
    ensures
        (match r {
            Ok(t) => zip_text_of(archive@, member@) == Ok::<Seq<char>, Seq<char>>(t@),
            Err(m) => zip_text_of(archive@, member@) == Err::<Seq<char>, Seq<char>>(m@),
        }),
{
    let cur = std::io::Cursor::new(archive.as_slice());
    let mut arch = zip::ZipArchive::new(cur).map_err(|e| format!("{}", e))?;
    let mut file = arch.by_name(member).map_err(|e| format!("{}", e))?;
    let mut s = String::new();
    std::io::Read::read_to_string(&mut file, &mut s).map_err(|e| format!("{}", e))?;
    Ok(s)
}

/// What the document-model decode of a DOCX package yields: per body
/// paragraph, the text fragments of its runs in order; `None` when the
/// decode fails.
pub uninterp spec fn docx_outcome_of(b: Seq<u8>) -> Option<Seq<Seq<Seq<char>>>>;

/// Relies on docx_rs::read_docx: decoding the whole package is a function of
/// the bytes alone, and this hands back, per body paragraph, the text
/// fragments of its runs in order. On an archive whose members carry corrupt
/// compressed data the decoder aborts instead of returning; a caller that
/// must not abort catches the unwind (the library's own functions never
/// raise one).
#[verifier::external_body]
pub fn docx_paragraph_fragments(b: &Vec<u8>) -> (r: Option<Vec<Vec<String>>>)
    ensures
        (match r {
            Some(ps) => docx_outcome_of(b@) == Some(
                ps@.map_values(|p: Vec<String>| p@.map_values(|f: String| f@)),
            ),
            None => docx_outcome_of(b@) is None,
        }),
{
    let frags = |r: &docx_rs::Run| r.children.iter().filter_map(|rc| match rc {
        docx_rs::RunChild::Text(t) => Some(t.text.clone()),
        _ => None,
    }).collect::<Vec<String>>();
    let para = |p: &docx_rs::Paragraph| p.children.iter().flat_map(|pc| match pc {
        docx_rs::ParagraphChild::Run(r) => frags(r),
        _ => Vec::new(),
    }).collect::<Vec<String>>();
    docx_rs::read_docx(b.as_slice()).ok().map(|d| d.document.children.iter().filter_map(
        |c| match c {
            docx_rs::DocumentChild::Paragraph(p) => Some(para(p)),
            _ => None,
        },
    ).collect())
}

/// The markup events of one XML text, one value per event, through the
/// first end-of-stream or failure event.
pub uninterp spec fn events_of(xml: Seq<char>) -> Seq<RawEvent>;

/// Relies on quick_xml::Reader::from_str, Config::trim_text,
/// Reader::read_event and escape::unescape: the reader walks the text with
/// whitespace trimming on, yields errors rather than aborting, and its
/// event sequence is a function of the text alone; an unescape failure
/// yields the empty text.
#[verifier::external_body]
pub fn xml_events(xml: &str) -> (r: Vec<RawEvent>)
    ensures
        r@ == events_of(xml@),
{
    let mut rd = quick_xml::Reader::from_str(xml);
    rd.config_mut().trim_text(true);
    let mut out = Vec::new();
    loop {
        match rd.read_event() {
            Ok(XS(s)) => out.push(Start(s.name().as_ref().to_owned())),
            Ok(XE(s)) => out.push(End(s.name().as_ref().to_owned())),
            Ok(XT(t)) => out.push(Text(unescape(&t).unwrap_or_default().into_owned())),
            Ok(XEof) => { out.push(Eof); return out; },
            Ok(_) => out.push(Other),
            Err(er) => { out.push(Failed(er.to_string())); return out; },
        }
    }
}

} // verus!
