//! DOCX extraction. A fast tier reads the body-markup member straight out of
//! the archive and linearizes paragraphs and tables from its event stream; on
//! any failure a slower document-model tier takes over. Only the slow tier's
//! failure is ever surfaced.

use vstd::prelude::*;
use crate::errors::BlitzParseError;
use crate::text::{join_lines, join_nl, lines_of, split_lines, trim_chars, trim_spec};
use crate::trusted::{
    chars_to_string, docx_outcome_of, docx_paragraph_fragments, events_of, str_to_chars,
    xml_events, zip_member_text, zip_text_of,
};

verus! {

/// One event of the body-markup stream, reduced to plain values: an element
/// start or end with its name, unescaped text, end of stream, a
/// well-formedness failure with its message, or anything else.
#[derive(Debug)]
pub enum RawEvent {
    Start(String),
    End(String),
    Text(String),
    Eof,
    Failed(String),
    Other,
}

/// The scan state: which structural elements are open, and the text emitted
/// so far.
pub ghost struct ScanSt {
    pub in_paragraph: bool,
    pub in_table: bool,
    pub in_row: bool,
    pub in_cell: bool,
    pub out: Seq<char>,
}

pub open spec fn scan_init() -> ScanSt {
    ScanSt {
        in_paragraph: false,
        in_table: false,
        in_row: false,
        in_cell: false,
        out: Seq::empty(),
    }
}

/// How one event moves the scan: paragraphs emit a newline at their end
/// (suppressed inside a table), tables are separated by newlines, rows open
/// with `|` and close with `|` and a newline, cells open with a space and
/// close with a space and `|`, and text is appended with a trailing space.
pub open spec fn scan_step(st: ScanSt, e: RawEvent) -> ScanSt {
    match e {
        RawEvent::Start(n) => {
            if n@ == "w:p"@ {
                ScanSt { in_paragraph: true, ..st }
            } else if n@ == "w:tbl"@ {
                ScanSt { in_table: true, out: st.out.push('\n'), ..st }
            } else if n@ == "w:tr"@ {
                ScanSt { in_row: true, out: st.out.push('|'), ..st }
            } else if n@ == "w:tc"@ {
                ScanSt { in_cell: true, out: st.out.push(' '), ..st }
            } else {
                st
            }
        },
        RawEvent::End(n) => {
            if n@ == "w:p"@ {
                ScanSt {
                    in_paragraph: false,
                    out: if st.in_paragraph && !st.in_table {
                        st.out.push('\n')
                    } else {
                        st.out
                    },
                    ..st
                }
            } else if n@ == "w:tbl"@ {
                ScanSt { in_table: false, out: st.out.push('\n'), ..st }
            } else if n@ == "w:tr"@ {
                ScanSt {
                    in_row: false,
                    out: if st.in_row {
                        st.out + seq!['|', '\n']
                    } else {
                        st.out
                    },
                    ..st
                }
            } else if n@ == "w:tc"@ {
                ScanSt {
                    in_cell: false,
                    out: if st.in_cell {
                        st.out + seq![' ', '|']
                    } else {
                        st.out
                    },
                    ..st
                }
            } else {
                st
            }
        },
        RawEvent::Text(t) => ScanSt { out: st.out + t@ + seq![' '], ..st },
        RawEvent::Eof => st,
        RawEvent::Failed(_) => st,
        RawEvent::Other => st,
    }
}

/// The outcome of scanning `events` from state `st`: the emitted text up to
/// the first end-of-stream, or the message of the first failure event.
pub open spec fn scan_result(st: ScanSt, events: Seq<RawEvent>) -> Result<Seq<char>, Seq<char>>
    decreases events.len(),
{
    if events.len() == 0 {
        Ok(st.out)
    } else {
        match events[0] {
            RawEvent::Eof => Ok(st.out),
            RawEvent::Failed(m) => Err(m@),
            _ => scan_result(scan_step(st, events[0]), events.drop_first()),
        }
    }
}

/// Runs the table/paragraph linearization over a ready event stream. The
/// result is exactly what `scan_result` says of those events.
pub fn scan_events(events: &Vec<RawEvent>) -> (r: Result<Vec<char>, String>)
    ensures
        ({
            let sr = scan_result(scan_init(), events@);
            match r {
                Ok(v) => sr == Ok::<Seq<char>, Seq<char>>(v@),
                Err(m) => sr == Err::<Seq<char>, Seq<char>>(m@),
            }
        }),
{
    let wp: String = "w:p".to_owned();
    let wtbl: String = "w:tbl".to_owned();
    let wtr: String = "w:tr".to_owned();
    let wtc: String = "w:tc".to_owned();
    let mut in_paragraph = false;
    let mut in_table = false;
    let mut in_row = false;
    let mut in_cell = false;
    let mut out: Vec<char> = Vec::new();
    let mut i: usize = 0;
    proof {
        assert(out@ =~= Seq::<char>::empty());
        assert(ScanSt { in_paragraph, in_table, in_row, in_cell, out: out@ } == scan_init());
        assert(events@.skip(0) =~= events@);
    }
    while i < events.len()
        invariant
            0 <= i <= events@.len(),
            wp@ == "w:p"@ && wtbl@ == "w:tbl"@ && wtr@ == "w:tr"@ && wtc@ == "w:tc"@,
            scan_result(scan_init(), events@) == scan_result(
                ScanSt { in_paragraph, in_table, in_row, in_cell, out: out@ },
                events@.skip(i as int),
            ),
        decreases events@.len() - i,
    {
        let ghost pre = ScanSt { in_paragraph, in_table, in_row, in_cell, out: out@ };
        proof {
            let rem = events@.skip(i as int);
            assert(rem[0] == events@[i as int]);
            assert(rem.drop_first() =~= events@.skip(i + 1));
        }
        match &events[i] {
            RawEvent::Start(n) => {
                if *n == wp {
                    in_paragraph = true;
                } else if *n == wtbl {
                    in_table = true;
                    out.push('\n');
                } else if *n == wtr {
                    in_row = true;
                    out.push('|');
                } else if *n == wtc {
                    in_cell = true;
                    out.push(' ');
                }
            },
            RawEvent::End(n) => {
                if *n == wp {
                    if in_paragraph && !in_table {
                        out.push('\n');
                    }
                    in_paragraph = false;
                } else if *n == wtbl {
                    in_table = false;
                    out.push('\n');
                } else if *n == wtr {
                    if in_row {
                        out.push('|');
                        out.push('\n');
                    }
                    in_row = false;
                } else if *n == wtc {
                    if in_cell {
                        out.push(' ');
                        out.push('|');
                    }
                    in_cell = false;
                }
            },
            RawEvent::Text(t) => {
                let mut tc = str_to_chars(t.as_str());
                out.append(&mut tc);
                out.push(' ');
            },
            RawEvent::Eof => {
                return Ok(out);
            },
            RawEvent::Failed(m) => {
                return Err(m.clone());
            },
            RawEvent::Other => {},
        }
        proof {
            let ev = events@[i as int];
            let cur = ScanSt { in_paragraph, in_table, in_row, in_cell, out: out@ };
            assert(cur.out =~= scan_step(pre, ev).out);
            assert(cur == scan_step(pre, events@[i as int]));
        }
        i = i + 1;
    }
    proof {
        assert(events@.skip(events@.len() as int) =~= Seq::<RawEvent>::empty());
    }
    Ok(out)
}

/// The final normalization of fast-tier output: lines trimmed, empty lines
/// dropped, the rest rejoined with single newlines.
pub open spec fn normalize_spec(s: Seq<char>) -> Seq<char> {
    join_nl(lines_of(s).map_values(|l: Seq<char>| trim_spec(l)).filter(|l: Seq<char>| l.len() != 0))
}

pub fn normalize_text(raw: &Vec<char>) -> (r: Vec<char>)
    ensures
        r@ == normalize_spec(raw@),
{
    let lines = split_lines(raw);
    let ghost mapped = lines_of(raw@).map_values(|l: Seq<char>| trim_spec(l));
    let mut kept: Vec<Vec<char>> = Vec::new();
    let mut i: usize = 0;
    proof {
        broadcast use vstd::seq::Seq::lemma_filter_push;

        assert(lines@.map_values(|v: Vec<char>| v@) == lines_of(raw@));
        assert(mapped.take(0) =~= Seq::<Seq<char>>::empty());
        reveal(Seq::filter);
    }
    while i < lines.len()
        invariant
            0 <= i <= lines@.len(),
            lines@.map_values(|v: Vec<char>| v@) == lines_of(raw@),
            mapped == lines_of(raw@).map_values(|l: Seq<char>| trim_spec(l)),
            kept@.map_values(|v: Vec<char>| v@) == mapped.take(i as int).filter(
                |l: Seq<char>| l.len() != 0,
            ),
        decreases lines@.len() - i,
    {
        let t = trim_chars(&lines[i]);
        proof {
            broadcast use vstd::seq::Seq::lemma_filter_push;

            assert(t@ == mapped[i as int]);
            assert(mapped.take(i + 1) =~= mapped.take(i as int).push(mapped[i as int]));
        }
        if t.len() > 0 {
            kept.push(t);
            proof {
                assert(kept@.map_values(|v: Vec<char>| v@) =~= mapped.take(i + 1).filter(
                    |l: Seq<char>| l.len() != 0,
                ));
            }
        }
        i = i + 1;
    }
    proof {
        assert(mapped.take(mapped.len() as int) =~= mapped);
    }
    join_lines(&kept)
}

/// Runs the fast tier over one body-markup text: scans its event stream and
/// normalizes the linearized output. The result is pinned by the text
/// alone: the normalized scan of its events on success, and a `Docx` error
/// carrying `XML error: ` and the failure event's message otherwise.
pub fn extract_text_from_xml(xml: &str) -> (r: Result<String, BlitzParseError>)
    ensures
        (match r {
            Ok(t) => scan_result(scan_init(), events_of(xml@)) matches Ok(raw) && t@
                == normalize_spec(raw),
            Err(e) => scan_result(scan_init(), events_of(xml@)) matches Err(m) && (e matches
                BlitzParseError::Docx(em) && em@ == "XML error: "@ + m),
        }),
{
    let events = xml_events(xml);
    match scan_events(&events) {
        Ok(raw) => {
            let norm = normalize_text(&raw);
            let s = chars_to_string(&norm);
            proof {
                assert(s@ == normalize_spec(raw@));
            }
            Ok(s)
        },
        Err(m) => {
            let mut msg = str_to_chars("XML error: ");
            let mut mc = str_to_chars(m.as_str());
            msg.append(&mut mc);
            Err(BlitzParseError::Docx(chars_to_string(&msg)))
        },
    }
}

/// What the fallback tier renders from the decoded paragraphs: each
/// paragraph's fragments concatenated, empty paragraphs dropped, the rest
/// joined with single newlines and no trailing newline.
pub open spec fn fallback_spec(ps: Seq<Seq<Seq<char>>>) -> Seq<char> {
    join_nl(ps.map_values(|p: Seq<Seq<char>>| p.flatten()).filter(|p: Seq<char>| p.len() != 0))
}

/// The fallback tier's rendering, verified for every decoded paragraph list.
#[verifier::rlimit(60)]
pub fn fallback_text(paragraphs: &Vec<Vec<String>>) -> (r: String)
    ensures
        r@ == fallback_spec(
            paragraphs@.map_values(|p: Vec<String>| p@.map_values(|f: String| f@)),
        ),
{
    let ghost ps = paragraphs@.map_values(|p: Vec<String>| p@.map_values(|f: String| f@));
    let ghost texts = ps.map_values(|p: Seq<Seq<char>>| p.flatten());
    let mut kept: Vec<Vec<char>> = Vec::new();
    let mut i: usize = 0;
    proof {
        reveal(Seq::filter);
        assert(texts.take(0) =~= Seq::<Seq<char>>::empty());
    }
    while i < paragraphs.len()
        invariant
            0 <= i <= paragraphs@.len(),
            ps == paragraphs@.map_values(|p: Vec<String>| p@.map_values(|f: String| f@)),
            texts == ps.map_values(|p: Seq<Seq<char>>| p.flatten()),
            kept@.map_values(|v: Vec<char>| v@) == texts.take(i as int).filter(
                |p: Seq<char>| p.len() != 0,
            ),
        decreases paragraphs@.len() - i,
    {
        let para = &paragraphs[i];
        let ghost pv = para@.map_values(|f: String| f@);
        let mut acc: Vec<char> = Vec::new();
        let mut j: usize = 0;
        proof {
            broadcast use vstd::seq::Seq::lemma_flatten_push;

            assert(pv.take(0) =~= Seq::<Seq<char>>::empty());
            assert(acc@ =~= pv.take(0).flatten());
        }
        while j < para.len()
            invariant
                0 <= j <= para@.len(),
                pv == para@.map_values(|f: String| f@),
                acc@ == pv.take(j as int).flatten(),
            decreases para@.len() - j,
        {
            let mut fc = str_to_chars(para[j].as_str());
            proof {
                broadcast use vstd::seq::Seq::lemma_flatten_push;

                assert(pv.take(j + 1) =~= pv.take(j as int).push(pv[j as int]));
            }
            acc.append(&mut fc);
            j = j + 1;
        }
        proof {
            broadcast use vstd::seq::Seq::lemma_filter_push;

            assert(pv.take(pv.len() as int) =~= pv);
            assert(acc@ == texts[i as int]);
            assert(texts.take(i + 1) =~= texts.take(i as int).push(texts[i as int]));
        }
        if acc.len() > 0 {
            kept.push(acc);
            proof {
                assert(kept@.map_values(|v: Vec<char>| v@) =~= texts.take(i + 1).filter(
                    |p: Seq<char>| p.len() != 0,
                ));
            }
        }
        i = i + 1;
    }
    proof {
        assert(texts.take(texts.len() as int) =~= texts);
    }
    let joined = join_lines(&kept);
    chars_to_string(&joined)
}

/// What the fast tier yields for these bytes: the normalized scan of the
/// body-markup member's events, or nothing when the member cannot be read
/// as text or its markup is malformed.
pub open spec fn fast_tier_result(bytes: Seq<u8>) -> Option<Seq<char>> {
    match zip_text_of(bytes, "word/document.xml"@) {
        Ok(xml) => match scan_result(scan_init(), events_of(xml)) {
            Ok(raw) => Some(normalize_spec(raw)),
            Err(_) => None,
        },
        Err(_) => None,
    }
}

/// DOCX extraction over raw bytes: exactly the fast tier's text when that
/// tier succeeds; exactly the fallback rendering when the fast tier fails
/// but the document-model decode succeeds; an error — always the same
/// `Docx` error, never the fast tier's — exactly when both tiers fail.
pub fn parse_docx(bytes: &Vec<u8>) -> (r: Result<String, BlitzParseError>)
    ensures
        (match r {
            Ok(t) => fast_tier_result(bytes@) == Some(t@) || (fast_tier_result(bytes@) is None
                && (docx_outcome_of(bytes@) matches Some(ps) && t@ == fallback_spec(ps))),
            Err(e) => fast_tier_result(bytes@) is None && docx_outcome_of(bytes@) is None && (
            e matches BlitzParseError::Docx(m) && m@ == "Failed to read DOCX file"@),
        }),
{
    let fast = match zip_member_text(bytes, "word/document.xml") {
        Ok(xml) => extract_text_from_xml(xml.as_str()),
        Err(m) => Err(BlitzParseError::Docx(m)),
    };
    match fast {
        Ok(t) => Ok(t),
        Err(_) => match docx_paragraph_fragments(bytes) {
            Some(ps) => Ok(fallback_text(&ps)),
            None => Err(BlitzParseError::Docx("Failed to read DOCX file".to_owned())),
        },
    }
}

} // verus!
