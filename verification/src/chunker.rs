//! Text chunking: whole-line chunks, or a fixed-size sliding window over
//! grapheme clusters with configurable overlap, so that no user-perceived
//! character is ever split.

use vstd::prelude::*;
use crate::text::{has_visible, line_has_visible, lines_of, split_lines};
use crate::trusted::{chars_to_string, grapheme_clusters, graphemes_of, str_to_chars};

verus! {

/// The closed choice of chunking strategies.
#[derive(Debug, Clone, Copy)]
pub enum ChunkingStrategy {
    ByLine(),
    RecursiveCharacter { chunk_size: usize, overlap: usize },
}

/// A window configuration must make progress: a positive window size and an
/// overlap strictly smaller than it; otherwise the window would never
/// advance.
pub open spec fn strategy_valid(s: ChunkingStrategy) -> bool {
    match s {
        ChunkingStrategy::ByLine() => true,
        ChunkingStrategy::RecursiveCharacter { chunk_size, overlap } => chunk_size >= 1 && overlap
            < chunk_size,
    }
}

/// Line chunks: the lines of the text that have a visible character, kept
/// untrimmed.
pub open spec fn line_chunks(text: Seq<char>) -> Seq<Seq<char>> {
    lines_of(text).filter(|l: Seq<char>| has_visible(l))
}

/// The window chunks from `start` on: each chunk concatenates `size`
/// clusters (clamped at the end), and the window advances by `step` until a
/// chunk reaches the end.
pub open spec fn windows_from(gs: Seq<Seq<char>>, size: int, step: int, start: int) -> Seq<
    Seq<char>,
>
    decreases gs.len() - start,
    when 0 <= start < gs.len() && step >= 1 && size >= step
{
    let end = if gs.len() - start > size {
        start + size
    } else {
        gs.len() as int
    };
    let chunk = gs.subrange(start, end).flatten();
    if end == gs.len() {
        seq![chunk]
    } else {
        seq![chunk] + windows_from(gs, size, step, start + step)
    }
}

/// The chunks of the window strategy over clusters `gs`: the whole text as
/// one chunk when it fits, else the sliding windows.
pub open spec fn rc_chunks(gs: Seq<Seq<char>>, size: int, overlap: int) -> Seq<Seq<char>> {
    if gs.len() <= size {
        seq![gs.flatten()]
    } else {
        windows_from(gs, size, size - overlap, 0)
    }
}

/// What `chunk_text` returns for each strategy.
pub open spec fn chunks_spec(text: Seq<char>, s: ChunkingStrategy) -> Seq<Seq<char>> {
    match s {
        ChunkingStrategy::ByLine() => line_chunks(text),
        ChunkingStrategy::RecursiveCharacter { chunk_size, overlap } => rc_chunks(
            graphemes_of(text),
            chunk_size as int,
            overlap as int,
        ),
    }
}

proof fn lemma_windows_count(gs: Seq<Seq<char>>, size: int, step: int, start: int)
    requires
        0 <= start < gs.len(),
        1 <= step <= size,
    ensures
        windows_from(gs, size, step, start).len() <= gs.len() - start,
    decreases gs.len() - start,
{
    let end = if gs.len() - start > size {
        start + size
    } else {
        gs.len() as int
    };
    if end != gs.len() {
        lemma_windows_count(gs, size, step, start + step);
    }
}

proof fn lemma_flatten_count(gs: Seq<Seq<char>>)
    requires
        forall|i: int| 0 <= i < gs.len() ==> gs[i].len() >= 1,
    ensures
        gs.flatten().len() >= gs.len(),
    decreases gs.len(),
{
    if gs.len() > 0 {
        assert forall|j: int| 0 <= j < gs.drop_first().len() implies gs.drop_first()[j].len()
            >= 1 by {
            assert(gs.drop_first()[j] == gs[j + 1]);
        }
        lemma_flatten_count(gs.drop_first());
        assert(gs.flatten() == gs.first() + gs.drop_first().flatten());
    }
}

/// A text of `n` characters has at most `n + 1` visible lines.
pub proof fn lemma_line_chunks_count(text: Seq<char>)
    ensures
        line_chunks(text).len() <= text.len() + 1,
{
    crate::text::lemma_split_on_len(text, '\n');
    let lines = lines_of(text);
    assert(lines.len() <= text.len() + 1);
    lines.lemma_filter_len(|l: Seq<char>| has_visible(l));
}

fn by_line_split(text: &str) -> (r: Vec<String>)
    ensures
        r@.map_values(|c: String| c@) == line_chunks(text@),
{
    let tc = str_to_chars(text);
    let lines = split_lines(&tc);
    let ghost lv = lines_of(text@);
    let mut r: Vec<String> = Vec::new();
    let mut i: usize = 0;
    proof {
        reveal(Seq::filter);
        assert(lv.take(0) =~= Seq::<Seq<char>>::empty());
    }
    while i < lines.len()
        invariant
            0 <= i <= lines@.len(),
            lines@.map_values(|v: Vec<char>| v@) == lv,
            lv == lines_of(text@),
            r@.map_values(|c: String| c@) == lv.take(i as int).filter(
                |l: Seq<char>| has_visible(l),
            ),
        decreases lines@.len() - i,
    {
        proof {
            broadcast use vstd::seq::Seq::lemma_filter_push;

            assert(lines@[i as int]@ == lv[i as int]);
            assert(lv.take(i + 1) =~= lv.take(i as int).push(lv[i as int]));
        }
        if line_has_visible(&lines[i]) {
            let s = chars_to_string(&lines[i]);
            r.push(s);
            proof {
                assert(r@.map_values(|c: String| c@) =~= lv.take(i + 1).filter(
                    |l: Seq<char>| has_visible(l),
                ));
            }
        }
        i = i + 1;
    }
    proof {
        assert(lv.take(lv.len() as int) =~= lv);
    }
    r
}

fn recursive_character_split(text: &str, chunk_size: usize, overlap: usize) -> (r: Vec<String>)
    requires
        chunk_size >= 1,
        overlap < chunk_size,
    ensures
        r@.map_values(|c: String| c@) == rc_chunks(
            graphemes_of(text@),
            chunk_size as int,
            overlap as int,
        ),
        r@.len() <= text@.len() + 1,
{
    let gs = grapheme_clusters(text);
    let ghost gv = graphemes_of(text@);
    if gs.len() <= chunk_size {
        let mut r: Vec<String> = Vec::new();
        r.push(text.to_owned());
        proof {
            assert(r@.map_values(|c: String| c@) =~= seq![gv.flatten()]);
        }
        return r;
    }
    let step = chunk_size - overlap;
    let mut chunks: Vec<String> = Vec::new();
    let mut start: usize = 0;
    loop
        invariant_except_break
            gs@.map_values(|g: String| g@) == gv,
            gv == graphemes_of(text@),
            gv.len() > chunk_size,
            1 <= step <= chunk_size,
            step == chunk_size - overlap,
            0 <= start < gv.len(),
            windows_from(gv, chunk_size as int, step as int, 0) == chunks@.map_values(
                |c: String| c@,
            ) + windows_from(gv, chunk_size as int, step as int, start as int),
        ensures
            chunks@.map_values(|c: String| c@) == windows_from(
                gv,
                chunk_size as int,
                step as int,
                0,
            ),
        decreases gv.len() - start,
    {
        let end = if gs.len() - start > chunk_size {
            start + chunk_size
        } else {
            gs.len()
        };
        let mut acc: Vec<char> = Vec::new();
        let mut j: usize = start;
        proof {
            assert(gv.subrange(start as int, start as int) =~= Seq::<Seq<char>>::empty());
            assert(acc@ =~= gv.subrange(start as int, start as int).flatten());
        }
        while j < end
            invariant
                gs@.map_values(|g: String| g@) == gv,
                start <= j <= end <= gv.len(),
                acc@ == gv.subrange(start as int, j as int).flatten(),
            decreases end - j,
        {
            let mut fc = str_to_chars(gs[j].as_str());
            proof {
                broadcast use vstd::seq::Seq::lemma_flatten_push;

                assert(gs@[j as int]@ == gv[j as int]);
                assert(gv.subrange(start as int, j + 1) =~= gv.subrange(
                    start as int,
                    j as int,
                ).push(gv[j as int]));
            }
            acc.append(&mut fc);
            j = j + 1;
        }
        let chunk = chars_to_string(&acc);
        let ghost pre_chunks = chunks@.map_values(|c: String| c@);
        chunks.push(chunk);
        proof {
            let w = windows_from(gv, chunk_size as int, step as int, start as int);
            assert(w == seq![acc@] + if end == gs.len() {
                Seq::<Seq<char>>::empty()
            } else {
                windows_from(gv, chunk_size as int, step as int, start + step)
            });
            assert(chunks@.map_values(|c: String| c@) =~= pre_chunks.push(acc@));
        }
        if end == gs.len() {
            proof {
                let w = windows_from(gv, chunk_size as int, step as int, start as int);
                assert(w =~= seq![acc@]);
                assert(chunks@.map_values(|c: String| c@) =~= windows_from(
                    gv,
                    chunk_size as int,
                    step as int,
                    0,
                ));
            }
            break ;
        }
        proof {
            assert(pre_chunks.push(acc@) + windows_from(
                gv,
                chunk_size as int,
                step as int,
                start + step,
            ) =~= pre_chunks + windows_from(gv, chunk_size as int, step as int, start as int));
        }
        start = start + step;
    }
    proof {
        assert forall|i: int| 0 <= i < gv.len() implies gv[i].len() >= 1 by {
            assert(gv[i] == gs@[i]@);
        }
        lemma_flatten_count(gv);
        lemma_windows_count(gv, chunk_size as int, step as int, 0);
        assert(gv.flatten() == text@);
    }
    chunks
}

/// Splits `text` into ordered chunks under the chosen strategy: the visible
/// lines, or sliding grapheme windows of `chunk_size` clusters advancing by
/// `chunk_size - overlap`.
pub fn chunk_text(text: &str, strategy: &ChunkingStrategy) -> (r: Vec<String>)
    requires
        strategy_valid(*strategy),
    ensures
        r@.map_values(|c: String| c@) == chunks_spec(text@, *strategy),
        r@.len() <= text@.len() + 1,
{
    match strategy {
        ChunkingStrategy::ByLine() => {
            let r = by_line_split(text);
            proof {
                lemma_line_chunks_count(text@);
            }
            r
        },
        ChunkingStrategy::RecursiveCharacter { chunk_size, overlap } => recursive_character_split(
            text,
            *chunk_size,
            *overlap,
        ),
    }
}

} // verus!
