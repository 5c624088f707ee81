//! The graph builder: a mutable accumulator that turns documents (metadata
//! plus chunked content) into one growing knowledge graph. It keeps a global
//! id counter and a canonicalization table from `(label, name)` to the id of
//! the one entity node standing for that pair, across all documents it sees.

use vstd::prelude::*;
use crate::chunker::{chunk_text, chunks_spec, strategy_valid, ChunkingStrategy};
use crate::models::{props_view, Edge, EdgeV, KnowledgeGraph, Node, NodeV};
use crate::text::{dec_str, split_chars, split_on, trim_chars, trim_spec, u64_to_dec_chars};
use crate::trusted::{chars_to_string, str_to_chars, to_upper, upper_of};

verus! {

/// A key's node label: its first character upper-cased (by the full case
/// mapping), the rest kept as written.
pub open spec fn label_of(key: Seq<char>) -> Seq<char> {
    if key.len() == 0 {
        key
    } else {
        upper_of(seq![key[0]]) + key.drop_first()
    }
}

/// The builder's whole state: the graph grown so far, the id counter, and
/// the canonicalization table in insertion order.
pub ghost struct BuilderV {
    pub nodes: Seq<NodeV>,
    pub edges: Seq<EdgeV>,
    pub next_id: int,
    pub canon: Seq<((Seq<char>, Seq<char>), Seq<char>)>,
}

/// The id handed out for the `n`-th allocation: `blitz-` followed by `n` in
/// decimal.
pub open spec fn id_str(n: int) -> Seq<char> {
    seq!['b', 'l', 'i', 't', 'z', '-'] + dec_str(n)
}

/// The id recorded for `(label, name)`, first entry first, if any.
pub open spec fn canon_find(
    canon: Seq<((Seq<char>, Seq<char>), Seq<char>)>,
    label: Seq<char>,
    name: Seq<char>,
) -> Option<Seq<char>>
    decreases canon.len(),
{
    if canon.len() == 0 {
        None
    } else if canon[0].0 == (label, name) {
        Some(canon[0].1)
    } else {
        canon_find(canon.drop_first(), label, name)
    }
}

/// Resolving or creating the canonical entity node for `(label, name)`: an
/// existing pair is reused untouched; a new one allocates the next id and a
/// node with a single `name` property.
pub open spec fn canon_step(st: BuilderV, label: Seq<char>, name: Seq<char>) -> (BuilderV, Seq<
    char,
>) {
    match canon_find(st.canon, label, name) {
        Some(id) => (st, id),
        None => {
            let id = id_str(st.next_id + 1);
            (
                BuilderV {
                    nodes: st.nodes.push(NodeV { id, label, props: seq![("name"@, name)] }),
                    edges: st.edges,
                    next_id: st.next_id + 1,
                    canon: st.canon.push(((label, name), id)),
                },
                id,
            )
        },
    }
}

/// One comma-separated part of a metadata value: trimmed; empty parts do
/// nothing; the rest resolve a canonical node and draw a `HAS_<KEY>` edge
/// from the document.
pub open spec fn part_step(
    st: BuilderV,
    doc_id: Seq<char>,
    key: Seq<char>,
    label: Seq<char>,
    part: Seq<char>,
) -> BuilderV {
    let t = trim_spec(part);
    if t.len() == 0 {
        st
    } else {
        let (st1, ent_id) = canon_step(st, label, t);
        BuilderV {
            edges: st1.edges.push(
                EdgeV {
                    source: doc_id,
                    target: ent_id,
                    label: seq!['H', 'A', 'S', '_'] + upper_of(key),
                    props: Seq::empty(),
                },
            ),
            ..st1
        }
    }
}

pub open spec fn parts_fold(
    st: BuilderV,
    doc_id: Seq<char>,
    key: Seq<char>,
    label: Seq<char>,
    parts: Seq<Seq<char>>,
) -> BuilderV
    decreases parts.len(),
{
    if parts.len() == 0 {
        st
    } else {
        parts_fold(part_step(st, doc_id, key, label, parts[0]), doc_id, key, label,
            parts.drop_first())
    }
}

/// One metadata entry: the reserved keys stay document properties; any other
/// key contributes its comma-separated values as entities.
pub open spec fn entry_step(st: BuilderV, doc_id: Seq<char>, key: Seq<char>, value: Seq<char>) -> BuilderV {
    if key == "title"@ || key == "path"@ {
        st
    } else {
        parts_fold(st, doc_id, key, label_of(key), split_on(value, ','))
    }
}

pub open spec fn meta_fold(
    st: BuilderV,
    doc_id: Seq<char>,
    entries: Seq<(Seq<char>, Seq<char>)>,
) -> BuilderV
    decreases entries.len(),
{
    if entries.len() == 0 {
        st
    } else {
        meta_fold(entry_step(st, doc_id, entries[0].0, entries[0].1), doc_id, entries.drop_first())
    }
}

/// One content chunk: a fresh `Chunk` node carrying the text, and a
/// `CONTAINS` edge from the document.
pub open spec fn chunk_step(st: BuilderV, doc_id: Seq<char>, chunk: Seq<char>) -> BuilderV {
    let id = id_str(st.next_id + 1);
    BuilderV {
        nodes: st.nodes.push(NodeV { id, label: "Chunk"@, props: seq![("text"@, chunk)] }),
        edges: st.edges.push(
            EdgeV { source: doc_id, target: id, label: "CONTAINS"@, props: Seq::empty() },
        ),
        next_id: st.next_id + 1,
        canon: st.canon,
    }
}

pub open spec fn chunks_fold(st: BuilderV, doc_id: Seq<char>, chunks: Seq<Seq<char>>) -> BuilderV
    decreases chunks.len(),
{
    if chunks.len() == 0 {
        st
    } else {
        chunks_fold(chunk_step(st, doc_id, chunks[0]), doc_id, chunks.drop_first())
    }
}

/// The whole per-document algorithm: a `Document` node carrying the metadata
/// verbatim, then the metadata-derived entities and their edges in entry
/// order, then the chunk nodes in chunk order.
pub open spec fn with_doc_spec(
    st: BuilderV,
    metadata: Seq<(Seq<char>, Seq<char>)>,
    content: Seq<char>,
    strategy: ChunkingStrategy,
) -> BuilderV {
    let doc_id = id_str(st.next_id + 1);
    let st1 = BuilderV {
        nodes: st.nodes.push(NodeV { id: doc_id, label: "Document"@, props: metadata }),
        next_id: st.next_id + 1,
        ..st
    };
    let st2 = meta_fold(st1, doc_id, metadata);
    chunks_fold(st2, doc_id, chunks_spec(content, strategy))
}

/// An upper bound on how many ids one document's metadata can consume: one
/// per comma-separated part, at most the value's length plus one per entry.
pub open spec fn meta_weight(entries: Seq<(Seq<char>, Seq<char>)>) -> int
    decreases entries.len(),
{
    if entries.len() == 0 {
        0
    } else {
        entries[0].1.len() + 1 + meta_weight(entries.drop_first())
    }
}

proof fn lemma_meta_weight_nonneg(entries: Seq<(Seq<char>, Seq<char>)>)
    ensures
        meta_weight(entries) >= 0,
    decreases entries.len(),
{
    if entries.len() > 0 {
        lemma_meta_weight_nonneg(entries.drop_first());
    }
}

proof fn lemma_meta_weight_snoc(entries: Seq<(Seq<char>, Seq<char>)>, e: (Seq<char>, Seq<char>))
    ensures
        meta_weight(entries.push(e)) == meta_weight(entries) + e.1.len() + 1,
    decreases entries.len(),
{
    if entries.len() == 0 {
        assert(entries.push(e).len() == 1);
        assert(entries.push(e)[0] == e);
        let d = entries.push(e).drop_first();
        assert(d =~= Seq::<(Seq<char>, Seq<char>)>::empty());
        assert(meta_weight(d) == 0);
        assert(meta_weight(entries.push(e)) == e.1.len() + 1 + meta_weight(d));
        assert(meta_weight(entries) == 0);
    } else {
        assert(entries.push(e).drop_first() =~= entries.drop_first().push(e));
        lemma_meta_weight_snoc(entries.drop_first(), e);
    }
}

proof fn lemma_meta_weight_prefix(entries: Seq<(Seq<char>, Seq<char>)>, i: int)
    requires
        0 <= i <= entries.len(),
    ensures
        meta_weight(entries.take(i)) <= meta_weight(entries),
    decreases entries.len() - i,
{
    if i < entries.len() {
        assert(entries.take(i + 1) =~= entries.take(i).push(entries[i]));
        lemma_meta_weight_snoc(entries.take(i), entries[i]);
        lemma_meta_weight_prefix(entries, i + 1);
    } else {
        assert(entries.take(i) =~= entries);
    }
}

proof fn lemma_parts_fold_snoc(
    st: BuilderV,
    doc_id: Seq<char>,
    key: Seq<char>,
    label: Seq<char>,
    parts: Seq<Seq<char>>,
    p: Seq<char>,
)
    ensures
        parts_fold(st, doc_id, key, label, parts.push(p)) == part_step(
            parts_fold(st, doc_id, key, label, parts),
            doc_id,
            key,
            label,
            p,
        ),
    decreases parts.len(),
{
    let whole = parts.push(p);
    if parts.len() == 0 {
        assert(whole[0] == p);
        let d = whole.drop_first();
        assert(d =~= Seq::<Seq<char>>::empty());
        assert(parts_fold(st, doc_id, key, label, whole) == parts_fold(
            part_step(st, doc_id, key, label, p),
            doc_id,
            key,
            label,
            d,
        ));
        assert(parts_fold(part_step(st, doc_id, key, label, p), doc_id, key, label, d)
            == part_step(st, doc_id, key, label, p));
        assert(parts_fold(st, doc_id, key, label, parts) == st);
    } else {
        assert(whole[0] == parts[0]);
        let d = whole.drop_first();
        assert(d =~= parts.drop_first().push(p));
        let st1 = part_step(st, doc_id, key, label, parts[0]);
        assert(parts_fold(st, doc_id, key, label, whole) == parts_fold(st1, doc_id, key, label, d));
        lemma_parts_fold_snoc(st1, doc_id, key, label, parts.drop_first(), p);
        assert(parts_fold(st, doc_id, key, label, parts) == parts_fold(st1, doc_id, key, label,
            parts.drop_first()));
    }
}

proof fn lemma_meta_fold_snoc(
    st: BuilderV,
    doc_id: Seq<char>,
    entries: Seq<(Seq<char>, Seq<char>)>,
    e: (Seq<char>, Seq<char>),
)
    ensures
        meta_fold(st, doc_id, entries.push(e)) == entry_step(
            meta_fold(st, doc_id, entries),
            doc_id,
            e.0,
            e.1,
        ),
    decreases entries.len(),
{
    let whole = entries.push(e);
    if entries.len() == 0 {
        assert(whole[0] == e);
        let d = whole.drop_first();
        assert(d =~= Seq::<(Seq<char>, Seq<char>)>::empty());
        assert(meta_fold(st, doc_id, whole) == meta_fold(
            entry_step(st, doc_id, e.0, e.1),
            doc_id,
            d,
        ));
        assert(meta_fold(entry_step(st, doc_id, e.0, e.1), doc_id, d) == entry_step(
            st,
            doc_id,
            e.0,
            e.1,
        ));
        assert(meta_fold(st, doc_id, entries) == st);
    } else {
        assert(whole[0] == entries[0]);
        let d = whole.drop_first();
        assert(d =~= entries.drop_first().push(e));
        let st1 = entry_step(st, doc_id, entries[0].0, entries[0].1);
        assert(meta_fold(st, doc_id, whole) == meta_fold(st1, doc_id, d));
        lemma_meta_fold_snoc(st1, doc_id, entries.drop_first(), e);
        assert(meta_fold(st, doc_id, entries) == meta_fold(st1, doc_id, entries.drop_first()));
    }
}

proof fn lemma_chunks_fold_snoc(st: BuilderV, doc_id: Seq<char>, chunks: Seq<Seq<char>>, c: Seq<
    char,
>)
    ensures
        chunks_fold(st, doc_id, chunks.push(c)) == chunk_step(
            chunks_fold(st, doc_id, chunks),
            doc_id,
            c,
        ),
    decreases chunks.len(),
{
    let whole = chunks.push(c);
    if chunks.len() == 0 {
        assert(whole[0] == c);
        let d = whole.drop_first();
        assert(d =~= Seq::<Seq<char>>::empty());
        assert(chunks_fold(st, doc_id, whole) == chunks_fold(chunk_step(st, doc_id, c), doc_id, d));
        assert(chunks_fold(chunk_step(st, doc_id, c), doc_id, d) == chunk_step(st, doc_id, c));
        assert(chunks_fold(st, doc_id, chunks) == st);
    } else {
        assert(whole[0] == chunks[0]);
        let d = whole.drop_first();
        assert(d =~= chunks.drop_first().push(c));
        let st1 = chunk_step(st, doc_id, chunks[0]);
        assert(chunks_fold(st, doc_id, whole) == chunks_fold(st1, doc_id, d));
        lemma_chunks_fold_snoc(st1, doc_id, chunks.drop_first(), c);
        assert(chunks_fold(st, doc_id, chunks) == chunks_fold(st1, doc_id, chunks.drop_first()));
    }
}

proof fn lemma_chunks_fold_shape(st: BuilderV, doc_id: Seq<char>, chunks: Seq<Seq<char>>)
    ensures
        chunks_fold(st, doc_id, chunks).canon == st.canon,
        chunks_fold(st, doc_id, chunks).next_id == st.next_id + chunks.len(),
        chunks_fold(st, doc_id, chunks).nodes.len() == st.nodes.len() + chunks.len(),
        chunks_fold(st, doc_id, chunks).edges.len() == st.edges.len() + chunks.len(),
        forall|j: int|
            0 <= j < st.edges.len() ==> chunks_fold(st, doc_id, chunks).edges[j] == st.edges[j],
        forall|j: int|
            0 <= j < st.nodes.len() ==> chunks_fold(st, doc_id, chunks).nodes[j] == st.nodes[j],
    decreases chunks.len(),
{
    if chunks.len() > 0 {
        let st1 = chunk_step(st, doc_id, chunks[0]);
        let whole = chunks_fold(st, doc_id, chunks);
        lemma_chunks_fold_shape(st1, doc_id, chunks.drop_first());
        assert(whole == chunks_fold(st1, doc_id, chunks.drop_first()));
        assert forall|j: int| 0 <= j < st.edges.len() implies whole.edges[j] == st.edges[j] by {
            assert(whole.edges[j] == st1.edges[j]);
            assert(st1.edges[j] == st.edges[j]);
        }
        assert forall|j: int| 0 <= j < st.nodes.len() implies whole.nodes[j] == st.nodes[j] by {
            assert(whole.nodes[j] == st1.nodes[j]);
            assert(st1.nodes[j] == st.nodes[j]);
        }
    }
}

proof fn lemma_canon_find_absent_push(
    canon: Seq<((Seq<char>, Seq<char>), Seq<char>)>,
    label: Seq<char>,
    name: Seq<char>,
    id: Seq<char>,
)
    requires
        canon_find(canon, label, name) is None,
    ensures
        canon_find(canon.push(((label, name), id)), label, name) == Some(id),
    decreases canon.len(),
{
    let whole = canon.push(((label, name), id));
    if canon.len() == 0 {
        assert(whole[0] == ((label, name), id));
    } else {
        assert(whole[0] == canon[0]);
        assert(!(canon[0].0 == (label, name)));
        assert(whole.drop_first() =~= canon.drop_first().push(((label, name), id)));
        lemma_canon_find_absent_push(canon.drop_first(), label, name, id);
    }
}

proof fn lemma_canon_find_stable_push(
    canon: Seq<((Seq<char>, Seq<char>), Seq<char>)>,
    entry: ((Seq<char>, Seq<char>), Seq<char>),
    label: Seq<char>,
    name: Seq<char>,
    e: Seq<char>,
)
    requires
        canon_find(canon, label, name) == Some(e),
    ensures
        canon_find(canon.push(entry), label, name) == Some(e),
    decreases canon.len(),
{
    if canon.len() > 0 {
        assert(canon.push(entry)[0] == canon[0]);
        assert(canon.push(entry).drop_first() =~= canon.drop_first().push(entry));
        if !(canon[0].0 == (label, name)) {
            lemma_canon_find_stable_push(canon.drop_first(), entry, label, name, e);
        }
    }
}

proof fn lemma_parts_fold_canon_preserved(
    st: BuilderV,
    doc_id: Seq<char>,
    key: Seq<char>,
    label: Seq<char>,
    parts: Seq<Seq<char>>,
    l: Seq<char>,
    t: Seq<char>,
    e: Seq<char>,
)
    requires
        canon_find(st.canon, l, t) == Some(e),
    ensures
        canon_find(parts_fold(st, doc_id, key, label, parts).canon, l, t) == Some(e),
    decreases parts.len(),
{
    if parts.len() > 0 {
        let st1 = part_step(st, doc_id, key, label, parts[0]);
        let p0 = trim_spec(parts[0]);
        if p0.len() != 0 && canon_find(st.canon, label, p0) is None {
            lemma_canon_find_stable_push(st.canon, ((label, p0), id_str(st.next_id + 1)), l, t,
                e);
        }
        assert(canon_find(st1.canon, l, t) == Some(e));
        lemma_parts_fold_canon_preserved(st1, doc_id, key, label, parts.drop_first(), l, t, e);
    }
}

proof fn lemma_meta_fold_canon_preserved(
    st: BuilderV,
    doc_id: Seq<char>,
    entries: Seq<(Seq<char>, Seq<char>)>,
    l: Seq<char>,
    t: Seq<char>,
    e: Seq<char>,
)
    requires
        canon_find(st.canon, l, t) == Some(e),
    ensures
        canon_find(meta_fold(st, doc_id, entries).canon, l, t) == Some(e),
    decreases entries.len(),
{
    if entries.len() > 0 {
        let st1 = entry_step(st, doc_id, entries[0].0, entries[0].1);
        if !(entries[0].0 == "title"@ || entries[0].0 == "path"@) {
            lemma_parts_fold_canon_preserved(st, doc_id, entries[0].0, label_of(entries[0].0),
                split_on(entries[0].1, ','), l, t, e);
        }
        assert(canon_find(st1.canon, l, t) == Some(e));
        lemma_meta_fold_canon_preserved(st1, doc_id, entries.drop_first(), l, t, e);
    }
}

/// Canonicalization is idempotent across any later document: once the
/// builder's table records id `e` for `(label, name)`, feeding any further
/// document — whatever its metadata, content or strategy — leaves that
/// record in place. Every later resolution of `(label, name)`, at any entry
/// position of any later document, therefore reuses `e` and creates no
/// second entity node for the pair: `canon_step` creates only where the
/// lookup finds nothing.
pub proof fn lemma_canonical_reuse_any_document(
    st: BuilderV,
    metadata: Seq<(Seq<char>, Seq<char>)>,
    content: Seq<char>,
    s: ChunkingStrategy,
    l: Seq<char>,
    t: Seq<char>,
    e: Seq<char>,
)
    requires
        canon_find(st.canon, l, t) == Some(e),
    ensures
        canon_find(with_doc_spec(st, metadata, content, s).canon, l, t) == Some(e),
{
    let doc_id = id_str(st.next_id + 1);
    let st1 = BuilderV {
        nodes: st.nodes.push(NodeV { id: doc_id, label: "Document"@, props: metadata }),
        next_id: st.next_id + 1,
        ..st
    };
    assert(st1.canon == st.canon);
    lemma_meta_fold_canon_preserved(st1, doc_id, metadata, l, t, e);
    lemma_chunks_fold_shape(meta_fold(st1, doc_id, metadata), doc_id, chunks_spec(content, s));
}

/// Canonicalization is idempotent across documents. Feed the same builder
/// two documents whose single metadata entry `(k, v)` names one entity
/// (comma-free, non-blank value, key not reserved) that the builder has not
/// seen: the first document creates the entity node once, the second creates
/// none (it adds only its document node and chunk nodes), both lookups find
/// the same id, and the `HAS_` edges drawn for both documents target exactly
/// that id.
pub proof fn lemma_canonical_idempotent(
    st0: BuilderV,
    k: Seq<char>,
    v: Seq<char>,
    c1: Seq<char>,
    s1: ChunkingStrategy,
    c2: Seq<char>,
    s2: ChunkingStrategy,
)
    requires
        k != "title"@,
        k != "path"@,
        forall|j: int| 0 <= j < v.len() ==> v[j] != ',',
        trim_spec(v).len() > 0,
        canon_find(st0.canon, label_of(k), trim_spec(v)) is None,
    ensures
        ({
            let meta = seq![(k, v)];
            let st1 = with_doc_spec(st0, meta, c1, s1);
            let st2 = with_doc_spec(st1, meta, c2, s2);
            let l = label_of(k);
            let t = trim_spec(v);
            let ent = id_str(st0.next_id + 2);
            let elabel = seq!['H', 'A', 'S', '_'] + upper_of(k);
            &&& canon_find(st1.canon, l, t) == Some(ent)
            &&& canon_find(st2.canon, l, t) == Some(ent)
            &&& st1.nodes[st0.nodes.len() as int + 1] == (NodeV {
                id: ent,
                label: l,
                props: seq![("name"@, t)],
            })
            &&& st2.nodes.len() == st1.nodes.len() + 1 + chunks_spec(c2, s2).len()
            &&& st1.edges[st0.edges.len() as int] == (EdgeV {
                source: id_str(st0.next_id + 1),
                target: ent,
                label: elabel,
                props: Seq::empty(),
            })
            &&& st2.edges[st1.edges.len() as int] == (EdgeV {
                source: id_str(st1.next_id + 1),
                target: ent,
                label: elabel,
                props: Seq::empty(),
            })
        }),
{
    let meta = seq![(k, v)];
    let l = label_of(k);
    let t = trim_spec(v);
    crate::text::lemma_split_on_none(v, ',');
    assert(split_on(v, ',') == seq![v]);
    assert(meta[0] == (k, v));
    assert(meta.drop_first() =~= Seq::<(Seq<char>, Seq<char>)>::empty());
    assert(seq![v].drop_first() =~= Seq::<Seq<char>>::empty());

    // first document
    let d1 = id_str(st0.next_id + 1);
    let sta = BuilderV {
        nodes: st0.nodes.push(NodeV { id: d1, label: "Document"@, props: meta }),
        next_id: st0.next_id + 1,
        ..st0
    };
    assert(meta_fold(sta, d1, meta) == meta_fold(entry_step(sta, d1, k, v), d1, meta.drop_first()));
    assert(entry_step(sta, d1, k, v) == parts_fold(sta, d1, k, l, seq![v]));
    assert(parts_fold(sta, d1, k, l, seq![v]) == parts_fold(part_step(sta, d1, k, l, v), d1, k, l,
        seq![v].drop_first()));
    let ent = id_str(st0.next_id + 2);
    assert(canon_find(sta.canon, l, t) is None);
    let stb = part_step(sta, d1, k, l, v);
    assert(stb.nodes == sta.nodes.push(NodeV { id: ent, label: l, props: seq![("name"@, t)] }));
    assert(stb.canon == sta.canon.push(((l, t), ent)));
    assert(stb.edges == sta.edges.push(
        EdgeV {
            source: d1,
            target: ent,
            label: seq!['H', 'A', 'S', '_'] + upper_of(k),
            props: Seq::empty(),
        },
    ));
    lemma_canon_find_absent_push(sta.canon, l, t, ent);
    let st1 = with_doc_spec(st0, meta, c1, s1);
    lemma_chunks_fold_shape(stb, d1, chunks_spec(c1, s1));
    assert(st1.canon == stb.canon);
    assert(canon_find(st1.canon, l, t) == Some(ent));
    assert(st1.nodes[st0.nodes.len() as int + 1] == stb.nodes[st0.nodes.len() as int + 1]);
    assert(st1.edges[st0.edges.len() as int] == stb.edges[st0.edges.len() as int]);

    // second document
    let d2 = id_str(st1.next_id + 1);
    let stc = BuilderV {
        nodes: st1.nodes.push(NodeV { id: d2, label: "Document"@, props: meta }),
        next_id: st1.next_id + 1,
        ..st1
    };
    assert(meta_fold(stc, d2, meta) == meta_fold(entry_step(stc, d2, k, v), d2, meta.drop_first()));
    assert(entry_step(stc, d2, k, v) == parts_fold(stc, d2, k, l, seq![v]));
    assert(canon_find(stc.canon, l, t) == Some(ent));
    let std_ = part_step(stc, d2, k, l, v);
    assert(std_.nodes == stc.nodes);
    assert(std_.canon == stc.canon);
    assert(std_.edges == stc.edges.push(
        EdgeV {
            source: d2,
            target: ent,
            label: seq!['H', 'A', 'S', '_'] + upper_of(k),
            props: Seq::empty(),
        },
    ));
    assert(parts_fold(stc, d2, k, l, seq![v]) == parts_fold(std_, d2, k, l,
        seq![v].drop_first()));
    let st2 = with_doc_spec(st1, meta, c2, s2);
    lemma_chunks_fold_shape(std_, d2, chunks_spec(c2, s2));
    assert(st2.canon == std_.canon);
    assert(canon_find(st2.canon, l, t) == Some(ent));
    assert(st2.nodes.len() == st1.nodes.len() + 1 + chunks_spec(c2, s2).len());
    assert(st2.edges[st1.edges.len() as int] == std_.edges[st1.edges.len() as int]);
}

fn clone_pairs(src: &Vec<(String, String)>) -> (r: Vec<(String, String)>)
    ensures
        props_view(r@) == props_view(src@),
{
    let mut r: Vec<(String, String)> = Vec::new();
    let mut i: usize = 0;
    while i < src.len()
        invariant
            0 <= i <= src@.len(),
            r@.len() == i,
            forall|j: int|
                0 <= j < i ==> (#[trigger] r@[j]).0@ == src@[j].0@ && r@[j].1@ == src@[j].1@,
        decreases src@.len() - i,
    {
        let key = src[i].0.clone();
        let value = src[i].1.clone();
        r.push((key, value));
        i = i + 1;
    }
    proof {
        assert(props_view(r@) =~= props_view(src@));
    }
    r
}

/// The builder that grows the graph; one owner, one id sequence.
pub struct GraphBuilder {
    graph: KnowledgeGraph,
    next_id: u64,
    canonical_nodes: Vec<(String, String, String)>,
}

impl View for GraphBuilder {
    type V = BuilderV;

    closed spec fn view(&self) -> BuilderV {
        BuilderV {
            nodes: self.graph@.nodes,
            edges: self.graph@.edges,
            next_id: self.next_id as int,
            canon: self.canonical_nodes@.map_values(
                |e: (String, String, String)| ((e.0@, e.1@), e.2@),
            ),
        }
    }
}

impl GraphBuilder {
    /// A fresh builder: empty graph, counter at zero, empty table.
    pub fn new() -> (b: GraphBuilder)
        ensures
            b@.nodes.len() == 0,
            b@.edges.len() == 0,
            b@.next_id == 0,
            b@.canon.len() == 0,
    {
        let b = GraphBuilder {
            graph: KnowledgeGraph::new(),
            next_id: 0,
            canonical_nodes: Vec::new(),
        };
        proof {
            assert(b@.canon =~= Seq::<((Seq<char>, Seq<char>), Seq<char>)>::empty());
        }
        b
    }

    /// Consumes the builder and hands out the finished, immutable graph.
    pub fn build(self) -> (g: KnowledgeGraph)
        ensures
            g@.nodes == self@.nodes,
            g@.edges == self@.edges,
    {
        self.graph
    }

    fn generate_id(&mut self) -> (id: String)
        requires
            old(self)@.next_id < u64::MAX,
        ensures
            final(self)@ == (BuilderV { next_id: old(self)@.next_id + 1, ..old(self)@ }),
            id@ == id_str(old(self)@.next_id + 1),
    {
        self.next_id = self.next_id + 1;
        let digits = u64_to_dec_chars(self.next_id);
        let mut idc = str_to_chars("blitz-");
        proof {
            reveal_strlit("blitz-");
            assert("blitz-"@ =~= seq!['b', 'l', 'i', 't', 'z', '-']);
        }
        let mut dd = digits;
        idc.append(&mut dd);
        chars_to_string(&idc)
    }

    /// Feeds one document into the graph: a `Document` node carrying the
    /// metadata verbatim; for every non-reserved metadata entry, one entity
    /// node per distinct trimmed comma-separated value (shared across all
    /// documents this builder has seen) with a `HAS_<KEY>` edge from the
    /// document; then one `Chunk` node and `CONTAINS` edge per content
    /// chunk. The id counter bound keeps the global counter within machine
    /// range.
    pub fn with_document(
        &mut self,
        metadata: &Vec<(String, String)>,
        content: &str,
        strategy: &ChunkingStrategy,
    )
        requires
            strategy_valid(*strategy),
            old(self)@.next_id + 2 + content@.len() + meta_weight(props_view(metadata@))
                <= u64::MAX,
        ensures
            final(self)@ == with_doc_spec(old(self)@, props_view(metadata@), content@, *strategy),
    {
        let ghost st0 = self@;
        let ghost mv = props_view(metadata@);
        proof {
            lemma_meta_weight_nonneg(mv);
        }
        let doc_id = self.generate_id();
        let props = clone_pairs(metadata);
        let node = Node { id: doc_id.clone(), label: "Document".to_owned(), properties: props };
        self.graph.nodes.push(node);
        let ghost st1 = (BuilderV {
            nodes: st0.nodes.push(NodeV { id: id_str(st0.next_id + 1), label: "Document"@, props: mv }),
            next_id: st0.next_id + 1,
            ..st0
        });
        proof {
            assert(self@.nodes =~= st1.nodes);
            assert(self@ == st1);
        }
        let title_key: String = "title".to_owned();
        let path_key: String = "path".to_owned();
        let mut i: usize = 0;
        proof {
            assert(mv.take(0) =~= Seq::<(Seq<char>, Seq<char>)>::empty());
            assert(meta_fold(st1, doc_id@, mv.take(0)) == st1);
            assert(meta_weight(mv.take(0)) == 0);
        }
        while i < metadata.len()
            invariant
                0 <= i <= metadata@.len(),
                mv == props_view(metadata@),
                title_key@ == "title"@,
                path_key@ == "path"@,
                doc_id@ == id_str(st0.next_id + 1),
                st0.next_id >= 0,
                st0.next_id + 2 + content@.len() + meta_weight(mv) <= u64::MAX,
                st1 == (BuilderV {
                    nodes: st0.nodes.push(
                        NodeV { id: id_str(st0.next_id + 1), label: "Document"@, props: mv },
                    ),
                    next_id: st0.next_id + 1,
                    ..st0
                }),
                self@ == meta_fold(st1, doc_id@, mv.take(i as int)),
                self@.next_id <= st0.next_id + 1 + meta_weight(mv.take(i as int)),
            decreases metadata@.len() - i,
        {
            let ghost pre = self@;
            proof {
                assert(mv.take(i + 1) =~= mv.take(i as int).push(mv[i as int]));
                lemma_meta_fold_snoc(st1, doc_id@, mv.take(i as int), mv[i as int]);
                lemma_meta_weight_snoc(mv.take(i as int), mv[i as int]);
                lemma_meta_weight_prefix(mv, i + 1);
                assert(mv[i as int] == (metadata@[i as int].0@, metadata@[i as int].1@));
            }
            let k = &metadata[i].0;
            let v = &metadata[i].1;
            if *k == title_key || *k == path_key {
                proof {
                    assert(entry_step(pre, doc_id@, k@, v@) == pre);
                    lemma_meta_weight_nonneg(mv.take(i as int));
                }
            } else {
                let kc = str_to_chars(k.as_str());
                let mut lc: Vec<char> = Vec::new();
                if kc.len() > 0 {
                    let mut first_c: Vec<char> = Vec::new();
                    first_c.push(kc[0]);
                    proof {
                        assert(first_c@ =~= seq![k@[0]]);
                    }
                    let first_s = chars_to_string(&first_c);
                    let up_s = to_upper(first_s.as_str());
                    let mut up_c = str_to_chars(up_s.as_str());
                    lc.append(&mut up_c);
                    proof {
                        assert(lc@ =~= upper_of(seq![k@[0]]) + k@.subrange(1, 1));
                    }
                    let mut q: usize = 1;
                    while q < kc.len()
                        invariant
                            1 <= q <= kc@.len(),
                            kc@ == k@,
                            k@.len() > 0,
                            lc@ == upper_of(seq![k@[0]]) + k@.subrange(1, q as int),
                        decreases kc@.len() - q,
                    {
                        lc.push(kc[q]);
                        proof {
                            assert(upper_of(seq![k@[0]]) + k@.subrange(1, q + 1) =~= (upper_of(
                                seq![k@[0]],
                            ) + k@.subrange(1, q as int)).push(k@[q as int]));
                        }
                        q = q + 1;
                    }
                    proof {
                        assert(k@.subrange(1, k@.len() as int) =~= k@.drop_first());
                        assert(lc@ == label_of(k@));
                    }
                } else {
                    proof {
                        assert(lc@ =~= label_of(k@));
                    }
                }
                let label_s = chars_to_string(&lc);
                let up = to_upper(k.as_str());
                let mut ec = str_to_chars("HAS_");
                let mut uc = str_to_chars(up.as_str());
                proof {
                    reveal_strlit("HAS_");
                    assert("HAS_"@ =~= seq!['H', 'A', 'S', '_']);
                }
                ec.append(&mut uc);
                let elabel = chars_to_string(&ec);
                let vc = str_to_chars(v.as_str());
                let parts = split_chars(&vc, ',');
                let ghost pst = self@;
                let ghost parts_v = split_on(v@, ',');
                let mut p: usize = 0;
                proof {
                    crate::text::lemma_split_on_len(v@, ',');
                    assert(parts_v.take(0) =~= Seq::<Seq<char>>::empty());
                    assert(parts_fold(pst, doc_id@, k@, label_of(k@), parts_v.take(0)) == pst);
                }
                while p < parts.len()
                    invariant
                        0 <= p <= parts@.len(),
                        parts@.map_values(|x: Vec<char>| x@) == parts_v,
                        parts_v == split_on(v@, ','),
                        parts_v.len() <= v@.len() + 1,
                        label_s@ == label_of(k@),
                        elabel@ == seq!['H', 'A', 'S', '_'] + upper_of(k@),
                        doc_id@ == id_str(st0.next_id + 1),
                        st0.next_id >= 0,
                        self@ == parts_fold(pst, doc_id@, k@, label_of(k@), parts_v.take(p as int)),
                        self@.next_id <= pst.next_id + p,
                        pst.next_id + parts_v.len() <= st0.next_id + 1 + meta_weight(
                            mv.take(i + 1),
                        ),
                        meta_weight(mv.take(i + 1)) <= meta_weight(mv),
                        st0.next_id + 2 + content@.len() + meta_weight(mv) <= u64::MAX,
                    decreases parts@.len() - p,
                {
                    proof {
                        assert(parts_v.take(p + 1) =~= parts_v.take(p as int).push(
                            parts_v[p as int],
                        ));
                        lemma_parts_fold_snoc(pst, doc_id@, k@, label_of(k@), parts_v.take(p as int),
                            parts_v[p as int]);
                        assert(parts@[p as int]@ == parts_v[p as int]);
                    }
                    let ghost ppre = self@;
                    let t = trim_chars(&parts[p]);
                    if t.len() > 0 {
                        let name_s = chars_to_string(&t);
                        proof {
                            assert(self@.next_id < u64::MAX);
                        }
                        let ent_id = self.get_or_create_canonical_node(&label_s, &name_s);
                        let edge = Edge {
                            source: doc_id.clone(),
                            target: ent_id,
                            label: elabel.clone(),
                            properties: Vec::new(),
                        };
                        proof {
                            assert(edge@.props =~= Seq::<(Seq<char>, Seq<char>)>::empty());
                        }
                        self.graph.edges.push(edge);
                        proof {
                            assert(self@.edges =~= part_step(
                                ppre,
                                doc_id@,
                                k@,
                                label_of(k@),
                                parts_v[p as int],
                            ).edges);
                            assert(self@ == part_step(ppre, doc_id@, k@, label_of(k@),
                                parts_v[p as int]));
                        }
                    } else {
                        proof {
                            assert(part_step(ppre, doc_id@, k@, label_of(k@), parts_v[p as int])
                                == ppre);
                        }
                    }
                    p = p + 1;
                }
                proof {
                    assert(parts_v.take(parts_v.len() as int) =~= parts_v);
                    assert(self@ == entry_step(pre, doc_id@, k@, v@));
                }
            }
            i = i + 1;
        }
        proof {
            assert(mv.take(mv.len() as int) =~= mv);
        }
        let ghost st2 = self@;
        let chunks = chunk_text(content, strategy);
        let ghost cs = chunks_spec(content@, *strategy);
        let mut c: usize = 0;
        proof {
            assert(cs.take(0) =~= Seq::<Seq<char>>::empty());
            assert(chunks_fold(st2, doc_id@, cs.take(0)) == st2);
        }
        while c < chunks.len()
            invariant
                0 <= c <= chunks@.len(),
                chunks@.map_values(|x: String| x@) == cs,
                cs == chunks_spec(content@, *strategy),
                chunks@.len() <= content@.len() + 1,
                doc_id@ == id_str(st0.next_id + 1),
                st0.next_id >= 0,
                self@ == chunks_fold(st2, doc_id@, cs.take(c as int)),
                self@.next_id <= st2.next_id + c,
                st2.next_id <= st0.next_id + 1 + meta_weight(mv),
                st0.next_id + 2 + content@.len() + meta_weight(mv) <= u64::MAX,
            decreases chunks@.len() - c,
        {
            proof {
                assert(cs.take(c + 1) =~= cs.take(c as int).push(cs[c as int]));
                lemma_chunks_fold_snoc(st2, doc_id@, cs.take(c as int), cs[c as int]);
                assert(chunks@[c as int]@ == cs[c as int]);
                assert(self@.next_id < u64::MAX);
            }
            let ghost cpre = self@;
            let chunk_id = self.generate_id();
            let mut cprops: Vec<(String, String)> = Vec::new();
            cprops.push(("text".to_owned(), chunks[c].clone()));
            let cnode = Node {
                id: chunk_id.clone(),
                label: "Chunk".to_owned(),
                properties: cprops,
            };
            proof {
                assert(cnode@.props =~= seq![("text"@, cs[c as int])]);
            }
            self.graph.nodes.push(cnode);
            let cedge = Edge {
                source: doc_id.clone(),
                target: chunk_id,
                label: "CONTAINS".to_owned(),
                properties: Vec::new(),
            };
            proof {
                assert(cedge@.props =~= Seq::<(Seq<char>, Seq<char>)>::empty());
            }
            self.graph.edges.push(cedge);
            proof {
                assert(self@.nodes =~= chunk_step(cpre, doc_id@, cs[c as int]).nodes);
                assert(self@.edges =~= chunk_step(cpre, doc_id@, cs[c as int]).edges);
                assert(self@ == chunk_step(cpre, doc_id@, cs[c as int]));
            }
            c = c + 1;
        }
        proof {
            assert(cs.take(cs.len() as int) =~= cs);
            assert(self@ == with_doc_spec(st0, mv, content@, *strategy));
        }
    }

    fn get_or_create_canonical_node(&mut self, label: &String, name: &String) -> (id: String)
        requires
            old(self)@.next_id < u64::MAX,
        ensures
            final(self)@ == canon_step(old(self)@, label@, name@).0,
            id@ == canon_step(old(self)@, label@, name@).1,
            final(self)@.next_id <= old(self)@.next_id + 1,
    {
        let ghost cv = self@.canon;
        let mut i: usize = 0;
        proof {
            assert(cv.skip(0) =~= cv);
        }
        while i < self.canonical_nodes.len()
            invariant
                0 <= i <= self.canonical_nodes@.len(),
                cv == self@.canon,
                canon_find(cv, label@, name@) == canon_find(cv.skip(i as int), label@, name@),
            decreases self.canonical_nodes@.len() - i,
        {
            proof {
                let s = cv.skip(i as int);
                assert(s[0] == cv[i as int]);
                assert(s.drop_first() =~= cv.skip(i + 1));
            }
            if self.canonical_nodes[i].0 == *label && self.canonical_nodes[i].1 == *name {
                return self.canonical_nodes[i].2.clone();
            }
            i = i + 1;
        }
        proof {
            assert(cv.skip(cv.len() as int) =~= Seq::<((Seq<char>, Seq<char>), Seq<char>)>::empty());
        }
        let new_id = self.generate_id();
        let mut props: Vec<(String, String)> = Vec::new();
        props.push(("name".to_owned(), name.clone()));
        let node = Node { id: new_id.clone(), label: label.clone(), properties: props };
        proof {
            assert(node@.props =~= seq![("name"@, name@)]);
        }
        self.graph.nodes.push(node);
        self.canonical_nodes.push((label.clone(), name.clone(), new_id.clone()));
        proof {
            let stepped = canon_step(old(self)@, label@, name@).0;
            assert(self@.nodes =~= stepped.nodes);
            assert(self@.canon =~= stepped.canon);
            assert(self@.edges =~= stepped.edges);
        }
        new_id
    }
}

} // verus!
