use blitz_parse::builder::GraphBuilder;
use blitz_parse::chunker::{chunk_text, ChunkingStrategy};
use blitz_parse::models::Node;

#[test]
fn test_dynamic_graph_builder_and_chunking() {
    let mut builder = GraphBuilder::new();
    let content = "First line of content.\nSecond line, same chunk.";

    let metadata = vec![
        ("title".to_string(), "Dynamic Systems".to_string()),
        ("author".to_string(), "Ada Lovelace".to_string()),
        ("subject".to_string(), "Computer Science, Mathematics".to_string()),
    ];

    let strategy = ChunkingStrategy::ByLine();
    builder.with_document(&metadata, content, &strategy);
    let graph = builder.build();

    // Expected nodes: 1 Document, 2 Chunk, 1 Author, 2 Subjects = 6 total
    assert_eq!(graph.nodes.len(), 6);

    let doc_node = graph.nodes.iter().find(|n| n.label == "Document").unwrap();
    assert_eq!(
        doc_node.get_property(&"title".to_string()).unwrap().as_str(),
        "Dynamic Systems"
    );

    let author_node = graph.nodes.iter().find(|n| n.label == "Author").unwrap();
    assert_eq!(
        author_node.get_property(&"name".to_string()).unwrap().as_str(),
        "Ada Lovelace"
    );

    let author_edge = graph.edges.iter().find(|e| e.label == "HAS_AUTHOR").unwrap();
    assert_eq!(author_edge.source, doc_node.id);
    assert_eq!(author_edge.target, author_node.id);

    let subject_edges: Vec<_> = graph
        .edges
        .iter()
        .filter(|e| e.label == "HAS_SUBJECT")
        .collect();
    assert_eq!(subject_edges.len(), 2);
    assert!(subject_edges.iter().all(|e| e.source == doc_node.id));
}

#[test]
fn test_recursive_split() {
    let text = "This is a sentence. This is another sentence.";
    let strategy = ChunkingStrategy::RecursiveCharacter {
        chunk_size: 20,
        overlap: 5,
    };
    let chunks = chunk_text(text, &strategy);

    assert_eq!(chunks.len(), 3);
    assert_eq!(chunks[0], "This is a sentence. ");
    assert_eq!(chunks[1], "nce. This is another");
    assert_eq!(chunks[2], "other sentence.");
}

#[test]
fn test_by_line_chunking() {
    let chunks = chunk_text(
        "First line of content.\nSecond line, same chunk.",
        &ChunkingStrategy::ByLine(),
    );
    assert_eq!(chunks.len(), 2);
    assert_eq!(chunks[0], "First line of content.");
    assert_eq!(chunks[1], "Second line, same chunk.");
}

#[test]
fn test_by_line_drops_blank_lines() {
    let chunks = chunk_text("\n  \t \nkept\n\n", &ChunkingStrategy::ByLine());
    assert_eq!(chunks, vec!["kept".to_string()]);
    assert!(chunk_text("", &ChunkingStrategy::ByLine()).is_empty());
}

#[test]
fn test_recursive_split_short_text_is_one_chunk() {
    let strategy = ChunkingStrategy::RecursiveCharacter {
        chunk_size: 20,
        overlap: 5,
    };
    assert_eq!(chunk_text("short", &strategy), vec!["short".to_string()]);
}

#[test]
fn test_recursive_split_keeps_grapheme_clusters_whole() {
    // Two regional-indicator flags: four code points, two user-perceived
    // characters. A window of one cluster must never split a flag.
    let text = "\u{1F1F7}\u{1F1FA}\u{1F1F8}\u{1F1F9}";
    let strategy = ChunkingStrategy::RecursiveCharacter {
        chunk_size: 1,
        overlap: 0,
    };
    let chunks = chunk_text(text, &strategy);
    assert_eq!(
        chunks,
        vec![
            "\u{1F1F7}\u{1F1FA}".to_string(),
            "\u{1F1F8}\u{1F1F9}".to_string()
        ]
    );
}

#[test]
fn test_canonical_across_documents() {
    let mut builder = GraphBuilder::new();
    let meta1 = vec![
        ("title".to_string(), "One".to_string()),
        ("author".to_string(), "Ada Lovelace".to_string()),
    ];
    let meta2 = vec![
        ("title".to_string(), "Two".to_string()),
        ("author".to_string(), "Ada Lovelace".to_string()),
    ];
    builder.with_document(&meta1, "alpha", &ChunkingStrategy::ByLine());
    builder.with_document(&meta2, "beta", &ChunkingStrategy::ByLine());
    let graph = builder.build();

    let authors: Vec<_> = graph.nodes.iter().filter(|n| n.label == "Author").collect();
    assert_eq!(authors.len(), 1);
    let author_id = &authors[0].id;

    let has_edges: Vec<_> = graph
        .edges
        .iter()
        .filter(|e| e.label == "HAS_AUTHOR")
        .collect();
    assert_eq!(has_edges.len(), 2);
    assert!(has_edges.iter().all(|e| &e.target == author_id));
    assert_ne!(has_edges[0].source, has_edges[1].source);

    let docs: Vec<_> = graph
        .nodes
        .iter()
        .filter(|n| n.label == "Document")
        .collect();
    assert_eq!(docs.len(), 2);
}

#[test]
fn test_ids_assigned_in_discovery_order() {
    let mut builder = GraphBuilder::new();
    let metadata = vec![("author".to_string(), "Ada".to_string())];
    builder.with_document(&metadata, "one line", &ChunkingStrategy::ByLine());
    let graph = builder.build();

    assert_eq!(graph.nodes.len(), 3);
    assert_eq!(graph.nodes[0].id, "blitz-1");
    assert_eq!(graph.nodes[0].label, "Document");
    assert_eq!(graph.nodes[1].id, "blitz-2");
    assert_eq!(graph.nodes[1].label, "Author");
    assert_eq!(graph.nodes[2].id, "blitz-3");
    assert_eq!(graph.nodes[2].label, "Chunk");
    assert_eq!(
        graph.nodes[2].get_property(&"text".to_string()).unwrap().as_str(),
        "one line"
    );
    let contains: Vec<_> = graph.edges.iter().filter(|e| e.label == "CONTAINS").collect();
    assert_eq!(contains.len(), 1);
    assert_eq!(contains[0].source, "blitz-1");
    assert_eq!(contains[0].target, "blitz-3");
}

#[test]
fn test_metadata_values_split_and_trimmed() {
    let mut builder = GraphBuilder::new();
    let metadata = vec![(
        "subject".to_string(),
        " Math ,, Physics ".to_string(),
    )];
    builder.with_document(&metadata, "", &ChunkingStrategy::ByLine());
    let graph = builder.build();

    let subjects: Vec<_> = graph.nodes.iter().filter(|n| n.label == "Subject").collect();
    assert_eq!(subjects.len(), 2);
    assert_eq!(
        subjects[0].get_property(&"name".to_string()).unwrap().as_str(),
        "Math"
    );
    assert_eq!(
        subjects[1].get_property(&"name".to_string()).unwrap().as_str(),
        "Physics"
    );
}

#[test]
fn test_get_property_first_match_and_missing() {
    let node = Node {
        id: "blitz-9".to_string(),
        label: "Thing".to_string(),
        properties: vec![
            ("a".to_string(), "1".to_string()),
            ("b".to_string(), "2".to_string()),
            ("a".to_string(), "3".to_string()),
        ],
    };
    assert_eq!(node.get_property(&"a".to_string()).unwrap().as_str(), "1");
    assert_eq!(node.get_property(&"b".to_string()).unwrap().as_str(), "2");
    assert!(node.get_property(&"z".to_string()).is_none());
}
