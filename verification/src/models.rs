//! The graph data model: nodes, directed labeled edges, and the graph that
//! holds both in insertion order. Property maps are ordered key/value pairs;
//! lookups take the first match.

use vstd::prelude::*;

verus! {

/// A single entity or concept in the knowledge graph.
#[derive(Debug, Clone)]
pub struct Node {
    pub id: String,
    pub label: String,
    pub properties: Vec<(String, String)>,
}

/// A directed relationship between two nodes, by their ids.
#[derive(Debug, Clone)]
pub struct Edge {
    pub source: String,
    pub target: String,
    pub label: String,
    pub properties: Vec<(String, String)>,
}

/// The main container: nodes and edges, ordering observable.
#[derive(Debug, Clone)]
pub struct KnowledgeGraph {
    pub nodes: Vec<Node>,
    pub edges: Vec<Edge>,
}

/// The mathematical image of a node.
pub ghost struct NodeV {
    pub id: Seq<char>,
    pub label: Seq<char>,
    pub props: Seq<(Seq<char>, Seq<char>)>,
}

/// The mathematical image of an edge.
pub ghost struct EdgeV {
    pub source: Seq<char>,
    pub target: Seq<char>,
    pub label: Seq<char>,
    pub props: Seq<(Seq<char>, Seq<char>)>,
}

/// The mathematical image of a graph.
pub ghost struct GraphV {
    pub nodes: Seq<NodeV>,
    pub edges: Seq<EdgeV>,
}

pub open spec fn props_view(p: Seq<(String, String)>) -> Seq<(Seq<char>, Seq<char>)> {
    p.map_values(|kv: (String, String)| (kv.0@, kv.1@))
}

impl View for Node {
    type V = NodeV;

    open spec fn view(&self) -> NodeV {
        NodeV { id: self.id@, label: self.label@, props: props_view(self.properties@) }
    }
}

impl View for Edge {
    type V = EdgeV;

    open spec fn view(&self) -> EdgeV {
        EdgeV {
            source: self.source@,
            target: self.target@,
            label: self.label@,
            props: props_view(self.properties@),
        }
    }
}

impl View for KnowledgeGraph {
    type V = GraphV;

    open spec fn view(&self) -> GraphV {
        GraphV {
            nodes: self.nodes@.map_values(|n: Node| n@),
            edges: self.edges@.map_values(|e: Edge| e@),
        }
    }
}

/// The value under the first occurrence of `key`, if any.
pub open spec fn find_prop(props: Seq<(Seq<char>, Seq<char>)>, key: Seq<char>) -> Option<Seq<char>>
    decreases props.len(),
{
    if props.len() == 0 {
        None
    } else if props[0].0 == key {
        Some(props[0].1)
    } else {
        find_prop(props.drop_first(), key)
    }
}

impl Node {
    /// The node's value under `key`, first match first.
    pub fn get_property(&self, key: &String) -> (r: Option<&String>)
        ensures
            match r {
                Some(v) => find_prop(self@.props, key@) == Some(v@),
                None => find_prop(self@.props, key@) is None,
            },
    {
        let ghost pv = props_view(self.properties@);
        let mut i: usize = 0;
        proof {
            assert(pv.skip(0) =~= pv);
        }
        while i < self.properties.len()
            invariant
                0 <= i <= self.properties@.len(),
                pv == props_view(self.properties@),
                find_prop(pv, key@) == find_prop(pv.skip(i as int), key@),
            decreases self.properties@.len() - i,
        {
            proof {
                let s = pv.skip(i as int);
                assert(s[0] == pv[i as int]);
                assert(s.drop_first() =~= pv.skip(i + 1));
            }
            if self.properties[i].0 == *key {
                return Some(&self.properties[i].1);
            }
            i = i + 1;
        }
        proof {
            assert(pv.skip(pv.len() as int) =~= Seq::<(Seq<char>, Seq<char>)>::empty());
        }
        None
    }
}

impl KnowledgeGraph {
    /// A new, empty knowledge graph.
    pub fn new() -> (g: KnowledgeGraph)
        ensures
            g@.nodes.len() == 0,
            g@.edges.len() == 0,
    {
        let g = KnowledgeGraph { nodes: Vec::new(), edges: Vec::new() };
        proof {
            assert(g@.nodes =~= Seq::<NodeV>::empty());
            assert(g@.edges =~= Seq::<EdgeV>::empty());
        }
        g
    }
}

} // verus!
