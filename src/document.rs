//! The parsed document: an immutable arena of nodes.

use vstd::prelude::*;

verus! {

/// A number as the parser reported it: its exact 64-bit integer value, where
/// it has one, and the bit pattern of its IEEE-754 binary64 value, where it
/// has one.
#[derive(Clone, Copy, Debug, PartialEq, Eq, Structural)]
pub struct Number {
    pub int: Option<i64>,
    pub float_bits: Option<u64>,
}

/// One node of a document. Children are named by their position in the
/// document's arena; a mapping holds its entries as (key, value) pairs in the
/// order the parser produced them.
#[derive(Debug)]
pub enum Node {
    Null,
    Bool(bool),
    Num(Number),
    Str(String),
    Sequence(Vec<usize>),
    Mapping(Vec<(usize, usize)>),
}

/// The mathematical model of a node.
pub ghost enum NodeModel {
    Null,
    Bool(bool),
    Num(Number),
    Str(Seq<char>),
    Sequence(Seq<usize>),
    Mapping(Seq<(usize, usize)>),
}

impl View for Node {
    type V = NodeModel;

    open spec fn view(&self) -> NodeModel {
        match self {
            Node::Null => NodeModel::Null,
            Node::Bool(b) => NodeModel::Bool(*b),
            Node::Num(n) => NodeModel::Num(*n),
            Node::Str(s) => NodeModel::Str(s@),
            Node::Sequence(items) => NodeModel::Sequence(items@),
            Node::Mapping(entries) => NodeModel::Mapping(entries@),
        }
    }
}

impl NodeModel {
    /// Null, booleans, numbers and strings.
    pub open spec fn is_scalar(self) -> bool {
        !(self is Sequence || self is Mapping)
    }

    /// The number of children: elements of a sequence, entries of a mapping.
    pub open spec fn child_count(self) -> nat {
        match self {
            NodeModel::Sequence(items) => items.len(),
            NodeModel::Mapping(entries) => entries.len(),
            _ => 0,
        }
    }

    /// Every node this one refers to stands before position `i`, and each
    /// 1-based position in a sequence is a 64-bit host integer.
    pub open spec fn links_below(self, i: int) -> bool {
        if let NodeModel::Sequence(items) = self {
            items.len() < i64::MAX && forall|k: int| 0 <= k < items.len() ==> (#[trigger] items[k]) < i
        } else if let NodeModel::Mapping(entries) = self {
            entries_below(entries, i)
        } else {
            true
        }
    }
}

/// The keys and the values of all the entries stand before position `i`.
pub open spec fn entries_below(entries: Seq<(usize, usize)>, i: int) -> bool {
    forall|k: int| 0 <= k < entries.len() ==> (#[trigger] entries[k]).0 < i && entries[k].1 < i
}

/// The mathematical model of a document: its nodes, and the position of the
/// top-level node.
pub ghost struct DocModel {
    pub nodes: Seq<NodeModel>,
    pub top: int,
}

impl DocModel {
    pub open spec fn contains(self, i: int) -> bool {
        0 <= i < self.nodes.len()
    }

    /// The top node exists and every node refers only to nodes before it, so
    /// that every walk down the document ends.
    pub open spec fn well_formed(self) -> bool {
        &&& self.contains(self.top)
        &&& forall|i: int| self.contains(i) ==> #[trigger] self.nodes[i].links_below(i)
    }
}

/// A parsed document. It is never changed after it is built.
#[derive(Debug)]
pub struct Document {
    nodes: Vec<Node>,
    top: usize,
}

impl View for Document {
    type V = DocModel;

    closed spec fn view(&self) -> DocModel {
        DocModel { nodes: self.nodes@.map_values(|n: Node| n@), top: self.top as int }
    }
}

impl Document {
    #[verifier::type_invariant]
    closed spec fn inv(self) -> bool {
        self@.well_formed()
    }

    /// The number of nodes in the document.
    pub fn len(&self) -> (r: usize)
        ensures
            r == self@.nodes.len(),
    {
        self.nodes.len()
    }

    /// The position of the top-level node.
    pub fn top(&self) -> (r: usize)
        ensures
            r == self@.top,
            self@.well_formed(),
    {
        proof {
            use_type_invariant(self);
        }
        self.top
    }

    /// The node at position `i`.
    pub fn node(&self, i: usize) -> (r: &Node)
        requires
            self@.contains(i as int),
        ensures
            r@ == self@.nodes[i as int],
    {
        &self.nodes[i]
    }
}

/// Builds a document from its leaves up: each node is added after the nodes
/// it refers to, and the position it gets is returned.
pub struct DocumentBuilder {
    nodes: Vec<Node>,
}

impl View for DocumentBuilder {
    type V = Seq<NodeModel>;

    closed spec fn view(&self) -> Seq<NodeModel> {
        self.nodes@.map_values(|n: Node| n@)
    }
}

impl DocumentBuilder {
    pub fn new() -> (r: DocumentBuilder)
        ensures
            r@ == Seq::<NodeModel>::empty(),
    {
        DocumentBuilder { nodes: Vec::new() }
    }

    /// The number of nodes added so far.
    pub fn len(&self) -> (r: usize)
        ensures
            r == self@.len(),
    {
        self.nodes.len()
    }

    /// Adds a node; it gets the next position.
    pub fn push(&mut self, node: Node) -> (r: usize)
        ensures
            r == old(self)@.len(),
            final(self)@ == old(self)@.push(node@),
    {
        let r = self.nodes.len();
        self.nodes.push(node);
        proof {
            assert(self@ =~= old(self)@.push(node@));
        }
        r
    }

    /// Ends the building, with the node at `top` as the document's top-level
    /// node. Refused where there is no such node, where a node refers to one
    /// that was not added before it, or where a sequence has `i64::MAX`
    /// elements or more.
    pub fn finish(self, top: usize) -> (r: Option<Document>)
        ensures
            ({
                let d = DocModel { nodes: self@, top: top as int };
                &&& d.well_formed() ==> r is Some && r->Some_0@ == d
                &&& !d.well_formed() ==> r is None
            }),
    {
        let ghost d = DocModel { nodes: self@, top: top as int };
        if top >= self.nodes.len() {
            return None;
        }
        let mut i: usize = 0;
        while i < self.nodes.len()
            invariant
                i <= self.nodes@.len(),
                d == (DocModel { nodes: self@, top: top as int }),
                forall|j: int| 0 <= j < i ==> #[trigger] self@[j].links_below(j),
            decreases self.nodes@.len() - i,
        {
            if !check_links(&self.nodes[i], i) {
                assert(!d.nodes[i as int].links_below(i as int));
                return None;
            }
            i += 1;
        }
        Some(Document { nodes: self.nodes, top })
    }
}

/// Whether every node that `node` refers to stands before position `i`, and
/// a sequence `node` has fewer than `i64::MAX` elements.
fn check_links(node: &Node, i: usize) -> (r: bool)
    ensures
        r == node@.links_below(i as int),
{
    match node {
        Node::Sequence(items) => {
            if items.len() as u64 >= i64::MAX as u64 {
                return false;
            }
            let mut k: usize = 0;
            while k < items.len()
                invariant
                    k <= items@.len(),
                    node@ == NodeModel::Sequence(items@),
                    items@.len() < i64::MAX,
                    forall|j: int| 0 <= j < k ==> (#[trigger] items@[j]) < i,
                decreases items@.len() - k,
            {
                if items[k] >= i {
                    assert(!(items@[k as int] < i));
                    return false;
                }
                k += 1;
            }
            true
        },
        Node::Mapping(entries) => {
            let mut k: usize = 0;
            while k < entries.len()
                invariant
                    k <= entries@.len(),
                    node@ == NodeModel::Mapping(entries@),
                    entries_below(entries@.take(k as int), i as int),
                decreases entries@.len() - k,
            {
                let (key, value) = entries[k];
                if key >= i || value >= i {
                    assert(!entries_below(entries@, i as int)) by {
                        assert(entries@[k as int] == (key, value));
                    }
                    return false;
                }
                proof {
                    assert(entries@.take(k + 1) == entries@.take(k as int).push(entries@[k as int]));
                }
                k += 1;
            }
            assert(entries@.take(k as int) == entries@);
            true
        },
        _ => true,
    }
}

} // verus!
