//! Handles on the nodes of a shared document: navigation and materialization.

use std::sync::Arc;

use vstd::prelude::*;

use crate::document::{DocModel, Document, Node, NodeModel};

verus! {

/// Relies on `Arc::clone`: the new pointer shares the allocation of the old
/// one, so both hold the same document.
#[verifier::external_body]
pub(crate) fn share(d: &Arc<Document>) -> (r: Arc<Document>)
    ensures
        r == *d,
{
    Arc::clone(d)
}

/// What the caller asks `get` for: a 1-based position in a sequence, or the
/// string key of a mapping entry. `Other` stands for any other kind of key
/// (a float, a boolean, a table), which never finds a node.
#[derive(Clone, Debug)]
pub enum Key {
    Index(i64),
    Name(String),
    Other,
}

pub ghost enum KeyModel {
    Index(int),
    Name(Seq<char>),
    Other,
}

impl View for Key {
    type V = KeyModel;

    open spec fn view(&self) -> KeyModel {
        match self {
            Key::Index(i) => KeyModel::Index(*i as int),
            Key::Name(s) => KeyModel::Name(s@),
            Key::Other => KeyModel::Other,
        }
    }
}

/// Why a single materialization or iteration step failed. Neither error
/// touches the document or any other handle.
#[derive(Clone, Copy, Debug, PartialEq, Eq, Structural)]
pub enum ViewError {
    /// A number with neither an exact 64-bit integer value nor a float value.
    Conversion,
    /// A mapping key that is a sequence or a mapping.
    UnsupportedKey,
}

/// A handle on one node of a shared document. Cloning a handle shares the
/// document; nothing in it can be changed.
#[derive(Debug)]
pub struct Handle {
    doc: Arc<Document>,
    at: usize,
}

/// The model of a handle: the document it shares, and the position of its
/// node.
pub ghost struct HandleModel {
    pub doc: DocModel,
    pub at: int,
}

impl View for Handle {
    type V = HandleModel;

    closed spec fn view(&self) -> HandleModel {
        HandleModel { doc: self.doc@, at: self.at as int }
    }
}

impl HandleModel {
    pub open spec fn node(self) -> NodeModel {
        self.doc.nodes[self.at]
    }

    /// A handle on the node at position `i` of the same document.
    pub open spec fn moved(self, i: int) -> HandleModel {
        HandleModel { doc: self.doc, at: i }
    }
}

/// The 1-based `index`-th element of the sequence at `at`.
pub open spec fn element(d: DocModel, at: int, index: int) -> Option<int> {
    match d.nodes[at] {
        NodeModel::Sequence(items) => if 1 <= index <= items.len() {
            Some(items[index - 1] as int)
        } else {
            None
        },
        _ => None,
    }
}

/// The key node of `entry` is the string `name`.
pub open spec fn key_is(d: DocModel, entry: (usize, usize), name: Seq<char>) -> bool {
    d.nodes[entry.0 as int] == NodeModel::Str(name)
}

/// The first entry whose key is the string `name`.
pub open spec fn first_entry(d: DocModel, entries: Seq<(usize, usize)>, name: Seq<char>) -> Option<int> {
    if exists|k: int| 0 <= k < entries.len() && #[trigger] key_is(d, entries[k], name) {
        Some(
            choose|k: int|
                0 <= k < entries.len() && #[trigger] key_is(d, entries[k], name) && forall|j: int|
                    0 <= j < k ==> !#[trigger] key_is(d, entries[j], name),
        )
    } else {
        None
    }
}

/// The value of the entry keyed by the string `name` in the mapping at `at`.
pub open spec fn member(d: DocModel, at: int, name: Seq<char>) -> Option<int> {
    match d.nodes[at] {
        NodeModel::Mapping(entries) => match first_entry(d, entries, name) {
            Some(k) => Some(entries[k].1 as int),
            None => None,
        },
        _ => None,
    }
}

/// The node that `key` finds below the node at `at`.
pub open spec fn lookup(d: DocModel, at: int, key: KeyModel) -> Option<int> {
    match key {
        KeyModel::Index(i) => element(d, at, i),
        KeyModel::Name(name) => member(d, at, name),
        KeyModel::Other => None,
    }
}

/// What materializing a node gives: a host scalar, or a handle on the node
/// where it is a sequence or a mapping.
#[derive(Debug)]
pub enum Materialized {
    Null,
    Boolean(bool),
    Integer(i64),
    /// The bit pattern of an IEEE-754 binary64 number.
    Float(u64),
    Text(String),
    Handle(Handle),
}

pub ghost enum MaterializedModel {
    Null,
    Boolean(bool),
    Integer(i64),
    Float(u64),
    Text(Seq<char>),
    Handle(HandleModel),
}

impl View for Materialized {
    type V = MaterializedModel;

    open spec fn view(&self) -> MaterializedModel {
        match self {
            Materialized::Null => MaterializedModel::Null,
            Materialized::Boolean(b) => MaterializedModel::Boolean(*b),
            Materialized::Integer(i) => MaterializedModel::Integer(*i),
            Materialized::Float(bits) => MaterializedModel::Float(*bits),
            Materialized::Text(s) => MaterializedModel::Text(s@),
            Materialized::Handle(h) => MaterializedModel::Handle(h@),
        }
    }
}

/// The conversion of a node to a host value: an exact integer where the
/// number has one, else its float value; composite nodes become handles.
pub open spec fn materialize_at(d: DocModel, at: int) -> Result<MaterializedModel, ViewError> {
    match d.nodes[at] {
        NodeModel::Null => Ok(MaterializedModel::Null),
        NodeModel::Bool(b) => Ok(MaterializedModel::Boolean(b)),
        NodeModel::Num(n) => match n.int {
            Some(i) => Ok(MaterializedModel::Integer(i)),
            None => match n.float_bits {
                Some(bits) => Ok(MaterializedModel::Float(bits)),
                None => Err(ViewError::Conversion),
            },
        },
        NodeModel::Str(s) => Ok(MaterializedModel::Text(s)),
        _ => Ok(MaterializedModel::Handle(HandleModel { doc: d, at })),
    }
}

impl Handle {
    #[verifier::type_invariant]
    closed spec fn inv(self) -> bool {
        &&& self.doc@.well_formed()
        &&& self.doc@.contains(self.at as int)
    }

    /// A handle on the top-level node of `doc`.
    pub fn new(doc: Document) -> (r: Handle)
        ensures
            r@ == (HandleModel { doc: doc@, at: doc@.top }),
    {
        let top = doc.top();
        Handle { doc: Arc::new(doc), at: top }
    }

    /// The document is well formed and holds the handle's node.
    pub fn check(&self)
        ensures
            self@.doc.well_formed(),
            self@.doc.contains(self@.at),
    {
        proof {
            use_type_invariant(self);
        }
    }

    /// The document this handle shares.
    pub fn document(&self) -> (r: &Document)
        ensures
            r@ == self@.doc,
    {
        &self.doc
    }

    /// Another handle on the same node of the same document.
    pub fn share(&self) -> (r: Handle)
        ensures
            r@ == self@,
    {
        proof {
            use_type_invariant(self);
        }
        Handle { doc: share(&self.doc), at: self.at }
    }

    /// A handle on the node at position `i` of the same document.
    pub(crate) fn moved(&self, i: usize) -> (r: Handle)
        requires
            self@.doc.contains(i as int),
        ensures
            r@ == self@.moved(i as int),
    {
        proof {
            use_type_invariant(self);
        }
        Handle { doc: share(&self.doc), at: i }
    }

    /// The position of the handle's node in its document.
    pub fn position(&self) -> (r: usize)
        ensures
            r == self@.at,
    {
        self.at
    }

    /// The handle's node.
    pub fn node(&self) -> (r: &Node)
        ensures
            r@ == self@.node(),
    {
        proof {
            use_type_invariant(self);
        }
        self.doc.node(self.at)
    }

    /// The element at 1-based position `index` of a sequence node; `None` for
    /// any other node and for an index out of 1..=len.
    pub fn get_index(&self, index: i64) -> (r: Option<Handle>)
        ensures
            match element(self@.doc, self@.at, index as int) {
                Some(i) => r is Some && r->Some_0@ == self@.moved(i),
                None => r is None,
            },
    {
        proof {
            use_type_invariant(self);
        }
        match self.node() {
            Node::Sequence(items) => {
                if index < 1 || (index - 1) as u64 >= items.len() as u64 {
                    return None;
                }
                let k = (index - 1) as usize;
                let child = items[k];
                proof {
                    assert(self@.node().links_below(self@.at));
                    assert(items@[k as int] < self@.at);
                }
                Some(self.moved(child))
            },
            _ => None,
        }
    }

    /// The value of the entry keyed by the string `name` in a mapping node
    /// (the first such entry); `None` for any other node and a missing key.
    pub fn get_name(&self, name: &String) -> (r: Option<Handle>)
        ensures
            match member(self@.doc, self@.at, name@) {
                Some(i) => r is Some && r->Some_0@ == self@.moved(i),
                None => r is None,
            },
    {
        proof {
            use_type_invariant(self);
        }
        let doc: &Document = &self.doc;
        match self.node() {
            Node::Mapping(entries) => {
                let ghost d = self@.doc;
                let mut k: usize = 0;
                while k < entries.len()
                    invariant
                        k <= entries@.len(),
                        d == self@.doc,
                        d.well_formed(),
                        d.contains(self@.at),
                        d.nodes[self@.at] == NodeModel::Mapping(entries@),
                        doc@ == d,
                        forall|j: int| 0 <= j < k ==> !#[trigger] key_is(d, entries@[j], name@),
                    decreases entries@.len() - k,
                {
                    let (key, value) = entries[k];
                    proof {
                        assert(entries@[k as int] == (key, value));
                        assert(d.nodes[self@.at].links_below(self@.at));
                    }
                    if let Node::Str(s) = doc.node(key) {
                        if *s == *name {
                            proof {
                                assert(key_is(d, entries@[k as int], name@));
                                let c = first_entry(d, entries@, name@)->Some_0;
                                assert(c == k) by {
                                    if c < k {
                                        assert(!key_is(d, entries@[c], name@));
                                    }
                                    if k < c {
                                        assert(!key_is(d, entries@[k as int], name@));
                                    }
                                }
                            }
                            return Some(self.moved(value));
                        }
                    }
                    k += 1;
                }
                None
            },
            _ => None,
        }
    }

    /// The node that `key` finds below this one: a 1-based index into a
    /// sequence, or a string key of a mapping. Every other combination,
    /// including a scalar node, finds nothing.
    pub fn get(&self, key: &Key) -> (r: Option<Handle>)
        ensures
            match lookup(self@.doc, self@.at, key@) {
                Some(i) => r is Some && r->Some_0@ == self@.moved(i),
                None => r is None,
            },
    {
        match key {
            Key::Index(i) => self.get_index(*i),
            Key::Name(name) => self.get_name(name),
            Key::Other => None,
        }
    }

    /// The node as a host value. Null, booleans and strings convert
    /// directly; a number becomes its exact integer where it has one, else
    /// its float value, else a `Conversion` error; a sequence or a mapping
    /// becomes a handle on the same node, without copying anything.
    pub fn materialize(&self) -> (r: Result<Materialized, ViewError>)
        ensures
            match materialize_at(self@.doc, self@.at) {
                Ok(m) => r is Ok && r->Ok_0@ == m,
                Err(e) => r == Err::<Materialized, ViewError>(e),
            },
    {
        match self.node() {
            Node::Null => Ok(Materialized::Null),
            Node::Bool(b) => Ok(Materialized::Boolean(*b)),
            Node::Num(n) => match n.int {
                Some(i) => Ok(Materialized::Integer(i)),
                None => match n.float_bits {
                    Some(bits) => Ok(Materialized::Float(bits)),
                    None => Err(ViewError::Conversion),
                },
            },
            Node::Str(s) => Ok(Materialized::Text(s.clone())),
            _ => Ok(Materialized::Handle(self.share())),
        }
    }
}

} // verus!
