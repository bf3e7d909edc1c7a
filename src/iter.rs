//! Stepping through the children of a node: the elements of a sequence with
//! their 1-based positions, or the entries of a mapping in document order.

use vstd::prelude::*;

use crate::document::{Node, NodeModel};
use crate::view::{materialize_at, Handle, HandleModel, Materialized, MaterializedModel, ViewError};

verus! {

/// The host key of a mapping entry: null, a boolean, a number or a string is
/// materialized; a sequence or a mapping is refused.
pub open spec fn entry_key(h: HandleModel, key: int) -> Result<MaterializedModel, ViewError> {
    if h.doc.nodes[key].is_scalar() {
        materialize_at(h.doc, key)
    } else {
        Err(ViewError::UnsupportedKey)
    }
}

/// What the `k`-th step over the children of the node of `h` yields: for a
/// sequence, the 1-based position and the element; for a mapping, the key
/// and the value of the `k`-th entry. The key is converted before the value,
/// and the first error is the step's result.
pub open spec fn step_at(h: HandleModel, k: int) -> Result<(MaterializedModel, MaterializedModel), ViewError> {
    match h.node() {
        NodeModel::Sequence(items) => match materialize_at(h.doc, items[k] as int) {
            Ok(v) => Ok((MaterializedModel::Integer((k + 1) as i64), v)),
            Err(e) => Err(e),
        },
        NodeModel::Mapping(entries) => match entry_key(h, entries[k].0 as int) {
            Ok(key) => match materialize_at(h.doc, entries[k].1 as int) {
                Ok(v) => Ok((key, v)),
                Err(e) => Err(e),
            },
            Err(e) => Err(e),
        },
        _ => Err(ViewError::UnsupportedKey),
    }
}

/// The model of what one step returned.
pub open spec fn step_model(r: Result<(Materialized, Materialized), ViewError>) -> Result<
    (MaterializedModel, MaterializedModel),
    ViewError,
> {
    match r {
        Ok((key, value)) => Ok((key@, value@)),
        Err(e) => Err(e),
    }
}

/// A stateful walk over the children of one node. It holds a handle on the
/// node, which keeps the document alive, and the number of steps taken.
/// Every step yields one child; once the children are used up, every further
/// step yields `None`.
#[derive(Debug)]
pub struct Entries {
    handle: Handle,
    next: usize,
}

impl View for Entries {
    type V = (HandleModel, int);

    closed spec fn view(&self) -> (HandleModel, int) {
        (self.handle@, self.next as int)
    }
}

impl Entries {
    #[verifier::type_invariant]
    closed spec fn inv(self) -> bool {
        self.next <= self.handle@.node().child_count()
    }

    /// A walk over the children of the node of `handle`, from the first. A
    /// scalar node has none.
    pub fn new(handle: &Handle) -> (r: Entries)
        ensures
            r@ == (handle@, 0int),
    {
        Entries { handle: handle.share(), next: 0 }
    }

    /// The number of steps that yield a child.
    pub fn len(&self) -> (r: usize)
        ensures
            r == self@.0.node().child_count(),
    {
        match self.handle.node() {
            Node::Sequence(items) => items.len(),
            Node::Mapping(entries) => entries.len(),
            _ => 0,
        }
    }

    /// The next child; `None` once all of them have been yielded. A step
    /// that fails still uses up its child.
    pub fn next(&mut self) -> (r: Option<Result<(Materialized, Materialized), ViewError>>)
        ensures
            ({
                let (h, k) = old(self)@;
                if k < h.node().child_count() {
                    &&& final(self)@ == (h, k + 1)
                    &&& r is Some
                    &&& step_model(r->Some_0) == step_at(h, k)
                } else {
                    &&& final(self)@ == old(self)@
                    &&& r is None
                }
            }),
    {
        proof {
            use_type_invariant(&*self);
        }
        self.handle.check();
        let k = self.next;
        let ghost h = self.handle@;
        let r = match self.handle.node() {
            Node::Sequence(items) => {
                if k >= items.len() {
                    return None;
                }
                let child = items[k];
                proof {
                    assert(h.node().links_below(h.at));
                    assert(items@[k as int] < h.at);
                }
                let value = self.handle.moved(child).materialize();
                match value {
                    Ok(v) => Ok((Materialized::Integer((k + 1) as i64), v)),
                    Err(e) => Err(e),
                }
            },
            Node::Mapping(entries) => {
                if k >= entries.len() {
                    return None;
                }
                let (key, value) = entries[k];
                proof {
                    assert(h.node().links_below(h.at));
                    assert(entries@[k as int] == (key, value));
                }
                let key_handle = self.handle.moved(key);
                let key_result = match key_handle.node() {
                    Node::Sequence(_) | Node::Mapping(_) => Err(ViewError::UnsupportedKey),
                    _ => key_handle.materialize(),
                };
                match key_result {
                    Ok(km) => match self.handle.moved(value).materialize() {
                        Ok(v) => Ok((km, v)),
                        Err(e) => Err(e),
                    },
                    Err(e) => Err(e),
                }
            },
            _ => {
                return None;
            },
        };
        self.next = k + 1;
        Some(r)
    }
}

impl Handle {
    /// A walk over the children of this node.
    pub fn iter(&self) -> (r: Entries)
        ensures
            r@ == (self@, 0int),
    {
        Entries::new(self)
    }
}

} // verus!
