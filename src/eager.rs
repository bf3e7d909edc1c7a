//! Eager decoding: a whole document, or one node of it, converted at once to
//! nested host values.

use vstd::prelude::*;

use crate::document::{DocModel, Document, Node, NodeModel, Number};
use crate::view::ViewError;

verus! {

/// A fully materialized host value.
#[derive(Debug)]
pub enum Host {
    Null,
    Boolean(bool),
    Integer(i64),
    /// The bit pattern of an IEEE-754 binary64 number.
    Float(u64),
    Text(String),
    /// The elements of a sequence, in order.
    List(Vec<Host>),
    /// The (key, value) entries of a mapping, in document order.
    Table(Vec<(Host, Host)>),
}

pub ghost enum HostModel {
    Null,
    Boolean(bool),
    Integer(i64),
    Float(u64),
    Text(Seq<char>),
    List(Seq<HostModel>),
    Table(Seq<(HostModel, HostModel)>),
}

pub open spec fn host_model(h: Host) -> HostModel
    decreases h,
{
    match h {
        Host::Null => HostModel::Null,
        Host::Boolean(b) => HostModel::Boolean(b),
        Host::Integer(i) => HostModel::Integer(i),
        Host::Float(bits) => HostModel::Float(bits),
        Host::Text(s) => HostModel::Text(s@),
        Host::List(items) => HostModel::List(hosts_model(items@)),
        Host::Table(entries) => HostModel::Table(pairs_model(entries@)),
    }
}

pub open spec fn hosts_model(items: Seq<Host>) -> Seq<HostModel>
    decreases items,
{
    if items.len() == 0 {
        Seq::empty()
    } else {
        hosts_model(items.drop_last()).push(host_model(items.last()))
    }
}

pub open spec fn pairs_model(entries: Seq<(Host, Host)>) -> Seq<(HostModel, HostModel)>
    decreases entries,
{
    if entries.len() == 0 {
        Seq::empty()
    } else {
        pairs_model(entries.drop_last()).push(
            (host_model(entries.last().0), host_model(entries.last().1)),
        )
    }
}

/// The host value of a number: its exact integer where it has one, else its
/// float value, else a `Conversion` error.
pub open spec fn number_host(n: Number) -> Result<HostModel, ViewError> {
    match n.int {
        Some(i) => Ok(HostModel::Integer(i)),
        None => match n.float_bits {
            Some(bits) => Ok(HostModel::Float(bits)),
            None => Err(ViewError::Conversion),
        },
    }
}

/// The node at `at` converted whole: scalars as `materialize` converts them,
/// a sequence to the list of its converted elements, a mapping to the table
/// of its converted keys and values. The first error met, in document order,
/// is the result.
pub open spec fn eager_at(d: DocModel, at: int) -> Result<HostModel, ViewError>
    decreases at, 1int, 0int,
{
    if !d.contains(at) {
        Err(ViewError::Conversion)
    } else {
        match d.nodes[at] {
            NodeModel::Null => Ok(HostModel::Null),
            NodeModel::Bool(b) => Ok(HostModel::Boolean(b)),
            NodeModel::Num(n) => number_host(n),
            NodeModel::Str(s) => Ok(HostModel::Text(s)),
            NodeModel::Sequence(items) => match eager_items(d, at, items, items.len() as int) {
                Ok(v) => Ok(HostModel::List(v)),
                Err(e) => Err(e),
            },
            NodeModel::Mapping(entries) => match eager_entries(
                d,
                at,
                entries,
                entries.len() as int,
            ) {
                Ok(v) => Ok(HostModel::Table(v)),
                Err(e) => Err(e),
            },
        }
    }
}

/// The first `n` of `items`, children of the node at `at`, converted whole.
pub open spec fn eager_items(d: DocModel, at: int, items: Seq<usize>, n: int) -> Result<
    Seq<HostModel>,
    ViewError,
>
    decreases at, 0int, n,
{
    if n <= 0 || n > items.len() {
        Ok(Seq::empty())
    } else {
        match eager_items(d, at, items, n - 1) {
            Err(e) => Err(e),
            Ok(prefix) => if items[n - 1] < at {
                match eager_at(d, items[n - 1] as int) {
                    Ok(h) => Ok(prefix.push(h)),
                    Err(e) => Err(e),
                }
            } else {
                Err(ViewError::Conversion)
            },
        }
    }
}

/// The first `n` of `entries`, of the mapping at `at`, converted whole: the
/// key of each entry before its value.
pub open spec fn eager_entries(
    d: DocModel,
    at: int,
    entries: Seq<(usize, usize)>,
    n: int,
) -> Result<Seq<(HostModel, HostModel)>, ViewError>
    decreases at, 0int, n,
{
    if n <= 0 || n > entries.len() {
        Ok(Seq::empty())
    } else {
        match eager_entries(d, at, entries, n - 1) {
            Err(e) => Err(e),
            Ok(prefix) => if entries[n - 1].0 < at && entries[n - 1].1 < at {
                match eager_at(d, entries[n - 1].0 as int) {
                    Err(e) => Err(e),
                    Ok(k) => match eager_at(d, entries[n - 1].1 as int) {
                        Ok(v) => Ok(prefix.push((k, v))),
                        Err(e) => Err(e),
                    },
                }
            } else {
                Err(ViewError::Conversion)
            },
        }
    }
}

/// The outcome `r` of a conversion is the model's outcome `m`.
pub open spec fn host_result_is(r: Result<Host, ViewError>, m: Result<HostModel, ViewError>) -> bool {
    match m {
        Ok(h) => r is Ok && host_model(r->Ok_0) == h,
        Err(e) => r == Err::<Host, ViewError>(e),
    }
}

proof fn lemma_items_error_stays(d: DocModel, at: int, items: Seq<usize>, m: int, n: int)
    requires
        0 <= m <= n <= items.len(),
        eager_items(d, at, items, m) is Err,
    ensures
        eager_items(d, at, items, n) == eager_items(d, at, items, m),
    decreases n - m,
{
    if n > m {
        lemma_items_error_stays(d, at, items, m, n - 1);
    }
}

proof fn lemma_entries_error_stays(
    d: DocModel,
    at: int,
    entries: Seq<(usize, usize)>,
    m: int,
    n: int,
)
    requires
        0 <= m <= n <= entries.len(),
        eager_entries(d, at, entries, m) is Err,
    ensures
        eager_entries(d, at, entries, n) == eager_entries(d, at, entries, m),
    decreases n - m,
{
    if n > m {
        lemma_entries_error_stays(d, at, entries, m, n - 1);
    }
}

fn decode_at(doc: &Document, at: usize) -> (r: Result<Host, ViewError>)
    requires
        doc@.well_formed(),
        doc@.contains(at as int),
    ensures
        host_result_is(r, eager_at(doc@, at as int)),
    decreases at,
{
    let ghost d = doc@;
    match doc.node(at) {
        Node::Null => Ok(Host::Null),
        Node::Bool(b) => Ok(Host::Boolean(*b)),
        Node::Num(n) => match n.int {
            Some(i) => Ok(Host::Integer(i)),
            None => match n.float_bits {
                Some(bits) => Ok(Host::Float(bits)),
                None => Err(ViewError::Conversion),
            },
        },
        Node::Str(s) => Ok(Host::Text(s.clone())),
        Node::Sequence(items) => {
            proof {
                assert(d.nodes[at as int].links_below(at as int));
            }
            let mut out: Vec<Host> = Vec::new();
            let mut k: usize = 0;
            while k < items.len()
                invariant
                    k <= items@.len(),
                    d == doc@,
                    d.well_formed(),
                    d.contains(at as int),
                    d.nodes[at as int] == NodeModel::Sequence(items@),
                    forall|j: int| 0 <= j < items@.len() ==> (#[trigger] items@[j]) < at,
                    eager_items(d, at as int, items@, k as int) == Ok::<Seq<HostModel>, ViewError>(
                        hosts_model(out@),
                    ),
                decreases items@.len() - k,
            {
                let child = items[k];
                assert(child < at);
                match decode_at(doc, child) {
                    Ok(h) => {
                        proof {
                            assert(out@.push(h).drop_last() =~= out@);
                        }
                        out.push(h);
                    },
                    Err(e) => {
                        proof {
                            lemma_items_error_stays(
                                d,
                                at as int,
                                items@,
                                k + 1,
                                items@.len() as int,
                            );
                        }
                        return Err(e);
                    },
                }
                k += 1;
            }
            Ok(Host::List(out))
        },
        Node::Mapping(entries) => {
            proof {
                assert(d.nodes[at as int].links_below(at as int));
            }
            let mut out: Vec<(Host, Host)> = Vec::new();
            let mut k: usize = 0;
            while k < entries.len()
                invariant
                    k <= entries@.len(),
                    d == doc@,
                    d.well_formed(),
                    d.contains(at as int),
                    d.nodes[at as int] == NodeModel::Mapping(entries@),
                    crate::document::entries_below(entries@, at as int),
                    eager_entries(d, at as int, entries@, k as int) == Ok::<
                        Seq<(HostModel, HostModel)>,
                        ViewError,
                    >(pairs_model(out@)),
                decreases entries@.len() - k,
            {
                let (key, value) = entries[k];
                assert(entries@[k as int] == (key, value));
                let kh = match decode_at(doc, key) {
                    Ok(h) => h,
                    Err(e) => {
                        proof {
                            lemma_entries_error_stays(
                                d,
                                at as int,
                                entries@,
                                k + 1,
                                entries@.len() as int,
                            );
                        }
                        return Err(e);
                    },
                };
                let vh = match decode_at(doc, value) {
                    Ok(h) => h,
                    Err(e) => {
                        proof {
                            lemma_entries_error_stays(
                                d,
                                at as int,
                                entries@,
                                k + 1,
                                entries@.len() as int,
                            );
                        }
                        return Err(e);
                    },
                };
                proof {
                    assert(out@.push((kh, vh)).drop_last() =~= out@);
                }
                out.push((kh, vh));
                k += 1;
            }
            Ok(Host::Table(out))
        },
    }
}

/// The whole document converted at once, from its top-level node, with the
/// same scalar conversions as `Handle::materialize`.
pub fn decode(doc: &Document) -> (r: Result<Host, ViewError>)
    ensures
        host_result_is(r, eager_at(doc@, doc@.top)),
{
    let top = doc.top();
    decode_at(doc, top)
}

} // verus!
