//! Properties that relate the operations of the library to one another.

use vstd::prelude::*;

use crate::document::{DocModel, NodeModel};
use crate::eager::{eager_at, eager_entries, eager_items, HostModel};
use crate::iter::{entry_key, step_at};
use crate::pointer::resolve;
use crate::view::{lookup, materialize_at, HandleModel, KeyModel, MaterializedModel, ViewError};

verus! {

/// Every key of every mapping in the document is null, a boolean, a number
/// or a string.
pub open spec fn keys_scalar(d: DocModel) -> bool {
    forall|i: int, k: int|
        #![trigger d.nodes[i]->Mapping_0[k]]
        d.contains(i) && d.nodes[i] is Mapping && 0 <= k < d.nodes[i]->Mapping_0.len() ==> d.nodes[
            d.nodes[i]->Mapping_0[k].0 as int]
            .is_scalar()
}

/// What a caller obtains from the node at `at` through handles alone:
/// materialize it and, where that gives a handle, step through its children
/// and do the same with each key and value.
pub open spec fn lazy_at(d: DocModel, at: int) -> Result<HostModel, ViewError>
    decreases at + 1, 2int, 0int,
{
    if !d.contains(at) {
        Err(ViewError::Conversion)
    } else {
        match materialize_at(d, at) {
            Err(e) => Err(e),
            Ok(m) => expand(d, m, at + 1),
        }
    }
}

/// A materialized value made whole: a scalar as it is, a handle on a node
/// before `bound` by stepping through the node's children.
pub open spec fn expand(d: DocModel, m: MaterializedModel, bound: int) -> Result<
    HostModel,
    ViewError,
>
    decreases bound, 1int, 0int,
{
    match m {
        MaterializedModel::Null => Ok(HostModel::Null),
        MaterializedModel::Boolean(b) => Ok(HostModel::Boolean(b)),
        MaterializedModel::Integer(i) => Ok(HostModel::Integer(i)),
        MaterializedModel::Float(bits) => Ok(HostModel::Float(bits)),
        MaterializedModel::Text(s) => Ok(HostModel::Text(s)),
        MaterializedModel::Handle(h) => if 0 <= h.at < bound && h.doc == d {
            match h.node() {
                NodeModel::Sequence(items) => match lazy_values(d, h, items.len() as int) {
                    Ok(v) => Ok(HostModel::List(v)),
                    Err(e) => Err(e),
                },
                NodeModel::Mapping(entries) => match lazy_pairs(d, h, entries.len() as int) {
                    Ok(v) => Ok(HostModel::Table(v)),
                    Err(e) => Err(e),
                },
                _ => Err(ViewError::Conversion),
            }
        } else {
            Err(ViewError::Conversion)
        },
    }
}

/// The values of the first `n` steps over the sequence of `h`, made whole.
pub open spec fn lazy_values(d: DocModel, h: HandleModel, n: int) -> Result<
    Seq<HostModel>,
    ViewError,
>
    decreases h.at + 1, 0int, n,
{
    if n <= 0 || h.at < 0 {
        Ok(Seq::empty())
    } else {
        match lazy_values(d, h, n - 1) {
            Err(e) => Err(e),
            Ok(prefix) => match step_at(h, n - 1) {
                Err(e) => Err(e),
                Ok((_, v)) => match expand(d, v, h.at) {
                    Ok(x) => Ok(prefix.push(x)),
                    Err(e) => Err(e),
                },
            },
        }
    }
}

/// The keys and values of the first `n` steps over the mapping of `h`, made
/// whole.
pub open spec fn lazy_pairs(d: DocModel, h: HandleModel, n: int) -> Result<
    Seq<(HostModel, HostModel)>,
    ViewError,
>
    decreases h.at + 1, 0int, n,
{
    if n <= 0 || h.at < 0 {
        Ok(Seq::empty())
    } else {
        match lazy_pairs(d, h, n - 1) {
            Err(e) => Err(e),
            Ok(prefix) => match step_at(h, n - 1) {
                Err(e) => Err(e),
                Ok((k, v)) => match expand(d, k, h.at) {
                    Err(e) => Err(e),
                    Ok(kx) => match expand(d, v, h.at) {
                        Ok(vx) => Ok(prefix.push((kx, vx))),
                        Err(e) => Err(e),
                    },
                },
            },
        }
    }
}

/// Lazy and eager decoding agree: materializing the node at `at` and every
/// handle reachable from it, stepping through each composite node, gives
/// exactly what converting the node whole gives, errors included. Mapping
/// keys must be scalars, as stepping through a mapping refuses other keys.
pub proof fn lemma_lazy_matches_eager(d: DocModel, at: int)
    requires
        d.well_formed(),
        keys_scalar(d),
        d.contains(at),
    ensures
        lazy_at(d, at) == eager_at(d, at),
    decreases at, 1int, 0int,
{
    let h = HandleModel { doc: d, at };
    assert(d.nodes[at].links_below(at));
    match d.nodes[at] {
        NodeModel::Sequence(items) => {
            lemma_values(d, at, items.len() as int);
        },
        NodeModel::Mapping(entries) => {
            lemma_pairs(d, at, entries.len() as int);
        },
        _ => {},
    }
}

proof fn lemma_expand_bound(d: DocModel, m: MaterializedModel, b1: int, b2: int)
    requires
        m is Handle ==> 0 <= m->Handle_0.at < b1 && m->Handle_0.at < b2,
    ensures
        expand(d, m, b1) == expand(d, m, b2),
{
}

/// The child at `c` made whole through a handle, as the step over it
/// materializes it, is the child converted whole.
proof fn lemma_child(d: DocModel, c: int, bound: int)
    requires
        d.well_formed(),
        keys_scalar(d),
        d.contains(c),
        c < bound,
    ensures
        (match materialize_at(d, c) {
            Err(e) => Err(e),
            Ok(m) => expand(d, m, bound),
        }) == eager_at(d, c),
    decreases c, 2int, 0int,
{
    lemma_lazy_matches_eager(d, c);
    match materialize_at(d, c) {
        Ok(m) => {
            lemma_expand_bound(d, m, bound, c + 1);
        },
        Err(_) => {},
    }
}

proof fn lemma_values(d: DocModel, at: int, n: int)
    requires
        d.well_formed(),
        keys_scalar(d),
        d.contains(at),
        d.nodes[at] is Sequence,
        0 <= n <= d.nodes[at]->Sequence_0.len(),
    ensures
        lazy_values(d, HandleModel { doc: d, at }, n) == eager_items(
            d,
            at,
            d.nodes[at]->Sequence_0,
            n,
        ),
    decreases at, 0int, n,
{
    if n > 0 {
        let items = d.nodes[at]->Sequence_0;
        assert(d.nodes[at].links_below(at));
        let c = items[n - 1] as int;
        assert(c < at);
        lemma_values(d, at, n - 1);
        lemma_child(d, c, at);
    }
}

proof fn lemma_pairs(d: DocModel, at: int, n: int)
    requires
        d.well_formed(),
        keys_scalar(d),
        d.contains(at),
        d.nodes[at] is Mapping,
        0 <= n <= d.nodes[at]->Mapping_0.len(),
    ensures
        lazy_pairs(d, HandleModel { doc: d, at }, n) == eager_entries(
            d,
            at,
            d.nodes[at]->Mapping_0,
            n,
        ),
    decreases at, 0int, n,
{
    if n > 0 {
        let entries = d.nodes[at]->Mapping_0;
        assert(d.nodes[at].links_below(at));
        assert(crate::document::entries_below(entries, at));
        let e = entries[n - 1];
        assert(e.0 < at && e.1 < at);
        assert(d.nodes[e.0 as int].is_scalar());
        lemma_pairs(d, at, n - 1);
        lemma_child(d, e.0 as int, at);
        lemma_child(d, e.1 as int, at);
        let h = HandleModel { doc: d, at };
        assert(entry_key(h, e.0 as int) == materialize_at(d, e.0 as int));
    }
}

/// `get` on a sequence counts from 1: index 1 finds the first element, and
/// an index of 0 or below, or past the last element, finds nothing.
pub proof fn lemma_sequence_get(d: DocModel, at: int)
    requires
        d.well_formed(),
        d.contains(at),
        d.nodes[at] is Sequence,
    ensures
        ({
            let items = d.nodes[at]->Sequence_0;
            &&& items.len() > 0 ==> lookup(d, at, KeyModel::Index(1)) == Some(items[0] as int)
            &&& forall|i: int|
                i <= 0 || i > items.len() ==> #[trigger] lookup(d, at, KeyModel::Index(i)) is None
            &&& forall|i: int|
                1 <= i <= items.len() ==> #[trigger] lookup(d, at, KeyModel::Index(i)) == Some(
                    items[i - 1] as int,
                )
        }),
{
}

/// Stepping through a sequence of `n` elements yields, at step `k` for each
/// `k` below `n`, the 1-based position `k + 1` with the `k`-th element, in
/// order; there are exactly `n` such steps (after them every step yields
/// nothing, as `Entries::next` states).
pub proof fn lemma_sequence_steps(d: DocModel, at: int)
    requires
        d.well_formed(),
        d.contains(at),
        d.nodes[at] is Sequence,
    ensures
        ({
            let items = d.nodes[at]->Sequence_0;
            let h = HandleModel { doc: d, at };
            &&& h.node().child_count() == items.len()
            &&& forall|k: int|
                0 <= k < items.len() ==> #[trigger] step_at(h, k) == match materialize_at(
                    d,
                    items[k] as int,
                ) {
                    Ok(v) => Ok((MaterializedModel::Integer((k + 1) as i64), v)),
                    Err(e) => Err(e),
                }
        }),
{
}

/// The keys that the steps over a mapping yield, in step order.
pub open spec fn yielded_keys(h: HandleModel, n: nat) -> Seq<MaterializedModel> {
    Seq::new(n, |k: int| step_at(h, k)->Ok_0.0)
}

/// The keys of a mapping's entries as host values, in document order.
pub open spec fn mapping_keys(d: DocModel, entries: Seq<(usize, usize)>) -> Seq<MaterializedModel> {
    Seq::new(entries.len(), |k: int| materialize_at(d, entries[k].0 as int)->Ok_0)
}

/// Stepping through a mapping whose steps all succeed yields every key of
/// the mapping exactly once: the yielded keys are the mapping's keys in
/// document order, one step per entry, so the two key sets are equal, and
/// the yielded keys hold no duplicate where the mapping's keys hold none.
pub proof fn lemma_mapping_keys_once(d: DocModel, at: int)
    requires
        d.well_formed(),
        d.contains(at),
        d.nodes[at] is Mapping,
        forall|k: int|
            0 <= k < d.nodes[at]->Mapping_0.len() ==> #[trigger] step_at(
                HandleModel { doc: d, at },
                k,
            ) is Ok,
    ensures
        ({
            let entries = d.nodes[at]->Mapping_0;
            let h = HandleModel { doc: d, at };
            &&& h.node().child_count() == entries.len()
            &&& yielded_keys(h, entries.len()) == mapping_keys(d, entries)
            &&& yielded_keys(h, entries.len()).to_set() == mapping_keys(d, entries).to_set()
            &&& mapping_keys(d, entries).no_duplicates() ==> yielded_keys(
                h,
                entries.len(),
            ).no_duplicates()
        }),
{
    let entries = d.nodes[at]->Mapping_0;
    let h = HandleModel { doc: d, at };
    assert forall|k: int| 0 <= k < entries.len() implies yielded_keys(h, entries.len())[k]
        == mapping_keys(d, entries)[k] by {
        assert(step_at(h, k) is Ok);
        let key = entries[k].0 as int;
        if d.nodes[key].is_scalar() {
            assert(entry_key(h, key) == materialize_at(d, key));
        }
    }
    assert(yielded_keys(h, entries.len()) =~= mapping_keys(d, entries));
}

/// A path is resolved from the document's top-level node whichever handle
/// it is asked of: two handles on one document resolve every path alike,
/// and each resolves it as a handle on the top-level node does.
pub proof fn lemma_pointer_from_top(a: HandleModel, b: HandleModel, path: Seq<char>)
    requires
        a.doc == b.doc,
    ensures
        resolve(a.doc, path) == resolve(b.doc, path),
        resolve(a.doc, path) == resolve(a.moved(a.doc.top).doc, path),
{
}

} // verus!
