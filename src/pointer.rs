//! Absolute, slash-delimited paths into a document (JSON Pointer, RFC 6901).
//!
//! A path is resolved against the document's top-level node whichever handle
//! it is asked of. The empty path names the top node; any other path starts
//! with `/`, and each `/` opens a reference token. In a token, `~1` stands
//! for `/` and then `~0` for `~`. A token picks the entry of a mapping with
//! that string key, or the element of a sequence at that 0-based index,
//! written in decimal without sign or leading zero.

use vstd::prelude::*;

use crate::document::{DocModel, Node, NodeModel};
use crate::text::{all_digits, capped_value, chars_of, digits_value, string_of};
use crate::view::{member, Handle};

verus! {

/// `s` with each occurrence of the pair `a b`, taken from the left and
/// without overlap, replaced by `c`.
pub open spec fn replace_pair(s: Seq<char>, a: char, b: char, c: char) -> Seq<char>
    decreases s.len(),
{
    if s.len() == 0 {
        s
    } else if s.len() >= 2 && s[0] == a && s[1] == b {
        seq![c] + replace_pair(s.subrange(2, s.len() as int), a, b, c)
    } else {
        seq![s[0]] + replace_pair(s.drop_first(), a, b, c)
    }
}

/// A reference token with its escapes undone: `~1` becomes `/`, then `~0`
/// becomes `~`.
pub open spec fn unescape(t: Seq<char>) -> Seq<char> {
    replace_pair(replace_pair(t, '~', '1', '/'), '~', '0', '~')
}

/// The index that a token writes: one or more digits, with no leading zero
/// unless the token is `0`.
pub open spec fn array_index(t: Seq<char>) -> Option<nat> {
    if t.len() > 0 && all_digits(t) && (t[0] != '0' || t.len() == 1) {
        Some(digits_value(t))
    } else {
        None
    }
}

/// The node that the unescaped token `t` picks below the node at `at`.
pub open spec fn token_step(d: DocModel, at: int, t: Seq<char>) -> Option<int> {
    match d.nodes[at] {
        NodeModel::Mapping(_) => member(d, at, t),
        NodeModel::Sequence(items) => match array_index(t) {
            Some(i) => if i < items.len() {
                Some(items[i as int] as int)
            } else {
                None
            },
            None => None,
        },
        _ => None,
    }
}

/// The position of the first `/` in `s`, or its length where it has none.
pub open spec fn token_len(s: Seq<char>) -> nat
    decreases s.len(),
{
    if s.len() == 0 || s[0] == '/' {
        0
    } else {
        1 + token_len(s.drop_first())
    }
}

/// Resolves the tokens of `rest`, the part of a path after a `/`, from the
/// node at `at`.
pub open spec fn resolve_tokens(d: DocModel, at: int, rest: Seq<char>) -> Option<int>
    decreases rest.len(),
{
    let n = token_len(rest) as int;
    match token_step(d, at, unescape(rest.take(n))) {
        Some(next) => if n >= rest.len() {
            Some(next)
        } else {
            resolve_tokens(d, next, rest.subrange(n + 1, rest.len() as int))
        },
        None => None,
    }
}

/// The node that `path` names in the document, from its top-level node.
pub open spec fn resolve(d: DocModel, path: Seq<char>) -> Option<int> {
    if path.len() == 0 {
        Some(d.top)
    } else if path[0] != '/' {
        None
    } else {
        resolve_tokens(d, d.top, path.drop_first())
    }
}

proof fn lemma_token_len(s: Seq<char>, j: int)
    requires
        0 <= j <= s.len(),
        forall|m: int| 0 <= m < j ==> s[m] != '/',
        j == s.len() || s[j] == '/',
    ensures
        token_len(s) == j,
    decreases j,
{
    if j > 0 {
        let t = s.drop_first();
        assert forall|m: int| 0 <= m < j - 1 implies t[m] != '/' by {
            assert(t[m] == s[m + 1]);
        }
        lemma_token_len(t, j - 1);
    }
}

/// `s` with each pair `a b` replaced by `c`, as `replace_pair` says.
fn replace_pair_exec(s: &Vec<char>, a: char, b: char, c: char) -> (r: Vec<char>)
    ensures
        r@ == replace_pair(s@, a, b, c),
{
    let mut out: Vec<char> = Vec::new();
    let mut i: usize = 0;
    proof {
        assert(s@.subrange(0, s@.len() as int) =~= s@);
        assert(out@ + replace_pair(s@, a, b, c) =~= replace_pair(s@, a, b, c));
    }
    while i < s.len()
        invariant
            i <= s@.len(),
            out@ + replace_pair(s@.subrange(i as int, s@.len() as int), a, b, c) == replace_pair(
                s@,
                a,
                b,
                c,
            ),
        decreases s@.len() - i,
    {
        let ghost rest = s@.subrange(i as int, s@.len() as int);
        if i + 1 < s.len() && s[i] == a && s[i + 1] == b {
            proof {
                assert(rest.subrange(2, rest.len() as int) =~= s@.subrange(
                    i + 2,
                    s@.len() as int,
                ));
                assert(out@.push(c) + replace_pair(
                    s@.subrange(i + 2, s@.len() as int),
                    a,
                    b,
                    c,
                ) =~= out@ + replace_pair(rest, a, b, c));
            }
            out.push(c);
            i += 2;
        } else {
            proof {
                assert(rest.drop_first() =~= s@.subrange(i + 1, s@.len() as int));
                assert(out@.push(s@[i as int]) + replace_pair(
                    s@.subrange(i + 1, s@.len() as int),
                    a,
                    b,
                    c,
                ) =~= out@ + replace_pair(rest, a, b, c));
            }
            out.push(s[i]);
            i += 1;
        }
    }
    proof {
        assert(s@.subrange(i as int, s@.len() as int) =~= Seq::<char>::empty());
        assert(out@ + Seq::<char>::empty() =~= out@);
    }
    out
}

/// The index that `t` writes, where it writes one below `bound`; `None`
/// where it writes none or one at or above `bound`.
fn index_below(t: &Vec<char>, bound: usize) -> (r: Option<usize>)
    ensures
        match array_index(t@) {
            Some(i) => if i < bound {
                r == Some(i as usize)
            } else {
                r is None
            },
            None => r is None,
        },
{
    if t.len() == 0 || (t[0] == '0' && t.len() != 1) {
        return None;
    }
    proof {
        assert(t@.subrange(0, t@.len() as int) =~= t@);
    }
    match capped_value(t, 0, t.len(), bound as u128) {
        Some(v) => if v < bound as u128 {
            Some(v as usize)
        } else {
            None
        },
        None => None,
    }
}

impl Handle {
    /// The node that the unescaped token `t` picks below this one.
    fn token_step(&self, t: Vec<char>) -> (r: Option<Handle>)
        ensures
            match token_step(self@.doc, self@.at, t@) {
                Some(i) => r is Some && r->Some_0@ == self@.moved(i),
                None => r is None,
            },
    {
        self.check();
        match self.node() {
            Node::Mapping(_) => self.get_name(&string_of(t)),
            Node::Sequence(items) => match index_below(&t, items.len()) {
                Some(i) => {
                    proof {
                        assert(self@.node().links_below(self@.at));
                        assert(items@[i as int] < self@.at);
                    }
                    Some(self.moved(items[i]))
                },
                None => None,
            },
            _ => None,
        }
    }

    /// The node that `path` names, resolved from the document's top-level
    /// node wherever this handle stands; `None` where a token finds nothing
    /// or a non-empty path does not start with `/`.
    pub fn pointer(&self, path: &str) -> (r: Option<Handle>)
        ensures
            match resolve(self@.doc, path@) {
                Some(i) => r is Some && r->Some_0@ == self@.moved(i),
                None => r is None,
            },
    {
        self.check();
        let ghost d = self@.doc;
        let chars = chars_of(path);
        let top = self.moved(self.top());
        if chars.len() == 0 {
            return Some(top);
        }
        if chars[0] != '/' {
            return None;
        }
        let mut cur = top;
        let mut start: usize = 1;
        proof {
            assert(chars@.subrange(1, chars@.len() as int) =~= path@.drop_first());
        }
        loop
            invariant
                1 <= start <= chars@.len(),
                chars@ == path@,
                cur@.doc == d,
                self@.doc == d,
                resolve(d, path@) == resolve_tokens(
                    d,
                    cur@.at,
                    chars@.subrange(start as int, chars@.len() as int),
                ),
            decreases chars@.len() - start,
        {
            let ghost rest = chars@.subrange(start as int, chars@.len() as int);
            let mut j: usize = start;
            while j < chars.len() && chars[j] != '/'
                invariant
                    start <= j <= chars@.len(),
                    forall|m: int| start <= m < j ==> chars@[m] != '/',
                decreases chars@.len() - j,
            {
                j += 1;
            }
            proof {
                assert forall|m: int| 0 <= m < j - start implies rest[m] != '/' by {
                    assert(rest[m] == chars@[start + m]);
                }
                lemma_token_len(rest, j - start);
            }
            let mut token: Vec<char> = Vec::new();
            let mut m: usize = start;
            while m < j
                invariant
                    start <= m <= j,
                    j <= chars@.len(),
                    token@ == chars@.subrange(start as int, m as int),
                decreases j - m,
            {
                token.push(chars[m]);
                m += 1;
                proof {
                    assert(token@ =~= chars@.subrange(start as int, m as int));
                }
            }
            proof {
                assert(token@ =~= rest.take(j - start));
            }
            let step1 = replace_pair_exec(&token, '~', '1', '/');
            let unescaped = replace_pair_exec(&step1, '~', '0', '~');
            match cur.token_step(unescaped) {
                None => {
                    return None;
                },
                Some(next) => {
                    if j == chars.len() {
                        return Some(self.moved_to(&next));
                    }
                    proof {
                        assert(rest.subrange(j - start + 1, rest.len() as int) =~= chars@.subrange(
                            j + 1,
                            chars@.len() as int,
                        ));
                    }
                    cur = next;
                    start = j + 1;
                },
            }
        }
    }

    /// A handle on the node of `other`, which shares this handle's document.
    fn moved_to(&self, other: &Handle) -> (r: Handle)
        requires
            other@.doc == self@.doc,
        ensures
            r@ == self@.moved(other@.at),
    {
        other.check();
        other.share()
    }

    /// The position of the document's top-level node.
    fn top(&self) -> (r: usize)
        ensures
            r == self@.doc.top,
    {
        self.document().top()
    }
}

} // verus!
