//! Compiled regular expressions, and a bounded cache of them.

use regex::bytes::Regex as Compiled;
use regex::Error as CompileError;
use vstd::prelude::*;

verus! {

#[verifier::external_type_specification]
#[verifier::external_body]
pub struct ExCompiledRegex(Compiled);

#[verifier::external_type_specification]
#[verifier::external_body]
pub struct ExRegexError(CompileError);

/// Whether the regex crate accepts `pattern`, within its default limits. It
/// depends on the pattern alone.
pub uninterp spec fn compiles(pattern: Seq<char>) -> bool;

/// Relies on `regex::bytes::Regex::new`: it compiles the pattern, or reports
/// why it cannot.
#[verifier::external_body]
fn compile(pattern: &str) -> (r: Result<Compiled, CompileError>)
    ensures
        r is Ok <==> compiles(pattern@),
{
    Compiled::new(pattern)
}

/// Relies on `Clone` for `regex::bytes::Regex`: a second handle on the same
/// compiled expression.
#[verifier::external_body]
fn clone_compiled(re: &Compiled) -> Compiled {
    re.clone()
}

/// Relies on `Display` for `regex::Error`: the text that says why a pattern
/// was refused.
#[verifier::external_body]
fn describe(e: &CompileError) -> String {
    e.to_string()
}

/// Why a pattern could not be compiled.
#[derive(Clone, Debug)]
pub struct PatternError {
    pub message: String,
}

/// A compiled regular expression over bytes, with the pattern it was
/// compiled from.
#[derive(Debug)]
pub struct Regex {
    pattern: String,
    compiled: Compiled,
}

impl View for Regex {
    type V = Seq<char>;

    /// The pattern.
    closed spec fn view(&self) -> Seq<char> {
        self.pattern@
    }
}

impl Regex {
    /// The regex for `re`, from `cache` where it holds one, else compiled
    /// and then kept in `cache`.
    pub fn new(cache: &mut RegexCache, re: &str) -> (r: Result<Regex, PatternError>)
        ensures
            r is Ok <==> compiles(re@),
            r is Ok ==> r->Ok_0@ == re@,
            final(cache).capacity() == old(cache).capacity(),
            final(cache)@ == if old(cache)@.contains(re@) || !compiles(re@) {
                old(cache)@
            } else {
                kept_after_insert(old(cache)@, re@, old(cache).capacity() as nat)
            },
    {
        cache.get_or_compile(re)
    }

    /// The pattern the regex was compiled from.
    pub fn as_str(&self) -> (r: &str)
        ensures
            r@ == self@,
    {
        self.pattern.as_str()
    }

    /// The compiled expression.
    pub fn compiled(&self) -> &Compiled {
        &self.compiled
    }

    /// A second handle on the same compiled expression.
    pub fn share(&self) -> (r: Regex)
        ensures
            r@ == self@,
    {
        Regex { pattern: self.pattern.clone(), compiled: clone_compiled(&self.compiled) }
    }
}

/// The patterns a cache of `capacity` keeps after `pattern` is added to
/// `kept`, oldest first: where it is full, the oldest goes.
pub open spec fn kept_after_insert(kept: Seq<Seq<char>>, pattern: Seq<char>, capacity: nat) -> Seq<
    Seq<char>,
> {
    if capacity == 0 {
        kept
    } else if kept.len() >= capacity {
        kept.drop_first().push(pattern)
    } else {
        kept.push(pattern)
    }
}

/// Compiled regexes kept by pattern, at most `capacity` of them. When it is
/// full, adding one drops the one that was added first.
#[derive(Debug)]
pub struct RegexCache {
    capacity: usize,
    entries: Vec<Regex>,
}

impl View for RegexCache {
    type V = Seq<Seq<char>>;

    /// The patterns kept, oldest first.
    closed spec fn view(&self) -> Seq<Seq<char>> {
        self.entries@.map_values(|r: Regex| r@)
    }
}

impl RegexCache {
    #[verifier::type_invariant]
    closed spec fn inv(self) -> bool {
        &&& self@.len() <= self.capacity
        &&& self@.no_duplicates()
        &&& forall|i: int| 0 <= i < self@.len() ==> compiles(#[trigger] self@[i])
    }

    pub closed spec fn capacity(self) -> usize {
        self.capacity
    }

    /// An empty cache that keeps at most `capacity` regexes.
    pub fn new(capacity: usize) -> (r: RegexCache)
        ensures
            r@ == Seq::<Seq<char>>::empty(),
            r.capacity() == capacity,
    {
        let r = RegexCache { capacity, entries: Vec::new() };
        assert(r@ =~= Seq::<Seq<char>>::empty());
        r
    }

    /// The number of regexes kept.
    pub fn len(&self) -> (r: usize)
        ensures
            r == self@.len(),
    {
        self.entries.len()
    }

    /// The regex for `pattern`: the kept one where there is one, else a
    /// newly compiled one, which is then kept.
    pub fn get_or_compile(&mut self, pattern: &str) -> (r: Result<Regex, PatternError>)
        ensures
            r is Ok <==> compiles(pattern@),
            r is Ok ==> r->Ok_0@ == pattern@,
            final(self).capacity() == old(self).capacity(),
            final(self)@ == if old(self)@.contains(pattern@) || !compiles(pattern@) {
                old(self)@
            } else {
                kept_after_insert(old(self)@, pattern@, old(self).capacity() as nat)
            },
    {
        proof {
            use_type_invariant(&*self);
        }
        let key = pattern.to_owned();
        let mut i: usize = 0;
        while i < self.entries.len()
            invariant
                i <= self.entries@.len(),
                key@ == pattern@,
                self@ == old(self)@,
                self.capacity == old(self).capacity,
                forall|j: int| 0 <= j < self@.len() ==> compiles(#[trigger] self@[j]),
                forall|j: int| 0 <= j < i ==> self@[j] != pattern@,
            decreases self.entries@.len() - i,
        {
            if self.entries[i].pattern == key {
                assert(self@[i as int] == pattern@);
                return Ok(self.entries[i].share());
            }
            i += 1;
        }
        assert(!self@.contains(pattern@));
        let compiled = match compile(pattern) {
            Ok(c) => c,
            Err(e) => {
                return Err(PatternError { message: describe(&e) });
            },
        };
        let found = Regex { pattern: key, compiled };
        let result = found.share();
        if self.capacity == 0 {
            return Ok(result);
        }
        let mut entries: Vec<Regex> = Vec::new();
        std::mem::swap(&mut self.entries, &mut entries);
        let ghost kept = entries@.map_values(|r: Regex| r@);
        assert(kept == old(self)@);
        if entries.len() >= self.capacity {
            let mut rest: Vec<Regex> = Vec::new();
            let mut k: usize = 1;
            while k < entries.len()
                invariant
                    1 <= k <= entries@.len(),
                    rest@.map_values(|r: Regex| r@) == kept.subrange(1, k as int),
                    kept == entries@.map_values(|r: Regex| r@),
                decreases entries@.len() - k,
            {
                let ghost before_push = rest@;
                let next = entries[k].share();
                assert(next@ == kept[k as int]);
                rest.push(next);
                proof {
                    assert(rest@ == before_push.push(next));
                    assert(rest@.map_values(|r: Regex| r@) =~= before_push.map_values(
                        |r: Regex| r@,
                    ).push(next@));
                    assert(kept.subrange(1, k + 1) =~= kept.subrange(1, k as int).push(
                        kept[k as int],
                    ));
                }
                k += 1;
            }
            entries = rest;
            assert(entries@.map_values(|r: Regex| r@) =~= kept.drop_first());
        }
        let ghost before = entries@.map_values(|r: Regex| r@);
        entries.push(found);
        proof {
            assert(entries@.map_values(|r: Regex| r@) =~= before.push(pattern@));
            let now = entries@.map_values(|r: Regex| r@);
            assert forall|a: int, b: int| 0 <= a < b < now.len() implies now[a] != now[b] by {
                if b == now.len() - 1 {
                    assert(before.contains(now[a]));
                    assert(kept.contains(now[a]));
                }
            }
        }
        self.entries = entries;
        Ok(result)
    }
}

} // verus!
