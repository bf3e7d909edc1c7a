//! Non-negative spans of time, as scripts write them.

use vstd::arithmetic::div_mod::lemma_fundamental_div_mod_converse;
use vstd::prelude::*;

use crate::text::{all_digits, capped, capped_value, chars_of, digits_value};

verus! {

pub const NANOS_PER_SEC: u32 = 1_000_000_000;

/// A span of time: whole seconds and the nanoseconds beyond them.
#[derive(Clone, Copy, Debug, PartialEq, Eq, Structural)]
pub struct Duration {
    secs: u64,
    nanos: u32,
}

impl View for Duration {
    type V = nat;

    /// The span in nanoseconds.
    closed spec fn view(&self) -> nat {
        self.secs as nat * NANOS_PER_SEC as nat + self.nanos as nat
    }
}

/// The number that `s` writes as Rust reads a `u64`: an optional `+`, then
/// one or more decimal digits, with a value that fits in 64 bits.
pub open spec fn parse_u64(s: Seq<char>) -> Option<nat> {
    let digits = if s.len() > 0 && s[0] == '+' {
        s.drop_first()
    } else {
        s
    };
    if digits.len() > 0 && all_digits(digits) && digits_value(digits) <= u64::MAX {
        Some(digits_value(digits))
    } else {
        None
    }
}

/// `s` ends with the characters of `suffix`.
pub open spec fn ends_with(s: Seq<char>, suffix: Seq<char>) -> bool {
    s.len() >= suffix.len() && s.subrange(s.len() - suffix.len(), s.len() as int) == suffix
}

/// The span, in nanoseconds, that a text such as `250ms` writes: a count
/// read as `parse_u64` reads it, then `us` for microseconds, `ms` for
/// milliseconds or `s` for seconds. The suffixes are tried in that order and
/// the first that ends the text decides.
pub open spec fn parse_duration(s: Seq<char>) -> Option<nat> {
    if ends_with(s, seq!['u', 's']) {
        match parse_u64(s.take(s.len() - 2)) {
            Some(v) => Some(v * 1000),
            None => None,
        }
    } else if ends_with(s, seq!['m', 's']) {
        match parse_u64(s.take(s.len() - 2)) {
            Some(v) => Some(v * 1_000_000),
            None => None,
        }
    } else if ends_with(s, seq!['s']) {
        match parse_u64(s.take(s.len() - 1)) {
            Some(v) => Some(v * NANOS_PER_SEC as nat),
            None => None,
        }
    } else {
        None
    }
}

/// The count that `t[..hi]` writes, as `parse_u64` reads it.
fn parse_count(t: &Vec<char>, hi: usize) -> (r: Option<u64>)
    requires
        hi <= t@.len(),
    ensures
        match parse_u64(t@.take(hi as int)) {
            Some(v) => r == Some(v as u64),
            None => r is None,
        },
{
    let ghost s = t@.take(hi as int);
    let lo: usize = if hi > 0 && t[0] == '+' {
        1
    } else {
        0
    };
    if lo >= hi {
        return None;
    }
    proof {
        if lo == 1 {
            assert(s.drop_first() =~= t@.subrange(1, hi as int));
        } else {
            assert(s =~= t@.subrange(0, hi as int));
        }
    }
    match capped_value(t, lo, hi, u64::MAX as u128 + 1) {
        Some(v) => if v <= u64::MAX as u128 {
            Some(v as u64)
        } else {
            None
        },
        None => None,
    }
}

impl Duration {
    #[verifier::type_invariant]
    closed spec fn inv(self) -> bool {
        self.nanos < NANOS_PER_SEC
    }

    /// The span of `secs` seconds.
    pub fn from_secs(secs: u64) -> (r: Duration)
        ensures
            r@ == secs as nat * NANOS_PER_SEC as nat,
    {
        Duration { secs, nanos: 0 }
    }

    /// The span of `millis` milliseconds.
    pub fn from_millis(millis: u64) -> (r: Duration)
        ensures
            r@ == millis as nat * 1_000_000,
    {
        let secs = millis / 1000;
        let nanos = ((millis % 1000) * 1_000_000) as u32;
        proof {
            assert(millis == secs * 1000 + millis % 1000);
            assert(secs as nat * 1_000_000_000 + nanos as nat == millis as nat * 1_000_000);
        }
        Duration { secs, nanos }
    }

    /// The span of `micros` microseconds.
    pub fn from_micros(micros: u64) -> (r: Duration)
        ensures
            r@ == micros as nat * 1000,
    {
        let secs = micros / 1_000_000;
        let nanos = ((micros % 1_000_000) * 1000) as u32;
        proof {
            assert(micros == secs * 1_000_000 + micros % 1_000_000);
            assert(secs as nat * 1_000_000_000 + nanos as nat == micros as nat * 1000);
        }
        Duration { secs, nanos }
    }

    /// The span of `secs` seconds and `nanos` nanoseconds; `None` where
    /// `nanos` is a whole second or more.
    pub fn from_parts(secs: u64, nanos: u32) -> (r: Option<Duration>)
        ensures
            nanos < NANOS_PER_SEC ==> r is Some && r->Some_0@ == secs as nat * NANOS_PER_SEC as nat
                + nanos as nat,
            nanos >= NANOS_PER_SEC ==> r is None,
    {
        if nanos >= NANOS_PER_SEC {
            None
        } else {
            Some(Duration { secs, nanos })
        }
    }

    /// The whole seconds of the span.
    pub fn as_secs(&self) -> (r: u64)
        ensures
            r == self@ / NANOS_PER_SEC as nat,
    {
        proof {
            use_type_invariant(self);
            lemma_fundamental_div_mod_converse(
                self@ as int,
                NANOS_PER_SEC as int,
                self.secs as int,
                self.nanos as int,
            );
        }
        self.secs
    }

    /// The nanoseconds of the span beyond its whole seconds.
    pub fn subsec_nanos(&self) -> (r: u32)
        ensures
            r == self@ % NANOS_PER_SEC as nat,
    {
        proof {
            use_type_invariant(self);
            lemma_fundamental_div_mod_converse(
                self@ as int,
                NANOS_PER_SEC as int,
                self.secs as int,
                self.nanos as int,
            );
        }
        self.nanos
    }

    /// The whole milliseconds of the span.
    pub fn as_millis(&self) -> (r: u128)
        ensures
            r == self@ / 1_000_000,
    {
        proof {
            use_type_invariant(self);
            let q = self.secs as int * 1000 + self.nanos as int / 1_000_000;
            let rem = self.nanos as int % 1_000_000;
            assert(self@ as int == q * 1_000_000 + rem) by (nonlinear_arith)
                requires
                    self@ as int == self.secs as int * 1_000_000_000 + self.nanos as int,
                    q == self.secs as int * 1000 + self.nanos as int / 1_000_000,
                    rem == self.nanos as int % 1_000_000,
                    self.nanos as int == (self.nanos as int / 1_000_000) * 1_000_000 + rem,
            ;
            lemma_fundamental_div_mod_converse(self@ as int, 1_000_000, q, rem);
        }
        self.secs as u128 * 1000 + (self.nanos / 1_000_000) as u128
    }

    /// The span of a non-negative whole number of seconds; `None` for a
    /// negative one.
    pub fn from_integer(secs: i64) -> (r: Option<Duration>)
        ensures
            secs >= 0 ==> r is Some && r->Some_0@ == secs as nat * NANOS_PER_SEC as nat,
            secs < 0 ==> r is None,
    {
        if secs < 0 {
            None
        } else {
            Some(Duration::from_secs(secs as u64))
        }
    }

    /// The span that a text such as `250ms`, `10us` or `3s` writes; `None`
    /// where it writes none.
    pub fn parse(text: &str) -> (r: Option<Duration>)
        ensures
            match parse_duration(text@) {
                Some(n) => r is Some && r->Some_0@ == n,
                None => r is None,
            },
    {
        let t = chars_of(text);
        let n = t.len();
        proof {
            assert(seq!['u', 's'].len() == 2);
            assert(seq!['m', 's'].len() == 2);
            assert(seq!['s'].len() == 1);
        }
        if n >= 2 && t[n - 2] == 'u' && t[n - 1] == 's' {
            proof {
                assert(t@.subrange(n - 2, n as int) =~= seq!['u', 's']);
            }
            return match parse_count(&t, n - 2) {
                Some(v) => Some(Duration::from_micros(v)),
                None => None,
            };
        }
        proof {
            if n >= 2 {
                assert(t@.subrange(n - 2, n as int)[0] == t@[n - 2]);
                assert(t@.subrange(n - 2, n as int)[1] == t@[n - 1]);
            }
        }
        if n >= 2 && t[n - 2] == 'm' && t[n - 1] == 's' {
            proof {
                assert(t@.subrange(n - 2, n as int) =~= seq!['m', 's']);
            }
            return match parse_count(&t, n - 2) {
                Some(v) => Some(Duration::from_millis(v)),
                None => None,
            };
        }
        if n >= 1 && t[n - 1] == 's' {
            proof {
                assert(t@.subrange(n - 1, n as int) =~= seq!['s']);
            }
            return match parse_count(&t, n - 1) {
                Some(v) => Some(Duration::from_secs(v)),
                None => None,
            };
        }
        proof {
            if n >= 1 {
                assert(t@.subrange(n - 1, n as int)[0] == t@[n - 1]);
            }
        }
        None
    }
}

} // verus!
