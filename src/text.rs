//! Characters of strings, and the decimal numbers they write.

use vstd::prelude::*;
use vstd::std_specs::iter::IteratorSpec;

verus! {

broadcast use vstd::string::group_string_axioms;

/// The characters of `s`, in order.
pub fn chars_of(s: &str) -> (r: Vec<char>)
    ensures
        r@ == s@,
{
    let mut it = s.chars();
    proof {
        assert(it.remaining() == s@);
    }
    let mut out: Vec<char> = Vec::new();
    loop
        invariant
            it.obeys_prophetic_iter_laws(),
            out@ + it.remaining() == s@,
            it.decrease() is Some,
        decreases it.decrease()->0,
    {
        match it.next() {
            Some(c) => {
                proof {
                    assert(out@.push(c) + it.remaining() =~= s@);
                }
                out.push(c);
            },
            None => {
                assert(out@ =~= s@);
                return out;
            },
        }
    }
}

/// Relies on `String::from_iter`: the string holds the given characters in
/// order.
#[verifier::external_body]
pub(crate) fn string_of(chars: Vec<char>) -> (r: String)
    ensures
        r@ == chars@,
{
    String::from_iter(chars)
}

pub open spec fn is_digit(c: char) -> bool {
    '0' <= c <= '9'
}

pub open spec fn all_digits(t: Seq<char>) -> bool {
    forall|i: int| 0 <= i < t.len() ==> is_digit(#[trigger] t[i])
}

/// The number that the decimal digits `t` write.
pub open spec fn digits_value(t: Seq<char>) -> nat
    decreases t.len(),
{
    if t.len() == 0 {
        0
    } else {
        digits_value(t.drop_last()) * 10 + (t.last() as nat - '0' as nat) as nat
    }
}

pub open spec fn capped(v: nat, cap: nat) -> nat {
    if v < cap {
        v
    } else {
        cap
    }
}

proof fn lemma_digits_push(t: Seq<char>, c: char)
    ensures
        digits_value(t.push(c)) == digits_value(t) * 10 + (c as nat - '0' as nat) as nat,
{
    assert(t.push(c).drop_last() =~= t);
}

/// The number that the characters `t[lo..hi]` write, or `cap` where it is
/// larger; `None` where one of them is not a decimal digit.
pub(crate) fn capped_value(t: &Vec<char>, lo: usize, hi: usize, cap: u128) -> (r: Option<u128>)
    requires
        lo <= hi <= t@.len(),
        cap <= u64::MAX as u128 + 1,
    ensures
        ({
            let seg = t@.subrange(lo as int, hi as int);
            &&& all_digits(seg) ==> r == Some(capped(digits_value(seg), cap as nat) as u128)
            &&& !all_digits(seg) ==> r is None
        }),
{
    let mut acc: u128 = 0;
    let mut i: usize = lo;
    while i < hi
        invariant
            lo <= i <= hi <= t@.len(),
            cap <= u64::MAX as u128 + 1,
            acc == capped(digits_value(t@.subrange(lo as int, i as int)), cap as nat),
            all_digits(t@.subrange(lo as int, i as int)),
        decreases hi - i,
    {
        let ch = t[i];
        if !('0' <= ch && ch <= '9') {
            assert(!is_digit(t@.subrange(lo as int, hi as int)[i - lo]));
            return None;
        }
        let digit = (ch as u32 - '0' as u32) as u128;
        let ghost prefix = t@.subrange(lo as int, i as int);
        proof {
            assert(t@.subrange(lo as int, i + 1) =~= prefix.push(ch));
            lemma_digits_push(prefix, ch);
            let v = digits_value(prefix);
            assert(acc * 10 + digit <= cap * 10 + 9) by (nonlinear_arith)
                requires
                    acc <= cap,
                    digit <= 9,
            ;
            if v >= cap {
                assert(v * 10 + digit >= cap) by (nonlinear_arith)
                    requires
                        v >= cap,
                        digit >= 0,
                ;
            }
            assert forall|m: int| 0 <= m < i + 1 - lo implies is_digit(
                #[trigger] t@.subrange(lo as int, i + 1)[m],
            ) by {
                if m < i - lo {
                    assert(t@.subrange(lo as int, i + 1)[m] == prefix[m]);
                }
            }
        }
        acc = acc * 10 + digit;
        if acc > cap {
            acc = cap;
        }
        i += 1;
    }
    Some(acc)
}

} // verus!
