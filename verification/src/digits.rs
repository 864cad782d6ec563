//! Decimal rendering of identifiers and strict parsing of path identifiers.
//!
//! Parsing accepts nothing but digits: an empty segment, a sign, any other
//! non-digit byte, or a value beyond `u64::MAX` is a failure.

use vstd::prelude::*;

verus! {

/// The decimal digits of `n`, most significant first, with no leading zero
/// except for `n == 0` itself.
pub open spec fn dec_digits(n: nat) -> Seq<u8>
    decreases n,
{
    if n < 10 {
        seq![(48 + n) as u8]
    } else {
        dec_digits(n / 10).push((48 + n % 10) as u8)
    }
}

/// Whether `b` is an ASCII decimal digit.
pub open spec fn is_digit(b: u8) -> bool {
    48 <= b <= 57
}

/// Whether every byte of `s` is a decimal digit.
pub open spec fn all_digits(s: Seq<u8>) -> bool {
    forall|i: int| 0 <= i < s.len() ==> is_digit(#[trigger] s[i])
}

/// The numeric value of a digit string, most significant digit first.
pub open spec fn dec_value(s: Seq<u8>) -> nat
    recommends
        all_digits(s),
    decreases s.len(),
{
    if s.len() == 0 {
        0
    } else {
        (dec_value(s.drop_last()) * 10 + (s.last() - 48)) as nat
    }
}

/// Strict decimal parse: the whole of `s` must be digits, must be non-empty,
/// and must denote a value that fits in `u64`; anything else is `None`.
pub open spec fn parse_u64(s: Seq<u8>) -> Option<u64> {
    if s.len() == 0 || !all_digits(s) || dec_value(s) > u64::MAX {
        None
    } else {
        Some(dec_value(s) as u64)
    }
}

/// The value of a prefix of a digit string never exceeds the value of the
/// whole string.
pub proof fn lemma_dec_value_take_le(s: Seq<u8>, i: int)
    requires
        0 <= i <= s.len(),
        all_digits(s),
    ensures
        dec_value(s.take(i)) <= dec_value(s),
    decreases s.len() - i,
{
    if i == s.len() {
        assert(s.take(i) =~= s);
    } else {
        assert(s.take(i + 1).drop_last() =~= s.take(i));
        assert(s.take(i + 1).last() == s[i]);
        assert(dec_value(s.take(i + 1)) == dec_value(s.take(i)) * 10 + (s[i] - 48));
        lemma_dec_value_take_le(s, i + 1);
    }
}

/// Appends the decimal digits of `n` to `out`.
pub fn push_decimal(out: &mut Vec<u8>, n: u64)
    ensures
        final(out)@ == old(out)@ + dec_digits(n as nat),
    decreases n,
{
    if n < 10 {
        out.push(48 + (n as u8));
        proof {
            assert(out@ =~= old(out)@ + dec_digits(n as nat));
        }
    } else {
        push_decimal(out, n / 10);
        out.push(48 + ((n % 10) as u8));
        proof {
            assert(dec_digits(n as nat) == dec_digits(n as nat / 10).push(
                (48 + n as nat % 10) as u8,
            ));
            assert(out@ =~= old(out)@ + dec_digits(n as nat));
        }
    }
}

/// Parses the bytes of `s` from `start` to the end as a decimal `u64`,
/// exactly as [`parse_u64`] describes.
pub fn parse_u64_bytes(s: &[u8], start: usize) -> (r: Option<u64>)
    requires
        start <= s@.len(),
    ensures
        r == parse_u64(s@.skip(start as int)),
{
    let ghost t = s@.skip(start as int);
    let n: usize = s.len();
    if start == n {
        return None;
    }
    let mut acc: u64 = 0;
    let mut i: usize = start;
    while i < n
        invariant
            start <= i <= n,
            n == s@.len(),
            t == s@.skip(start as int),
            all_digits(t.take(i - start)),
            acc == dec_value(t.take(i - start)),
        decreases n - i,
    {
        let b = s[i];
        proof {
            assert(t[i - start] == s@[i as int]);
            assert(t.take(i - start + 1).drop_last() =~= t.take(i - start));
            assert(t.take(i - start + 1).last() == t[i - start]);
        }
        if b < 48 || b > 57 {
            proof {
                assert(!all_digits(t));
            }
            return None;
        }
        let d: u64 = (b - 48) as u64;
        if acc > (u64::MAX - d) / 10 {
            proof {
                let bound = (u64::MAX - d) as int;
                assert(bound == 10 * (bound / 10) + bound % 10);
                assert(dec_value(t.take(i - start + 1)) > u64::MAX);
                if all_digits(t) {
                    lemma_dec_value_take_le(t, i - start + 1);
                }
            }
            return None;
        }
        proof {
            let bound = (u64::MAX - d) as int;
            assert(bound == 10 * (bound / 10) + bound % 10);
            assert(10 * (acc as int) + d <= u64::MAX);
        }
        acc = acc * 10 + d;
        i = i + 1;
    }
    proof {
        assert(t.take(n - start) =~= t);
    }
    Some(acc)
}

} // verus!
