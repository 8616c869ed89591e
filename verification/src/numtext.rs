//! Decimal text for the object artifact and for display.
//!
//! The object artifact is line-oriented ASCII text; every numeric field is a
//! decimal integer. This module gives exact specifications for rendering
//! integers to decimal bytes and parsing them back, with round-trip lemmas.

use vstd::prelude::*;

verus! {

/// Decimal digits of `n`, most significant first, as ASCII bytes.
pub open spec fn dec_bytes(n: nat) -> Seq<u8>
    decreases n,
{
    if n < 10 {
        seq![(48 + n) as u8]
    } else {
        dec_bytes(n / 10).push((48 + n % 10) as u8)
    }
}

/// Decimal text of a signed value: a minus sign when negative, then digits.
pub open spec fn int_bytes(i: int) -> Seq<u8> {
    if i < 0 {
        seq![45u8] + dec_bytes((-i) as nat)
    } else {
        dec_bytes(i as nat)
    }
}

/// Value of a digit run (most significant first); meaningful when every
/// byte is an ASCII digit.
pub open spec fn digits_val(s: Seq<u8>) -> nat
    decreases s.len(),
{
    if s.len() == 0 {
        0
    } else {
        digits_val(s.drop_last()) * 10 + (s.last() - 48) as nat
    }
}

/// Every byte is an ASCII digit.
pub open spec fn all_digits(s: Seq<u8>) -> bool {
    forall|i: int| 0 <= i < s.len() ==> 48 <= #[trigger] s[i] <= 57
}

/// What `parse_u64` returns: the digit run's value if the text is one or
/// more digits and the value fits in a `u64`, and nothing otherwise.
pub open spec fn parse_u64_val(s: Seq<u8>) -> Option<u64> {
    if s.len() > 0 && all_digits(s) && digits_val(s) <= u64::MAX {
        Some(digits_val(s) as u64)
    } else {
        None
    }
}

/// What `parse_i32` returns: an optional minus sign, then digits, the value
/// in `i32` range.
pub open spec fn parse_i32_val(s: Seq<u8>) -> Option<i32> {
    if s.len() > 0 && s[0] == 45 {
        let mag = s.drop_first();
        if mag.len() > 0 && all_digits(mag) && digits_val(mag) <= 0x8000_0000 {
            Some((-(digits_val(mag) as int)) as i32)
        } else {
            None
        }
    } else {
        if s.len() > 0 && all_digits(s) && digits_val(s) <= 0x7fff_ffff {
            Some(digits_val(s) as i32)
        } else {
            None
        }
    }
}

pub proof fn lemma_dec_bytes_digits(n: nat)
    ensures
        dec_bytes(n).len() >= 1,
        all_digits(dec_bytes(n)),
    decreases n,
{
    if n >= 10 {
        lemma_dec_bytes_digits(n / 10);
        assert forall|i: int| 0 <= i < dec_bytes(n).len() implies 48 <= #[trigger] dec_bytes(
            n,
        )[i] <= 57 by {
            if i < dec_bytes(n / 10).len() {
                assert(dec_bytes(n)[i] == dec_bytes(n / 10)[i]);
            }
        }
    }
}

/// Rendering then reading a digit run gives the value back.
pub proof fn lemma_digits_val_dec_bytes(n: nat)
    ensures
        digits_val(dec_bytes(n)) == n,
    decreases n,
{
    if n < 10 {
        let s1 = dec_bytes(n);
        assert(s1.drop_last() =~= Seq::<u8>::empty());
        assert(s1.last() == (48 + n) as u8);
        assert(digits_val(s1) == digits_val(s1.drop_last()) * 10 + (s1.last() - 48) as nat);
        assert(digits_val(Seq::<u8>::empty()) == 0);
    } else {
        lemma_digits_val_dec_bytes(n / 10);
        let s1 = dec_bytes(n);
        assert(s1.drop_last() =~= dec_bytes(n / 10));
        assert(s1.last() == (48 + n % 10) as u8);
        assert(digits_val(s1) == digits_val(s1.drop_last()) * 10 + (s1.last() - 48) as nat);
        assert(digits_val(s1.drop_last()) == n / 10);
        assert(n / 10 * 10 + n % 10 == n);
    }
}

/// A digit run's value only grows as more digits follow.
pub proof fn lemma_digits_val_take_le(s: Seq<u8>, n: int)
    requires
        0 <= n <= s.len(),
        all_digits(s),
    ensures
        digits_val(s.take(n)) <= digits_val(s),
    decreases s.len() - n,
{
    if n < s.len() {
        lemma_digits_val_take_le(s, n + 1);
        assert(s.take(n + 1).drop_last() =~= s.take(n));
        assert(digits_val(s.take(n + 1)) == digits_val(s.take(n)) * 10 + (s.take(n + 1).last()
            - 48) as nat);
    } else {
        assert(s.take(n) =~= s);
    }
}

/// Appends the decimal digits of `n` to `out`.
pub fn push_u64_dec(out: &mut Vec<u8>, n: u64)
    ensures
        final(out)@ == old(out)@ + dec_bytes(n as nat),
    decreases n,
{
    if n >= 10 {
        push_u64_dec(out, n / 10);
    }
    let d: u8 = (48 + (n % 10)) as u8;
    out.push(d);
    proof {
        if n >= 10 {
            assert(out@ =~= old(out)@ + dec_bytes(n as nat));
        } else {
            assert(out@ =~= old(out)@ + dec_bytes(n as nat));
        }
    }
}

/// Appends the decimal text of `i` (sign, then digits) to `out`.
pub fn push_i32_dec(out: &mut Vec<u8>, i: i32)
    ensures
        final(out)@ == old(out)@ + int_bytes(i as int),
{
    if i < 0 {
        out.push(45);
        let mag: u64 = (-(i as i64)) as u64;
        push_u64_dec(out, mag);
        proof {
            assert(out@ =~= old(out)@ + int_bytes(i as int));
        }
    } else {
        push_u64_dec(out, i as u64);
    }
}

/// Reads a digit run as a `u64`; nothing on empty, non-digit, or overflow.
pub fn parse_u64(s: &[u8]) -> (r: Option<u64>)
    ensures
        r == parse_u64_val(s@),
{
    proof {
        assert(s@.skip(0) =~= s@);
    }
    parse_u64_slice_from(s, 0)
}

/// Reads signed decimal text as an `i32`; nothing when malformed or out of
/// range.
pub fn parse_i32(s: &[u8]) -> (r: Option<i32>)
    ensures
        r == parse_i32_val(s@),
{
    let n = s.len();
    if n == 0 {
        return None;
    }
    if s[0] == 45 {
        match parse_u64_slice_from(s, 1) {
            Some(m) => {
                if m <= 0x8000_0000 {
                    Some((-(m as i64)) as i32)
                } else {
                    None
                }
            },
            None => None,
        }
    } else {
        match parse_u64(s) {
            Some(m) => {
                if m <= 0x7fff_ffff {
                    Some(m as i32)
                } else {
                    None
                }
            },
            None => None,
        }
    }
}

/// Reads the digit run that starts at `from`; the whole tail must be digits.
pub fn parse_u64_slice_from(s: &[u8], from: usize) -> (r: Option<u64>)
    requires
        from <= s@.len(),
    ensures
        r == parse_u64_val(s@.skip(from as int)),
{
    let ghost tail = s@.skip(from as int);
    let n = s.len();
    if n == from {
        return None;
    }
    let mut acc: u64 = 0;
    let mut i: usize = from;
    while i < n
        invariant
            from <= i <= n,
            n == s@.len(),
            tail == s@.skip(from as int),
            all_digits(tail.take(i - from)),
            acc == digits_val(tail.take(i - from)),
        decreases n - i,
    {
        let b = s[i];
        proof {
            assert(tail[i - from] == s@[i as int]);
        }
        if b < 48 || b > 57 {
            proof {
                assert(!all_digits(tail));
            }
            return None;
        }
        let d: u64 = (b - 48) as u64;
        proof {
            assert(tail.take(i + 1 - from).drop_last() =~= tail.take(i - from));
            assert(tail.take(i + 1 - from).last() == s@[i as int]);
        }
        acc = match acc.checked_mul(10) {
            Some(m) => {
                match m.checked_add(d) {
                    Some(v) => v,
                    None => {
                        proof {
                            if all_digits(tail) {
                                lemma_digits_val_take_le(tail, i + 1 - from);
                                assert(tail.take(tail.len() as int) =~= tail);
                            }
                        }
                        return None;
                    },
                }
            },
            None => {
                proof {
                    if all_digits(tail) {
                        lemma_digits_val_take_le(tail, i + 1 - from);
                        assert(tail.take(tail.len() as int) =~= tail);
                    }
                }
                return None;
            },
        };
        i = i + 1;
    }
    proof {
        assert(tail.take(n - from) =~= tail);
    }
    Some(acc)
}

/// Round trip for unsigned values: rendering then parsing gives the value
/// back.
pub proof fn lemma_u64_round_trip(n: u64)
    ensures
        parse_u64_val(dec_bytes(n as nat)) == Some(n),
{
    lemma_dec_bytes_digits(n as nat);
    lemma_digits_val_dec_bytes(n as nat);
}

/// Round trip for signed values: rendering then parsing gives the value
/// back.
pub proof fn lemma_i32_round_trip(i: i32)
    ensures
        parse_i32_val(int_bytes(i as int)) == Some(i),
{
    if i < 0 {
        let mag = (-(i as int)) as nat;
        lemma_dec_bytes_digits(mag);
        lemma_digits_val_dec_bytes(mag);
        assert(int_bytes(i as int).drop_first() =~= dec_bytes(mag));
        assert(mag <= 0x8000_0000);
    } else {
        lemma_dec_bytes_digits(i as nat);
        lemma_digits_val_dec_bytes(i as nat);
        assert(dec_bytes(i as nat)[0] != 45) by {
            if i >= 10 {
                lemma_dec_bytes_digits((i as nat) / 10);
                assert(dec_bytes(i as nat)[0] == dec_bytes((i as nat) / 10)[0]);
            }
        }
    }
}

} // verus!
