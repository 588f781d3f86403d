//! Decimal text of integers, as RESP writes lengths, counts and integer replies.
use vstd::prelude::*;

verus! {

/// The ASCII code of a decimal digit.
pub open spec fn is_digit(b: u8) -> bool {
    48 <= b <= 57
}

pub open spec fn all_digits(t: Seq<u8>) -> bool {
    forall|i: int| 0 <= i < t.len() ==> is_digit(#[trigger] t[i])
}

/// Decimal digits of `n`, most significant first, without leading zeros.
pub open spec fn digits_of(n: nat) -> Seq<u8>
    decreases n,
{
    if n < 10 {
        seq![(48 + n) as u8]
    } else {
        digits_of(n / 10).push((48 + n % 10) as u8)
    }
}

/// Decimal text of a signed integer: a `-` before the digits of a negative one.
pub open spec fn int_text(n: int) -> Seq<u8> {
    if n < 0 {
        seq![45u8] + digits_of((-n) as nat)
    } else {
        digits_of(n as nat)
    }
}

/// The same text, as characters.
pub open spec fn int_chars(n: int) -> Seq<char> {
    int_text(n).map_values(|b: u8| b as char)
}

/// The value of a run of decimal digits (leading zeros allowed).
pub open spec fn digits_value(t: Seq<u8>) -> nat
    decreases t.len(),
{
    if t.len() == 0 {
        0
    } else {
        digits_value(t.drop_last()) * 10 + (t.last() - 48) as nat
    }
}

/// A signed decimal: an optional `-`, then at least one digit.
pub open spec fn signed_value(t: Seq<u8>) -> Option<int> {
    if t.len() > 0 && t[0] == 45 {
        let d = t.subrange(1, t.len() as int);
        if d.len() > 0 && all_digits(d) {
            Some(-(digits_value(d) as int))
        } else {
            None
        }
    } else if t.len() > 0 && all_digits(t) {
        Some(digits_value(t) as int)
    } else {
        None
    }
}

/// A signed decimal whose value is an `i64`.
pub open spec fn i64_value(t: Seq<u8>) -> Option<int> {
    match signed_value(t) {
        Some(v) => if i64::MIN <= v <= i64::MAX {
            Some(v)
        } else {
            None
        },
        None => None,
    }
}

proof fn lemma_digits_value_prefix(t: Seq<u8>, i: int, j: int)
    requires
        0 <= i <= j <= t.len(),
        all_digits(t),
    ensures
        digits_value(t.subrange(0, i)) <= digits_value(t.subrange(0, j)),
    decreases j - i,
{
    if i < j {
        lemma_digits_value_prefix(t, i, j - 1);
        assert(t.subrange(0, j).drop_last() =~= t.subrange(0, j - 1));
    }
}

/// Decimal digits of `n`.
pub fn u64_text(n: u64) -> (r: Vec<u8>)
    ensures
        r@ == digits_of(n as nat),
    decreases n,
{
    if n < 10 {
        vec![(48 + n) as u8]
    } else {
        let mut v = u64_text(n / 10);
        v.push((48 + n % 10) as u8);
        v
    }
}

/// Decimal text of `n`.
pub fn i64_text(n: i64) -> (r: Vec<u8>)
    ensures
        r@ == int_text(n as int),
{
    if n < 0 {
        let m: u64 = (-(n + 1)) as u64 + 1;
        let mut v: Vec<u8> = vec![45u8];
        let d = u64_text(m);
        let mut i: usize = 0;
        while i < d.len()
            invariant
                0 <= i <= d@.len(),
                v@ == seq![45u8] + d@.subrange(0, i as int),
            decreases d@.len() - i,
        {
            v.push(d[i]);
            assert(d@.subrange(0, i + 1) =~= d@.subrange(0, i as int).push(d@[i as int]));
            i += 1;
        }
        assert(d@.subrange(0, d@.len() as int) =~= d@);
        v
    } else {
        u64_text(n as u64)
    }
}

/// Reads `s[from..to]` as a signed decimal that fits an `i64`.
pub fn parse_i64(s: &[u8], from: usize, to: usize) -> (r: Option<i64>)
    requires
        from <= to <= s@.len(),
    ensures
        r matches Some(v) ==> i64_value(s@.subrange(from as int, to as int)) == Some(v as int),
        r is None ==> i64_value(s@.subrange(from as int, to as int)) is None,
{
    let ghost t = s@.subrange(from as int, to as int);
    if from == to {
        return None;
    }
    let neg = s[from] == 45u8;
    assert(t[0] == s@[from as int]);
    let start: usize = if neg { from + 1 } else { from };
    let ghost d = s@.subrange(start as int, to as int);
    assert(neg ==> d =~= t.subrange(1, t.len() as int));
    assert(!neg ==> d =~= t);
    if start == to {
        return None;
    }
    // 2^63: the magnitude of i64::MIN
    let bound: u64 = 9223372036854775808;
    let mut acc: u64 = 0;
    let mut i: usize = start;
    while i < to
        invariant
            start <= i <= to <= s@.len(),
            d == s@.subrange(start as int, to as int),
            all_digits(d.subrange(0, i - start)),
            acc as nat == digits_value(d.subrange(0, i - start)),
            acc <= bound,
            bound == 9223372036854775808,
            t == s@.subrange(from as int, to as int),
            t.len() > 0,
            neg ==> t[0] == 45 && d == t.subrange(1, t.len() as int),
            !neg ==> t[0] != 45 && d == t,
        decreases to - i,
    {
        let b = s[i];
        assert(d[i - start] == b);
        if b < 48 || b > 57 {
            assert(!all_digits(d));
            return None;
        }
        let dig: u64 = (b - 48) as u64;
        assert(dig <= 9);
        assert(d.subrange(0, i + 1 - start).drop_last() =~= d.subrange(0, i - start));
        if acc > (bound - dig) / 10 {
            assert(digits_value(d.subrange(0, i + 1 - start)) > bound) by (nonlinear_arith)
                requires
                    acc > (bound - dig) / 10,
                    digits_value(d.subrange(0, i + 1 - start)) == acc * 10 + dig,
                    dig <= 9,
            ;
            proof {
                if all_digits(d) {
                    lemma_digits_value_prefix(d, i + 1 - start, d.len() as int);
                    assert(d.subrange(0, d.len() as int) =~= d);
                }
            }
            return None;
        }
        assert(acc * 10 + dig <= bound) by (nonlinear_arith)
            requires
                acc <= (bound - dig) / 10,
                dig <= 9,
        ;
        acc = acc * 10 + dig;
        assert(all_digits(d.subrange(0, i + 1 - start))) by {
            assert forall|k: int| 0 <= k < i + 1 - start implies is_digit(
                #[trigger] d.subrange(0, i + 1 - start)[k],
            ) by {
                if k < i - start {
                    assert(d.subrange(0, i + 1 - start)[k] == d.subrange(0, i - start)[k]);
                }
            }
        }
        i += 1;
    }
    assert(d.subrange(0, to - start) =~= d);
    if neg {
        if acc == bound {
            Some(i64::MIN)
        } else {
            Some(-(acc as i64))
        }
    } else if acc < bound {
        Some(acc as i64)
    } else {
        None
    }
}

} // verus!
