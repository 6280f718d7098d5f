//! Decimal numerals over raw bytes: reading them the way `from_str` does for
//! the integer types, and writing them.
use vstd::prelude::*;

verus! {

pub open spec fn is_digit(b: u8) -> bool {
    48 <= b && b <= 57
}

pub open spec fn all_digits(s: Seq<u8>) -> bool {
    forall|i: int| 0 <= i < s.len() ==> #[trigger] is_digit(s[i])
}

/// The number that a run of decimal digits denotes.
pub open spec fn digits_value(s: Seq<u8>) -> nat
    decreases s.len(),
{
    if s.len() == 0 {
        0
    } else {
        digits_value(s.drop_last()) * 10 + (s.last() - 48) as nat
    }
}

/// The value of a non-empty run of digits, or `None` for anything else.
pub open spec fn numeral_value(s: Seq<u8>) -> Option<nat> {
    if s.len() > 0 && all_digits(s) {
        Some(digits_value(s))
    } else {
        None
    }
}

/// What follows an optional leading `+`.
pub open spec fn unsigned_body(s: Seq<u8>) -> Seq<u8> {
    if s.len() > 0 && s[0] == 43 {
        s.subrange(1, s.len() as int)
    } else {
        s
    }
}

/// The value of `numeral_value(s)` when it is at most `bound`.
pub open spec fn bounded_value(s: Seq<u8>, bound: nat) -> Option<nat> {
    match numeral_value(s) {
        Some(v) => if v <= bound {
            Some(v)
        } else {
            None
        },
        None => None,
    }
}

/// `u64::from_str` on the text `s`: an optional `+`, then one digit or more,
/// of a value that fits.
pub open spec fn parse_u64_spec(s: Seq<u8>) -> Option<u64> {
    match bounded_value(unsigned_body(s), u64::MAX as nat) {
        Some(v) => Some(v as u64),
        None => None,
    }
}

/// `i32::from_str` on the text `s`: an optional sign, then one digit or more,
/// of a value in `i32`'s range.
pub open spec fn parse_i32_spec(s: Seq<u8>) -> Option<i32> {
    if s.len() > 0 && s[0] == 45 {
        match bounded_value(s.subrange(1, s.len() as int), 2147483648) {
            Some(v) => Some((0 - v) as i32),
            None => None,
        }
    } else {
        match bounded_value(unsigned_body(s), 2147483647) {
            Some(v) => Some(v as i32),
            None => None,
        }
    }
}

/// The shortest decimal numeral of `n`.
pub open spec fn decimal_digits(n: nat) -> Seq<u8>
    decreases n,
{
    if n < 10 {
        seq![(48 + n) as u8]
    } else {
        decimal_digits(n / 10).push((48 + n % 10) as u8)
    }
}

proof fn lemma_prefix_value_le(t: Seq<u8>, k: int)
    requires
        all_digits(t),
        0 <= k <= t.len(),
    ensures
        digits_value(t.subrange(0, k)) <= digits_value(t),
    decreases t.len() - k,
{
    if k == t.len() {
        assert(t.subrange(0, k) =~= t);
    } else {
        let u = t.drop_last();
        assert(all_digits(u)) by {
            assert forall|i: int| 0 <= i < u.len() implies #[trigger] is_digit(u[i]) by {
                assert(is_digit(t[i]));
            }
        }
        lemma_prefix_value_le(u, k);
        assert(u.subrange(0, k) =~= t.subrange(0, k));
    }
}

/// The digits that `decimal_digits` writes read back as the same number.
pub proof fn lemma_decimal_round_trip(n: nat)
    ensures
        decimal_digits(n).len() > 0,
        all_digits(decimal_digits(n)),
        digits_value(decimal_digits(n)) == n,
    decreases n,
{
    let d = decimal_digits(n);
    if n < 10 {
        assert(d.drop_last() =~= Seq::<u8>::empty());
        assert(d.last() as int == 48 + n);
        assert(digits_value(Seq::<u8>::empty()) == 0);
    } else {
        lemma_decimal_round_trip(n / 10);
        let p = decimal_digits(n / 10);
        assert(d.drop_last() =~= p);
        assert forall|i: int| 0 <= i < d.len() implies #[trigger] is_digit(d[i]) by {
            if i < p.len() {
                assert(is_digit(p[i]));
            }
        }
        assert(d.last() as int == 48 + n % 10);
        assert(n == (n / 10) * 10 + n % 10);
    }
}

/// Reads `s[start..end]` as a run of digits whose value is at most `bound`.
pub fn read_bounded(s: &[u8], start: usize, end: usize, bound: u64) -> (r: Option<u64>)
    requires
        start <= end <= s@.len(),
    ensures
        match r {
            Some(v) => bounded_value(s@.subrange(start as int, end as int), bound as nat)
                == Some(v as nat),
            None => bounded_value(s@.subrange(start as int, end as int), bound as nat)
                is None,
        },
{
    let ghost whole = s@.subrange(start as int, end as int);
    if start == end {
        return None;
    }
    let mut acc: u64 = 0;
    let mut i: usize = start;
    while i < end
        invariant
            start <= i <= end,
            end <= s@.len(),
            whole == s@.subrange(start as int, end as int),
            all_digits(s@.subrange(start as int, i as int)),
            acc as nat == digits_value(s@.subrange(start as int, i as int)),
            acc <= bound,
        decreases end - i,
    {
        let b = s[i];
        let ghost seen = s@.subrange(start as int, i as int + 1);
        assert(seen.drop_last() =~= s@.subrange(start as int, i as int));
        if b < 48 || b > 57 {
            assert(!is_digit(whole[i - start]));
            return None;
        }
        let d = (b - 48) as u64;
        assert(all_digits(seen)) by {
            assert forall|j: int| 0 <= j < seen.len() implies #[trigger] is_digit(seen[j]) by {
                if j < i - start {
                    assert(is_digit(s@.subrange(start as int, i as int)[j]));
                }
            }
        }
        if d > bound || acc > (bound - d) / 10 {
            assert(acc * 10 + d > bound) by (nonlinear_arith)
                requires
                    d > bound || acc > (bound - d) / 10,
                    d <= 9,
            ;
            proof {
                assert(seen =~= whole.subrange(0, i - start + 1));
                if all_digits(whole) {
                    lemma_prefix_value_le(whole, i - start + 1);
                }
            }
            return None;
        }
        assert(acc * 10 + d <= bound) by (nonlinear_arith)
            requires
                acc <= (bound - d) / 10,
                d <= bound,
        ;
        acc = acc * 10 + d;
        i = i + 1;
    }
    assert(s@.subrange(start as int, i as int) =~= whole);
    Some(acc)
}

/// Reads `s[start..end]` as `u64::from_str` would.
pub fn parse_u64(s: &[u8], start: usize, end: usize) -> (r: Option<u64>)
    requires
        start <= end <= s@.len(),
    ensures
        r == parse_u64_spec(s@.subrange(start as int, end as int)),
{
    let ghost t = s@.subrange(start as int, end as int);
    if start < end && s[start] == 43 {
        assert(unsigned_body(t) =~= s@.subrange(start + 1, end as int));
        read_bounded(s, start + 1, end, u64::MAX)
    } else {
        read_bounded(s, start, end, u64::MAX)
    }
}

/// Reads `s[start..end]` as `i32::from_str` would.
pub fn parse_i32(s: &[u8], start: usize, end: usize) -> (r: Option<i32>)
    requires
        start <= end <= s@.len(),
    ensures
        r == parse_i32_spec(s@.subrange(start as int, end as int)),
{
    let ghost t = s@.subrange(start as int, end as int);
    if start < end && s[start] == 45 {
        assert(t.subrange(1, t.len() as int) =~= s@.subrange(start + 1, end as int));
        match read_bounded(s, start + 1, end, 2147483648) {
            Some(v) => Some((0 - (v as i64)) as i32),
            None => None,
        }
    } else {
        if start < end && s[start] == 43 {
            assert(unsigned_body(t) =~= s@.subrange(start + 1, end as int));
            match read_bounded(s, start + 1, end, 2147483647) {
                Some(v) => Some(v as i32),
                None => None,
            }
        } else {
            match read_bounded(s, start, end, 2147483647) {
                Some(v) => Some(v as i32),
                None => None,
            }
        }
    }
}

/// Appends the decimal numeral of `n` to `out`.
pub fn push_decimal(n: u64, out: &mut Vec<u8>)
    ensures
        final(out)@ == old(out)@ + decimal_digits(n as nat),
    decreases n,
{
    if n >= 10 {
        push_decimal(n / 10, out);
    }
    let d = (48 + n % 10) as u8;
    out.push(d);
    assert(n < 10 ==> n % 10 == n);
}

} // verus!
