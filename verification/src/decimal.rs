use vstd::prelude::*;

verus! {

/// ASCII code of the decimal digit `d`.
pub open spec fn decimal_digit(d: int) -> u8 {
    (48 + d) as u8
}

/// The shortest decimal rendering of a non-negative integer, as ASCII
/// bytes, most significant digit first.
pub open spec fn decimal_repr(n: int) -> Seq<u8>
    decreases n,
{
    if n < 10 {
        seq![decimal_digit(n)]
    } else {
        decimal_repr(n / 10).push(decimal_digit(n % 10))
    }
}

/// Whether `b` is the ASCII code of a decimal digit.
pub open spec fn is_decimal_digit(b: u8) -> bool {
    48 <= b <= 57
}

/// Whether every byte of `s` is an ASCII decimal digit.
pub open spec fn all_decimal_digits(s: Seq<u8>) -> bool {
    forall|i: int| 0 <= i < s.len() ==> is_decimal_digit(#[trigger] s[i])
}

/// Numeric value of an ASCII digit string, most significant digit first;
/// the empty string counts as zero.
pub open spec fn decimal_value(s: Seq<u8>) -> int
    decreases s.len(),
{
    if s.len() == 0 {
        0
    } else {
        10 * decimal_value(s.drop_last()) + (s.last() - 48)
    }
}

proof fn lemma_decimal_value_nonneg(s: Seq<u8>)
    requires
        all_decimal_digits(s),
    ensures
        decimal_value(s) >= 0,
    decreases s.len(),
{
    if s.len() > 0 {
        assert(all_decimal_digits(s.drop_last()));
        lemma_decimal_value_nonneg(s.drop_last());
    }
}

/// A digit string's value is at least the value of any of its prefixes.
proof fn lemma_decimal_value_prefix(s: Seq<u8>, k: int)
    requires
        all_decimal_digits(s),
        0 <= k <= s.len(),
    ensures
        decimal_value(s.take(k)) <= decimal_value(s),
    decreases s.len(),
{
    if k == s.len() {
        assert(s.take(k) =~= s);
    } else {
        assert(s.drop_last().take(k) =~= s.take(k));
        assert(all_decimal_digits(s.drop_last()));
        lemma_decimal_value_prefix(s.drop_last(), k);
        lemma_decimal_value_nonneg(s.drop_last());
    }
}

/// Render `n` in decimal ASCII, most significant digit first, with no
/// leading zeros (zero itself renders as a single `0`).
pub fn u64_to_decimal(n: u64) -> (digits: Vec<u8>)
    ensures
        digits@ == decimal_repr(n as int),
{
    let mut rev: Vec<u8> = Vec::new();
    let mut m: u64 = n;
    proof {
        assert(decimal_repr(n as int) =~= decimal_repr(n as int) + Seq::<u8>::empty());
    }
    while m >= 10
        invariant
            decimal_repr(n as int) == decimal_repr(m as int) + rev@.reverse(),
        decreases m,
    {
        let ghost prev_rev = rev@;
        let ghost prev_m = m as int;
        let d: u8 = (m % 10) as u8;
        rev.push(48 + d);
        m = m / 10;
        proof {
            assert(48 + d == decimal_digit(prev_m % 10));
            assert(rev@.reverse() =~= seq![decimal_digit(prev_m % 10)] + prev_rev.reverse());
            assert(decimal_repr(prev_m) == decimal_repr(prev_m / 10).push(
                decimal_digit(prev_m % 10),
            ));
            assert(decimal_repr(m as int) + rev@.reverse() =~= decimal_repr(prev_m)
                + prev_rev.reverse());
        }
    }
    let mut digits: Vec<u8> = Vec::new();
    digits.push(48 + (m as u8));
    proof {
        assert(digits@ =~= seq![decimal_digit(m as int)]);
    }
    while rev.len() != 0
        invariant
            digits@ + rev@.reverse() == decimal_repr(n as int),
        decreases rev@.len(),
    {
        let ghost prev_rev = rev@;
        let ghost prev_digits = digits@;
        let popped: Option<u8> = rev.pop();
        let d: u8 = match popped {
            Some(b) => b,
            None => 0,
        };
        digits.push(d);
        proof {
            assert(rev@ =~= prev_rev.drop_last());
            assert(prev_rev.reverse() =~= seq![prev_rev.last()] + prev_rev.drop_last().reverse());
            assert(digits@ + rev@.reverse() =~= prev_digits + prev_rev.reverse());
        }
    }
    proof {
        assert(digits@ =~= digits@ + rev@.reverse());
    }
    digits
}

/// Parse an ASCII decimal string into a `u64`. Returns `Some` exactly when
/// the input is non-empty, consists of digits only, and its value fits in a
/// `u64`; no sign and no surrounding whitespace is accepted.
pub fn parse_decimal(bytes: &Vec<u8>) -> (parsed: Option<u64>)
    ensures
        parsed is Some <==> (bytes@.len() >= 1 && all_decimal_digits(bytes@) && decimal_value(
            bytes@,
        ) <= u64::MAX),
        parsed matches Some(v) ==> v == decimal_value(bytes@),
{
    if bytes.len() == 0 {
        return None;
    }
    let mut value: u64 = 0;
    let mut i: usize = 0;
    while i < bytes.len()
        invariant
            i <= bytes@.len(),
            all_decimal_digits(bytes@.take(i as int)),
            value == decimal_value(bytes@.take(i as int)),
        decreases bytes@.len() - i,
    {
        let b: u8 = bytes[i];
        if b < 48 || b > 57 {
            proof {
                assert(!is_decimal_digit(bytes@[i as int]));
            }
            return None;
        }
        let d: u64 = (b - 48) as u64;
        proof {
            assert(bytes@.take(i as int + 1).drop_last() =~= bytes@.take(i as int));
            assert(bytes@.take(i as int + 1).last() == bytes@[i as int]);
        }
        if value > (u64::MAX - d) / 10 {
            proof {
                if all_decimal_digits(bytes@) {
                    lemma_decimal_value_prefix(bytes@, i as int + 1);
                }
            }
            return None;
        }
        value = value * 10 + d;
        i = i + 1;
    }
    proof {
        assert(bytes@.take(bytes@.len() as int) =~= bytes@);
    }
    Some(value)
}

} // verus!
