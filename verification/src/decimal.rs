//! Unsigned decimal numbers in ASCII, read the way `str::parse` reads an
//! unsigned integer: an optional `+`, then one or more digits.

use vstd::prelude::*;

verus! {

/// The byte is an ASCII digit.
pub open spec fn is_digit(b: u8) -> bool {
    48 <= b <= 57
}

/// Every byte of `s` is an ASCII digit.
pub open spec fn all_digits(s: Seq<u8>) -> bool {
    forall|i: int| 0 <= i < s.len() ==> is_digit(#[trigger] s[i])
}

/// The value of a string of digits, most significant first.
pub open spec fn digits_value(s: Seq<u8>) -> nat
    decreases s.len(),
{
    if s.len() == 0 {
        0
    } else {
        digits_value(s.drop_last()) * 10 + (s.last() - 48) as nat
    }
}

/// The digits that follow an optional leading `+`.
pub open spec fn unsigned_body(s: Seq<u8>) -> Seq<u8> {
    if s.len() > 0 && s[0] == 43u8 {
        s.drop_first()
    } else {
        s
    }
}

/// The unsigned number that `s` spells, if it spells one no greater than `max`.
pub open spec fn parse_unsigned(s: Seq<u8>, max: nat) -> Option<nat> {
    let d = unsigned_body(s);
    if d.len() > 0 && all_digits(d) && digits_value(d) <= max {
        Some(digits_value(d))
    } else {
        None
    }
}

/// The ASCII digit for a value below ten.
pub open spec fn digit_byte(d: nat) -> u8 {
    (d + 48) as u8
}

/// The shortest decimal spelling of `n`.
pub open spec fn decimal(n: nat) -> Seq<u8>
    decreases n,
{
    if n < 10 {
        seq![digit_byte(n)]
    } else {
        decimal(n / 10).push(digit_byte(n % 10))
    }
}

/// A value never shrinks when more digits are appended.
pub proof fn lemma_digits_value_prefix(s: Seq<u8>, k: int)
    requires
        0 <= k <= s.len(),
        all_digits(s),
    ensures
        digits_value(s.take(k)) <= digits_value(s),
    decreases s.len(),
{
    if k < s.len() {
        assert(s.drop_last().take(k) == s.take(k));
        lemma_digits_value_prefix(s.drop_last(), k);
    } else {
        assert(s.take(k) == s);
    }
}

/// The spelling of `n` is made of digits only, and it is read back as `n`.
pub proof fn lemma_decimal_roundtrip(n: nat)
    ensures
        all_digits(decimal(n)),
        decimal(n).len() > 0,
        decimal(n)[0] != 43u8,
        digits_value(decimal(n)) == n,
    decreases n,
{
    let d = decimal(n);
    reveal_with_fuel(digits_value, 2);
    if n >= 10 {
        lemma_decimal_roundtrip(n / 10);
        assert(d.drop_last() == decimal(n / 10));
        assert(d[0] == decimal(n / 10)[0]);
        assert(d.last() == digit_byte(n % 10));
        assert(n == (n / 10) * 10 + n % 10);
        assert forall|i: int| 0 <= i < d.len() implies is_digit(#[trigger] d[i]) by {
            if i < d.len() - 1 {
                assert(d[i] == decimal(n / 10)[i]);
            }
        }
    } else {
        assert(d.drop_last() == Seq::<u8>::empty());
    }
}

/// Reading back the spelling of any number within the bound gives the number.
pub proof fn lemma_parse_decimal(n: nat, max: nat)
    requires
        n <= max,
    ensures
        parse_unsigned(decimal(n), max) == Some(n),
{
    lemma_decimal_roundtrip(n);
}

/// Reads the unsigned number that `bytes` spells; `None` when it spells none
/// or the number exceeds `max`.
pub fn parse_decimal(bytes: &[u8], max: u64) -> (r: Option<u64>)
    ensures
        match r {
            Some(v) => parse_unsigned(bytes@, max as nat) == Some(v as nat),
            None => parse_unsigned(bytes@, max as nat) is None,
        },
{
    let ghost d = unsigned_body(bytes@);
    let start: usize = if bytes.len() > 0 && bytes[0] == 43u8 { 1 } else { 0 };
    assert(d == bytes@.skip(start as int));
    if start >= bytes.len() {
        return None;
    }
    let mut acc: u64 = 0;
    let mut i: usize = start;
    while i < bytes.len()
        invariant
            start <= i <= bytes@.len(),
            d == bytes@.skip(start as int),
            d == unsigned_body(bytes@),
            all_digits(d.take(i - start)),
            acc as nat == digits_value(d.take(i - start)),
            acc <= max,
        decreases bytes@.len() - i,
    {
        let b = bytes[i];
        assert(d[i - start] == b);
        if b < 48 || b > 57 {
            assert(!is_digit(d[i - start]));
            assert(!all_digits(d));
            return None;
        }
        let digit: u64 = (b - 48) as u64;
        assert(d.take(i - start + 1).drop_last() == d.take(i - start));
        let next: Option<u64> = match acc.checked_mul(10) {
            Some(m) => m.checked_add(digit),
            None => None,
        };
        match next {
            Some(v) if v <= max => {
                acc = v;
            },
            _ => {
                proof {
                    assert(acc * 10 + digit > max) by (nonlinear_arith)
                        requires
                            next is None ==> acc * 10 + digit > u64::MAX,
                            next matches Some(v) ==> v == acc * 10 + digit && v > max,
                            max <= u64::MAX,
                    ;
                    let k = i - start + 1;
                    assert(digits_value(d.take(k)) == acc * 10 + digit);
                    if all_digits(d) {
                        lemma_digits_value_prefix(d, k);
                    }
                }
                return None;
            },
        }
        i = i + 1;
    }
    assert(d.take(i - start) == d);
    Some(acc)
}

/// Appends the decimal spelling of `n` to `out`.
pub fn push_decimal(n: u64, out: &mut Vec<u8>)
    ensures
        final(out)@ == old(out)@ + decimal(n as nat),
    decreases n,
{
    if n < 10 {
        out.push((n as u8) + 48);
    } else {
        push_decimal(n / 10, out);
        out.push(((n % 10) as u8) + 48);
    }
}

} // verus!
