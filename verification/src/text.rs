//! Text helpers: UTF-8 decoding, decimal spelling, byte comparison.

use vstd::prelude::*;
use vstd::utf8::{valid_utf8, decode_utf8};
use crate::decimal::decimal;

verus! {

/// `String::from_utf8`: the text that `bytes` encode, when they are valid
/// UTF-8.
#[verifier::external_body]
pub(crate) fn utf8_text(bytes: Vec<u8>) -> (r: Option<String>)
    ensures
        r is Some <==> valid_utf8(bytes@),
        r matches Some(s) ==> s@ == decode_utf8(bytes@),
{
    String::from_utf8(bytes).ok()
}

/// The text of a decimal digit below ten.
fn digit_text(d: u64) -> (s: &'static str)
    requires
        d < 10,
    ensures
        s@ == seq![((d + 48) as u8) as char],
{
    proof {
        reveal_strlit("0");
        reveal_strlit("1");
        reveal_strlit("2");
        reveal_strlit("3");
        reveal_strlit("4");
        reveal_strlit("5");
        reveal_strlit("6");
        reveal_strlit("7");
        reveal_strlit("8");
        reveal_strlit("9");
    }
    match d {
        0 => "0",
        1 => "1",
        2 => "2",
        3 => "3",
        4 => "4",
        5 => "5",
        6 => "6",
        7 => "7",
        8 => "8",
        _ => "9",
    }
}

/// The characters of an ASCII byte string.
pub open spec fn ascii_text(b: Seq<u8>) -> Seq<char> {
    b.map_values(|c: u8| c as char)
}

/// Appends the decimal spelling of `n` to `out`.
pub fn push_decimal_text(n: u64, out: &mut String)
    ensures
        final(out)@ == old(out)@ + ascii_text(decimal(n as nat)),
    decreases n,
{
    if n < 10 {
        out.append(digit_text(n));
        assert(ascii_text(decimal(n as nat)) == seq![((n + 48) as u8) as char]);
    } else {
        push_decimal_text(n / 10, out);
        out.append(digit_text(n % 10));
        assert(ascii_text(decimal(n as nat)) == ascii_text(decimal((n / 10) as nat)) + seq![(((n % 10) + 48) as u8) as char]);
    }
}

/// Whether two byte strings are equal.
pub fn bytes_equal(a: &[u8], b: &[u8]) -> (r: bool)
    ensures
        r == (a@ == b@),
{
    if a.len() != b.len() {
        return false;
    }
    let mut i: usize = 0;
    while i < a.len()
        invariant
            i <= a@.len(),
            a@.len() == b@.len(),
            a@.take(i as int) == b@.take(i as int),
        decreases a@.len() - i,
    {
        if a[i] != b[i] {
            assert(a@[i as int] != b@[i as int]);
            return false;
        }
        i = i + 1;
        assert(a@.take(i as int) == a@.take(i - 1).push(a@[i - 1]));
        assert(b@.take(i as int) == b@.take(i - 1).push(b@[i - 1]));
    }
    assert(a@.take(i as int) == a@);
    assert(b@.take(i as int) == b@);
    true
}

} // verus!
