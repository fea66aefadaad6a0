//! Framing of the byte stream that the client sends.
//!
//! A data message is `0:LEN:` followed by `LEN` bytes for the terminal; a
//! resize message is `1:COLS:ROWS:`; any other leading byte (a ping is `2`)
//! is dropped on its own. Numbers are decimal and end at the next `:`.

use vstd::prelude::*;
use crate::buffer::ByteBuffer;
use crate::seqs::{first_index, lemma_first_index, lemma_first_index_is};
use crate::decimal::{parse_decimal, parse_unsigned, decimal, lemma_parse_decimal, unsigned_body, all_digits};
use crate::text::utf8_text;
use vstd::utf8::{valid_utf8, pop_first_scalar};

verus! {

/// The separator that ends a number, `:`.
pub const SEPARATOR: u8 = 58;

/// The character `0`, to which a message type is added.
pub const ASCII_ZERO: u8 = 48;

/// Message type of data for the terminal.
pub const MSG_TYPE_DATA: u8 = 0;

/// Message type of a resize request.
pub const MSG_TYPE_RESIZE: u8 = 1;

/// The most bytes dropped at once while no separator is in sight.
pub const SKIP_BLOCK: usize = 20;

/// What is left of a buffer without a separator: blocks of twenty bytes are
/// dropped while more than twenty bytes remain.
pub open spec fn drop_blocks(s: Seq<u8>) -> Seq<u8>
    decreases s.len(),
{
    if s.len() <= 20 {
        s
    } else {
        drop_blocks(s.skip(20))
    }
}

/// Reading a number field from `s`: the number, if the text before the first
/// separator spells one that fits into `usize`, and what is left of `s`.
pub open spec fn number_field(s: Seq<u8>) -> (Option<nat>, Seq<u8>) {
    match first_index(s, SEPARATOR) {
        Some(p) => (parse_unsigned(s.take(p), usize::MAX as nat), s.skip(p + 1)),
        None => (None, drop_blocks(s)),
    }
}

/// What is left after dropping blocks is a suffix of the input.
pub proof fn lemma_drop_blocks_suffix(s: Seq<u8>)
    ensures
        drop_blocks(s).len() <= s.len(),
        drop_blocks(s) == s.skip(s.len() - drop_blocks(s).len()),
    decreases s.len(),
{
    if s.len() > 20 {
        lemma_drop_blocks_suffix(s.skip(20));
        let t = drop_blocks(s.skip(20));
        assert(s.skip(20).skip(s.skip(20).len() - t.len()) == s.skip(s.len() - t.len()));
    } else {
        assert(s.skip(0) == s);
    }
}

/// Reading a number field never leaves more than it was given, and leaves a
/// suffix of it.
pub proof fn lemma_number_field_suffix(s: Seq<u8>)
    ensures
        number_field(s).1.len() <= s.len(),
        number_field(s).1 == s.skip(s.len() - number_field(s).1.len()),
{
    match first_index(s, SEPARATOR) {
        Some(p) => {
            lemma_first_index(s, SEPARATOR);
        },
        None => {
            lemma_drop_blocks_suffix(s);
        },
    }
}

/// One message read from the client stream.
#[derive(PartialEq, Eq, Debug, Clone, Copy)]
pub enum Frame {
    /// `0:LEN:` — the next `LEN` bytes go to the terminal.
    Data(usize),
    /// `1:COLS:ROWS:` — the terminal gets the size `COLS` x `ROWS`, each cut to 16 bits.
    Resize { cols: u16, rows: u16 },
}

/// The next message that the queue `s` yields, and what is left of `s`.
/// Bytes before a message that cannot be read are dropped as the message is
/// read; `None` means that no further message can be read now.
pub open spec fn queue_step(s: Seq<u8>) -> (Option<Frame>, Seq<u8>)
    decreases s.len(),
{
    if s.len() < 2 {
        (None, s)
    } else if s[0] == 48u8 {
        let (len, rest) = number_field(s.skip(2));
        proof {
            lemma_number_field_suffix(s.skip(2));
        }
        match len {
            Some(n) => (Some(Frame::Data(n as usize)), rest),
            None => queue_step(rest),
        }
    } else if s[0] == 49u8 {
        let (cols, rest1) = number_field(s.skip(2));
        proof {
            lemma_number_field_suffix(s.skip(2));
            lemma_number_field_suffix(rest1);
        }
        match cols {
            Some(c) => {
                let (rows, rest2) = number_field(rest1);
                match rows {
                    Some(r) => (
                        Some(Frame::Resize { cols: (c as usize) as u16, rows: (r as usize) as u16 }),
                        rest2,
                    ),
                    None => queue_step(rest2),
                }
            },
            None => queue_step(rest1),
        }
    } else {
        queue_step(s.skip(1))
    }
}

/// A number spelled in decimal and closed by `:` is read back, and what
/// follows the separator is left.
pub proof fn lemma_number_field_decimal(n: nat, rest: Seq<u8>)
    requires
        n <= usize::MAX,
    ensures
        number_field(decimal(n) + seq![SEPARATOR] + rest) == (Some(n), rest),
{
    let d = decimal(n);
    let t = d + seq![SEPARATOR] + rest;
    crate::decimal::lemma_decimal_roundtrip(n);
    assert forall|j: int| 0 <= j < d.len() implies t[j] != SEPARATOR by {
        assert(t[j] == d[j]);
        assert(crate::decimal::is_digit(d[j]));
    }
    assert(t[d.len() as int] == SEPARATOR);
    lemma_first_index_is(t, SEPARATOR, d.len() as int);
    assert(t.take(d.len() as int) == d);
    assert(t.skip(d.len() as int + 1) == rest);
    lemma_parse_decimal(n, usize::MAX as nat);
}

/// A data message `0:N:` in front of `rest`, for any `N` that fits into
/// `usize`, is read as `Data(N)` and leaves exactly `rest`, the payload.
pub proof fn lemma_data_frame(n: nat, rest: Seq<u8>)
    requires
        n <= usize::MAX,
    ensures
        queue_step(seq![48u8, SEPARATOR] + decimal(n) + seq![SEPARATOR] + rest) == (
            Some(Frame::Data(n as usize)),
            rest,
        ),
{
    let s = seq![48u8, SEPARATOR] + decimal(n) + seq![SEPARATOR] + rest;
    assert(s.skip(2) == decimal(n) + seq![SEPARATOR] + rest);
    lemma_number_field_decimal(n, rest);
}

/// A resize message `1:C:R:` in front of `rest`, for any `C` and `R` that fit
/// into `usize`, is read as a resize to `C` x `R` (each cut to 16 bits) and
/// leaves exactly `rest`.
pub proof fn lemma_resize_frame(c: nat, r: nat, rest: Seq<u8>)
    requires
        c <= usize::MAX,
        r <= usize::MAX,
    ensures
        queue_step(
            seq![49u8, SEPARATOR] + decimal(c) + seq![SEPARATOR] + decimal(r) + seq![SEPARATOR] + rest,
        ) == (Some(Frame::Resize { cols: (c as usize) as u16, rows: (r as usize) as u16 }), rest),
{
    let tail = decimal(r) + seq![SEPARATOR] + rest;
    let s = seq![49u8, SEPARATOR] + decimal(c) + seq![SEPARATOR] + decimal(r) + seq![SEPARATOR] + rest;
    assert(s.skip(2) == decimal(c) + seq![SEPARATOR] + tail);
    lemma_number_field_decimal(c, tail);
    lemma_number_field_decimal(r, rest);
}

/// A message of any other type loses its first byte and nothing else.
pub proof fn lemma_other_type_skipped(s: Seq<u8>)
    requires
        s.len() >= 2,
        s[0] != 48u8,
        s[0] != 49u8,
    ensures
        queue_step(s) == queue_step(s.skip(1)),
{
}

/// Reading a message only ever takes bytes from the front of the queue.
pub proof fn lemma_queue_step_suffix(s: Seq<u8>)
    ensures
        queue_step(s).1.len() <= s.len(),
        queue_step(s).1 == s.skip(s.len() - queue_step(s).1.len()),
    decreases s.len(),
{
    if s.len() < 2 {
        assert(s.skip(0) == s);
    } else if s[0] == 48u8 {
        lemma_number_field_suffix(s.skip(2));
        let rest = number_field(s.skip(2)).1;
        assert(s.skip(2).skip(s.skip(2).len() - rest.len()) == s.skip(s.len() - rest.len()));
        if number_field(s.skip(2)).0 is None {
            lemma_queue_step_suffix(rest);
            let out = queue_step(rest).1;
            assert(rest.skip(rest.len() - out.len()) == s.skip(s.len() - out.len()));
        }
    } else if s[0] == 49u8 {
        lemma_number_field_suffix(s.skip(2));
        let rest1 = number_field(s.skip(2)).1;
        assert(s.skip(2).skip(s.skip(2).len() - rest1.len()) == s.skip(s.len() - rest1.len()));
        lemma_number_field_suffix(rest1);
        let rest2 = number_field(rest1).1;
        assert(rest1.skip(rest1.len() - rest2.len()) == s.skip(s.len() - rest2.len()));
        if number_field(s.skip(2)).0 is None {
            lemma_queue_step_suffix(rest1);
            let out = queue_step(rest1).1;
            assert(rest1.skip(rest1.len() - out.len()) == s.skip(s.len() - out.len()));
        } else if number_field(rest1).0 is None {
            lemma_queue_step_suffix(rest2);
            let out = queue_step(rest2).1;
            assert(rest2.skip(rest2.len() - out.len()) == s.skip(s.len() - out.len()));
        }
    } else {
        lemma_queue_step_suffix(s.skip(1));
        let out = queue_step(s.skip(1)).1;
        assert(s.skip(1).skip(s.skip(1).len() - out.len()) == s.skip(s.len() - out.len()));
    }
}

/// When no message can be read, fewer than two bytes are left.
pub proof fn lemma_no_frame_leaves_short_queue(s: Seq<u8>)
    ensures
        queue_step(s).0 is None ==> queue_step(s).1.len() < 2,
    decreases s.len(),
{
    if s.len() >= 2 {
        if s[0] == 48u8 {
            lemma_number_field_suffix(s.skip(2));
            lemma_no_frame_leaves_short_queue(number_field(s.skip(2)).1);
        } else if s[0] == 49u8 {
            lemma_number_field_suffix(s.skip(2));
            let rest1 = number_field(s.skip(2)).1;
            lemma_number_field_suffix(rest1);
            lemma_no_frame_leaves_short_queue(rest1);
            lemma_no_frame_leaves_short_queue(number_field(rest1).1);
        } else {
            lemma_no_frame_leaves_short_queue(s.skip(1));
        }
    }
}

/// The bytes of a resize message `1:C:R:`.
pub open spec fn resize_message(c: nat, r: nat) -> Seq<u8> {
    seq![49u8, SEPARATOR] + decimal(c) + seq![SEPARATOR] + decimal(r) + seq![SEPARATOR]
}

/// The bytes of resize messages for the sizes `sizes`, one after another.
pub open spec fn resize_messages(sizes: Seq<(nat, nat)>) -> Seq<u8>
    decreases sizes.len(),
{
    if sizes.len() == 0 {
        Seq::empty()
    } else {
        resize_message(sizes[0].0, sizes[0].1) + resize_messages(sizes.drop_first())
    }
}

/// What `k` reads of the queue `s`, one after another, yield, and what they
/// leave.
pub open spec fn queue_steps(s: Seq<u8>, k: nat) -> (Seq<Option<Frame>>, Seq<u8>)
    decreases k,
{
    if k == 0 {
        (Seq::empty(), s)
    } else {
        let (f, rest) = queue_step(s);
        let (fs, left) = queue_steps(rest, (k - 1) as nat);
        (seq![f] + fs, left)
    }
}

/// The frame that a resize message for `size` is read as.
pub open spec fn resize_frame(size: (nat, nat)) -> Option<Frame> {
    Some(Frame::Resize { cols: (size.0 as usize) as u16, rows: (size.1 as usize) as u16 })
}

/// Resize messages read one call after another: each call yields the
/// resize of the next message, in order, so that every complete message
/// gives exactly one resize, and what followed the messages is left.
pub proof fn lemma_resize_stream(sizes: Seq<(nat, nat)>, rest: Seq<u8>)
    requires
        forall|i: int| 0 <= i < sizes.len() ==> #[trigger] sizes[i].0 <= usize::MAX && sizes[i].1 <= usize::MAX,
    ensures
        queue_steps(resize_messages(sizes) + rest, sizes.len()) == (
            Seq::new(sizes.len(), |i: int| resize_frame(sizes[i])),
            rest,
        ),
    decreases sizes.len(),
{
    if sizes.len() == 0 {
        assert(resize_messages(sizes) + rest == rest);
        assert(Seq::new(0, |i: int| resize_frame(sizes[i])) == Seq::<Option<Frame>>::empty());
    } else {
        let tail = sizes.drop_first();
        assert forall|i: int| 0 <= i < tail.len() implies #[trigger] tail[i].0 <= usize::MAX && tail[i].1 <= usize::MAX by {
            assert(tail[i] == sizes[i + 1]);
        }
        lemma_resize_stream(tail, rest);
        let after = resize_messages(tail) + rest;
        let (c, r) = sizes[0];
        assert(sizes[0].0 <= usize::MAX && sizes[0].1 <= usize::MAX);
        lemma_resize_frame(c, r, after);
        assert(resize_messages(sizes) + rest
            == seq![49u8, SEPARATOR] + decimal(c) + seq![SEPARATOR] + decimal(r) + seq![SEPARATOR] + after);
        assert(queue_step(resize_messages(sizes) + rest) == (resize_frame(sizes[0]), after));
        assert(seq![resize_frame(sizes[0])] + Seq::new(tail.len(), |i: int| resize_frame(tail[i]))
            =~= Seq::new(sizes.len(), |i: int| resize_frame(sizes[i])));
    }
}

/// Why a number field gives no number.
#[derive(PartialEq, Eq, Debug, Clone, Copy)]
pub enum NumberFailure {
    /// No separator in the buffer.
    NoSeparator,
    /// The text in front of the separator is not UTF-8.
    NotText,
    /// The text in front of the separator is no number that fits into `usize`.
    NotANumber,
}

/// Why reading a number field from `s` fails, if it does.
pub open spec fn number_failure(s: Seq<u8>) -> Option<NumberFailure> {
    match first_index(s, SEPARATOR) {
        None => Some(NumberFailure::NoSeparator),
        Some(p) => if !valid_utf8(s.take(p)) {
            Some(NumberFailure::NotText)
        } else if parse_unsigned(s.take(p), usize::MAX as nat) is None {
            Some(NumberFailure::NotANumber)
        } else {
            None
        },
    }
}

/// Bytes below 0x80 are valid UTF-8.
proof fn lemma_ascii_valid(b: Seq<u8>)
    requires
        forall|i: int| 0 <= i < b.len() ==> #[trigger] b[i] < 0x80,
    ensures
        valid_utf8(b),
    decreases b.len(),
{
    if b.len() > 0 {
        let c = b[0];
        assert((c & 0x7F) as u32 <= 0x7F) by (bit_vector);
        let rest = b.subrange(1, b.len() as int);
        assert(pop_first_scalar(b) == rest);
        lemma_ascii_valid(rest);
    }
}

/// A number is spelled in ASCII, so text that spells one is UTF-8.
pub proof fn lemma_number_is_text(s: Seq<u8>, max: nat)
    requires
        parse_unsigned(s, max) is Some,
    ensures
        valid_utf8(s),
{
    let d = unsigned_body(s);
    assert(all_digits(d));
    assert forall|i: int| 0 <= i < s.len() implies #[trigger] s[i] < 0x80 by {
        if s.len() > 0 && s[0] == 43u8 {
            if i > 0 {
                assert(s[i] == d[i - 1]);
            }
        } else {
            assert(s[i] == d[i]);
        }
    }
    lemma_ascii_valid(s);
}

/// Without a separator, what dropping blocks leaves: nothing of an empty
/// buffer, else the last `(L - 1) % 20 + 1` of its `L` bytes.
pub proof fn lemma_drop_blocks_length(s: Seq<u8>)
    ensures
        drop_blocks(s).len() == if s.len() == 0 { 0 } else { ((s.len() - 1) as int % 20) + 1 },
    decreases s.len(),
{
    if s.len() > 20 {
        lemma_drop_blocks_length(s.skip(20));
        assert(((s.len() - 21) as int % 20) == ((s.len() - 1) as int % 20)) by (nonlinear_arith)
            requires s.len() > 20;
    }
}

/// Reads a decimal number that ends at the next `:` from the front of the
/// buffer, dropping it and the separator; the error says why there is no
/// number. Without a separator in the buffer, blocks of twenty bytes are
/// dropped while more than twenty remain.
pub fn remove_number(buf: &mut ByteBuffer) -> (r: Result<usize, NumberFailure>)
    ensures
        match r {
            Ok(v) => number_field(old(buf)@).0 == Some(v as nat),
            Err(f) => number_field(old(buf)@).0 is None && number_failure(old(buf)@) == Some(f),
        },
        number_field(old(buf)@).0 is None <==> number_failure(old(buf)@) is Some,
        final(buf)@ == number_field(old(buf)@).1,
        final(buf).spec_capacity() == old(buf).spec_capacity(),
{
    loop
        invariant
            number_field(buf@) == number_field(old(buf)@),
            number_failure(buf@) == number_failure(old(buf)@),
            buf.spec_capacity() == old(buf).spec_capacity(),
        decreases buf@.len(),
    {
        if let Some(pos) = buf.position(SEPARATOR) {
            let ghost s = buf@;
            proof {
                lemma_first_index(s, SEPARATOR);
                if parse_unsigned(s.take(pos as int), usize::MAX as nat) is Some {
                    lemma_number_is_text(s.take(pos as int), usize::MAX as nat);
                }
            }
            let data = buf.remove_data(pos);
            buf.consume(1);
            assert(buf@ == s.skip(pos + 1));
            if utf8_text(data.clone()).is_none() {
                return Err(NumberFailure::NotText);
            }
            let parsed = parse_decimal(data.as_slice(), usize::MAX as u64);
            return match parsed {
                Some(v) => Ok(v as usize),
                None => Err(NumberFailure::NotANumber),
            };
        } else if buf.len() > SKIP_BLOCK {
            let ghost s = buf@;
            buf.consume(SKIP_BLOCK);
            proof {
                if buf@.contains(SEPARATOR) {
                    let k = choose|k: int| 0 <= k < buf@.len() && buf@[k] == SEPARATOR;
                    assert(s[k + 20] == SEPARATOR);
                }
                lemma_first_index(s, SEPARATOR);
                lemma_first_index(buf@, SEPARATOR);
            }
        } else {
            proof {
                lemma_first_index(buf@, SEPARATOR);
            }
            return Err(NumberFailure::NoSeparator);
        }
    }
}

/// Reads the next message from the queue. Malformed or unknown messages are
/// dropped as described in the module documentation; `None` means that the queue holds
/// no complete message now. A resize message is returned to the caller, which
/// applies it and asks again.
pub fn process_queue(buf: &mut ByteBuffer) -> (r: Option<Frame>)
    ensures
        (r, final(buf)@) == queue_step(old(buf)@),
        r is None ==> final(buf)@.len() < 2,
        final(buf).spec_capacity() == old(buf).spec_capacity(),
{
    proof {
        lemma_no_frame_leaves_short_queue(buf@);
    }
    if buf.is_empty() {
        return None;
    }
    loop
        invariant
            queue_step(buf@) == queue_step(old(buf)@),
            buf.spec_capacity() == old(buf).spec_capacity(),
        decreases buf@.len(),
    {
        if buf.len() < 2 {
            return None;
        }
        let ghost s = buf@;
        let msgtype = buf.get(0).wrapping_sub(ASCII_ZERO);
        if msgtype == MSG_TYPE_DATA {
            buf.consume(2);
            proof {
                lemma_number_field_suffix(s.skip(2));
            }
            if let Ok(len) = remove_number(buf) {
                return Some(Frame::Data(len));
            }
        } else if msgtype == MSG_TYPE_RESIZE {
            buf.consume(2);
            proof {
                lemma_number_field_suffix(s.skip(2));
            }
            if let Ok(cols) = remove_number(buf) {
                let ghost rest1 = buf@;
                proof {
                    lemma_number_field_suffix(rest1);
                }
                if let Ok(rows) = remove_number(buf) {
                    return Some(Frame::Resize { cols: cols as u16, rows: rows as u16 });
                }
            }
        } else {
            buf.consume(1);
        }
    }
}

} // verus!
