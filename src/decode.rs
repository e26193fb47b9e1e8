//! The UTF-8 decoding state machine.
//!
//! One call looks at the front of a byte buffer and either finishes one
//! scalar value, rejects a malformed subsequence of one to three bytes
//! (the maximal-subpart policy), or reports that it cannot classify the
//! sequence yet.
use vstd::prelude::*;
use crate::buf::FifoBytes;

verus! {

/// Result of one decoding attempt.
#[derive(Debug, PartialEq, Eq, Structural, Clone, Copy)]
pub enum Utf8EndEnum {
    /// A malformed subsequence of 1, 2 or 3 bytes was consumed.
    BadDecode(u32),
    /// A complete, valid scalar value.
    Finish(u32),
    /// Not enough bytes to classify the sequence.
    TypeUnknown,
}

/// The replacement character.
pub const REPLACE_UTF32: u32 = 0xFFFD;

/// Length of the sequence opened by lead byte `b`: 1 to 4, or 0 for a byte
/// that cannot open a sequence (`80..C1`, `F5..FF`).
pub open spec fn seq_len(b: u8) -> nat {
    if b < 0x80 {
        1
    } else if b < 0xC2 {
        0
    } else if b < 0xE0 {
        2
    } else if b < 0xF0 {
        3
    } else if b <= 0xF4 {
        4
    } else {
        0
    }
}

/// Whether `b` may stand at position `pos` (1, 2 or 3) of a sequence led by
/// `lead`. Only the second byte has a range narrower than `80..BF`: these
/// ranges exclude overlong forms, surrogates and values past `10FFFF`.
pub open spec fn cont_ok(lead: u8, pos: int, b: u8) -> bool {
    if pos == 1 && lead == 0xE0 {
        0xA0 <= b <= 0xBF
    } else if pos == 1 && lead == 0xED {
        0x80 <= b <= 0x9F
    } else if pos == 1 && lead == 0xF0 {
        0x90 <= b <= 0xBF
    } else if pos == 1 && lead == 0xF4 {
        0x80 <= b <= 0x8F
    } else {
        0x80 <= b <= 0xBF
    }
}

/// How many bytes after the lead of `s` are present and acceptable, stopping
/// at the first missing or unacceptable one and at `seq_len(s[0]) - 1`.
pub open spec fn run_len(s: Seq<u8>) -> nat
    recommends
        s.len() > 0,
{
    let n = seq_len(s[0]);
    if n < 2 || s.len() < 2 || !cont_ok(s[0], 1, s[1]) {
        0
    } else if n < 3 || s.len() < 3 || !cont_ok(s[0], 2, s[2]) {
        1
    } else if n < 4 || s.len() < 4 || !cont_ok(s[0], 3, s[3]) {
        2
    } else {
        3
    }
}

/// The value carried by the first `n` bytes of `s`, a complete sequence:
/// the lead's payload bits followed by six bits of each further byte.
pub open spec fn assemble(s: Seq<u8>, n: nat) -> int {
    if n == 1 {
        s[0] as int
    } else if n == 2 {
        (s[0] % 32) * 64 + s[1] % 64
    } else if n == 3 {
        (s[0] % 16) * 4096 + (s[1] % 64) * 64 + s[2] % 64
    } else {
        (s[0] % 8) * 262144 + (s[1] % 64) * 4096 + (s[2] % 64) * 64 + s[3] % 64
    }
}

/// What one decoding attempt on the bytes `s` gives, and how many bytes of
/// `s` it consumes. With `last` false a sequence whose bytes are not all
/// present is left alone; with `last` true it is decoded as far as it goes.
/// A well-formed replacement character is itself reported as malformed.
pub open spec fn decode_step(s: Seq<u8>, last: bool) -> (Utf8EndEnum, nat) {
    if s.len() == 0 {
        (Utf8EndEnum::TypeUnknown, 0)
    } else if seq_len(s[0]) == 1 {
        (Utf8EndEnum::Finish(s[0] as u32), 1)
    } else if seq_len(s[0]) == 0 {
        (Utf8EndEnum::BadDecode(1), 1)
    } else if s.len() < seq_len(s[0]) && !last {
        (Utf8EndEnum::TypeUnknown, 0)
    } else if run_len(s) + 1 == seq_len(s[0]) {
        if assemble(s, seq_len(s[0])) == REPLACE_UTF32 {
            (Utf8EndEnum::BadDecode(3), 3)
        } else {
            (Utf8EndEnum::Finish(assemble(s, seq_len(s[0])) as u32), seq_len(s[0]))
        }
    } else if run_len(s) + 1 < s.len() {
        (Utf8EndEnum::BadDecode((run_len(s) + 1) as u32), run_len(s) + 1)
    } else {
        (Utf8EndEnum::TypeUnknown, run_len(s) + 1)
    }
}

/// A Unicode scalar value: not a surrogate, not past `10FFFF`.
pub open spec fn is_scalar(c: int) -> bool {
    (0 <= c < 0xD800) || (0xE000 <= c < 0x110000)
}

/// A finished decoding step yields a scalar value, and never the
/// replacement character.
pub proof fn lemma_finish_is_scalar(s: Seq<u8>, last: bool)
    ensures
        decode_step(s, last).0 matches Utf8EndEnum::Finish(c) ==> is_scalar(c as int) && c
            != REPLACE_UTF32,
{
    if s.len() > 0 && seq_len(s[0]) >= 2 && run_len(s) + 1 == seq_len(s[0]) {
        let n = seq_len(s[0]);
        let c = assemble(s, n);
        assert(0x80 <= s[1] <= 0xBF);
        if n == 2 {
            assert(0x80 <= c <= 0x7FF);
        } else if n == 3 {
            assert(0x80 <= s[2] <= 0xBF);
            assert(0x800 <= c <= 0xFFFF);
            assert(c < 0xD800 || c >= 0xE000);
        } else {
            assert(0x80 <= s[2] <= 0xBF);
            assert(0x80 <= s[3] <= 0xBF);
            assert(0x10000 <= c <= 0x10FFFF);
        }
    }
}

/// A decoding step consumes no more bytes than it is given, and at least
/// one unless it asks for more input.
pub proof fn lemma_step_bounds(s: Seq<u8>, last: bool)
    ensures
        decode_step(s, last).1 <= s.len(),
        s.len() > 0 && (last || !(decode_step(s, last).0 is TypeUnknown)) ==> decode_step(
            s,
            last,
        ).1 >= 1,
{
}

/// Once the bytes of the sequence opened by its lead byte are all there, a
/// decoding step depends on nothing after them, nor on the last-buffer flag.
pub proof fn lemma_step_prefix(s: Seq<u8>, t: Seq<u8>, b1: bool, b2: bool)
    requires
        s.len() >= 1,
        s.len() >= seq_len(s[0]),
        s.len() <= t.len(),
        s =~= t.take(s.len() as int),
    ensures
        decode_step(s, b1) == decode_step(t, b2),
{
    assert(s[0] == t[0]);
    if s.len() >= 2 {
        assert(s[1] == t[1]);
    }
    if s.len() >= 3 {
        assert(s[2] == t[2]);
    }
    if s.len() >= 4 {
        assert(s[3] == t[3]);
    }
    assert(run_len(s) == run_len(t));
    if seq_len(s[0]) >= 2 && run_len(s) + 1 == seq_len(s[0]) {
        assert(assemble(s, seq_len(s[0])) == assemble(t, seq_len(s[0])));
    }
}

/// Outcome of looking at one continuation byte.
enum Cont {
    Accepted(u8),
    Rejected,
    Missing,
}

/// Takes the front byte of `mybuf` if it lies in `lo..=hi`.
fn take_continuation(mybuf: &mut FifoBytes, lo: u8, hi: u8) -> (r: Cont)
    ensures
        old(mybuf)@.len() == 0 ==> r is Missing && final(mybuf)@ == old(mybuf)@,
        old(mybuf)@.len() > 0 && lo <= old(mybuf)@[0] <= hi ==> r == Cont::Accepted(old(mybuf)@[0])
            && final(mybuf)@ == old(mybuf)@.drop_first(),
        old(mybuf)@.len() > 0 && !(lo <= old(mybuf)@[0] <= hi) ==> r is Rejected && final(mybuf)@
            == old(mybuf)@,
{
    match mybuf.front() {
        Some(v) => {
            if lo <= v && v <= hi {
                mybuf.pop_front();
                Cont::Accepted(v)
            } else {
                Cont::Rejected
            }
        },
        None => Cont::Missing,
    }
}

proof fn lemma_shift_in(c: u32, b: u8)
    by (bit_vector)
    requires
        c < 0x8000,
    ensures
        (c << 6u32) + ((b as u32) & 0x3f) == c * 64 + (b as u32) % 64,
        c * 64 + (b as u32) % 64 < 0x200000,
{
}

proof fn lemma_lead_bits(v: u32)
    by (bit_vector)
    ensures
        v & 0x1f == v % 32,
        v & 0xf == v % 16,
        v & 0x7 == v % 8,
{
}

/// Decodes one scalar value from the front of `mybuf`.
///
/// With `last_buffer` false, a sequence whose bytes are not all buffered
/// yet is left untouched and `TypeUnknown` asks for more input: the machine
/// never consumes a byte it may have to take back. With `last_buffer` true,
/// the lead byte is consumed and the sequence is decoded as far as the
/// buffered bytes go, so no withheld byte can keep a sequence open.
pub fn utf8_decode(mybuf: &mut FifoBytes, last_buffer: bool) -> (r: Utf8EndEnum)
    ensures
        r == decode_step(old(mybuf)@, last_buffer).0,
        r matches Utf8EndEnum::Finish(c) ==> is_scalar(c as int),
        final(mybuf)@ == old(mybuf)@.skip(decode_step(old(mybuf)@, last_buffer).1 as int),
{
    let ghost s = mybuf@;
    proof {
        lemma_finish_is_scalar(s, last_buffer);
    }
    let v = match mybuf.front() {
        Some(v) => v,
        None => {
            assert(mybuf@ =~= s.skip(0));
            return Utf8EndEnum::TypeUnknown;
        },
    };
    let v1 = v as u32;
    proof {
        lemma_lead_bits(v1);
    }
    if v1 < 0x80 {
        mybuf.pop_front();
        return Utf8EndEnum::Finish(v1);
    }
    if v1 < 0xC2 || v1 > 0xF4 {
        // not a lead byte
        mybuf.pop_front();
        return Utf8EndEnum::BadDecode(1);
    }
    let need: u32 = if v1 < 0xE0 {
        2
    } else if v1 < 0xF0 {
        3
    } else {
        4
    };
    if mybuf.len() < need && !last_buffer {
        // wait for the rest of the sequence: a consumed byte cannot be
        // given back
        assert(mybuf@ =~= s.skip(0));
        return Utf8EndEnum::TypeUnknown;
    }
    mybuf.pop_front();
    let (lo, hi, mut code) = if v1 < 0xE0 {
        (0x80u8, 0xBFu8, v1 & 0x1f)
    } else if v1 == 0xE0 {
        (0xA0u8, 0xBFu8, v1 & 0xf)
    } else if v1 == 0xED {
        (0x80u8, 0x9Fu8, v1 & 0xf)
    } else if v1 < 0xF0 {
        (0x80u8, 0xBFu8, v1 & 0xf)
    } else if v1 == 0xF0 {
        (0x90u8, 0xBFu8, v1 & 0x7)
    } else if v1 == 0xF4 {
        (0x80u8, 0x8Fu8, v1 & 0x7)
    } else {
        (0x80u8, 0xBFu8, v1 & 0x7)
    };
    assert(code < 32);
    match take_continuation(mybuf, lo, hi) {
        Cont::Accepted(b) => {
            proof {
                lemma_shift_in(code, b);
            }
            code = (code << 6u32) + ((b as u32) & 0x3f);
        },
        Cont::Rejected => {
            return Utf8EndEnum::BadDecode(1);
        },
        Cont::Missing => {
            return Utf8EndEnum::TypeUnknown;
        },
    }
    if need == 2 {
        return Utf8EndEnum::Finish(code);
    }
    match take_continuation(mybuf, 0x80u8, 0xBFu8) {
        Cont::Accepted(b) => {
            proof {
                lemma_shift_in(code, b);
            }
            code = (code << 6u32) + ((b as u32) & 0x3f);
        },
        Cont::Rejected => {
            return Utf8EndEnum::BadDecode(2);
        },
        Cont::Missing => {
            return Utf8EndEnum::TypeUnknown;
        },
    }
    if need == 3 {
        if code == REPLACE_UTF32 {
            // a replacement character in the input stands for an earlier
            // decoding error, and is reported as one
            return Utf8EndEnum::BadDecode(3);
        }
        return Utf8EndEnum::Finish(code);
    }
    match take_continuation(mybuf, 0x80u8, 0xBFu8) {
        Cont::Accepted(b) => {
            proof {
                lemma_shift_in(code, b);
            }
            code = (code << 6u32) + ((b as u32) & 0x3f);
        },
        Cont::Rejected => {
            return Utf8EndEnum::BadDecode(3);
        },
        Cont::Missing => {
            return Utf8EndEnum::TypeUnknown;
        },
    }
    Utf8EndEnum::Finish(code)
}

} // verus!
