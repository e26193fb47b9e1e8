//! Properties that relate several operations: of the byte buffer, of
//! session reset, of a round trip through both sessions, and of decoding a
//! stream cut into buffers in different ways.
use vstd::prelude::*;
use crate::buf::{front_view, peek_view, pop_front_view, push_back_view, BUFFER_SIZE};
use crate::decode::{
    assemble, cont_ok, decode_step, is_scalar, lemma_step_bounds, lemma_step_prefix, run_len,
    seq_len, Utf8EndEnum, REPLACE_UTF32,
};
use crate::encode::{classify_spec, utf8_of};
use crate::session::{
    encode_next, encode_output, encode_taken, filled, fresh_view, reset_view, taken, utf8_next,
    utf8_output, SessionView,
};

verus! {

/// The bytes of a buffer holding `v` after pushing each byte of `s` at the
/// back, in order.
pub open spec fn pushed(v: Seq<u8>, s: Seq<u8>) -> Seq<u8>
    decreases s.len(),
{
    if s.len() == 0 {
        v
    } else {
        pushed(push_back_view(v, s[0]), s.drop_first())
    }
}

/// The bytes popped from the front of a buffer holding `v` until it is
/// empty, in order.
pub open spec fn drained(v: Seq<u8>) -> Seq<u8>
    decreases v.len(),
{
    if v.len() == 0 {
        Seq::empty()
    } else {
        seq![pop_front_view(v).0.unwrap()] + drained(pop_front_view(v).1)
    }
}

/// Pushing up to capacity onto an empty buffer stores exactly the pushed
/// bytes: the length is the number of pushes.
pub proof fn lemma_pushes_fill(s: Seq<u8>)
    requires
        s.len() <= BUFFER_SIZE,
    ensures
        pushed(Seq::empty(), s) == s,
        pushed(Seq::empty(), s).len() == s.len(),
{
    lemma_pushes_append(Seq::empty(), s);
    assert(Seq::<u8>::empty() + s =~= s);
}

proof fn lemma_pushes_append(v: Seq<u8>, s: Seq<u8>)
    requires
        v.len() + s.len() <= BUFFER_SIZE,
    ensures
        pushed(v, s) == v + s,
    decreases s.len(),
{
    if s.len() > 0 {
        lemma_pushes_append(v.push(s[0]), s.drop_first());
        assert(v.push(s[0]) + s.drop_first() =~= v + s);
    } else {
        assert(v + s =~= v);
    }
}

/// Pushing onto a full buffer changes nothing, however often it is done.
pub proof fn lemma_push_full_is_noop(v: Seq<u8>, s: Seq<u8>)
    requires
        v.len() == BUFFER_SIZE,
    ensures
        pushed(v, s) == v,
        pushed(v, s).len() == v.len(),
    decreases s.len(),
{
    if s.len() > 0 {
        lemma_push_full_is_noop(push_back_view(v, s[0]), s.drop_first());
    }
}

/// Popping from the front gives the bytes back in the order they were
/// pushed at the back.
pub proof fn lemma_fifo_order(s: Seq<u8>)
    requires
        s.len() <= BUFFER_SIZE,
    ensures
        drained(pushed(Seq::empty(), s)) == s,
{
    lemma_pushes_fill(s);
    lemma_drained_is_contents(s);
}

proof fn lemma_drained_is_contents(v: Seq<u8>)
    ensures
        drained(v) == v,
    decreases v.len(),
{
    if v.len() > 0 {
        lemma_drained_is_contents(v.drop_first());
        assert(seq![v[0]] + v.drop_first() =~= v);
    } else {
        assert(drained(v) =~= v);
    }
}

/// Peeking at index 0 is looking at the front.
pub proof fn lemma_peek_zero_is_front(v: Seq<u8>)
    ensures
        peek_view(v, 0) == front_view(v),
{
}

/// A reset session cannot be told apart from a new one, and resetting twice
/// is resetting once.
pub proof fn lemma_reset_is_fresh(v: SessionView)
    ensures
        reset_view(v) == fresh_view(),
        reset_view(reset_view(v)) == reset_view(v),
        reset_view(v).pending.len() == 0,
        reset_view(v).last_buffer,
        !reset_view(v).invalid_seen,
{
}

/// The scalar value reported for a decoding outcome: the decoded value, or
/// the replacement character.
pub open spec fn emitted(o: Utf8EndEnum) -> u32 {
    match o {
        Utf8EndEnum::Finish(c) => c,
        _ => REPLACE_UTF32,
    }
}

/// The scalar values of the byte sequence `s`, decoded from start to end
/// with malformed and incomplete sequences replaced.
pub open spec fn decode_all(s: Seq<u8>) -> Seq<u32>
    decreases s.len(),
{
    if s.len() == 0 {
        Seq::empty()
    } else {
        proof {
            lemma_step_bounds(s, true);
        }
        seq![emitted(decode_step(s, true).0)] + decode_all(s.skip(decode_step(s, true).1 as int))
    }
}

/// The scalar values that decoding calls on `input` from state `v` emit,
/// called again as long as one emits a value, and the state after the
/// call that emits none.
pub open spec fn utf8_drain(v: SessionView, input: Seq<u8>) -> (Seq<u32>, SessionView)
    decreases v.pending.len() + input.len(),
{
    if v.pending.len() <= BUFFER_SIZE && utf8_output(v, input) is Some {
        proof {
            lemma_drain_progress(v, input);
        }
        let rest = utf8_drain(utf8_next(v, input), input.skip(taken(v.pending, input) as int));
        (seq![utf8_output(v, input).unwrap()] + rest.0, rest.1)
    } else {
        (Seq::empty(), utf8_next(v, input))
    }
}

/// Decoding the buffers of `chunks` in turn from state `v`, each drained
/// as `utf8_drain` does, with only the final one marked as the last buffer:
/// the scalar values emitted and the state at the end.
pub open spec fn utf8_chunks(v: SessionView, chunks: Seq<Seq<u8>>) -> (Seq<u32>, SessionView)
    decreases chunks.len(),
{
    if chunks.len() == 0 {
        (Seq::empty(), v)
    } else {
        let first = utf8_drain(SessionView { last_buffer: chunks.len() == 1, ..v }, chunks[0]);
        let rest = utf8_chunks(first.1, chunks.drop_first());
        (first.0 + rest.0, rest.1)
    }
}

/// A decoding call that emits a value makes progress: fewer bytes are left
/// buffered and unread, and the buffer stays within capacity.
pub proof fn lemma_drain_progress(v: SessionView, input: Seq<u8>)
    requires
        v.pending.len() <= BUFFER_SIZE,
        utf8_output(v, input) is Some,
    ensures
        utf8_next(v, input).pending.len() + input.skip(taken(v.pending, input) as int).len()
            < v.pending.len() + input.len(),
        utf8_next(v, input).pending.len() <= BUFFER_SIZE,
{
    let f = filled(v.pending, input);
    lemma_step_bounds(f, v.last_buffer);
}

proof fn lemma_contains_cons(c: u32, s: Seq<u32>, x: u32)
    ensures
        (seq![c] + s).contains(x) == (c == x || s.contains(x)),
{
    let t = seq![c] + s;
    if s.contains(x) {
        let i = choose|i: int| 0 <= i < s.len() && s[i] == x;
        assert(t[i + 1] == x);
    }
    if c == x {
        assert(t[0] == x);
    }
    if t.contains(x) {
        let i = choose|i: int| 0 <= i < t.len() && t[i] == x;
        if i > 0 {
            assert(s[i - 1] == x);
        }
    }
}

proof fn lemma_contains_append(a: Seq<u32>, b: Seq<u32>, x: u32)
    ensures
        (a + b).contains(x) == (a.contains(x) || b.contains(x)),
{
    let t = a + b;
    if a.contains(x) {
        let i = choose|i: int| 0 <= i < a.len() && a[i] == x;
        assert(t[i] == x);
    }
    if b.contains(x) {
        let i = choose|i: int| 0 <= i < b.len() && b[i] == x;
        assert(t[a.len() + i] == x);
    }
    if t.contains(x) {
        let i = choose|i: int| 0 <= i < t.len() && t[i] == x;
        if i < a.len() {
            assert(a[i] == x);
        } else {
            assert(b[i - a.len()] == x);
        }
    }
}

/// Draining a buffer that is not the last: what comes out is the start of
/// the decoding of everything buffered and presented so far, followed by
/// whatever comes later; the rest waits in the session.
proof fn lemma_drain_not_last(v: SessionView, x: Seq<u8>, t: Seq<u8>)
    requires
        !v.last_buffer,
        v.pending.len() <= BUFFER_SIZE,
    ensures
        decode_all(v.pending + x + t) == utf8_drain(v, x).0 + decode_all(
            utf8_drain(v, x).1.pending + t,
        ),
        !utf8_drain(v, x).1.last_buffer,
        utf8_drain(v, x).1.pending.len() <= BUFFER_SIZE,
        utf8_drain(v, x).1.invalid_seen == (v.invalid_seen || utf8_drain(v, x).0.contains(
            REPLACE_UTF32,
        )),
    decreases v.pending.len() + x.len(),
{
    let p = v.pending;
    let f = filled(p, x);
    let tk = taken(p, x);
    let st = p + x + t;
    let o = decode_step(f, false).0;
    let n = decode_step(f, false).1;
    lemma_step_bounds(f, false);
    if utf8_output(v, x) is Some {
        assert(f.len() >= seq_len(f[0]));
        assert(f =~= st.take(f.len() as int));
        lemma_step_prefix(f, st, false, true);
        lemma_drain_progress(v, x);
        let v1 = utf8_next(v, x);
        let x1 = x.skip(tk as int);
        lemma_drain_not_last(v1, x1, t);
        assert(st.skip(n as int) =~= v1.pending + x1 + t);
        let c = utf8_output(v, x).unwrap();
        assert(c == emitted(o));
        let rest = utf8_drain(v1, x1);
        assert(utf8_drain(v, x).0 == seq![c] + rest.0);
        assert(decode_all(st) == seq![c] + decode_all(st.skip(n as int)));
        assert(seq![c] + (rest.0 + decode_all(rest.1.pending + t)) =~= (seq![c] + rest.0)
            + decode_all(rest.1.pending + t));
        lemma_contains_cons(c, rest.0, REPLACE_UTF32);
    } else {
        let w = utf8_next(v, x);
        if f.len() == 0 {
            assert(st =~= w.pending + t);
        } else {
            assert(tk == x.len());
            assert(f.skip(0) =~= f);
            assert(st =~= w.pending + t);
        }
        assert(utf8_drain(v, x).0 =~= Seq::<u32>::empty());
        assert(utf8_drain(v, x).0 + decode_all(w.pending + t) =~= decode_all(w.pending + t));
    }
}

/// Draining the last buffer decodes everything buffered and presented,
/// and leaves nothing behind.
proof fn lemma_drain_last(v: SessionView, x: Seq<u8>)
    requires
        v.last_buffer,
        v.pending.len() <= BUFFER_SIZE,
    ensures
        utf8_drain(v, x).0 == decode_all(v.pending + x),
        utf8_drain(v, x).1.last_buffer,
        utf8_drain(v, x).1.pending.len() == 0,
        utf8_drain(v, x).1.invalid_seen == (v.invalid_seen || utf8_drain(v, x).0.contains(
            REPLACE_UTF32,
        )),
    decreases v.pending.len() + x.len(),
{
    let p = v.pending;
    let f = filled(p, x);
    let tk = taken(p, x);
    let st = p + x;
    let o = decode_step(f, true).0;
    let n = decode_step(f, true).1;
    lemma_step_bounds(f, true);
    if utf8_output(v, x) is Some {
        if f.len() == st.len() {
            assert(f =~= st);
        } else {
            assert(f.len() >= seq_len(f[0]));
            assert(f =~= st.take(f.len() as int));
            lemma_step_prefix(f, st, true, true);
        }
        lemma_drain_progress(v, x);
        let v1 = utf8_next(v, x);
        let x1 = x.skip(tk as int);
        lemma_drain_last(v1, x1);
        assert(st.skip(n as int) =~= v1.pending + x1);
        let c = utf8_output(v, x).unwrap();
        assert(c == emitted(o));
        let rest = utf8_drain(v1, x1);
        assert(decode_all(st) == seq![c] + decode_all(st.skip(n as int)));
        lemma_contains_cons(c, rest.0, REPLACE_UTF32);
    } else {
        assert(st =~= Seq::<u8>::empty());
        assert(f.skip(0) =~= Seq::<u8>::empty());
    }
}

/// However the input is cut into buffers, decoding it gives the decoding of
/// the bytes as one sequence: every scalar value, and every replacement
/// character in the same number and place, is fixed by the bytes alone.
/// At the end nothing is left buffered, and the invalid-sequence flag is
/// set exactly when a replacement character came out (or it was set
/// before).
pub proof fn lemma_chunked_decode_is_canonical(v: SessionView, chunks: Seq<Seq<u8>>)
    requires
        chunks.len() > 0,
        v.pending.len() <= BUFFER_SIZE,
    ensures
        utf8_chunks(v, chunks).0 == decode_all(v.pending + chunks.flatten()),
        utf8_chunks(v, chunks).1.pending.len() == 0,
        utf8_chunks(v, chunks).1.last_buffer,
        utf8_chunks(v, chunks).1.invalid_seen == (v.invalid_seen || decode_all(
            v.pending + chunks.flatten(),
        ).contains(REPLACE_UTF32)),
    decreases chunks.len(),
{
    let rest = chunks.drop_first();
    if chunks.len() == 1 {
        let v1 = SessionView { last_buffer: true, ..v };
        lemma_drain_last(v1, chunks[0]);
        assert(chunks.flatten() =~= chunks[0] + rest.flatten());
        assert(rest.flatten() =~= Seq::<u8>::empty());
        assert(chunks.flatten() =~= chunks[0]);
        let first = utf8_drain(v1, chunks[0]);
        assert(utf8_chunks(first.1, rest) == (Seq::<u32>::empty(), first.1));
        assert(first.0 + Seq::<u32>::empty() =~= first.0);
        assert(utf8_chunks(v, chunks) == (first.0 + Seq::<u32>::empty(), first.1));
    } else {
        let v1 = SessionView { last_buffer: false, ..v };
        let t = rest.flatten();
        lemma_drain_not_last(v1, chunks[0], t);
        let first = utf8_drain(v1, chunks[0]);
        lemma_chunked_decode_is_canonical(first.1, rest);
        assert(chunks.flatten() == chunks[0] + t);
        assert(v.pending + chunks.flatten() =~= v.pending + chunks[0] + t);
        let later = utf8_chunks(first.1, rest);
        assert(utf8_chunks(v, chunks) == (first.0 + later.0, later.1));
        lemma_contains_append(first.0, later.0, REPLACE_UTF32);
    }
}

/// Decoding bytes presented as one buffer or cut into any number of
/// buffers (only the final one marked last) gives the same scalar values,
/// and ends in the same state, with the same invalid-sequence flag.
pub proof fn lemma_chunking_invariance(v: SessionView, chunks: Seq<Seq<u8>>)
    requires
        chunks.len() > 0,
        v.pending.len() <= BUFFER_SIZE,
    ensures
        utf8_chunks(v, chunks).0 == utf8_chunks(v, seq![chunks.flatten()]).0,
        utf8_chunks(v, chunks).1 == utf8_chunks(v, seq![chunks.flatten()]).1,
{
    let whole = seq![chunks.flatten()];
    lemma_chunked_decode_is_canonical(v, chunks);
    lemma_chunked_decode_is_canonical(v, whole);
    assert(whole.drop_first().flatten() =~= Seq::<u8>::empty());
    assert(whole.flatten() =~= chunks.flatten());
    assert(utf8_chunks(v, chunks).1.pending =~= utf8_chunks(v, whole).1.pending);
}

/// The bytes that encoding calls on `input` from state `v` emit, called
/// again as long as one emits a byte, and the state after the call that
/// emits none.
pub open spec fn encode_drain(v: SessionView, input: Seq<u32>) -> (Seq<u8>, SessionView)
    decreases v.pending.len() + 4 * input.len(),
{
    if encode_output(v, input) is Some {
        proof {
            lemma_utf8_len(input[0]);
        }
        let rest = encode_drain(
            encode_next(v, input),
            input.skip(encode_taken(v, input) as int),
        );
        (seq![encode_output(v, input).unwrap()] + rest.0, rest.1)
    } else {
        (Seq::empty(), encode_next(v, input))
    }
}

/// A code point is encoded in one to four bytes.
pub proof fn lemma_utf8_len(code: u32)
    ensures
        1 <= utf8_of(code).len() <= 4,
{
}

proof fn lemma_encode_flush(v: SessionView)
    ensures
        encode_drain(v, Seq::empty()).0 == v.pending,
        encode_drain(v, Seq::empty()).1 == (SessionView { pending: Seq::empty(), ..v }),
    decreases v.pending.len(),
{
    if v.pending.len() > 0 {
        let v1 = SessionView { pending: v.pending.drop_first(), ..v };
        lemma_encode_flush(v1);
        assert(Seq::<u32>::empty().skip(0) =~= Seq::<u32>::empty());
        assert(seq![v.pending[0]] + v1.pending =~= v.pending);
    } else {
        assert(v.pending =~= Seq::<u8>::empty());
    }
}

/// Decoding the encoding of a scalar value other than the replacement
/// character finishes on that value, consuming all of its bytes.
pub proof fn lemma_decode_encoded(c: u32)
    requires
        is_scalar(c as int),
        c != REPLACE_UTF32,
    ensures
        decode_step(utf8_of(c), true) == (Utf8EndEnum::Finish(c), utf8_of(c).len()),
{
    let b = utf8_of(c);
    if c < 0x80 {
    } else if c < 0x800 {
        assert(0xC2 <= b[0] <= 0xDF);
        assert(b[0] % 32 == c / 64);
        assert(b[1] % 64 == c % 64);
        assert(run_len(b) == 1);
        assert(assemble(b, 2) == c);
    } else if c < 0x10000 {
        assert(0xE0 <= b[0] <= 0xEF);
        assert(b[0] % 16 == c / 4096);
        assert(b[1] % 64 == (c / 64) % 64);
        assert(b[2] % 64 == c % 64);
        assert(cont_ok(b[0], 1, b[1]));
        assert(run_len(b) == 2);
        assert(assemble(b, 3) == c);
    } else {
        assert(0xF0 <= b[0] <= 0xF4);
        assert(b[0] % 8 == c / 262144);
        assert(b[1] % 64 == (c / 4096) % 64);
        assert(b[2] % 64 == (c / 64) % 64);
        assert(b[3] % 64 == c % 64);
        assert(cont_ok(b[0], 1, b[1]));
        assert(run_len(b) == 3);
        assert(assemble(b, 4) == c);
    }
}

/// Every scalar value survives a round trip: encoding it with a new
/// encoder session and decoding the bytes with a new decoder session gives
/// the value back. Neither session sees an invalid sequence, except for
/// the replacement character, which both treat as the trace of an earlier
/// error (and still give back unchanged).
pub proof fn lemma_round_trip(c: u32)
    requires
        is_scalar(c as int),
    ensures
        encode_drain(fresh_view(), seq![c]).0 == utf8_of(c),
        utf8_drain(fresh_view(), encode_drain(fresh_view(), seq![c]).0).0 == seq![c],
        encode_drain(fresh_view(), seq![c]).1.invalid_seen == (c == REPLACE_UTF32),
        utf8_drain(fresh_view(), encode_drain(fresh_view(), seq![c]).0).1.invalid_seen == (c
            == REPLACE_UTF32),
{
    let v0 = fresh_view();
    let b = utf8_of(c);
    lemma_utf8_len(c);
    // encoding: the first byte, then the buffered rest
    let v1 = encode_next(v0, seq![c]);
    assert(seq![c].skip(1) =~= Seq::<u32>::empty());
    lemma_encode_flush(v1);
    assert(seq![b[0]] + b.drop_first() =~= b);
    assert(encode_drain(v0, seq![c]).0 == b);
    assert(classify_spec(c) is Type0 == (c == REPLACE_UTF32));
    // decoding: one step takes all the bytes
    assert(filled(v0.pending, b) =~= b);
    if c != REPLACE_UTF32 {
        lemma_decode_encoded(c);
    } else {
        assert(b =~= seq![0xEFu8, 0xBFu8, 0xBDu8]);
        assert(run_len(b) == 2);
        assert(assemble(b, 3) == REPLACE_UTF32);
    }
    let w1 = utf8_next(v0, b);
    assert(b.skip(b.len() as int) =~= Seq::<u8>::empty());
    assert(w1.pending =~= Seq::<u8>::empty());
    assert(filled(w1.pending, Seq::<u8>::empty()) =~= Seq::<u8>::empty());
    assert(utf8_drain(w1, Seq::<u8>::empty()).0 =~= Seq::<u32>::empty());
    assert(utf8_drain(v0, b).0 =~= seq![c]);
}

} // verus!
