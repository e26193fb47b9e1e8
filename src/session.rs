//! Streaming sessions: a decoder from UTF-8 and an encoder to UTF-8, each
//! resumable across any number of input buffers.
use vstd::prelude::*;
use crate::buf::{FifoBytes, BUFFER_SIZE};
use crate::decode::{decode_step, is_scalar, lemma_finish_is_scalar, utf8_decode, Utf8EndEnum, REPLACE_UTF32};
use crate::encode::{
    classify_spec, classify_utf32, utf8_of, Utf8TypeEnum, REPLACE_PART1, REPLACE_PART2,
    REPLACE_PART3,
};

verus! {

/// Relies on `char::from_u32`: it gives the char exactly for a Unicode
/// scalar value, and that char has the value asked for.
pub assume_specification[ char::from_u32 ](i: u32) -> (r: Option<char>)
    ensures
        r is Some <==> is_scalar(i as int),
        r is Some ==> r.unwrap() as u32 == i,
;

/// The signal of a call that produced no value: `More(0)` at the end of
/// the data, `More(n)` with `n > 0` when another buffer is wanted.
/// (Neither is an error.)
#[derive(Debug, PartialEq, Eq, Structural, Clone, Copy)]
pub enum MoreEnum {
    /// 0: end of data, greater than 0: need more data
    More(u32),
}

/// What a session holds: the bytes buffered between calls, whether the
/// current input buffer is the last one, and whether an invalid sequence
/// was met since the last reset.
pub struct SessionView {
    pub pending: Seq<u8>,
    pub last_buffer: bool,
    pub invalid_seen: bool,
}

/// The state of a session that was just made or reset.
pub open spec fn fresh_view() -> SessionView {
    SessionView { pending: Seq::empty(), last_buffer: true, invalid_seen: false }
}

/// The state `reset_parser` leaves behind a session in state `v`: the
/// buffer drained, the last-buffer flag set, the invalid-sequence flag
/// cleared.
pub open spec fn reset_view(v: SessionView) -> SessionView {
    SessionView { pending: Seq::empty(), last_buffer: true, invalid_seen: false }
}

/// The hint of `More` that asks the UTF-8 decoder for another buffer.
pub const DECODE_MORE_HINT: u32 = 4096;

/// The hint of `More` that asks the UTF-8 encoder for another buffer.
pub const ENCODE_MORE_HINT: u32 = 1024;

/// How many bytes of `input` top up a buffer that holds `pending`.
pub open spec fn taken(pending: Seq<u8>, input: Seq<u8>) -> nat {
    if pending.len() + input.len() <= BUFFER_SIZE {
        input.len()
    } else {
        (BUFFER_SIZE - pending.len()) as nat
    }
}

/// The buffer after topping it up from `input`.
pub open spec fn filled(pending: Seq<u8>, input: Seq<u8>) -> Seq<u8> {
    pending + input.take(taken(pending, input) as int)
}

/// The scalar value one decoding call emits for `input` from state `v`:
/// the decoded value, the replacement character for a malformed sequence
/// and for an incomplete one in the last buffer, or nothing when the data
/// ends or more of it is needed.
pub open spec fn utf8_output(v: SessionView, input: Seq<u8>) -> Option<u32> {
    let f = filled(v.pending, input);
    if f.len() == 0 {
        None
    } else {
        match decode_step(f, v.last_buffer).0 {
            Utf8EndEnum::BadDecode(_) => Some(REPLACE_UTF32),
            Utf8EndEnum::Finish(c) => Some(c),
            Utf8EndEnum::TypeUnknown => if v.last_buffer {
                Some(REPLACE_UTF32)
            } else {
                None
            },
        }
    }
}

/// The state after one decoding call on `input` from state `v`.
pub open spec fn utf8_next(v: SessionView, input: Seq<u8>) -> SessionView {
    let f = filled(v.pending, input);
    SessionView {
        pending: f.skip(decode_step(f, v.last_buffer).1 as int),
        last_buffer: v.last_buffer,
        invalid_seen: v.invalid_seen || utf8_output(v, input) == Some(REPLACE_UTF32),
    }
}

/// The byte one encoding call emits for `input` from state `v`: a byte
/// left from the previous code point, else the first byte of the next one,
/// else nothing.
pub open spec fn encode_output(v: SessionView, input: Seq<u32>) -> Option<u8> {
    if v.pending.len() > 0 {
        Some(v.pending[0])
    } else if input.len() == 0 {
        None
    } else {
        Some(utf8_of(input[0])[0])
    }
}

/// How many code points of `input` one encoding call consumes.
pub open spec fn encode_taken(v: SessionView, input: Seq<u32>) -> nat {
    if v.pending.len() == 0 && input.len() > 0 {
        1
    } else {
        0
    }
}

/// The state after one encoding call on `input` from state `v`.
pub open spec fn encode_next(v: SessionView, input: Seq<u32>) -> SessionView {
    if v.pending.len() > 0 {
        SessionView { pending: v.pending.drop_first(), ..v }
    } else if input.len() == 0 {
        v
    } else {
        SessionView {
            pending: utf8_of(input[0]).drop_first(),
            last_buffer: v.last_buffer,
            invalid_seen: v.invalid_seen || classify_spec(input[0]) is Type0,
        }
    }
}

/// The code points of a char slice.
pub open spec fn code_points(s: Seq<char>) -> Seq<u32> {
    s.map_values(|c: char| c as u32)
}

/// Common operations of the conversion sessions.
pub trait UtfParserCommon: View<V = SessionView> + Sized {
    /// Brings the session back to the state of a new one: buffer drained,
    /// last-buffer flag set, invalid-sequence flag cleared.
    fn reset_parser(&mut self)
        ensures
            final(self)@ == reset_view(old(self)@),
    ;

    /// If `b` is true, the next input buffer presented is the last one.
    fn set_is_last_buffer(&mut self, b: bool)
        ensures
            final(self)@ == (SessionView { last_buffer: b, ..old(self)@ }),
    ;

    /// The last-buffer flag.
    fn is_last_buffer(&self) -> (r: bool)
        ensures
            r == self@.last_buffer,
    ;

    /// Records that an invalid sequence occurred.
    fn signal_invalid_sequence(&mut self)
        ensures
            final(self)@ == (SessionView { invalid_seen: true, ..old(self)@ }),
    ;

    /// True if an invalid sequence occurred since the last reset.
    fn has_invalid_sequence(&self) -> (r: bool)
        ensures
            r == self@.invalid_seen,
    ;

    /// Clears the invalid-sequence flag.
    fn reset_invalid_sequence(&mut self)
        ensures
            final(self)@ == (SessionView { invalid_seen: false, ..old(self)@ }),
    ;
}

/// Converts UTF-8 to chars or UTF-32.
#[derive(Debug, Clone, Copy)]
pub struct FromUtf8 {
    my_buf: FifoBytes,
    my_last_buffer: bool,
    my_invalid_sequence: bool,
}

/// Converts chars or UTF-32 to UTF-8.
#[derive(Debug, Clone, Copy)]
pub struct FromUnicode {
    my_buf: FifoBytes,
    my_last_buffer: bool,
    my_invalid_sequence: bool,
}

impl View for FromUtf8 {
    type V = SessionView;

    closed spec fn view(&self) -> SessionView {
        SessionView {
            pending: self.my_buf@,
            last_buffer: self.my_last_buffer,
            invalid_seen: self.my_invalid_sequence,
        }
    }
}

impl View for FromUnicode {
    type V = SessionView;

    closed spec fn view(&self) -> SessionView {
        SessionView {
            pending: self.my_buf@,
            last_buffer: self.my_last_buffer,
            invalid_seen: self.my_invalid_sequence,
        }
    }
}

/// Maps a char parsing result to a UTF-32 parsing result.
pub fn parse_mapper_char_to_utf32<'a>(input: Result<(&'a [u8], char), MoreEnum>) -> (r: Result<
    (&'a [u8], u32),
    MoreEnum,
>)
    ensures
        match input {
            Ok((rest, ch)) => r == Ok::<(&'a [u8], u32), MoreEnum>((rest, ch as u32)),
            Err(e) => r == Err::<(&'a [u8], u32), MoreEnum>(e),
        },
{
    match input {
        Err(e) => Err(e),
        Ok((new_spot, ch)) => Ok((new_spot, ch as u32)),
    }
}

impl FromUtf8 {
    /// Makes a session in single-buffer mode: the first buffer presented is
    /// taken as the last one unless `set_is_last_buffer(false)` says
    /// otherwise.
    pub fn new() -> (r: FromUtf8)
        ensures
            r@ == fresh_view(),
    {
        FromUtf8 { my_buf: FifoBytes::new(), my_last_buffer: true, my_invalid_sequence: false }
    }

    /// Decodes the next char from the session's buffered bytes topped up
    /// from `input`, and returns it with the part of `input` not taken.
    ///
    /// A malformed sequence, and in the last buffer an incomplete one, gives
    /// the replacement character and sets the invalid-sequence flag; so does
    /// a replacement character in the input. `Err(More(0))` is the end of
    /// the data; `Err(More(n))` with `n > 0` asks for the next buffer, and
    /// then all of `input` has been taken into the session.
    pub fn utf8_to_char<'b>(&mut self, input: &'b [u8]) -> (r: Result<(&'b [u8], char), MoreEnum>)
        ensures
            final(self)@ == utf8_next(old(self)@, input@),
            match r {
                Ok((rest, ch)) => utf8_output(old(self)@, input@) == Some(ch as u32) && rest@
                    == input@.skip(taken(old(self)@.pending, input@) as int),
                Err(MoreEnum::More(n)) => utf8_output(old(self)@, input@) is None && taken(
                    old(self)@.pending,
                    input@,
                ) == input@.len() && n == (if old(self)@.last_buffer {
                    0
                } else {
                    DECODE_MORE_HINT
                }),
            },
    {
        let ghost pending = self.my_buf@;
        let last_buffer = self.my_last_buffer;
        let start_len = self.my_buf.len();
        let mut i: usize = 0;
        // top up the buffer
        while i < input.len() && !self.my_buf.is_full()
            invariant
                i <= input.len(),
                self.my_buf@ == pending + input@.take(i as int),
                start_len == pending.len() <= 8,
                self.my_buf@.len() <= 8,
                self.my_last_buffer == old(self).my_last_buffer,
                self.my_invalid_sequence == old(self).my_invalid_sequence,
                pending == old(self)@.pending,
            decreases input.len() - i,
        {
            self.my_buf.push_back(input[i]);
            i = i + 1;
            assert(input@.take(i as int) =~= input@.take(i - 1).push(input@[i - 1]));
        }
        assert(i == taken(pending, input@));
        let my_cursor = &input[i..input.len()];
        let ghost f = self.my_buf@;
        assert(f == filled(pending, input@));
        proof {
            lemma_finish_is_scalar(f, last_buffer);
        }
        if self.my_buf.is_empty() {
            assert(input@.len() == 0);
            assert(f.skip(0) =~= f);
            if last_buffer {
                Err(MoreEnum::More(0))
            } else {
                Err(MoreEnum::More(DECODE_MORE_HINT))
            }
        } else {
            match utf8_decode(&mut self.my_buf, last_buffer) {
                Utf8EndEnum::BadDecode(_) => {
                    self.signal_invalid_sequence();
                    Ok((my_cursor, '\u{FFFD}'))
                },
                Utf8EndEnum::Finish(code) => {
                    match char::from_u32(code) {
                        Some(ch) => Ok((my_cursor, ch)),
                        None => {
                            // not reached: the machine finishes on scalar
                            // values only
                            self.signal_invalid_sequence();
                            Ok((my_cursor, '\u{FFFD}'))
                        },
                    }
                },
                Utf8EndEnum::TypeUnknown => {
                    if last_buffer {
                        // the sequence was cut short by the end of the data
                        self.signal_invalid_sequence();
                        Ok((my_cursor, '\u{FFFD}'))
                    } else {
                        Err(MoreEnum::More(DECODE_MORE_HINT))
                    }
                },
            }
        }
    }

    /// Like `utf8_to_char`, giving the scalar value as UTF-32.
    pub fn utf8_to_utf32<'c>(&mut self, input: &'c [u8]) -> (r: Result<(&'c [u8], u32), MoreEnum>)
        ensures
            final(self)@ == utf8_next(old(self)@, input@),
            match r {
                Ok((rest, code)) => utf8_output(old(self)@, input@) == Some(code) && rest@
                    == input@.skip(taken(old(self)@.pending, input@) as int),
                Err(MoreEnum::More(n)) => utf8_output(old(self)@, input@) is None && taken(
                    old(self)@.pending,
                    input@,
                ) == input@.len() && n == (if old(self)@.last_buffer {
                    0
                } else {
                    DECODE_MORE_HINT
                }),
            },
    {
        let char_parse_result = self.utf8_to_char(input);
        parse_mapper_char_to_utf32(char_parse_result)
    }
}

impl FromUnicode {
    /// Makes a session in single-buffer mode.
    pub fn new() -> (r: FromUnicode)
        ensures
            r@ == fresh_view(),
    {
        FromUnicode { my_buf: FifoBytes::new(), my_last_buffer: true, my_invalid_sequence: false }
    }

    /// Classifies `code`, returns the first byte of its UTF-8 form and
    /// buffers the others; an invalid code point gives the replacement
    /// character and sets the invalid-sequence flag.
    fn emit_code_point(&mut self, code: u32) -> (r: u8)
        requires
            old(self)@.pending.len() == 0,
        ensures
            r == utf8_of(code)[0],
            final(self)@ == (SessionView {
                pending: utf8_of(code).drop_first(),
                last_buffer: old(self)@.last_buffer,
                invalid_seen: old(self)@.invalid_seen || classify_spec(code) is Type0,
            }),
    {
        let ghost t = utf8_of(code);
        match classify_utf32(code) {
            Utf8TypeEnum::Type1(v1) => {
                assert(t.drop_first() =~= self.my_buf@);
                v1
            },
            Utf8TypeEnum::Type2((v1, v2)) => {
                self.my_buf.push_back(v2);
                assert(t.drop_first() =~= self.my_buf@);
                v1
            },
            Utf8TypeEnum::Type3((v1, v2, v3)) => {
                self.my_buf.push_back(v2);
                self.my_buf.push_back(v3);
                assert(t.drop_first() =~= self.my_buf@);
                v1
            },
            Utf8TypeEnum::Type4((v1, v2, v3, v4)) => {
                self.my_buf.push_back(v2);
                self.my_buf.push_back(v3);
                self.my_buf.push_back(v4);
                assert(t.drop_first() =~= self.my_buf@);
                v1
            },
            Utf8TypeEnum::Type0(_) => {
                self.signal_invalid_sequence();
                self.my_buf.push_back(REPLACE_PART2);
                self.my_buf.push_back(REPLACE_PART3);
                assert(t.drop_first() =~= self.my_buf@);
                REPLACE_PART1
            },
        }
    }

    /// Encodes the chars of `input` to UTF-8, one byte per call, and
    /// returns the byte with the part of `input` not yet taken.
    ///
    /// Bytes left from the previous char come first, without touching
    /// `input`. An invalid code point (the replacement character itself
    /// counts as one) gives the bytes of the replacement character and sets
    /// the invalid-sequence flag. `Err(More(0))` is the end of the data;
    /// `Err(More(n))` with `n > 0` asks for the next buffer.
    pub fn char_to_utf8<'b>(&mut self, input: &'b [char]) -> (r: Result<(&'b [char], u8), MoreEnum>)
        ensures
            final(self)@ == encode_next(old(self)@, code_points(input@)),
            match r {
                Ok((rest, b)) => encode_output(old(self)@, code_points(input@)) == Some(b) && rest@
                    == input@.skip(encode_taken(old(self)@, code_points(input@)) as int),
                Err(MoreEnum::More(n)) => encode_output(old(self)@, code_points(input@)) is None
                    && n == (if old(self)@.last_buffer {
                    0
                } else {
                    ENCODE_MORE_HINT
                }),
            },
    {
        let ghost cps = code_points(input@);
        match self.my_buf.pop_front() {
            Some(v1) => {
                assert(input@.skip(0) =~= input@);
                return Ok((input, v1));
            },
            None => {},
        }
        if input.len() == 0 {
            if self.is_last_buffer() {
                return Err(MoreEnum::More(0));
            } else {
                return Err(MoreEnum::More(ENCODE_MORE_HINT));
            }
        }
        let cur_u32 = input[0] as u32;
        let my_cursor = &input[1..input.len()];
        let b = self.emit_code_point(cur_u32);
        Ok((my_cursor, b))
    }

    /// Encodes the UTF-32 values of `input` to UTF-8, one byte per call,
    /// as `char_to_utf8` does; values that are no scalar value give the
    /// replacement character.
    pub fn utf32_to_utf8<'c>(&mut self, input: &'c [u32]) -> (r: Result<(&'c [u32], u8), MoreEnum>)
        ensures
            final(self)@ == encode_next(old(self)@, input@),
            match r {
                Ok((rest, b)) => encode_output(old(self)@, input@) == Some(b) && rest@ == input@.skip(
                    encode_taken(old(self)@, input@) as int,
                ),
                Err(MoreEnum::More(n)) => encode_output(old(self)@, input@) is None && n == (
                if old(self)@.last_buffer {
                    0
                } else {
                    ENCODE_MORE_HINT
                }),
            },
    {
        match self.my_buf.pop_front() {
            Some(v1) => {
                assert(input@.skip(0) =~= input@);
                return Ok((input, v1));
            },
            None => {},
        }
        if input.len() == 0 {
            if self.is_last_buffer() {
                return Err(MoreEnum::More(0));
            } else {
                return Err(MoreEnum::More(ENCODE_MORE_HINT));
            }
        }
        let cur_u32 = input[0];
        let my_cursor = &input[1..input.len()];
        let b = self.emit_code_point(cur_u32);
        Ok((my_cursor, b))
    }
}

impl UtfParserCommon for FromUtf8 {
    fn reset_parser(&mut self) {
        self.my_buf.clear();
        self.set_is_last_buffer(true);
        self.reset_invalid_sequence();
    }

    fn set_is_last_buffer(&mut self, b: bool) {
        self.my_last_buffer = b;
    }

    fn is_last_buffer(&self) -> (r: bool) {
        self.my_last_buffer
    }

    fn signal_invalid_sequence(&mut self) {
        self.my_invalid_sequence = true;
    }

    fn has_invalid_sequence(&self) -> (r: bool) {
        self.my_invalid_sequence
    }

    fn reset_invalid_sequence(&mut self) {
        self.my_invalid_sequence = false;
    }
}

impl UtfParserCommon for FromUnicode {
    fn reset_parser(&mut self) {
        self.my_buf.clear();
        self.set_is_last_buffer(true);
        self.reset_invalid_sequence();
    }

    fn set_is_last_buffer(&mut self, b: bool) {
        self.my_last_buffer = b;
    }

    fn is_last_buffer(&self) -> (r: bool) {
        self.my_last_buffer
    }

    fn signal_invalid_sequence(&mut self) {
        self.my_invalid_sequence = true;
    }

    fn has_invalid_sequence(&self) -> (r: bool) {
        self.my_invalid_sequence
    }

    fn reset_invalid_sequence(&mut self) {
        self.my_invalid_sequence = false;
    }
}

} // verus!
