//! Pull-style adapters: each yields one item per `next` call from a slice,
//! either as it stands or through a conversion session.
use vstd::prelude::*;
use crate::session::{
    code_points, encode_next, encode_output, encode_taken, taken, utf8_next, utf8_output,
    FromUnicode, FromUtf8, SessionView, UtfParserCommon,
};

verus! {

/// Yields the chars of a char slice, in order.
pub struct CharRefToCharStruct<'b> {
    my_input: &'b [char],
    my_pos: usize,
}

/// Yields the values of a UTF-32 slice, in order.
pub struct Utf32RefToUtf32Struct<'b> {
    my_input: &'b [u32],
    my_pos: usize,
}

/// Yields the bytes of a UTF-8 slice, in order.
pub struct Utf8RefToUtf8Struct<'b> {
    my_input: &'b [u8],
    my_pos: usize,
}

/// Yields the UTF-32 values of the chars of a char slice, in order.
pub struct CharToUtf32Struct<'b> {
    my_input: &'b [char],
    my_pos: usize,
}

impl<'b> CharRefToCharStruct<'b> {
    #[verifier::type_invariant]
    closed spec fn in_bounds(self) -> bool {
        self.my_pos <= self.my_input@.len()
    }

    /// The items not yet yielded.
    pub closed spec fn remaining(self) -> Seq<char> {
        self.my_input@.skip(self.my_pos as int)
    }

    /// The next char, or `None` at the end of the slice.
    pub fn next(&mut self) -> (r: Option<char>)
        ensures
            old(self).remaining().len() == 0 ==> r is None && final(self).remaining() == old(self).remaining(),
            old(self).remaining().len() > 0 ==> r == Some(old(self).remaining()[0]) && final(self).remaining() == old(self).remaining().drop_first(),
    {
        proof {
            use_type_invariant(&*self);
        }
        if self.my_pos < self.my_input.len() {
            let v = self.my_input[self.my_pos];
            self.my_pos = self.my_pos + 1;
            assert(self.remaining() =~= old(self).remaining().drop_first());
            Some(v)
        } else {
            None
        }
    }

    /// The number of chars left, as lower and upper bound.
    pub fn size_hint(&self) -> (r: (usize, Option<usize>))
        ensures
            r.0 == self.remaining().len(),
            r.1 == Some(r.0),
    {
        proof {
            use_type_invariant(self);
        }
        let n = self.my_input.len() - self.my_pos;
        (n, Some(n))
    }
}

impl<'b> Utf32RefToUtf32Struct<'b> {
    #[verifier::type_invariant]
    closed spec fn in_bounds(self) -> bool {
        self.my_pos <= self.my_input@.len()
    }

    /// The items not yet yielded.
    pub closed spec fn remaining(self) -> Seq<u32> {
        self.my_input@.skip(self.my_pos as int)
    }

    /// The next value, or `None` at the end of the slice.
    pub fn next(&mut self) -> (r: Option<u32>)
        ensures
            old(self).remaining().len() == 0 ==> r is None && final(self).remaining() == old(self).remaining(),
            old(self).remaining().len() > 0 ==> r == Some(old(self).remaining()[0]) && final(self).remaining() == old(self).remaining().drop_first(),
    {
        proof {
            use_type_invariant(&*self);
        }
        if self.my_pos < self.my_input.len() {
            let v = self.my_input[self.my_pos];
            self.my_pos = self.my_pos + 1;
            assert(self.remaining() =~= old(self).remaining().drop_first());
            Some(v)
        } else {
            None
        }
    }

    /// The number of values left, as lower and upper bound.
    pub fn size_hint(&self) -> (r: (usize, Option<usize>))
        ensures
            r.0 == self.remaining().len(),
            r.1 == Some(r.0),
    {
        proof {
            use_type_invariant(self);
        }
        let n = self.my_input.len() - self.my_pos;
        (n, Some(n))
    }
}

impl<'b> Utf8RefToUtf8Struct<'b> {
    #[verifier::type_invariant]
    closed spec fn in_bounds(self) -> bool {
        self.my_pos <= self.my_input@.len()
    }

    /// The items not yet yielded.
    pub closed spec fn remaining(self) -> Seq<u8> {
        self.my_input@.skip(self.my_pos as int)
    }

    /// The next byte, or `None` at the end of the slice.
    pub fn next(&mut self) -> (r: Option<u8>)
        ensures
            old(self).remaining().len() == 0 ==> r is None && final(self).remaining() == old(self).remaining(),
            old(self).remaining().len() > 0 ==> r == Some(old(self).remaining()[0]) && final(self).remaining() == old(self).remaining().drop_first(),
    {
        proof {
            use_type_invariant(&*self);
        }
        if self.my_pos < self.my_input.len() {
            let v = self.my_input[self.my_pos];
            self.my_pos = self.my_pos + 1;
            assert(self.remaining() =~= old(self).remaining().drop_first());
            Some(v)
        } else {
            None
        }
    }

    /// The number of bytes left, as lower and upper bound.
    pub fn size_hint(&self) -> (r: (usize, Option<usize>))
        ensures
            r.0 == self.remaining().len(),
            r.1 == Some(r.0),
    {
        proof {
            use_type_invariant(self);
        }
        let n = self.my_input.len() - self.my_pos;
        (n, Some(n))
    }
}

impl<'b> CharToUtf32Struct<'b> {
    #[verifier::type_invariant]
    closed spec fn in_bounds(self) -> bool {
        self.my_pos <= self.my_input@.len()
    }

    /// The chars not yet converted.
    pub closed spec fn remaining(self) -> Seq<char> {
        self.my_input@.skip(self.my_pos as int)
    }

    /// The UTF-32 value of the next char, or `None` at the end of the slice.
    pub fn next(&mut self) -> (r: Option<u32>)
        ensures
            old(self).remaining().len() == 0 ==> r is None && final(self).remaining() == old(self).remaining(),
            old(self).remaining().len() > 0 ==> r == Some(old(self).remaining()[0] as u32) && final(self).remaining() == old(self).remaining().drop_first(),
    {
        proof {
            use_type_invariant(&*self);
        }
        if self.my_pos < self.my_input.len() {
            let v = self.my_input[self.my_pos];
            self.my_pos = self.my_pos + 1;
            assert(self.remaining() =~= old(self).remaining().drop_first());
            Some(v as u32)
        } else {
            None
        }
    }

    /// The number of chars left, as lower and upper bound.
    pub fn size_hint(&self) -> (r: (usize, Option<usize>))
        ensures
            r.0 == self.remaining().len(),
            r.1 == Some(r.0),
    {
        proof {
            use_type_invariant(self);
        }
        let n = self.my_input.len() - self.my_pos;
        (n, Some(n))
    }
}

/// Yields the chars of a char slice.
pub fn char_ref_iter_to_char_iter<'a>(input: &'a [char]) -> (r: CharRefToCharStruct<'a>)
    ensures
        r.remaining() == input@,
{
    let r = CharRefToCharStruct { my_input: input, my_pos: 0 };
    assert(r.remaining() =~= input@);
    r
}

/// Yields the values of a UTF-32 slice.
pub fn utf32_ref_iter_to_utf32_iter<'a>(input: &'a [u32]) -> (r: Utf32RefToUtf32Struct<'a>)
    ensures
        r.remaining() == input@,
{
    let r = Utf32RefToUtf32Struct { my_input: input, my_pos: 0 };
    assert(r.remaining() =~= input@);
    r
}

/// Yields the bytes of a UTF-8 slice.
pub fn utf8_ref_iter_to_utf8_iter<'a>(input: &'a [u8]) -> (r: Utf8RefToUtf8Struct<'a>)
    ensures
        r.remaining() == input@,
{
    let r = Utf8RefToUtf8Struct { my_input: input, my_pos: 0 };
    assert(r.remaining() =~= input@);
    r
}

/// Yields the UTF-32 values of the chars of a char slice.
pub fn char_iter_to_utf32_iter<'a>(input: &'a [char]) -> (r: CharToUtf32Struct<'a>)
    ensures
        r.remaining() == input@,
{
    let r = CharToUtf32Struct { my_input: input, my_pos: 0 };
    assert(r.remaining() =~= input@);
    r
}

/// Decodes a byte slice to chars through a `FromUtf8` session.
pub struct Utf8IterToCharIter<'p> {
    my_input: &'p [u8],
    my_info: &'p mut FromUtf8,
}

impl<'p> View for Utf8IterToCharIter<'p> {
    type V = SessionView;

    /// The state of the session the adapter drives.
    closed spec fn view(&self) -> SessionView {
        (*self.my_info)@
    }
}

impl<'p> Utf8IterToCharIter<'p> {
    /// The bytes not yet taken into the session.
    pub closed spec fn remaining(self) -> Seq<u8> {
        self.my_input@
    }

    /// The next char decoded from the remaining bytes, as
    /// `FromUtf8::utf8_to_char` gives it; `None` where that call asks for
    /// more data or reports the end of the data.
    pub fn next(&mut self) -> (r: Option<char>)
        ensures
            final(self)@ == utf8_next(old(self)@, old(self).remaining()),
            final(self).remaining() == old(self).remaining().skip(
                taken(old(self)@.pending, old(self).remaining()) as int,
            ),
            match r {
                Some(ch) => utf8_output(old(self)@, old(self).remaining()) == Some(ch as u32),
                None => utf8_output(old(self)@, old(self).remaining()) is None,
            },
    {
        let rest = self.my_input;
        match self.my_info.utf8_to_char(rest) {
            Ok((after, ch)) => {
                self.my_input = after;
                Some(ch)
            },
            Err(_) => {
                self.my_input = &rest[rest.len()..rest.len()];
                assert(self.remaining() =~= rest@.skip(rest@.len() as int));
                None
            },
        }
    }

    /// The number of bytes left, as lower and upper bound.
    pub fn size_hint(&self) -> (r: (usize, Option<usize>))
        ensures
            r.0 == self.remaining().len(),
            r.1 == Some(r.0),
    {
        let n = self.my_input.len();
        (n, Some(n))
    }
}

/// Decodes a borrowed byte slice to chars through a `FromUtf8` session.
pub struct Utf8RefIterToCharIter<'p> {
    my_input: &'p [u8],
    my_info: &'p mut FromUtf8,
}

impl<'p> View for Utf8RefIterToCharIter<'p> {
    type V = SessionView;

    /// The state of the session the adapter drives.
    closed spec fn view(&self) -> SessionView {
        (*self.my_info)@
    }
}

impl<'p> Utf8RefIterToCharIter<'p> {
    /// The bytes not yet taken into the session.
    pub closed spec fn remaining(self) -> Seq<u8> {
        self.my_input@
    }

    /// The next char decoded from the remaining bytes, as
    /// `FromUtf8::utf8_to_char` gives it; `None` where that call asks for
    /// more data or reports the end of the data.
    pub fn next(&mut self) -> (r: Option<char>)
        ensures
            final(self)@ == utf8_next(old(self)@, old(self).remaining()),
            final(self).remaining() == old(self).remaining().skip(
                taken(old(self)@.pending, old(self).remaining()) as int,
            ),
            match r {
                Some(ch) => utf8_output(old(self)@, old(self).remaining()) == Some(ch as u32),
                None => utf8_output(old(self)@, old(self).remaining()) is None,
            },
    {
        let rest = self.my_input;
        match self.my_info.utf8_to_char(rest) {
            Ok((after, ch)) => {
                self.my_input = after;
                Some(ch)
            },
            Err(_) => {
                self.my_input = &rest[rest.len()..rest.len()];
                assert(self.remaining() =~= rest@.skip(rest@.len() as int));
                None
            },
        }
    }

    /// The number of bytes left, as lower and upper bound.
    pub fn size_hint(&self) -> (r: (usize, Option<usize>))
        ensures
            r.0 == self.remaining().len(),
            r.1 == Some(r.0),
    {
        let n = self.my_input.len();
        (n, Some(n))
    }
}

/// Encodes a UTF-32 slice to UTF-8 through a `FromUnicode` session.
pub struct Utf32IterToUtf8Iter<'q> {
    my_input: &'q [u32],
    my_info: &'q mut FromUnicode,
}

impl<'q> View for Utf32IterToUtf8Iter<'q> {
    type V = SessionView;

    /// The state of the session the adapter drives.
    closed spec fn view(&self) -> SessionView {
        (*self.my_info)@
    }
}

impl<'q> Utf32IterToUtf8Iter<'q> {
    /// The input not yet taken into the session.
    pub closed spec fn remaining(self) -> Seq<u32> {
        self.my_input@
    }

    /// The next UTF-8 byte, as `FromUnicode::utf32_to_utf8` gives it; `None` where
    /// that call asks for more data or reports the end of the data.
    pub fn next(&mut self) -> (r: Option<u8>)
        ensures
            final(self)@ == encode_next(old(self)@, old(self).remaining()),
            final(self).remaining() == old(self).remaining().skip(
                encode_taken(old(self)@, old(self).remaining()) as int,
            ),
            r == encode_output(old(self)@, old(self).remaining()),
    {
        let rest = self.my_input;
        match self.my_info.utf32_to_utf8(rest) {
            Ok((after, b)) => {
                self.my_input = after;
                Some(b)
            },
            Err(_) => {
                assert(self.remaining() =~= rest@.skip(0));
                None
            },
        }
    }

    /// The number of input items left, as lower and upper bound.
    pub fn size_hint(&self) -> (r: (usize, Option<usize>))
        ensures
            r.0 == self.remaining().len(),
            r.1 == Some(r.0),
    {
        let n = self.my_input.len();
        (n, Some(n))
    }
}

/// Encodes a char slice to UTF-8 through a `FromUnicode` session.
pub struct CharRefIterToUtf8Iter<'q> {
    my_input: &'q [char],
    my_info: &'q mut FromUnicode,
}

impl<'q> View for CharRefIterToUtf8Iter<'q> {
    type V = SessionView;

    /// The state of the session the adapter drives.
    closed spec fn view(&self) -> SessionView {
        (*self.my_info)@
    }
}

impl<'q> CharRefIterToUtf8Iter<'q> {
    /// The input not yet taken into the session.
    pub closed spec fn remaining(self) -> Seq<char> {
        self.my_input@
    }

    /// The next UTF-8 byte, as `FromUnicode::char_to_utf8` gives it; `None` where
    /// that call asks for more data or reports the end of the data.
    pub fn next(&mut self) -> (r: Option<u8>)
        ensures
            final(self)@ == encode_next(old(self)@, code_points(old(self).remaining())),
            final(self).remaining() == old(self).remaining().skip(
                encode_taken(old(self)@, code_points(old(self).remaining())) as int,
            ),
            r == encode_output(old(self)@, code_points(old(self).remaining())),
    {
        let rest = self.my_input;
        match self.my_info.char_to_utf8(rest) {
            Ok((after, b)) => {
                self.my_input = after;
                Some(b)
            },
            Err(_) => {
                assert(self.remaining() =~= rest@.skip(0));
                None
            },
        }
    }

    /// The number of input items left, as lower and upper bound.
    pub fn size_hint(&self) -> (r: (usize, Option<usize>))
        ensures
            r.0 == self.remaining().len(),
            r.1 == Some(r.0),
    {
        let n = self.my_input.len();
        (n, Some(n))
    }
}

impl<'g> UtfParserCommon for Utf8IterToCharIter<'g> {
    fn reset_parser(&mut self) {
        self.my_info.reset_parser();
    }

    fn set_is_last_buffer(&mut self, b: bool) {
        self.my_info.set_is_last_buffer(b);
    }

    fn is_last_buffer(&self) -> (r: bool) {
        self.my_info.is_last_buffer()
    }

    fn signal_invalid_sequence(&mut self) {
        self.my_info.signal_invalid_sequence();
    }

    fn has_invalid_sequence(&self) -> (r: bool) {
        self.my_info.has_invalid_sequence()
    }

    fn reset_invalid_sequence(&mut self) {
        self.my_info.reset_invalid_sequence();
    }
}

impl<'g> UtfParserCommon for Utf8RefIterToCharIter<'g> {
    fn reset_parser(&mut self) {
        self.my_info.reset_parser();
    }

    fn set_is_last_buffer(&mut self, b: bool) {
        self.my_info.set_is_last_buffer(b);
    }

    fn is_last_buffer(&self) -> (r: bool) {
        self.my_info.is_last_buffer()
    }

    fn signal_invalid_sequence(&mut self) {
        self.my_info.signal_invalid_sequence();
    }

    fn has_invalid_sequence(&self) -> (r: bool) {
        self.my_info.has_invalid_sequence()
    }

    fn reset_invalid_sequence(&mut self) {
        self.my_info.reset_invalid_sequence();
    }
}

impl<'g> UtfParserCommon for Utf32IterToUtf8Iter<'g> {
    fn reset_parser(&mut self) {
        self.my_info.reset_parser();
    }

    fn set_is_last_buffer(&mut self, b: bool) {
        self.my_info.set_is_last_buffer(b);
    }

    fn is_last_buffer(&self) -> (r: bool) {
        self.my_info.is_last_buffer()
    }

    fn signal_invalid_sequence(&mut self) {
        self.my_info.signal_invalid_sequence();
    }

    fn has_invalid_sequence(&self) -> (r: bool) {
        self.my_info.has_invalid_sequence()
    }

    fn reset_invalid_sequence(&mut self) {
        self.my_info.reset_invalid_sequence();
    }
}

impl<'g> UtfParserCommon for CharRefIterToUtf8Iter<'g> {
    fn reset_parser(&mut self) {
        self.my_info.reset_parser();
    }

    fn set_is_last_buffer(&mut self, b: bool) {
        self.my_info.set_is_last_buffer(b);
    }

    fn is_last_buffer(&self) -> (r: bool) {
        self.my_info.is_last_buffer()
    }

    fn signal_invalid_sequence(&mut self) {
        self.my_info.signal_invalid_sequence();
    }

    fn has_invalid_sequence(&self) -> (r: bool) {
        self.my_info.has_invalid_sequence()
    }

    fn reset_invalid_sequence(&mut self) {
        self.my_info.reset_invalid_sequence();
    }
}

impl FromUtf8 {
    /// An adapter that decodes `iter` through this session, one char per
    /// `next` call.
    pub fn utf8_to_char_with_iter<'d>(&'d mut self, iter: &'d [u8]) -> (r: Utf8IterToCharIter<'d>)
        ensures
            r@ == old(self)@,
            r.remaining() == iter@,
    {
        let r = Utf8IterToCharIter { my_input: iter, my_info: self };
        r
    }

    /// An adapter that decodes `iter` through this session, one char per
    /// `next` call.
    pub fn utf8_ref_to_char_with_iter<'d>(&'d mut self, iter: &'d [u8]) -> (r: Utf8RefIterToCharIter<'d>)
        ensures
            r@ == old(self)@,
            r.remaining() == iter@,
    {
        let r = Utf8RefIterToCharIter { my_input: iter, my_info: self };
        r
    }
}

impl FromUnicode {
    /// An adapter that encodes `iter` through this session, one byte per
    /// `next` call.
    pub fn utf32_to_utf8_with_iter<'d>(&'d mut self, iter: &'d [u32]) -> (r: Utf32IterToUtf8Iter<'d>)
        ensures
            r@ == old(self)@,
            r.remaining() == iter@,
    {
        let r = Utf32IterToUtf8Iter { my_input: iter, my_info: self };
        r
    }

    /// An adapter that encodes `iter` through this session, one byte per
    /// `next` call.
    pub fn char_ref_to_utf8_with_iter<'d>(&'d mut self, iter: &'d [char]) -> (r: CharRefIterToUtf8Iter<'d>)
        ensures
            r@ == old(self)@,
            r.remaining() == iter@,
    {
        let r = CharRefIterToUtf8Iter { my_input: iter, my_info: self };
        r
    }
}

} // verus!
