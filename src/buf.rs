//! A fixed-capacity double-ended queue of bytes, packed into one 64-bit word.
//!
//! Byte `i` of the queue (0 = oldest) lives in bits `8*i .. 8*i+8` of the
//! word; the bits above the last stored byte are always zero.
use vstd::prelude::*;

verus! {

/// Number of bytes a `FifoBytes` can hold.
pub const BUFFER_SIZE: u32 = 8;

/// Byte number `k` of a packed word.
pub open spec fn byte_at(word: u64, k: u64) -> u8 {
    ((word >> ((8 * k) as u64)) & 0xff) as u8
}

/// The first `n` bytes of a packed word, lowest first.
pub open spec fn unpack(word: u64, n: nat) -> Seq<u8> {
    Seq::new(n, |i: int| byte_at(word, i as u64))
}

/// The bytes after pushing `x` at the back of a buffer holding `v`: no
/// change when it is full.
pub open spec fn push_back_view(v: Seq<u8>, x: u8) -> Seq<u8> {
    if v.len() < BUFFER_SIZE {
        v.push(x)
    } else {
        v
    }
}

/// The byte popped from the front of a buffer holding `v`, and the bytes
/// left.
pub open spec fn pop_front_view(v: Seq<u8>) -> (Option<u8>, Seq<u8>) {
    if v.len() == 0 {
        (None, v)
    } else {
        (Some(v[0]), v.drop_first())
    }
}

/// The front byte of a buffer holding `v`.
pub open spec fn front_view(v: Seq<u8>) -> Option<u8> {
    if v.len() == 0 {
        None
    } else {
        Some(v[0])
    }
}

/// The byte at `index` of a buffer holding `v`.
pub open spec fn peek_view(v: Seq<u8>, index: int) -> Option<u8> {
    if 0 <= index < v.len() {
        Some(v[index])
    } else {
        None
    }
}

proof fn lemma_push_back_bits(w: u64, v: u8, n: u64, k: u64)
    by (bit_vector)
    requires
        n < 8,
        w >> ((8 * n) as u64) == 0,
    ensures
        k < n ==> byte_at(w | ((v as u64) << ((8 * n) as u64)), k) == byte_at(w, k),
        byte_at(w | ((v as u64) << ((8 * n) as u64)), n) == v,
        n + 1 < 8 ==> (w | ((v as u64) << ((8 * n) as u64))) >> ((8 * (n + 1)) as u64) == 0,
{
}

proof fn lemma_push_front_bits(w: u64, v: u8, n: u64, k: u64)
    by (bit_vector)
    requires
        n < 8,
        w >> ((8 * n) as u64) == 0,
    ensures
        byte_at((w << 8) | (v as u64), 0) == v,
        k < n ==> byte_at((w << 8) | (v as u64), (k + 1) as u64) == byte_at(w, k),
        n + 1 < 8 ==> ((w << 8) | (v as u64)) >> ((8 * (n + 1)) as u64) == 0,
{
}

proof fn lemma_pop_front_bits(w: u64, n: u64, k: u64)
    by (bit_vector)
    requires
        1 <= n <= 8,
        n < 8 ==> w >> ((8 * n) as u64) == 0,
    ensures
        (w & 0xff) as u8 == byte_at(w, 0),
        k + 1 < n ==> byte_at(w >> 8, k) == byte_at(w, (k + 1) as u64),
        (w >> 8) >> ((8 * (n - 1)) as u64) == 0,
{
}

proof fn lemma_pop_back_bits(w: u64, n: u64, k: u64)
    by (bit_vector)
    requires
        1 <= n <= 8,
        n < 8 ==> w >> ((8 * n) as u64) == 0,
    ensures
        ((w >> ((8 * (n - 1)) as u64)) & 0xff) as u8 == byte_at(w, (n - 1) as u64),
        k + 1 < n ==> byte_at(w & ((1u64 << ((8 * (n - 1)) as u64)) - 1) as u64, k) == byte_at(w, k),
        (w & ((1u64 << ((8 * (n - 1)) as u64)) - 1) as u64) >> ((8 * (n - 1)) as u64) == 0,
{
}

/// A FIFO of up to eight bytes: `push_back` / `pop_front` give first-in
/// first-out order, and `push_front` / `pop_back` serve the other end.
///
/// Equality, ordering and hashing go by the length first and then by the
/// packed word, so a longer buffer is greater and, at equal length, the most
/// recently pushed bytes weigh most.
#[derive(Debug, Clone, Copy, PartialEq, Eq, Structural, Ord, Hash)]
pub struct FifoBytes {
    mylen: u32,
    buf: u64,
}

impl FifoBytes {
    #[verifier::type_invariant]
    closed spec fn packed(self) -> bool {
        &&& self.mylen <= BUFFER_SIZE
        &&& self.mylen < BUFFER_SIZE ==> self.buf >> ((8 * self.mylen) as u64) == 0
    }

    /// The length of the buffer, then its packed word: the order of
    /// `partial_cmp`.
    pub closed spec fn key(self) -> (u32, u64) {
        (self.mylen, self.buf)
    }
}

impl View for FifoBytes {
    type V = Seq<u8>;

    /// The stored bytes, oldest first.
    closed spec fn view(&self) -> Seq<u8> {
        unpack(self.buf, self.mylen as nat)
    }
}

impl FifoBytes {
    /// Creates an empty buffer.
    pub fn new() -> (r: FifoBytes)
        ensures
            r@ == Seq::<u8>::empty(),
    {
        assert(0u64 >> 0u64 == 0) by (bit_vector);
        let r = FifoBytes { buf: 0, mylen: 0 };
        assert(r@ =~= Seq::<u8>::empty());
        r
    }

    /// Removes every byte.
    pub fn clear(&mut self)
        ensures
            final(self)@ == Seq::<u8>::empty(),
    {
        assert(0u64 >> 0u64 == 0) by (bit_vector);
        *self = FifoBytes { buf: 0u64, mylen: 0u32 };
        assert(self@ =~= Seq::<u8>::empty());
    }

    /// The maximum number of bytes the buffer holds.
    pub fn capacity(&self) -> (r: u32)
        ensures
            r == BUFFER_SIZE,
    {
        BUFFER_SIZE
    }

    /// The number of stored bytes.
    pub fn len(&self) -> (r: u32)
        ensures
            r == self@.len(),
            r <= BUFFER_SIZE,
    {
        proof {
            use_type_invariant(self);
        }
        self.mylen
    }

    /// True if no byte is stored.
    pub fn is_empty(&self) -> (r: bool)
        ensures
            r == (self@.len() == 0),
    {
        self.mylen == 0
    }

    /// True if the buffer holds its capacity.
    pub fn is_full(&self) -> (r: bool)
        ensures
            r == (self@.len() == BUFFER_SIZE),
    {
        proof {
            use_type_invariant(self);
        }
        self.mylen >= self.capacity()
    }

    /// Appends `v` after the newest byte; does nothing when the buffer is full.
    pub fn push_back(&mut self, v: u8)
        ensures
            final(self)@ == push_back_view(old(self)@, v),
    {
        proof {
            use_type_invariant(&*self);
        }
        if !self.is_full() {
            // with at most seven bytes stored the shift stays below 64
            let curlen = self.mylen;
            let shift = (curlen as u64) << 3u64;
            assert(shift == (8 * curlen) as u64) by (bit_vector)
                requires
                    curlen < 8,
                    shift == (curlen as u64) << 3u64,
            ;
            let opword = (v as u64) << shift;
            let w = self.buf;
            proof {
                lemma_push_back_bits(w, v, curlen as u64, 0);
                assert forall|k: int| 0 <= k < curlen implies #[trigger] byte_at(w | opword, k as u64)
                    == byte_at(w, k as u64) by {
                    lemma_push_back_bits(w, v, curlen as u64, k as u64);
                }
            }
            *self = FifoBytes { buf: w | opword, mylen: curlen + 1 };
            assert(self@ =~= old(self)@.push(v));
        }
    }

    /// Puts `v` before the oldest byte; does nothing when the buffer is full.
    pub fn push_front(&mut self, v: u8)
        ensures
            old(self)@.len() < BUFFER_SIZE ==> final(self)@ == seq![v] + old(self)@,
            old(self)@.len() == BUFFER_SIZE ==> final(self)@ == old(self)@,
    {
        proof {
            use_type_invariant(&*self);
        }
        if !self.is_full() {
            let curlen = self.mylen;
            let w = self.buf;
            let nw = (w << 8u64) | (v as u64);
            proof {
                lemma_push_front_bits(w, v, curlen as u64, 0);
                assert forall|i: int| 1 <= i <= curlen implies #[trigger] byte_at(nw, i as u64)
                    == byte_at(w, (i - 1) as u64) by {
                    lemma_push_front_bits(w, v, curlen as u64, (i - 1) as u64);
                }
            }
            *self = FifoBytes { buf: nw, mylen: curlen + 1 };
            assert(self@ =~= seq![v] + old(self)@);
        }
    }

    /// Removes the oldest byte and returns it; `None` when empty.
    pub fn pop_front(&mut self) -> (r: Option<u8>)
        ensures
            (r, final(self)@) == pop_front_view(old(self)@),
    {
        proof {
            use_type_invariant(&*self);
        }
        if self.is_empty() {
            None
        } else {
            let res = self.buf;
            let n = self.mylen;
            proof {
                lemma_pop_front_bits(res, n as u64, 0);
                assert forall|k: int| 0 <= k < n - 1 implies #[trigger] byte_at(res >> 8, k as u64)
                    == byte_at(res, (k + 1) as u64) by {
                    lemma_pop_front_bits(res, n as u64, k as u64);
                }
            }
            *self = FifoBytes { buf: res >> 8u64, mylen: n - 1 };
            assert(self@ =~= old(self)@.drop_first());
            Some((res & 0xffu64) as u8)
        }
    }

    /// Removes the newest byte and returns it; `None` when empty.
    pub fn pop_back(&mut self) -> (r: Option<u8>)
        ensures
            old(self)@.len() == 0 ==> r is None && final(self)@ == old(self)@,
            old(self)@.len() > 0 ==> r == Some(old(self)@.last()) && final(self)@ == old(self)@.drop_last(),
    {
        proof {
            use_type_invariant(&*self);
        }
        if self.is_empty() {
            None
        } else {
            let w = self.buf;
            let n = self.mylen;
            let shift = ((n - 1) as u64) << 3u64;
            proof {
                assert(((n - 1) as u64) << 3u64 == (8 * (n - 1)) as u64) by (bit_vector)
                    requires
                        1 <= n <= 8,
                ;
                lemma_pop_back_bits(w, n as u64, 0);
                assert forall|k: int| 0 <= k < n - 1 implies #[trigger] byte_at(
                    w & ((1u64 << shift) - 1) as u64,
                    k as u64,
                ) == byte_at(w, k as u64) by {
                    lemma_pop_back_bits(w, n as u64, k as u64);
                }
            }
            let last = ((w >> shift) & 0xffu64) as u8;
            assert(1u64 << shift >= 1) by (bit_vector)
                requires
                    shift < 64,
            ;
            let mask = (1u64 << shift) - 1;
            *self = FifoBytes { buf: w & mask, mylen: n - 1 };
            assert(self@ =~= old(self)@.drop_last());
            Some(last)
        }
    }

    /// The oldest byte, left in place; `None` when empty.
    pub fn front(&self) -> (r: Option<u8>)
        ensures
            r == front_view(self@),
    {
        proof {
            use_type_invariant(self);
        }
        if self.is_empty() {
            None
        } else {
            proof {
                lemma_pop_front_bits(self.buf, self.mylen as u64, 0);
            }
            Some((self.buf & 0xffu64) as u8)
        }
    }

    /// The newest byte, left in place; `None` when empty.
    pub fn back(&self) -> (r: Option<u8>)
        ensures
            self@.len() == 0 ==> r is None,
            self@.len() > 0 ==> r == Some(self@.last()),
    {
        proof {
            use_type_invariant(self);
        }
        if self.is_empty() {
            None
        } else {
            self.peek_at(self.mylen - 1)
        }
    }

    /// The byte at `index`, counting from the oldest (0); `None` when
    /// `index` is not below the length.
    pub fn peek_at(&self, index: u32) -> (r: Option<u8>)
        ensures
            r == peek_view(self@, index as int),
    {
        proof {
            use_type_invariant(self);
        }
        if index >= self.mylen {
            None
        } else {
            let shift = (index as u64) << 3u64;
            assert((index as u64) << 3u64 == (8 * index) as u64) by (bit_vector)
                requires
                    index < 8,
            ;
            Some(((self.buf >> shift) & 0xffu64) as u8)
        }
    }
}

impl Default for FifoBytes {
    /// An empty buffer.
    fn default() -> (r: FifoBytes)
        ensures
            r@ == Seq::<u8>::empty(),
    {
        FifoBytes::new()
    }
}

/// The order of `FifoBytes`: by length, then by packed word.
pub open spec fn key_cmp(a: (u32, u64), b: (u32, u64)) -> core::cmp::Ordering {
    if a.0 > b.0 {
        core::cmp::Ordering::Greater
    } else if a.0 < b.0 {
        core::cmp::Ordering::Less
    } else if a.1 > b.1 {
        core::cmp::Ordering::Greater
    } else if a.1 < b.1 {
        core::cmp::Ordering::Less
    } else {
        core::cmp::Ordering::Equal
    }
}

impl PartialOrd for FifoBytes {
    fn partial_cmp(&self, other: &FifoBytes) -> (r: Option<core::cmp::Ordering>) {
        let len1 = self.mylen;
        let len2 = other.mylen;
        if len1 > len2 {
            Some(core::cmp::Ordering::Greater)
        } else if len1 < len2 {
            Some(core::cmp::Ordering::Less)
        } else {
            let word1 = self.buf;
            let word2 = other.buf;
            if word1 > word2 {
                Some(core::cmp::Ordering::Greater)
            } else if word1 < word2 {
                Some(core::cmp::Ordering::Less)
            } else {
                Some(core::cmp::Ordering::Equal)
            }
        }
    }
}

impl vstd::std_specs::cmp::PartialOrdSpecImpl for FifoBytes {
    open spec fn obeys_partial_cmp_spec() -> bool {
        true
    }

    open spec fn partial_cmp_spec(&self, other: &FifoBytes) -> Option<core::cmp::Ordering> {
        Some(key_cmp(self.key(), other.key()))
    }
}

} // verus!
