//! Data-segment layout: a byte-granular cursor flushed into 32-bit program
//! words every 4 bytes, most significant byte first, with the trailing
//! partial word zero-padded.

use vstd::prelude::*;

verus! {

/// The big-endian word formed by four bytes.
pub open spec fn word_be(b0: u8, b1: u8, b2: u8, b3: u8) -> u32 {
    ((b0 as u32) << 24) | ((b1 as u32) << 16) | ((b2 as u32) << 8) | (b3 as u32)
}

/// Byte `idx` (0 = most significant) of a word.
pub open spec fn byte_of(w: u32, idx: int) -> u8 {
    if idx == 0 {
        ((w >> 24) & 0xff) as u8
    } else if idx == 1 {
        ((w >> 16) & 0xff) as u8
    } else if idx == 2 {
        ((w >> 8) & 0xff) as u8
    } else {
        (w & 0xff) as u8
    }
}

/// Byte `idx` (0 = most significant) of a halfword.
pub open spec fn byte_of16(h: u16, idx: int) -> u8 {
    if idx == 0 {
        ((h >> 8) & 0xff) as u8
    } else {
        (h & 0xff) as u8
    }
}

/// `w` with byte `idx` replaced by `b`.
pub open spec fn set_byte(w: u32, idx: int, b: u8) -> u32 {
    if idx == 0 {
        (w & 0x00ff_ffff) | ((b as u32) << 24)
    } else if idx == 1 {
        (w & 0xff00_ffff) | ((b as u32) << 16)
    } else if idx == 2 {
        (w & 0xffff_00ff) | ((b as u32) << 8)
    } else {
        (w & 0xffff_ff00) | (b as u32)
    }
}

/// The byte at position `i`, reading positions past the end as zero padding.
pub open spec fn byte_at(bytes: Seq<u8>, i: int) -> u8 {
    if 0 <= i < bytes.len() {
        bytes[i]
    } else {
        0
    }
}

/// Word `w` of the byte stream, zero-padded at the tail.
pub open spec fn chunk_word(bytes: Seq<u8>, w: int) -> u32 {
    word_be(
        byte_at(bytes, 4 * w),
        byte_at(bytes, 4 * w + 1),
        byte_at(bytes, 4 * w + 2),
        byte_at(bytes, 4 * w + 3),
    )
}

/// The encoded words a byte stream lays out: one word per 4 bytes, the last
/// partial word zero-padded.
pub open spec fn data_words(bytes: Seq<u8>) -> Seq<u32> {
    Seq::new(((bytes.len() + 3) / 4) as nat, |w: int| chunk_word(bytes, w))
}

/// `n` zero bytes.
pub open spec fn zero_bytes(n: nat) -> Seq<u8> {
    Seq::new(n, |i: int| 0u8)
}

/// Four bytes of zero padding compose to the zero word.
pub proof fn lemma_word_be_zero()
    ensures
        word_be(0, 0, 0, 0) == 0,
{
    assert(((0u8 as u32) << 24) | ((0u8 as u32) << 16) | ((0u8 as u32) << 8) | (0u8 as u32)
        == 0u32) by (bit_vector);
}

/// Replacing byte `idx` of a composed word replaces exactly that byte.
pub proof fn lemma_set_byte_word_be(c0: u8, c1: u8, c2: u8, c3: u8, b: u8, idx: int)
    requires
        0 <= idx < 4,
    ensures
        set_byte(word_be(c0, c1, c2, c3), idx, b) == if idx == 0 {
            word_be(b, c1, c2, c3)
        } else if idx == 1 {
            word_be(c0, b, c2, c3)
        } else if idx == 2 {
            word_be(c0, c1, b, c3)
        } else {
            word_be(c0, c1, c2, b)
        },
{
    let w = word_be(c0, c1, c2, c3);
    if idx == 0 {
        assert((((((c0 as u32) << 24) | ((c1 as u32) << 16) | ((c2 as u32) << 8) | (c3 as u32))
            & 0x00ff_ffff) | ((b as u32) << 24)) == (((b as u32) << 24) | ((c1 as u32) << 16) | ((
        c2 as u32) << 8) | (c3 as u32))) by (bit_vector);
    } else if idx == 1 {
        assert((((((c0 as u32) << 24) | ((c1 as u32) << 16) | ((c2 as u32) << 8) | (c3 as u32))
            & 0xff00_ffff) | ((b as u32) << 16)) == (((c0 as u32) << 24) | ((b as u32) << 16) | ((
        c2 as u32) << 8) | (c3 as u32))) by (bit_vector);
    } else if idx == 2 {
        assert((((((c0 as u32) << 24) | ((c1 as u32) << 16) | ((c2 as u32) << 8) | (c3 as u32))
            & 0xffff_00ff) | ((b as u32) << 8)) == (((c0 as u32) << 24) | ((c1 as u32) << 16) | ((
        b as u32) << 8) | (c3 as u32))) by (bit_vector);
    } else {
        assert((((((c0 as u32) << 24) | ((c1 as u32) << 16) | ((c2 as u32) << 8) | (c3 as u32))
            & 0xffff_ff00) | (b as u32)) == (((c0 as u32) << 24) | ((c1 as u32) << 16) | ((
        c2 as u32) << 8) | (b as u32))) by (bit_vector);
    }
}

/// Composing a word from its four big-endian bytes gives the word back: the
/// literal value written by a data directive round-trips through the encoded
/// word.
pub proof fn lemma_word_bytes_round_trip(v: u32)
    ensures
        word_be(byte_of(v, 0), byte_of(v, 1), byte_of(v, 2), byte_of(v, 3)) == v,
{
    assert(((((v >> 24) & 0xff) as u8 as u32) << 24) | ((((v >> 16) & 0xff) as u8 as u32) << 16)
        | ((((v >> 8) & 0xff) as u8 as u32) << 8) | (((v & 0xff) as u8 as u32)) == v)
        by (bit_vector);
}

/// The big-endian byte rendering of a word, most significant byte first.
pub open spec fn be_bytes(v: u32) -> Seq<u8> {
    seq![byte_of(v, 0), byte_of(v, 1), byte_of(v, 2), byte_of(v, 3)]
}

/// A word written as its four big-endian bytes at a word boundary produces
/// exactly that encoded word.
pub proof fn lemma_word_directive_round_trip(v: u32)
    ensures
        data_words(be_bytes(v)) =~= seq![v],
{
    lemma_word_bytes_round_trip(v);
}

/// Laying out `n` zero bytes and padding the tail produces exactly
/// `ceil(n / 4)` encoded words, every one of them zero.
pub proof fn lemma_space_zero_words(n: nat)
    ensures
        data_words(zero_bytes(n)).len() == (n + 3) / 4,
        forall|w: int|
            0 <= w < data_words(zero_bytes(n)).len() ==> data_words(zero_bytes(n))[w] == 0,
{
    lemma_word_be_zero();
}

/// Zeroes byte `idx` of a line; indices past 3 yield the zero word.
pub fn load_zero_into_line(line: u32, idx: usize) -> (r: u32)
    ensures
        r == if idx < 4 {
            set_byte(line, idx as int, 0)
        } else {
            0u32
        },
{
    proof {
        assert(line & 0x00ff_ffff == (line & 0x00ff_ffff) | ((0u8 as u32) << 24)) by (bit_vector);
        assert(line & 0xff00_ffff == (line & 0xff00_ffff) | ((0u8 as u32) << 16)) by (bit_vector);
        assert(line & 0xffff_00ff == (line & 0xffff_00ff) | ((0u8 as u32) << 8)) by (bit_vector);
        assert(line & 0xffff_ff00 == (line & 0xffff_ff00) | (0u8 as u32)) by (bit_vector);
    }
    match idx {
        0 => line & 0x00ff_ffff,
        1 => line & 0xff00_ffff,
        2 => line & 0xffff_00ff,
        3 => line & 0xffff_ff00,
        _ => 0,
    }
}

/// Extracts byte `idx` of a line; indices past 3 yield zero.
pub fn get_byte_segment_u32(line: u32, idx: usize) -> (r: u8)
    ensures
        r == if idx < 4 {
            byte_of(line, idx as int)
        } else {
            0u8
        },
{
    proof {
        assert((line >> 24) & 0xff < 256 && (line >> 16) & 0xff < 256 && (line >> 8) & 0xff < 256
            && line & 0xff < 256) by (bit_vector);
    }
    match idx {
        0 => ((line >> 24) & 0xff) as u8,
        1 => ((line >> 16) & 0xff) as u8,
        2 => ((line >> 8) & 0xff) as u8,
        3 => (line & 0xff) as u8,
        _ => 0,
    }
}

/// Extracts byte `idx` of a halfword; indices past 1 yield zero.
pub fn get_byte_segment_u16(line: u16, idx: usize) -> (r: u8)
    ensures
        r == if idx < 2 {
            byte_of16(line, idx as int)
        } else {
            0u8
        },
{
    proof {
        assert((line >> 8) & 0xff < 256 && line & 0xff < 256) by (bit_vector);
    }
    match idx {
        0 => ((line >> 8) & 0xff) as u8,
        1 => (line & 0xff) as u8,
        _ => 0,
    }
}

/// Stores `byte` into the line at the position the byte cursor selects.
pub fn add_byte_to_line(line: u32, pointer: u32, byte: u8) -> (r: u32)
    ensures
        r == set_byte(line, (pointer % 4) as int, byte),
{
    match pointer % 4 {
        0 => (line & 0x00ff_ffff) | ((byte as u32) << 24),
        1 => (line & 0xff00_ffff) | ((byte as u32) << 16),
        2 => (line & 0xffff_00ff) | ((byte as u32) << 8),
        _ => (line & 0xffff_ff00) | (byte as u32),
    }
}

/// The data segment under construction: completed words, the partial word the
/// byte cursor points into, and the byte count.  The ghost `bytes` field
/// carries the exact byte stream laid out so far.
pub struct DataSegment {
    words: Vec<u32>,
    cur: u32,
    len: usize,
    bytes: Ghost<Seq<u8>>,
}

impl DataSegment {
    /// The byte stream laid out so far.
    pub closed spec fn contents(self) -> Seq<u8> {
        self.bytes@
    }

    pub closed spec fn wf(self) -> bool {
        &&& self.len == self.contents().len()
        &&& self.len <= 0xffff_ffff
        &&& self.words@.len() == self.len as int / 4
        &&& (forall|w: int|
            0 <= w < self.words@.len() ==> self.words@[w] == chunk_word(self.contents(), w))
        &&& self.cur == chunk_word(self.contents(), self.len as int / 4)
    }

    /// An empty segment.
    pub fn new() -> (r: DataSegment)
        ensures
            r.wf(),
            r.contents() =~= Seq::<u8>::empty(),
    {
        proof {
            lemma_word_be_zero();
        }
        DataSegment { words: Vec::new(), cur: 0, len: 0, bytes: Ghost(Seq::empty()) }
    }

    /// How many bytes have been laid out.
    pub fn byte_len(&self) -> (r: usize)
        requires
            self.wf(),
        ensures
            r == self.contents().len(),
            r <= 0xffff_ffff,
    {
        self.len
    }

    /// Appends one byte at the cursor.
    #[verifier::loop_isolation(false)]
    pub fn push_byte(&mut self, b: u8)
        requires
            old(self).wf(),
            old(self).contents().len() < 0xffff_ffff,
        ensures
            final(self).wf(),
            final(self).contents() =~= old(self).contents().push(b),
    {
        let ghost obytes = self.contents();
        let ghost k = self.len as int / 4;
        let ghost j = self.len as int % 4;
        let cur2 = add_byte_to_line(self.cur, (self.len % 4) as u32, b);
        proof {
            self.bytes@ = self.bytes@.push(b);
            lemma_set_byte_word_be(
                byte_at(obytes, 4 * k),
                byte_at(obytes, 4 * k + 1),
                byte_at(obytes, 4 * k + 2),
                byte_at(obytes, 4 * k + 3),
                b,
                j,
            );
            // Bytes before the cursor are unchanged, so every chunk word of
            // the old stream is a chunk word of the new one.
            assert(forall|i: int| 0 <= i < obytes.len() ==> byte_at(self.bytes@, i) == byte_at(
                obytes,
                i,
            ));
            assert(byte_at(obytes, 4 * k + j) == 0);
            assert(cur2 == chunk_word(self.bytes@, k));
        }
        self.cur = cur2;
        self.len = self.len + 1;
        if self.len % 4 == 0 {
            self.words.push(self.cur);
            self.cur = 0;
            proof {
                lemma_word_be_zero();
                assert(4 * (k + 1) == self.len as int);
                assert(chunk_word(self.bytes@, k + 1) == word_be(0, 0, 0, 0));
            }
        }
        proof {
            assert forall|w: int|
                0 <= w < self.words@.len() implies self.words@[w] == chunk_word(
                self.bytes@,
                w,
            ) by {
                if w < k {
                    assert(byte_at(self.bytes@, 4 * w) == byte_at(obytes, 4 * w));
                    assert(byte_at(self.bytes@, 4 * w + 1) == byte_at(obytes, 4 * w + 1));
                    assert(byte_at(self.bytes@, 4 * w + 2) == byte_at(obytes, 4 * w + 2));
                    assert(byte_at(self.bytes@, 4 * w + 3) == byte_at(obytes, 4 * w + 3));
                    assert(chunk_word(self.bytes@, w) == chunk_word(obytes, w));
                }
            }
        }
    }

    /// Pads the tail with zero bytes up to the next word boundary.
    #[verifier::loop_isolation(false)]
    pub fn pad_to_word(&mut self)
        requires
            old(self).wf(),
            old(self).contents().len() + 3 <= 0xffff_ffff,
        ensures
            final(self).wf(),
            final(self).contents() =~= old(self).contents() + zero_bytes(
                ((4 - old(self).contents().len() % 4) % 4) as nat,
            ),
            final(self).contents().len() % 4 == 0,
            final(self).contents().len() <= old(self).contents().len() + 3,
    {
        let ghost obytes = self.contents();
        let ghost target = obytes.len() + ((4 - obytes.len() % 4) % 4);
        proof {
            assert(target % 4 == 0);
        }
        while self.len % 4 != 0
            invariant
                self.wf(),
                obytes.len() <= self.contents().len() <= target,
                self.contents() =~= obytes + zero_bytes(
                    (self.contents().len() - obytes.len()) as nat,
                ),
            decreases (4 - self.len % 4) % 4,
        {
            self.push_byte(0);
            proof {
                assert(self.contents() =~= obytes + zero_bytes(
                    (self.contents().len() - obytes.len()) as nat,
                ));
            }
        }
        proof {
            assert(self.contents().len() == target);
        }
    }

    /// Flushes the trailing partial word, if any, and hands the encoded words
    /// out: exactly the words the byte stream lays out.
    pub fn finish(self) -> (r: Vec<u32>)
        requires
            self.wf(),
        ensures
            r@ =~= data_words(self.contents()),
    {
        let DataSegment { mut words, cur, len, bytes } = self;
        if len % 4 != 0 {
            words.push(cur);
        }
        words
    }
}

} // verus!
