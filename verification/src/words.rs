//! Words and the bytes they are made of.
//!
//! The data path moves 32-bit words, and the core that reads and writes them is little-endian:
//! the byte that came first over the bus is the low byte of a word. What a card sends as a
//! register it sends with the most significant byte first.

use vstd::prelude::*;

verus! {

/// Byte `k` of a word in the order in which memory holds it.
pub open spec fn byte_of(word: u32, k: int) -> u8 {
    if k == 0 {
        (word % 0x100) as u8
    } else if k == 1 {
        (word / 0x100 % 0x100) as u8
    } else if k == 2 {
        (word / 0x1_0000 % 0x100) as u8
    } else {
        (word / 0x100_0000) as u8
    }
}

/// The word that memory holds as these four bytes.
pub open spec fn word_of(b0: u8, b1: u8, b2: u8, b3: u8) -> u32 {
    (b0 + b1 * 0x100 + b2 * 0x1_0000 + b3 * 0x100_0000) as u32
}

/// The number that four bytes in memory order write, the most significant first.
pub open spec fn big_endian(word: u32) -> u32 {
    word_of(byte_of(word, 3), byte_of(word, 2), byte_of(word, 1), byte_of(word, 0))
}

/// A word taken apart and put together again is the same word.
pub proof fn law_word_of_bytes(word: u32)
    ensures
        word_of(byte_of(word, 0), byte_of(word, 1), byte_of(word, 2), byte_of(word, 3)) == word,
{
}

/// The bytes of a word are those that it was put together from.
pub proof fn law_bytes_of_word(b0: u8, b1: u8, b2: u8, b3: u8)
    ensures
        byte_of(word_of(b0, b1, b2, b3), 0) == b0,
        byte_of(word_of(b0, b1, b2, b3), 1) == b1,
        byte_of(word_of(b0, b1, b2, b3), 2) == b2,
        byte_of(word_of(b0, b1, b2, b3), 3) == b3,
{
}

/// The bytes of a word weigh 1, 256, 256 times 256 and so on in memory order; put together from
/// bytes, a word weighs them the same way, and turned round the other way.
pub proof fn law_bytes_have_weight(word: u32, b0: u8, b1: u8, b2: u8, b3: u8)
    ensures
        byte_of(word, 0) + 256 * byte_of(word, 1) + 65536 * byte_of(word, 2) + 16777216 * byte_of(
            word,
            3,
        ) == word,
        word_of(b0, b1, b2, b3) == b0 + 256 * b1 + 65536 * b2 + 16777216 * b3,
        big_endian(word) == byte_of(word, 3) + 256 * byte_of(word, 2) + 65536 * byte_of(word, 1)
            + 16777216 * byte_of(word, 0),
{
}

/// Turning the byte order round twice changes nothing.
pub proof fn law_big_endian_involutive(word: u32)
    ensures
        big_endian(big_endian(word)) == word,
{
    law_word_of_bytes(word);
    law_bytes_of_word(
        byte_of(word, 3),
        byte_of(word, 2),
        byte_of(word, 1),
        byte_of(word, 0),
    );
}

/// The bytes of a word in memory order.
pub fn to_bytes(word: u32) -> (b: [u8; 4])
    ensures
        forall|k: int| 0 <= k < 4 ==> #[trigger] b@[k] == byte_of(word, k),
{
    [
        (word % 0x100) as u8,
        (word / 0x100 % 0x100) as u8,
        (word / 0x1_0000 % 0x100) as u8,
        (word / 0x100_0000) as u8,
    ]
}

/// The word with these bytes in memory order.
pub fn from_bytes(b0: u8, b1: u8, b2: u8, b3: u8) -> (w: u32)
    ensures
        w == word_of(b0, b1, b2, b3),
{
    b0 as u32 + b1 as u32 * 0x100 + b2 as u32 * 0x1_0000 + b3 as u32 * 0x100_0000
}

/// The number that a received word stands for.
pub fn from_be(word: u32) -> (n: u32)
    ensures
        n == big_endian(word),
{
    let b = to_bytes(word);
    from_bytes(b[3], b[2], b[1], b[0])
}

/// The 64-bit number that two received words stand for, the first word being the higher half.
pub open spec fn big_endian_pair(first: u32, second: u32) -> u64 {
    (big_endian(first) * 0x1_0000_0000 + big_endian(second)) as u64
}

/// The 64-bit number that two received words stand for.
pub fn from_be_pair(first: u32, second: u32) -> (n: u64)
    ensures
        n == big_endian_pair(first, second),
{
    from_be(first) as u64 * 0x1_0000_0000 + from_be(second) as u64
}

/// The 128-bit number whose 32-bit digits are these, the most significant first.
pub open spec fn long_number(w0: u32, w1: u32, w2: u32, w3: u32) -> u128 {
    (w0 * 0x1_0000_0000_0000_0000_0000_0000 + w1 * 0x1_0000_0000_0000_0000 + w2 * 0x1_0000_0000
        + w3) as u128
}

/// The number in a long response, whose most significant word comes first.
pub fn from_words(w0: u32, w1: u32, w2: u32, w3: u32) -> (n: u128)
    ensures
        n == long_number(w0, w1, w2, w3),
{
    w0 as u128 * 0x1_0000_0000_0000_0000_0000_0000 + w1 as u128 * 0x1_0000_0000_0000_0000
        + w2 as u128 * 0x1_0000_0000 + w3 as u128
}

/// Converts each received word of a 64-byte register.
pub fn status_from_be(words: [u32; 16]) -> (r: [u32; 16])
    ensures
        forall|i: int| 0 <= i < 16 ==> #[trigger] r@[i] == big_endian(words@[i]),
{
    let mut r: [u32; 16] = words;
    let mut i: usize = 0;
    while i < 16
        invariant
            0 <= i <= 16,
            forall|j: int| 0 <= j < i ==> #[trigger] r@[j] == big_endian(words@[j]),
            forall|j: int| i <= j < 16 ==> #[trigger] r@[j] == words@[j],
        decreases 16 - i,
    {
        r[i] = from_be(r[i]);
        i = i + 1;
    }
    r
}

/// Each word of a long number weighs two to the power of 32 times as much as the one after it, and
/// so does the first word of a pair, as the card meant it.
pub proof fn law_words_have_weight(w0: u32, w1: u32, w2: u32, w3: u32)
    ensures
        long_number(w0, w1, w2, w3) == ((w0 * 0x1_0000_0000 + w1) * 0x1_0000_0000 + w2)
            * 0x1_0000_0000 + w3,
        big_endian_pair(w0, w1) == big_endian(w0) * 0x1_0000_0000 + big_endian(w1),
{
}

/// One block of a card's memory.
#[derive(Clone, Copy, Debug, PartialEq, Eq)]
pub struct DataBlock(pub [u8; 512]);

impl DataBlock {
    /// The bytes of the block.
    pub open spec fn bytes(self) -> Seq<u8> {
        self.0@
    }

    /// Word `i` of the block, as the data path moves it.
    pub open spec fn word(self, i: int) -> u32 {
        word_of(
            self.0@[4 * i],
            self.0@[4 * i + 1],
            self.0@[4 * i + 2],
            self.0@[4 * i + 3],
        )
    }

    /// The block whose words the data path has moved into `words`.
    pub fn from_words(words: &[u32; 128]) -> (b: DataBlock)
        ensures
            forall|i: int| 0 <= i < 512 ==> #[trigger] b.0@[i] == byte_of(words@[i / 4], i % 4),
            forall|i: int| 0 <= i < 128 ==> #[trigger] b.word(i) == words@[i],
    {
        let mut bytes: [u8; 512] = [0; 512];
        let mut i: usize = 0;
        while i < 128
            invariant
                0 <= i <= 128,
                forall|j: int|
                    0 <= j < 4 * i ==> #[trigger] bytes@[j] == byte_of(words@[j / 4], j % 4),
            decreases 128 - i,
        {
            let b = to_bytes(words[i]);
            bytes[4 * i] = b[0];
            bytes[4 * i + 1] = b[1];
            bytes[4 * i + 2] = b[2];
            bytes[4 * i + 3] = b[3];
            i = i + 1;
        }
        let block = DataBlock(bytes);
        assert forall|i: int| 0 <= i < 128 implies #[trigger] block.word(i) == words@[i] by {
            law_word_of_bytes(words@[i]);
        }
        block
    }

    /// The words that the data path moves for this block.
    pub fn to_words(&self) -> (words: [u32; 128])
        ensures
            forall|i: int| 0 <= i < 128 ==> #[trigger] words@[i] == self.word(i),
    {
        let mut words: [u32; 128] = [0; 128];
        let mut i: usize = 0;
        while i < 128
            invariant
                0 <= i <= 128,
                forall|j: int| 0 <= j < i ==> #[trigger] words@[j] == self.word(j),
            decreases 128 - i,
        {
            words[i] = from_bytes(
                self.0[4 * i],
                self.0[4 * i + 1],
                self.0[4 * i + 2],
                self.0[4 * i + 3],
            );
            i = i + 1;
        }
        words
    }
}

/// A block is known by its words: two blocks with the same words have the same bytes.
pub proof fn law_block_of_words(a: DataBlock, b: DataBlock)
    requires
        forall|i: int| 0 <= i < 128 ==> #[trigger] a.word(i) == b.word(i),
    ensures
        a.bytes() == b.bytes(),
{
    assert forall|j: int| 0 <= j < 512 implies #[trigger] a.0@[j] == b.0@[j] by {
        let i = j / 4;
        assert(a.word(i) == b.word(i));
        law_bytes_of_word(a.0@[4 * i], a.0@[4 * i + 1], a.0@[4 * i + 2], a.0@[4 * i + 3]);
        law_bytes_of_word(b.0@[4 * i], b.0@[4 * i + 1], b.0@[4 * i + 2], b.0@[4 * i + 3]);
    }
    assert(a.bytes() =~= b.bytes());
}

} // verus!
