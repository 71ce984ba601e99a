//! The byte layout of voxel buffers.
//!
//! A buffer of 32-bit voxels is laid out as bytes either least significant
//! byte first or most significant byte first. The layouts are stated here as
//! functions on sequences; the conversions themselves are done by the
//! `byteorder` crate.

use vstd::prelude::*;

verus! {

/// The order of the four bytes of a word.
#[derive(Clone, Copy, Debug, PartialEq, Eq, Structural)]
pub enum ByteOrder {
    /// Least significant byte first: the portable layout.
    Little,
    /// Most significant byte first.
    Big,
}

/// Byte `k` of `w`, counted from the least significant one.
pub open spec fn byte_of(w: u32, k: int) -> u8 {
    if k == 0 {
        (w % 0x100) as u8
    } else if k == 1 {
        ((w / 0x100) % 0x100) as u8
    } else if k == 2 {
        ((w / 0x1_0000) % 0x100) as u8
    } else {
        ((w / 0x100_0000) % 0x100) as u8
    }
}

/// The word whose bytes are `b0` to `b3`, least significant first.
pub open spec fn word_of(b0: u8, b1: u8, b2: u8, b3: u8) -> u32 {
    (b0 + b1 * 0x100 + b2 * 0x1_0000 + b3 * 0x100_0000) as u32
}

/// The significance of the byte that stands at place `i` of a word's four
/// bytes.
pub open spec fn significance(order: ByteOrder, i: int) -> int {
    match order {
        ByteOrder::Little => i,
        ByteOrder::Big => 3 - i,
    }
}

/// The bytes of `words`, four per word, each word in the given order.
pub open spec fn words_to_bytes(words: Seq<u32>, order: ByteOrder) -> Seq<u8> {
    Seq::new(4 * words.len(), |i: int| byte_of(words[i / 4], significance(order, i % 4)))
}

/// The words that `bytes` hold, four bytes per word; bytes left over at the
/// end are dropped.
pub open spec fn bytes_to_words(bytes: Seq<u8>, order: ByteOrder) -> Seq<u32> {
    Seq::new(
        bytes.len() / 4,
        |i: int|
            word_of(
                bytes[4 * i + significance(order, 0)],
                bytes[4 * i + significance(order, 1)],
                bytes[4 * i + significance(order, 2)],
                bytes[4 * i + significance(order, 3)],
            ),
    )
}

/// A word is made of its four bytes.
pub proof fn lemma_word_of_bytes(w: u32)
    ensures
        word_of(byte_of(w, 0), byte_of(w, 1), byte_of(w, 2), byte_of(w, 3)) == w,
{
}

/// The four bytes of a word made of bytes are those bytes.
pub proof fn lemma_bytes_of_word(b0: u8, b1: u8, b2: u8, b3: u8)
    ensures
        byte_of(word_of(b0, b1, b2, b3), 0) == b0,
        byte_of(word_of(b0, b1, b2, b3), 1) == b1,
        byte_of(word_of(b0, b1, b2, b3), 2) == b2,
        byte_of(word_of(b0, b1, b2, b3), 3) == b3,
{
}

/// Laying words out as bytes and reading them back in the same order gives
/// the words.
pub proof fn lemma_words_round_trip(words: Seq<u32>, order: ByteOrder)
    ensures
        words_to_bytes(words, order).len() == 4 * words.len(),
        bytes_to_words(words_to_bytes(words, order), order) == words,
{
    let bytes = words_to_bytes(words, order);
    let back = bytes_to_words(bytes, order);
    assert(back.len() == words.len());
    assert forall|i: int| 0 <= i < words.len() implies back[i] == words[i] by {
        lemma_word_of_bytes(words[i]);
        assert((4 * i + 0) / 4 == i && (4 * i + 1) / 4 == i && (4 * i + 2) / 4 == i && (4 * i + 3)
            / 4 == i);
        assert((4 * i + 0) % 4 == 0 && (4 * i + 1) % 4 == 1 && (4 * i + 2) % 4 == 2 && (4 * i + 3)
            % 4 == 3);
    }
    assert(back =~= words);
}

/// Reading whole words from bytes and laying them out again in the same
/// order gives the bytes.
pub proof fn lemma_bytes_round_trip(bytes: Seq<u8>, order: ByteOrder)
    requires
        bytes.len() % 4 == 0,
    ensures
        bytes_to_words(bytes, order).len() * 4 == bytes.len(),
        words_to_bytes(bytes_to_words(bytes, order), order) == bytes,
{
    let words = bytes_to_words(bytes, order);
    let back = words_to_bytes(words, order);
    assert(back.len() == bytes.len());
    assert forall|i: int| 0 <= i < bytes.len() implies back[i] == bytes[i] by {
        let w = i / 4;
        lemma_bytes_of_word(
            bytes[4 * w + significance(order, 0)],
            bytes[4 * w + significance(order, 1)],
            bytes[4 * w + significance(order, 2)],
            bytes[4 * w + significance(order, 3)],
        );
    }
    assert(back =~= bytes);
}

/// `byteorder::LittleEndian::write_u32_into`: fills `dst` with the bytes of
/// `src`, least significant byte of each word first. The call panics unless
/// `dst` has four bytes for each word.
#[verifier::external_body]
fn write_u32_into_little(src: &Vec<u32>, dst: &mut Vec<u8>)
    requires
        old(dst)@.len() == 4 * src@.len(),
    ensures
        final(dst)@ == words_to_bytes(src@, ByteOrder::Little),
{
    <byteorder::LittleEndian as byteorder::ByteOrder>::write_u32_into(src, dst)
}

/// `byteorder::BigEndian::write_u32_into`: fills `dst` with the bytes of
/// `src`, most significant byte of each word first. The call panics unless
/// `dst` has four bytes for each word.
#[verifier::external_body]
fn write_u32_into_big(src: &Vec<u32>, dst: &mut Vec<u8>)
    requires
        old(dst)@.len() == 4 * src@.len(),
    ensures
        final(dst)@ == words_to_bytes(src@, ByteOrder::Big),
{
    <byteorder::BigEndian as byteorder::ByteOrder>::write_u32_into(src, dst)
}

/// `byteorder::LittleEndian::read_u32_into`: fills `dst` with the words whose
/// bytes stand in `src`, least significant byte first. The call panics unless
/// `src` has four bytes for each word.
#[verifier::external_body]
fn read_u32_into_little(src: &Vec<u8>, dst: &mut Vec<u32>)
    requires
        src@.len() == 4 * old(dst)@.len(),
    ensures
        final(dst)@ == bytes_to_words(src@, ByteOrder::Little),
{
    <byteorder::LittleEndian as byteorder::ByteOrder>::read_u32_into(src, dst)
}

/// `byteorder::BigEndian::read_u32_into`: fills `dst` with the words whose
/// bytes stand in `src`, most significant byte first. The call panics unless
/// `src` has four bytes for each word.
#[verifier::external_body]
fn read_u32_into_big(src: &Vec<u8>, dst: &mut Vec<u32>)
    requires
        src@.len() == 4 * old(dst)@.len(),
    ensures
        final(dst)@ == bytes_to_words(src@, ByteOrder::Big),
{
    <byteorder::BigEndian as byteorder::ByteOrder>::read_u32_into(src, dst)
}

/// `byteorder::NativeEndian::read_u16`: the 16-bit number that the first two
/// bytes of `bytes` hold in this machine's order, which is one of the two
/// orders. The call panics on fewer than two bytes.
#[verifier::external_body]
fn read_u16_native(bytes: &Vec<u8>) -> (n: u16)
    requires
        bytes@.len() >= 2,
    ensures
        n == bytes@[0] + bytes@[1] * 0x100 || n == bytes@[1] + bytes@[0] * 0x100,
{
    <byteorder::NativeEndian as byteorder::ByteOrder>::read_u16(bytes)
}

impl ByteOrder {
    /// The order in which this machine keeps the bytes of a word. It is found
    /// by reading the bytes 1, 0 as a 16-bit number in the machine's order;
    /// [`ByteOrder::of_reading`] says which order each reading stands for.
    pub fn native() -> ByteOrder {
        let mut probe: Vec<u8> = Vec::new();
        probe.push(1);
        probe.push(0);
        ByteOrder::of_reading(read_u16_native(&probe))
    }

    /// The order that a byte-order flag selects: the portable little-endian
    /// order if it is set, this machine's order if not;
    /// [`ByteOrder::for_flag_on`] says which order is selected on a machine
    /// of each order.
    pub fn for_flag(byteorder: bool) -> (order: ByteOrder)
        ensures
            byteorder ==> order == ByteOrder::Little,
    {
        ByteOrder::for_flag_on(byteorder, ByteOrder::native())
    }

    /// The order of a machine that reads the bytes 1, 0 as the 16-bit number
    /// `reading`: little-endian if the first byte counts least, which makes
    /// the number 1, and big-endian if not, which makes it 256.
    pub fn of_reading(reading: u16) -> (order: ByteOrder)
        ensures
            order == (if reading == 1 {
                ByteOrder::Little
            } else {
                ByteOrder::Big
            }),
    {
        if reading == 1 {
            ByteOrder::Little
        } else {
            ByteOrder::Big
        }
    }

    /// The order that a byte-order flag selects on a machine whose own order
    /// is `native`: little-endian if the flag is set, `native` if not.
    pub fn for_flag_on(byteorder: bool, native: ByteOrder) -> (order: ByteOrder)
        ensures
            order == (if byteorder {
                ByteOrder::Little
            } else {
                native
            }),
    {
        if byteorder {
            ByteOrder::Little
        } else {
            native
        }
    }
}

/// The bytes of `words` in the given order.
pub fn encode_words(words: &Vec<u32>, order: ByteOrder) -> (bytes: Vec<u8>)
    requires
        4 * words@.len() <= usize::MAX,
    ensures
        bytes@ == words_to_bytes(words@, order),
{
    let mut bytes: Vec<u8> = vec![0u8; words.len() * 4];
    match order {
        ByteOrder::Little => write_u32_into_little(words, &mut bytes),
        ByteOrder::Big => write_u32_into_big(words, &mut bytes),
    }
    bytes
}

/// The words that `bytes` hold in the given order, if `bytes` is made of
/// whole words.
pub fn decode_words(bytes: &Vec<u8>, order: ByteOrder) -> (words: Option<Vec<u32>>)
    ensures
        words is Some <==> bytes@.len() % 4 == 0,
        words matches Some(w) ==> w@ == bytes_to_words(bytes@, order),
{
    if bytes.len() % 4 != 0 {
        return None;
    }
    let mut words: Vec<u32> = vec![0u32; bytes.len() / 4];
    match order {
        ByteOrder::Little => read_u32_into_little(bytes, &mut words),
        ByteOrder::Big => read_u32_into_big(bytes, &mut words),
    }
    Some(words)
}

} // verus!
