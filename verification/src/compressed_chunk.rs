//! The at-rest form of a chunk: its voxel bytes as an LZ4 frame.

use vstd::prelude::*;
use crate::byte_order::{
    bytes_to_words,
    decode_words,
    encode_words,
    lemma_words_round_trip,
    words_to_bytes,
    ByteOrder,
};
use crate::chunk::{
    chunk_coord_in_range,
    extent_of,
    is_chunk_coord,
    Chunk,
    ChunkView,
    Voxel,
    CHUNK_PADDING,
    CHUNK_SIZE,
    CHUNK_STORAGE_SIZE,
};
use crate::math::{Extent3, Pos};

verus! {

/// The bytes that the decoder reads out of `frame`, or nothing where the
/// decoder reports an error.
pub uninterp spec fn lz4_content(frame: Seq<u8>) -> Option<Seq<u8>>;

/// The greatest compression level that is handed to the encoder, which
/// counts every greater level as this one.
pub const MAX_COMPRESSION_LEVEL: u32 = 16;

/// The level that is handed to the encoder for a requested level: the level
/// itself up to [`MAX_COMPRESSION_LEVEL`], and that level beyond.
pub fn encoder_level(level: u32) -> (handed: u32)
    ensures
        handed == (if level > MAX_COMPRESSION_LEVEL {
            MAX_COMPRESSION_LEVEL
        } else {
            level
        }),
{
    if level > MAX_COMPRESSION_LEVEL {
        MAX_COMPRESSION_LEVEL
    } else {
        level
    }
}

/// `lz4::EncoderBuilder::build`, `Write::write_all` on the `lz4::Encoder` and
/// `lz4::Encoder::finish`: compresses `bytes` into one frame. Claimed of a
/// frame that comes back: the decoder reads the same bytes out of it. Which
/// frame it is depends on the machine as well, so nothing is said of that. An
/// error of any of the three calls gives `None`. The level reaches the
/// compressor as a signed number that it negates where it is negative; levels
/// that are no positive signed number are left out.
#[verifier::external_body]
fn lz4_encode(bytes: &Vec<u8>, level: u32) -> (frame: Option<Vec<u8>>)
    requires
        level <= 0x7FFF_FFFF,
    ensures
        frame matches Some(f) ==> lz4_content(f@) == Some(bytes@),
{
    let mut encoder = lz4::EncoderBuilder::new().level(level).build(Vec::new()).ok()?;
    std::io::Write::write_all(&mut encoder, bytes).ok()?;
    let (frame, result) = encoder.finish();
    result.ok()?;
    Some(frame)
}

/// `lz4::Decoder::new` and `Read::read_to_end` on the decoder: decompresses
/// `frame` to its end. Claimed of the result: it depends on the frame alone.
/// An error of either call gives `None`.
#[verifier::external_body]
fn lz4_decode(frame: &Vec<u8>) -> (bytes: Option<Vec<u8>>)
    ensures
        bytes is Some <==> lz4_content(frame@) is Some,
        bytes matches Some(b) ==> lz4_content(frame@) == Some(b@),
{
    let mut decoder = lz4::Decoder::new(frame.as_slice()).ok()?;
    let mut bytes = Vec::new();
    std::io::Read::read_to_end(&mut decoder, &mut bytes).ok()?;
    Some(bytes)
}

/// A compressed chunk: where it is, what fills it when no buffer was
/// materialized, and the LZ4 frame of its voxel bytes.
///
/// Every value of this type holds a frame that decodes to no bytes, if
/// `empty` is set, and to the bytes of a complete buffer otherwise.
pub struct Lz4CompressedChunk {
    compressed_voxels: Vec<u8>,
    pos: Pos,
    ambient_voxel: Voxel,
    empty: bool,
}

/// What a compressed chunk holds.
pub struct CompressedChunkView {
    pub compressed_voxels: Seq<u8>,
    pub pos: Pos,
    pub ambient_voxel: Voxel,
    pub empty: bool,
}

impl CompressedChunkView {
    /// The frame decodes to as many bytes as the `empty` flag announces, and
    /// the chunk coordinate is in range.
    pub open spec fn valid(self) -> bool {
        &&& chunk_coord_in_range(self.pos)
        &&& lz4_content(self.compressed_voxels) matches Some(bytes) && bytes.len() == (
        if self.empty {
            0
        } else {
            4 * CHUNK_STORAGE_SIZE
        })
    }

    /// The chunk that the compressed chunk decodes to, reading words in the
    /// given byte order.
    pub open spec fn decompressed(self, order: ByteOrder) -> ChunkView
        recommends
            self.valid(),
    {
        ChunkView {
            voxels: bytes_to_words(lz4_content(self.compressed_voxels).unwrap(), order),
            ambient_voxel: self.ambient_voxel,
            pos: self.pos,
        }
    }

    /// This is `chunk` compressed, with its words laid out in `order`: the
    /// frame holds the chunk's voxel bytes, and the rest is the chunk's.
    pub open spec fn compressed_from(self, chunk: ChunkView, order: ByteOrder) -> bool {
        &&& lz4_content(self.compressed_voxels) == Some(words_to_bytes(chunk.voxels, order))
        &&& self.pos == chunk.pos
        &&& self.ambient_voxel == chunk.ambient_voxel
        &&& self.empty == (chunk.voxels.len() == 0)
    }
}

/// Decompressing a chunk that was compressed with the same byte order gives
/// the chunk back: its voxels, its ambient voxel and its coordinate.
pub proof fn lemma_compress_round_trip(
    chunk: ChunkView,
    compressed: CompressedChunkView,
    order: ByteOrder,
)
    requires
        chunk.wf(),
        compressed.compressed_from(chunk, order),
    ensures
        compressed.valid(),
        compressed.decompressed(order) == chunk,
{
    lemma_words_round_trip(chunk.voxels, order);
}

impl View for Lz4CompressedChunk {
    type V = CompressedChunkView;

    closed spec fn view(&self) -> CompressedChunkView {
        CompressedChunkView {
            compressed_voxels: self.compressed_voxels@,
            pos: self.pos,
            ambient_voxel: self.ambient_voxel,
            empty: self.empty,
        }
    }
}

impl Clone for Lz4CompressedChunk {
    fn clone(&self) -> (c: Lz4CompressedChunk)
        ensures
            c@ == self@,
    {
        proof {
            use_type_invariant(self);
        }
        let compressed_voxels = self.compressed_voxels.clone();
        assert(compressed_voxels@ =~= self.compressed_voxels@);
        Lz4CompressedChunk {
            compressed_voxels,
            pos: self.pos,
            ambient_voxel: self.ambient_voxel,
            empty: self.empty,
        }
    }
}

impl Lz4CompressedChunk {
    #[verifier::type_invariant]
    spec fn inv(&self) -> bool {
        self@.valid()
    }

    /// A compressed chunk made of its four parts, if they fit together: the
    /// coordinate is in range and the frame decodes to as many bytes as the
    /// `empty` flag announces.
    pub fn from_parts(
        compressed_voxels: Vec<u8>,
        pos: Pos,
        ambient_voxel: Voxel,
        empty: bool,
    ) -> (r: Option<Lz4CompressedChunk>)
        ensures
            r is Some <==> (CompressedChunkView {
                compressed_voxels: compressed_voxels@,
                pos,
                ambient_voxel,
                empty,
            }).valid(),
            r matches Some(c) ==> c@ == (CompressedChunkView {
                compressed_voxels: compressed_voxels@,
                pos,
                ambient_voxel,
                empty,
            }),
    {
        if !is_chunk_coord(pos) {
            return None;
        }
        let expected: usize = if empty {
            0
        } else {
            4 * CHUNK_STORAGE_SIZE
        };
        match lz4_decode(&compressed_voxels) {
            None => None,
            Some(bytes) => {
                if bytes.len() != expected {
                    None
                } else {
                    Some(Lz4CompressedChunk { compressed_voxels, pos, ambient_voxel, empty })
                }
            },
        }
    }

    /// The compressed form of `chunk`, given what the encoder made of the
    /// chunk's voxel bytes: nothing, if it failed, or a frame that holds as
    /// many bytes as the chunk's buffer. For a frame of which that is not
    /// known, there is [`Lz4CompressedChunk::from_parts`].
    pub fn of_frame(chunk: &Chunk, frame: Option<Vec<u8>>) -> (r: Option<Lz4CompressedChunk>)
        requires
            chunk.wf(),
            frame matches Some(f) ==> lz4_content(f@) matches Some(bytes) && bytes.len() == 4
                * chunk.voxels@.len(),
        ensures
            r is Some <==> frame is Some,
            r matches Some(c) ==> c@ == (CompressedChunkView {
                compressed_voxels: frame->0@,
                pos: chunk.pos,
                ambient_voxel: chunk.ambient_voxel,
                empty: chunk.empty(),
            }),
    {
        match frame {
            None => None,
            Some(compressed_voxels) => Some(
                Lz4CompressedChunk {
                    compressed_voxels,
                    pos: chunk.pos,
                    ambient_voxel: chunk.ambient_voxel,
                    empty: chunk.is_empty(),
                },
            ),
        }
    }

    /// The frame of the voxel bytes.
    pub fn compressed_voxels(&self) -> (frame: &Vec<u8>)
        ensures
            frame@ == self@.compressed_voxels,
    {
        &self.compressed_voxels
    }

    /// The chunk coordinate.
    pub fn pos(&self) -> (pos: Pos)
        ensures
            pos == self@.pos,
            self@.valid(),
    {
        proof {
            use_type_invariant(self);
        }
        self.pos
    }

    pub fn ambient_voxel(&self) -> (voxel: Voxel)
        ensures
            voxel == self@.ambient_voxel,
    {
        self.ambient_voxel
    }

    /// Whether the chunk had no buffer when it was compressed.
    pub fn empty(&self) -> (empty: bool)
        ensures
            empty == self@.empty,
    {
        self.empty
    }

    /// The padded box of voxel coordinates that the chunk stores.
    pub fn extent(&self) -> (e: Extent3)
        ensures
            e == extent_of(self@.pos),
    {
        proof {
            use_type_invariant(self);
        }
        Extent3 {
            min: Pos {
                x: self.pos.x * CHUNK_SIZE - CHUNK_PADDING,
                y: self.pos.y * CHUNK_SIZE - CHUNK_PADDING,
                z: self.pos.z * CHUNK_SIZE - CHUNK_PADDING,
            },
            max: Pos {
                x: self.pos.x * CHUNK_SIZE + CHUNK_SIZE + CHUNK_PADDING - 1,
                y: self.pos.y * CHUNK_SIZE + CHUNK_SIZE + CHUNK_PADDING - 1,
                z: self.pos.z * CHUNK_SIZE + CHUNK_SIZE + CHUNK_PADDING - 1,
            },
        }
    }

    /// The chunk that this one was compressed from, if `order` is the byte
    /// order that it was compressed with.
    pub fn decompress_in(&self, order: ByteOrder) -> (chunk: Chunk)
        ensures
            self@.valid(),
            chunk@ == self@.decompressed(order),
            chunk.wf(),
            chunk.empty() == self@.empty,
    {
        proof {
            use_type_invariant(self);
        }
        match lz4_decode(&self.compressed_voxels) {
            Some(bytes) => {
                match decode_words(&bytes, order) {
                    Some(voxels) => Chunk::new_from_vec(self.pos, self.ambient_voxel, voxels),
                    None => vstd::pervasive::unreached(),
                }
            },
            None => vstd::pervasive::unreached(),
        }
    }

    /// Decompresses with the byte order that the flag selects: little-endian
    /// if `byteorder` is set, this machine's order if not.
    pub fn decompress(&self, byteorder: bool) -> (chunk: Chunk)
        ensures
            self@.valid(),
            chunk.wf(),
            chunk.empty() == self@.empty,
            byteorder ==> chunk@ == self@.decompressed(ByteOrder::Little),
            chunk@ == self@.decompressed(ByteOrder::Little) || chunk@ == self@.decompressed(
                ByteOrder::Big,
            ),
    {
        self.decompress_in(ByteOrder::for_flag(byteorder))
    }
}

impl Chunk {
    /// Compresses the chunk, its voxels laid out as bytes in `order`. The
    /// encoder is handed [`encoder_level`] of `level`. Gives `None` where the
    /// encoder reports an error.
    pub fn compress_in(&self, level: u32, order: ByteOrder) -> (r: Option<Lz4CompressedChunk>)
        requires
            self.wf(),
        ensures
            r matches Some(c) ==> c@.compressed_from(self@, order),
    {
        let bytes = encode_words(&self.voxels, order);
        let frame = lz4_encode(&bytes, encoder_level(level));
        proof {
            lemma_words_round_trip(self.voxels@, order);
        }
        Lz4CompressedChunk::of_frame(self, frame)
    }

    /// Compresses with the byte order that the flag selects: little-endian
    /// if `byteorder` is set, this machine's order if not.
    pub fn compress(&self, compression_level: u32, byteorder: bool) -> (r: Option<
        Lz4CompressedChunk,
    >)
        requires
            self.wf(),
        ensures
            r matches Some(c) ==> (if byteorder {
                c@.compressed_from(self@, ByteOrder::Little)
            } else {
                c@.compressed_from(self@, ByteOrder::Little) || c@.compressed_from(
                    self@,
                    ByteOrder::Big,
                )
            }),
    {
        self.compress_in(compression_level, ByteOrder::for_flag(byteorder))
    }
}

} // verus!
