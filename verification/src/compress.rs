//! The compressed block wrapper: a CityHash checksum over a method tag,
//! two length fields, and an LZ4-compressed payload.
//!
//! The two outside computations, the CityHash v1.0.2 digest and the LZ4
//! block codec, stand behind trusted wrappers; their results are named by
//! uninterpreted functions, and everything around them is verified against
//! those names.
use vstd::bytes::spec_u128_to_le_bytes;
use vstd::bytes::spec_u32_to_le_bytes;
use vstd::prelude::*;
use vstd::slice::slice_subrange;

use crate::binary::lemma_read_u128_enc;
use crate::binary::lemma_read_u32_enc;
use crate::binary::lemma_subrange_sub;
use crate::binary::read_u128;
use crate::binary::read_u32;
use crate::binary::read_u8;
use crate::binary::spec_read_u128;
use crate::binary::spec_read_u32;
use crate::binary::spec_read_u8;
use crate::binary::Encoder;
use crate::binary::ReadOutcome;
use crate::block::spec_block_enc;
use crate::block::spec_read_block;
use crate::block::Block;
use crate::block::BlockM;
use crate::errors::DriverError;
use crate::errors::Error;

verus! {

/// Method tag of an LZ4-compressed frame.
pub const COMPRESSION_METHOD_LZ4: u8 = 0x82;

/// The 128-bit CityHash v1.0.2 digest of a byte sequence; computed only by
/// the outside hash function, so it is named rather than defined.
pub uninterp spec fn cityhash128_of(s: Seq<u8>) -> u128;

/// The LZ4 block compression of a byte sequence.
pub uninterp spec fn lz4_of(s: Seq<u8>) -> Seq<u8>;

/// The LZ4 block decompression of a byte sequence at an expected size;
/// `None` when the bytes are not a valid LZ4 block within that size.
pub uninterp spec fn unlz4_of(s: Seq<u8>, n: nat) -> Option<Seq<u8>>;

/// Relies on cityhash_rs::cityhash_102_128: the digest is a function of the
/// input bytes alone.
#[verifier::external_body]
fn cityhash128(b: &[u8]) -> (r: u128)
    ensures
        r == cityhash128_of(b@),
{
    cityhash_rs::cityhash_102_128(b)
}

/// Relies on lz4_flex::compress (raw block format): the output is a
/// function of the input bytes alone, and lz4_flex::decompress inverts it
/// at the input's own length.
#[verifier::external_body]
fn lz4_compress(b: &[u8]) -> (r: Vec<u8>)
    ensures
        r@ == lz4_of(b@) && unlz4_of(r@, b@.len()) == Option::Some(b@),
{
    lz4_flex::compress(b)
}

/// Relies on lz4_flex::decompress (raw block format, safe-decode feature):
/// the outcome is a function of the input bytes and the size bound alone,
/// and malformed input is reported as an error.
#[verifier::external_body]
fn lz4_decompress(b: &[u8], n: usize) -> (r: Result<Vec<u8>, ()>)
    ensures
        match r {
            Ok(v) => unlz4_of(b@, n as nat) == Option::Some(v@),
            Err(u) => unlz4_of(b@, n as nat) is None,
        },
{
    match lz4_flex::decompress(b, n) {
        Ok(v) => Ok(v),
        Err(_) => Err(()),
    }
}

/// The frame body that the checksum covers: method tag, compressed size
/// (including the nine header bytes), uncompressed size, and the
/// compressed payload.
pub open spec fn spec_frame_body(raw: Seq<u8>) -> Seq<u8> {
    seq![COMPRESSION_METHOD_LZ4] + spec_u32_to_le_bytes((9 + lz4_of(raw).len()) as u32)
        + spec_u32_to_le_bytes(raw.len() as u32) + lz4_of(raw)
}

/// A whole compressed frame: the digest of the body, then the body.
pub open spec fn spec_compress_frame(raw: Seq<u8>) -> Seq<u8> {
    spec_u128_to_le_bytes(cityhash128_of(spec_frame_body(raw))) + spec_frame_body(raw)
}

/// Reader for a compressed frame carrying one block.
pub open spec fn spec_read_compressed_block(s: Seq<u8>, pos: int) -> ReadOutcome<BlockM> {
    match spec_read_u128(s, pos) {
        ReadOutcome::Val(sum, n1) => match spec_read_u8(s, pos + 16) {
            ReadOutcome::Val(method, n2) => if method != COMPRESSION_METHOD_LZ4 {
                ReadOutcome::Bad(DriverError::BadCompressionMethod)
            } else {
                match spec_read_u32(s, pos + 17) {
                    ReadOutcome::Val(csize, n3) => if csize < 9 {
                        ReadOutcome::Bad(DriverError::BadFrame)
                    } else {
                        match spec_read_u32(s, pos + 21) {
                            ReadOutcome::Val(usz, n4) => if pos + 16 + csize > s.len() {
                                ReadOutcome::Short
                            } else {
                                let hashed = s.subrange(pos + 16, pos + 16 + csize);
                                if cityhash128_of(hashed) != sum {
                                    ReadOutcome::Bad(DriverError::BadChecksum)
                                } else {
                                    let payload = s.subrange(pos + 25, pos + 16 + csize);
                                    match unlz4_of(payload, usz as nat) {
                                        Option::None => ReadOutcome::Bad(DriverError::BadFrame),
                                        Option::Some(raw) => if raw.len() != usz {
                                            ReadOutcome::Bad(DriverError::BadFrame)
                                        } else {
                                            match spec_read_block(raw, 0) {
                                                ReadOutcome::Val(b, k) => ReadOutcome::Val(
                                                    b,
                                                    16 + csize,
                                                ),
                                                _ => ReadOutcome::Bad(DriverError::BadFrame),
                                            }
                                        },
                                    }
                                }
                            },
                            o => o.pass(),
                        }
                    },
                    o => o.pass(),
                }
            },
            o => o.pass(),
        },
        o => o.pass(),
    }
}

/// The checksum law of compressed frames: in every frame this library
/// produces, the sixteen leading bytes are the digest of everything that
/// follows them.
pub proof fn lemma_frame_checksum(raw: Seq<u8>)
    ensures
        spec_compress_frame(raw).subrange(0, 16) == spec_u128_to_le_bytes(
            cityhash128_of(
                spec_compress_frame(raw).subrange(16, spec_compress_frame(raw).len() as int),
            ),
        ),
{
    let body = spec_frame_body(raw);
    let frame = spec_compress_frame(raw);
    assert(spec_u128_to_le_bytes(cityhash128_of(body)).len() == 16) by {
        vstd::bytes::lemma_auto_spec_u128_to_from_le_bytes();
    }
    assert(frame.subrange(0, 16) =~= spec_u128_to_le_bytes(cityhash128_of(body)));
    assert(frame.subrange(16, frame.len() as int) =~= body);
}

/// Round trip for a compressed frame, given the facts the compressor
/// establishes: the payload is the LZ4 image of the block's encoding and
/// decompresses back to it, and both sizes fit their fields.
pub proof fn lemma_read_compressed_enc(s: Seq<u8>, pos: int, b: BlockM)
    requires
        0 <= pos,
        b.wf(),
        spec_block_enc(b).len() <= u32::MAX,
        lz4_of(spec_block_enc(b)).len() + 9 <= u32::MAX,
        unlz4_of(lz4_of(spec_block_enc(b)), spec_block_enc(b).len()) == Option::Some(
            spec_block_enc(b),
        ),
        pos + spec_compress_frame(spec_block_enc(b)).len() <= s.len(),
        s.subrange(pos, pos + spec_compress_frame(spec_block_enc(b)).len() as int)
            == spec_compress_frame(spec_block_enc(b)),
    ensures
        spec_read_compressed_block(s, pos) == ReadOutcome::<BlockM>::Val(
            b,
            spec_compress_frame(spec_block_enc(b)).len() as int,
        ),
{
    let raw = spec_block_enc(b);
    let body = spec_frame_body(raw);
    let frame = spec_compress_frame(raw);
    let comp = lz4_of(raw);
    let sum = cityhash128_of(body);
    let e1 = spec_u128_to_le_bytes(sum);
    let e2 = seq![COMPRESSION_METHOD_LZ4];
    let e3 = spec_u32_to_le_bytes((9 + comp.len()) as u32);
    let e4 = spec_u32_to_le_bytes(raw.len() as u32);
    assert(e1.len() == 16) by {
        vstd::bytes::lemma_auto_spec_u128_to_from_le_bytes();
    }
    assert(e3.len() == 4 && e4.len() == 4) by {
        vstd::bytes::lemma_auto_spec_u32_to_from_le_bytes();
    }
    assert(frame =~= e1 + e2 + e3 + e4 + comp);
    assert(frame.subrange(0, 16) =~= e1);
    lemma_subrange_sub(s, pos, 0, 16, frame);
    lemma_read_u128_enc(s, pos, sum);
    assert(frame[16] == COMPRESSION_METHOD_LZ4);
    assert(s.subrange(pos, pos + frame.len() as int)[16] == s[pos + 16]);
    assert(s[pos + 16] == COMPRESSION_METHOD_LZ4);
    assert(frame.subrange(17, 21) =~= e3);
    lemma_subrange_sub(s, pos, 17, 4, frame);
    lemma_read_u32_enc(s, pos + 17, (9 + comp.len()) as u32);
    assert(frame.subrange(21, 25) =~= e4);
    lemma_subrange_sub(s, pos, 21, 4, frame);
    lemma_read_u32_enc(s, pos + 21, raw.len() as u32);
    let csize = (9 + comp.len()) as u32;
    assert(pos + 16 + csize <= s.len());
    assert(s.subrange(pos + 16, pos + 16 + csize as int) =~= body) by {
        lemma_subrange_sub(s, pos, 16, csize as int, frame);
        assert(frame.subrange(16, 16 + csize as int) =~= body);
    }
    assert(s.subrange(pos + 25, pos + 16 + csize as int) =~= comp) by {
        lemma_subrange_sub(s, pos, 25, comp.len() as int, frame);
        assert(frame.subrange(25, 25 + comp.len() as int) =~= comp);
    }
    assert(raw.subrange(0, raw.len() as int) =~= raw);
    crate::block::lemma_read_block_enc(raw, 0, b);
}

impl Block {
    /// Append this block as a compressed frame.  Fails only if the
    /// compressed payload cannot fit its length field, and reports that in
    /// its result.
    pub fn write_compressed(&self, enc: &mut Encoder) -> (r: Result<(), Error>)
        requires
            self@.wf(),
            spec_block_enc(self@).len() <= u32::MAX,
        ensures
            match r {
                Ok(u) => final (enc)@ == old(enc)@ + spec_compress_frame(spec_block_enc(self@))
                    && lz4_of(spec_block_enc(self@)).len() + 9 <= u32::MAX && unlz4_of(
                    lz4_of(spec_block_enc(self@)),
                    spec_block_enc(self@).len(),
                ) == Option::Some(spec_block_enc(self@)),
                Err(e) => final (enc)@ == old(enc)@ && lz4_of(spec_block_enc(self@)).len() + 9
                    > u32::MAX,
            },
    {
        let mut raw_enc = Encoder::new();
        self.encode(&mut raw_enc);
        let raw = raw_enc.get_buffer();
        let comp = lz4_compress(raw.as_slice());
        if comp.len() > (u32::MAX - 9) as usize {
            return Err(Error::Driver(DriverError::BadFrame));
        }
        let mut body_enc = Encoder::new();
        body_enc.write_u8(COMPRESSION_METHOD_LZ4);
        body_enc.write_u32(9 + comp.len() as u32);
        body_enc.write_u32(raw.len() as u32);
        body_enc.raw(&comp);
        let body = body_enc.get_buffer();
        proof {
            assert(body@ =~= spec_frame_body(raw@));
        }
        let sum = cityhash128(body.as_slice());
        enc.write_u128(sum);
        enc.raw(&body);
        proof {
            assert(enc@ =~= old(enc)@ + spec_compress_frame(spec_block_enc(self@)));
        }
        Ok(())
    }

    /// Decode a compressed frame carrying one block, starting at `pos`.
    pub fn decode_compressed(buf: &Vec<u8>, pos: usize) -> (r: Result<(Block, usize), Error>)
        requires
            pos <= buf@.len(),
        ensures
            ({
                let sr = spec_read_compressed_block(buf@, pos as int);
                match sr {
                    ReadOutcome::Val(b, n) => r matches Ok(p) && p.0@ == b && pos <= p.1 && p.1
                        == pos + n && p.1 <= buf@.len(),
                    ReadOutcome::Short => r matches Err(e) && e is WouldBlock,
                    ReadOutcome::Bad(d) => r matches Err(e) && e == Error::Driver(d),
                }
            }),
    {
        let (sum, p1) = match read_u128(buf, pos) {
            Ok(p) => p,
            Err(e) => {
                return Err(e);
            },
        };
        let (method, p2) = match read_u8(buf, p1) {
            Ok(p) => p,
            Err(e) => {
                return Err(e);
            },
        };
        if method != COMPRESSION_METHOD_LZ4 {
            return Err(Error::Driver(DriverError::BadCompressionMethod));
        }
        let (csize, p3) = match read_u32(buf, p2) {
            Ok(p) => p,
            Err(e) => {
                return Err(e);
            },
        };
        if csize < 9 {
            return Err(Error::Driver(DriverError::BadFrame));
        }
        let (usz, p4) = match read_u32(buf, p3) {
            Ok(p) => p,
            Err(e) => {
                return Err(e);
            },
        };
        let remaining = buf.len() - (pos + 16);
        if (csize as u64) > (remaining as u64) {
            return Err(Error::WouldBlock);
        }
        let hash_end = pos + 16 + csize as usize;
        let hashed = slice_subrange(buf.as_slice(), pos + 16, hash_end);
        let computed = cityhash128(hashed);
        if computed != sum {
            return Err(Error::Driver(DriverError::BadChecksum));
        }
        let payload = slice_subrange(buf.as_slice(), pos + 25, hash_end);
        let raw = match lz4_decompress(payload, usz as usize) {
            Ok(v) => v,
            Err(u) => {
                return Err(Error::Driver(DriverError::BadFrame));
            },
        };
        if raw.len() != usz as usize {
            return Err(Error::Driver(DriverError::BadFrame));
        }
        match Block::decode(&raw, 0) {
            Ok((b, k)) => Ok((b, hash_end)),
            Err(e) => Err(Error::Driver(DriverError::BadFrame)),
        }
    }
}

} // verus!
