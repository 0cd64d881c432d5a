//! Writing result blocks as server Data frames, compressed or plain.
use vstd::prelude::*;

use crate::binary::spec_str_enc;
use crate::binary::spec_uvarint;
use crate::binary::Encoder;
use crate::block::spec_block_enc;
use crate::block::Block;
use crate::block::BlockM;
use crate::compress::lz4_of;
use crate::compress::spec_compress_frame;
use crate::compress::unlz4_of;
use crate::errors::DriverError;
use crate::errors::Error;
use crate::protocols::SERVER_DATA;

verus! {

/// The bytes of a server Data frame: the tag, an empty temporary-table
/// name, and the block, wrapped in a compressed frame when negotiated.
pub open spec fn spec_server_data_frame(b: BlockM, compress: bool) -> Seq<u8> {
    spec_uvarint(SERVER_DATA as nat) + spec_str_enc(Seq::<u8>::empty()) + (if compress {
        spec_compress_frame(spec_block_enc(b))
    } else {
        spec_block_enc(b)
    })
}

impl Block {
    /// Append this block as a server Data frame.  Fails only when a length
    /// field cannot hold the block's encoded or compressed size.
    pub fn send_server_data(&self, enc: &mut Encoder, compress: bool) -> (r: Result<(), Error>)
        requires
            self@.wf(),
        ensures
            match r {
                Ok(u) => final (enc)@ == old(enc)@ + spec_server_data_frame(self@, compress),
                Err(e) => final (enc)@ == old(enc)@,
            },
            (r is Ok && compress) ==> spec_block_enc(self@).len() <= u32::MAX && lz4_of(
                spec_block_enc(self@),
            ).len() + 9 <= u32::MAX && unlz4_of(
                lz4_of(spec_block_enc(self@)),
                spec_block_enc(self@).len(),
            ) == Option::Some(spec_block_enc(self@)),
            (!compress) ==> r is Ok,
            (compress && spec_block_enc(self@).len() <= u32::MAX && lz4_of(
                spec_block_enc(self@),
            ).len() + 9 <= u32::MAX) ==> r is Ok,
    {
        let mut body = Encoder::new();
        body.uvarint(SERVER_DATA);
        let empty: Vec<u8> = Vec::new();
        body.string(&empty);
        if compress {
            let mut raw_enc = Encoder::new();
            self.encode(&mut raw_enc);
            if raw_enc.len() > (u32::MAX as usize) {
                return Err(Error::Driver(DriverError::BadFrame));
            }
            match self.write_compressed(&mut body) {
                Ok(u) => {},
                Err(e) => {
                    return Err(e);
                },
            }
        } else {
            self.encode(&mut body);
        }
        let bytes = body.get_buffer();
        enc.raw(&bytes);
        proof {
            assert(enc@ =~= old(enc)@ + spec_server_data_frame(self@, compress));
        }
        Ok(())
    }
}

/// Writes result blocks into an output buffer on the executor's behalf.
pub struct ResultWriter {
    encoder: Encoder,
    compress: bool,
}

impl ResultWriter {
    /// The bytes written so far.
    pub closed spec fn bytes(&self) -> Seq<u8> {
        self.encoder@
    }

    /// Whether this writer compresses its blocks.
    pub closed spec fn compressed(&self) -> bool {
        self.compress
    }

    /// A fresh writer.
    pub fn new(compress: bool) -> (r: ResultWriter)
        ensures
            r.bytes() == Seq::<u8>::empty(),
            r.compressed() == compress,
    {
        ResultWriter { encoder: Encoder::new(), compress }
    }

    /// Append one result block as a Data frame.
    pub fn write_block(&mut self, block: &Block) -> (r: Result<(), Error>)
        requires
            block@.wf(),
        ensures
            final (self).compressed() == old(self).compressed(),
            match r {
                Ok(u) => final (self).bytes() == old(self).bytes() + spec_server_data_frame(
                    block@,
                    old(self).compressed(),
                ),
                Err(e) => final (self).bytes() == old(self).bytes(),
            },
            (!old(self).compressed()) ==> r is Ok,
            (old(self).compressed() && spec_block_enc(block@).len() <= u32::MAX && lz4_of(
                spec_block_enc(block@),
            ).len() + 9 <= u32::MAX) ==> r is Ok,
    {
        block.send_server_data(&mut self.encoder, self.compress)
    }

    /// Hand out the accumulated bytes.
    pub fn get_buffer(self) -> (r: Vec<u8>)
        ensures
            r@ == self.bytes(),
    {
        self.encoder.get_buffer()
    }
}

} // verus!
