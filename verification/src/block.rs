//! Blocks: the columnar batches that carry query results and INSERT data.
//!
//! On the wire a block is its info fields (overflow flag and bucket number,
//! written as a tagged list closed by tag zero), a column count, a row
//! count, and then each column as name, type string, and cell data.
use vstd::bytes::spec_u32_to_le_bytes;
use vstd::prelude::*;

use crate::binary::lemma_read_str_enc;
use crate::binary::lemma_read_uvarint_enc;
use crate::binary::lemma_subrange_sub;
use crate::binary::read_string;
use crate::binary::read_u32;
use crate::binary::read_u8;
use crate::binary::read_uvarint;
use crate::binary::spec_read_str;
use crate::binary::spec_read_u32;
use crate::binary::spec_read_u8;
use crate::binary::spec_read_uvarint;
use crate::binary::spec_str_enc;
use crate::binary::spec_uvarint;
use crate::binary::Encoder;
use crate::binary::ReadOutcome;
use crate::column::data_view;
use crate::column::lemma_parse_type_name;
use crate::column::lemma_read_data_enc;
use crate::column::spec_data_enc;
use crate::column::spec_parse_type;
use crate::column::spec_read_data;
use crate::column::spec_type_name;
use crate::column::ColumnData;
use crate::column::ColumnType;
use crate::column::DataM;
use crate::errors::DriverError;
use crate::errors::Error;

verus! {

/// Block metadata: the overflow bit and the two-level aggregation bucket.
#[derive(Clone, Copy, Debug, PartialEq, Eq, Structural)]
pub struct BlockInfo {
    pub is_overflows: bool,
    pub bucket_num: i32,
}

impl BlockInfo {
    /// The default info: no overflow, bucket -1.
    pub fn fresh() -> (r: BlockInfo)
        ensures
            r == (BlockInfo { is_overflows: false, bucket_num: -1i32 }),
    {
        BlockInfo { is_overflows: false, bucket_num: -1 }
    }
}

/// One named, typed column.
#[derive(Debug)]
pub struct Column {
    pub name: Vec<u8>,
    pub data: ColumnData,
}

/// Mathematical image of a [`Column`].
pub struct ColumnM {
    pub name: Seq<u8>,
    pub data: DataM,
}

impl View for Column {
    type V = ColumnM;

    open spec fn view(&self) -> ColumnM {
        ColumnM { name: self.name@, data: data_view(self.data) }
    }
}

impl ColumnM {
    /// A column the codec can put on the wire and read back.
    pub open spec fn wf(self) -> bool {
        &&& self.name.len() <= u64::MAX
        &&& self.data.wf()
        &&& self.data.typ().wf()
        &&& spec_type_name(self.data.typ()).len() <= u64::MAX
    }
}

/// A columnar batch of rows.
#[derive(Debug)]
pub struct Block {
    pub info: BlockInfo,
    pub columns: Vec<Column>,
}

/// Mathematical image of a [`Block`].
pub struct BlockM {
    pub info: BlockInfo,
    pub columns: Seq<ColumnM>,
}

impl View for Block {
    type V = BlockM;

    open spec fn view(&self) -> BlockM {
        BlockM { info: self.info, columns: self.columns@.map_values(|c: Column| c@) }
    }
}

impl BlockM {
    /// Rows carried by this block: the row count of its first column.
    pub open spec fn rows(self) -> nat {
        if self.columns.len() == 0 {
            0
        } else {
            self.columns[0].data.rows()
        }
    }

    /// A block the codec can put on the wire and read back: every column
    /// well formed and all row counts equal.
    pub open spec fn wf(self) -> bool {
        &&& self.columns.len() <= u64::MAX
        &&& self.rows() <= u64::MAX
        &&& (forall|i: int| 0 <= i < self.columns.len() ==> (#[trigger] self.columns[i]).wf())
        &&& (forall|i: int|
            0 <= i < self.columns.len() ==> (#[trigger] self.columns[i]).data.rows()
                == self.rows())
    }
}

// ---------------------------------------------------------------------------
// Block info codec
// ---------------------------------------------------------------------------
/// Encoding of block info: field 1 with the overflow flag, field 2 with the
/// bucket number, and the closing tag 0.
pub open spec fn spec_block_info_enc(info: BlockInfo) -> Seq<u8> {
    spec_uvarint(1) + seq![(if info.is_overflows { 1u8 } else { 0u8 })] + spec_uvarint(2)
        + spec_u32_to_le_bytes(info.bucket_num as u32) + spec_uvarint(0)
}

/// Reader for block info in its canonical field order.
pub open spec fn spec_read_block_info(s: Seq<u8>, pos: int) -> ReadOutcome<BlockInfo> {
    match spec_read_uvarint(s, pos) {
        ReadOutcome::Val(f1, n1) => if f1 != 1 {
            ReadOutcome::Bad(DriverError::BadFrame)
        } else {
            match spec_read_u8(s, pos + n1) {
                ReadOutcome::Val(ov, n2) => match spec_read_uvarint(s, pos + n1 + n2) {
                    ReadOutcome::Val(f2, n3) => if f2 != 2 {
                        ReadOutcome::Bad(DriverError::BadFrame)
                    } else {
                        match spec_read_u32(s, pos + n1 + n2 + n3) {
                            ReadOutcome::Val(bucket, n4) => match spec_read_uvarint(
                                s,
                                pos + n1 + n2 + n3 + n4,
                            ) {
                                ReadOutcome::Val(f0, n5) => if f0 != 0 {
                                    ReadOutcome::Bad(DriverError::BadFrame)
                                } else {
                                    ReadOutcome::Val(
                                        BlockInfo {
                                            is_overflows: ov != 0,
                                            bucket_num: bucket as i32,
                                        },
                                        n1 + n2 + n3 + n4 + n5,
                                    )
                                },
                                o => o.pass(),
                            },
                            o => o.pass(),
                        }
                    },
                    o => o.pass(),
                },
                o => o.pass(),
            }
        },
        o => o.pass(),
    }
}

/// Round trip for block info.
pub proof fn lemma_read_block_info_enc(s: Seq<u8>, pos: int, info: BlockInfo)
    requires
        0 <= pos,
        pos + spec_block_info_enc(info).len() <= s.len(),
        s.subrange(pos, pos + spec_block_info_enc(info).len() as int) == spec_block_info_enc(info),
    ensures
        spec_read_block_info(s, pos) == ReadOutcome::<BlockInfo>::Val(
            info,
            spec_block_info_enc(info).len() as int,
        ),
{
    let whole = spec_block_info_enc(info);
    let e1 = spec_uvarint(1);
    let e2 = seq![(if info.is_overflows { 1u8 } else { 0u8 })];
    let e3 = spec_uvarint(2);
    let e4 = spec_u32_to_le_bytes(info.bucket_num as u32);
    let e5 = spec_uvarint(0);
    assert(e4.len() == 4) by {
        vstd::bytes::lemma_auto_spec_u32_to_from_le_bytes();
    }
    let o1 = e1.len() as int;
    let o2 = o1 + e2.len();
    let o3 = o2 + e3.len();
    let o4 = o3 + e4.len();
    let o5 = o4 + e5.len();
    assert(whole =~= e1 + e2 + e3 + e4 + e5);
    assert(whole.subrange(0, o1) =~= e1);
    lemma_subrange_sub(s, pos, 0, o1, whole);
    lemma_read_uvarint_enc(s, pos, 1);
    assert(whole[o1] == e2[0]);
    assert(s.subrange(pos, pos + whole.len() as int)[o1] == s[pos + o1]);
    assert(s[pos + o1] == e2[0]);
    assert(whole.subrange(o2, o3) =~= e3);
    lemma_subrange_sub(s, pos, o2, e3.len() as int, whole);
    lemma_read_uvarint_enc(s, pos + o2, 2);
    assert(whole.subrange(o3, o4) =~= e4);
    lemma_subrange_sub(s, pos, o3, e4.len() as int, whole);
    crate::binary::lemma_read_u32_enc(s, pos + o3, info.bucket_num as u32);
    assert(whole.subrange(o4, o5) =~= e5);
    lemma_subrange_sub(s, pos, o4, e5.len() as int, whole);
    lemma_read_uvarint_enc(s, pos + o4, 0);
    let bn = info.bucket_num;
    assert((bn as u32) as i32 == bn) by (bit_vector);
    if info.is_overflows {
        assert(e2[0] == 1u8);
    } else {
        assert(e2[0] == 0u8);
    }
}

// ---------------------------------------------------------------------------
// Column codec
// ---------------------------------------------------------------------------
/// Encoding of one column: its name, its type string, then its cells.
pub open spec fn spec_col_enc(c: ColumnM) -> Seq<u8> {
    spec_str_enc(c.name) + spec_str_enc(spec_type_name(c.data.typ())) + spec_data_enc(c.data)
}

/// Reader for one column with `nrows` rows.
pub open spec fn spec_read_col(s: Seq<u8>, pos: int, nrows: nat) -> ReadOutcome<ColumnM> {
    match spec_read_str(s, pos) {
        ReadOutcome::Val(name, n1) => match spec_read_str(s, pos + n1) {
            ReadOutcome::Val(tyname, n2) => match spec_parse_type(tyname) {
                Option::Some(t) => match spec_read_data(s, pos + n1 + n2, t, nrows) {
                    ReadOutcome::Val(d, n3) => ReadOutcome::Val(
                        ColumnM { name: name, data: d },
                        n1 + n2 + n3,
                    ),
                    o => o.pass(),
                },
                Option::None => ReadOutcome::Bad(DriverError::BadTypeName),
            },
            o => o.pass(),
        },
        o => o.pass(),
    }
}

/// Encoding of a sequence of columns, back to back.
pub open spec fn enc_cols(cols: Seq<ColumnM>) -> Seq<u8>
    decreases cols.len(),
{
    if cols.len() == 0 {
        Seq::<u8>::empty()
    } else {
        spec_col_enc(cols[0]) + enc_cols(cols.drop_first())
    }
}

/// Reader for `k` columns of `nrows` rows each.
pub open spec fn spec_read_cols(s: Seq<u8>, pos: int, k: nat, nrows: nat) -> ReadOutcome<
    Seq<ColumnM>,
>
    decreases k,
{
    if k == 0 {
        ReadOutcome::Val(Seq::<ColumnM>::empty(), 0)
    } else {
        match spec_read_col(s, pos, nrows) {
            ReadOutcome::Val(c, n) => match spec_read_cols(s, pos + n, (k - 1) as nat, nrows) {
                ReadOutcome::Val(rest, m) => ReadOutcome::Val(seq![c] + rest, n + m),
                o => o,
            },
            o => o.pass(),
        }
    }
}

/// Round trip for one column.
pub proof fn lemma_read_col_enc(s: Seq<u8>, pos: int, c: ColumnM, nrows: nat)
    requires
        0 <= pos,
        c.wf(),
        c.data.rows() == nrows,
        pos + spec_col_enc(c).len() <= s.len(),
        s.subrange(pos, pos + spec_col_enc(c).len() as int) == spec_col_enc(c),
    ensures
        spec_read_col(s, pos, nrows) == ReadOutcome::<ColumnM>::Val(
            c,
            spec_col_enc(c).len() as int,
        ),
{
    let whole = spec_col_enc(c);
    let e1 = spec_str_enc(c.name);
    let e2 = spec_str_enc(spec_type_name(c.data.typ()));
    let e3 = spec_data_enc(c.data);
    let o1 = e1.len() as int;
    let o2 = o1 + e2.len();
    let o3 = o2 + e3.len();
    assert(whole.subrange(0, o1) =~= e1);
    lemma_subrange_sub(s, pos, 0, o1, whole);
    lemma_read_str_enc(s, pos, c.name);
    assert(whole.subrange(o1, o2) =~= e2);
    lemma_subrange_sub(s, pos, o1, e2.len() as int, whole);
    lemma_read_str_enc(s, pos + o1, spec_type_name(c.data.typ()));
    lemma_parse_type_name(c.data.typ());
    assert(whole.subrange(o2, o3) =~= e3);
    lemma_subrange_sub(s, pos, o2, e3.len() as int, whole);
    lemma_read_data_enc(s, pos + o2, c.data);
}

/// Round trip for a sequence of columns.
pub proof fn lemma_read_cols_enc(s: Seq<u8>, pos: int, cols: Seq<ColumnM>, nrows: nat)
    requires
        0 <= pos,
        forall|i: int| 0 <= i < cols.len() ==> (#[trigger] cols[i]).wf(),
        forall|i: int| 0 <= i < cols.len() ==> (#[trigger] cols[i]).data.rows() == nrows,
        pos + enc_cols(cols).len() <= s.len(),
        s.subrange(pos, pos + enc_cols(cols).len() as int) == enc_cols(cols),
    ensures
        spec_read_cols(s, pos, cols.len(), nrows) == ReadOutcome::<Seq<ColumnM>>::Val(
            cols,
            enc_cols(cols).len() as int,
        ),
    decreases cols.len(),
{
    if cols.len() > 0 {
        let whole = enc_cols(cols);
        let e0 = spec_col_enc(cols[0]);
        let et = enc_cols(cols.drop_first());
        assert(whole.subrange(0, e0.len() as int) =~= e0);
        lemma_subrange_sub(s, pos, 0, e0.len() as int, whole);
        lemma_read_col_enc(s, pos, cols[0], nrows);
        assert(whole.subrange(e0.len() as int, whole.len() as int) =~= et);
        lemma_subrange_sub(s, pos, e0.len() as int, et.len() as int, whole);
        assert(forall|i: int|
            0 <= i < cols.drop_first().len() ==> (#[trigger] cols.drop_first()[i]).wf());
        assert(forall|i: int|
            0 <= i < cols.drop_first().len() ==> (#[trigger] cols.drop_first()[i]).data.rows()
                == nrows);
        lemma_read_cols_enc(s, pos + e0.len(), cols.drop_first(), nrows);
        assert(seq![cols[0]] + cols.drop_first() =~= cols);
    } else {
        assert(cols =~= Seq::<ColumnM>::empty());
    }
}

// ---------------------------------------------------------------------------
// Block codec
// ---------------------------------------------------------------------------
/// Encoding of a whole block.
pub open spec fn spec_block_enc(b: BlockM) -> Seq<u8> {
    spec_block_info_enc(b.info) + spec_uvarint(b.columns.len()) + spec_uvarint(b.rows()) + enc_cols(
        b.columns,
    )
}

/// Reader for a whole block.
#[verifier::opaque]
pub open spec fn spec_read_block(s: Seq<u8>, pos: int) -> ReadOutcome<BlockM> {
    match spec_read_block_info(s, pos) {
        ReadOutcome::Val(info, n1) => match spec_read_uvarint(s, pos + n1) {
            ReadOutcome::Val(ncols, n2) => match spec_read_uvarint(s, pos + n1 + n2) {
                ReadOutcome::Val(nrows, n3) => match spec_read_cols(
                    s,
                    pos + n1 + n2 + n3,
                    ncols as nat,
                    nrows as nat,
                ) {
                    ReadOutcome::Val(cols, n4) => ReadOutcome::Val(
                        BlockM { info: info, columns: cols },
                        n1 + n2 + n3 + n4,
                    ),
                    o => o.pass(),
                },
                o => o.pass(),
            },
            o => o.pass(),
        },
        o => o.pass(),
    }
}

/// Round trip: reading the encoding of a well-formed block yields exactly
/// that block.
pub proof fn lemma_read_block_enc(s: Seq<u8>, pos: int, b: BlockM)
    requires
        0 <= pos,
        b.wf(),
        pos + spec_block_enc(b).len() <= s.len(),
        s.subrange(pos, pos + spec_block_enc(b).len() as int) == spec_block_enc(b),
    ensures
        spec_read_block(s, pos) == ReadOutcome::<BlockM>::Val(b, spec_block_enc(b).len() as int),
{
    reveal(spec_read_block);
    let whole = spec_block_enc(b);
    let e1 = spec_block_info_enc(b.info);
    let e2 = spec_uvarint(b.columns.len());
    let e3 = spec_uvarint(b.rows());
    let e4 = enc_cols(b.columns);
    let o1 = e1.len() as int;
    let o2 = o1 + e2.len();
    let o3 = o2 + e3.len();
    let o4 = o3 + e4.len();
    assert(whole.subrange(0, o1) =~= e1);
    lemma_subrange_sub(s, pos, 0, o1, whole);
    lemma_read_block_info_enc(s, pos, b.info);
    assert(whole.subrange(o1, o2) =~= e2);
    lemma_subrange_sub(s, pos, o1, e2.len() as int, whole);
    lemma_read_uvarint_enc(s, pos + o1, b.columns.len() as u64);
    assert(whole.subrange(o2, o3) =~= e3);
    lemma_subrange_sub(s, pos, o2, e3.len() as int, whole);
    lemma_read_uvarint_enc(s, pos + o2, b.rows() as u64);
    assert(whole.subrange(o3, o4) =~= e4);
    lemma_subrange_sub(s, pos, o3, e4.len() as int, whole);
    lemma_read_cols_enc(s, pos + o3, b.columns, b.rows());
}

// ---------------------------------------------------------------------------
// Executable block codec
// ---------------------------------------------------------------------------
impl Column {
    /// Append this column in its wire layout.
    pub fn encode(&self, enc: &mut Encoder)
        ensures
            final (enc)@ == old(enc)@ + spec_col_enc(self@),
    {
        enc.string(&self.name);
        let tyname = self.data.data_type().wire_name();
        enc.string(&tyname);
        self.data.encode(enc);
        assert(enc@ =~= old(enc)@ + spec_col_enc(self@));
    }

    /// Decode one column with `nrows` rows starting at `pos`.
    pub fn decode(buf: &Vec<u8>, pos: usize, nrows: u64) -> (r: Result<(Column, usize), Error>)
        requires
            pos <= buf@.len(),
        ensures
            ({
                let sr = spec_read_col(buf@, pos as int, nrows as nat);
                match sr {
                    ReadOutcome::Val(c, n) => r matches Ok(p) && p.0@ == c && pos <= p.1 && p.1
                        == pos + n && p.1 <= buf@.len(),
                    ReadOutcome::Short => r matches Err(e) && e is WouldBlock,
                    ReadOutcome::Bad(d) => r matches Err(e) && e == Error::Driver(d),
                }
            }),
    {
        let (name, p1) = match read_string(buf, pos) {
            Ok(p) => p,
            Err(e) => {
                return Err(e);
            },
        };
        let (tyname, p2) = match read_string(buf, p1) {
            Ok(p) => p,
            Err(e) => {
                return Err(e);
            },
        };
        let t = match ColumnType::parse(&tyname, 0, tyname.len()) {
            Option::Some(t) => t,
            Option::None => {
                proof {
                    assert(tyname@.subrange(0, tyname@.len() as int) =~= tyname@);
                }
                return Err(Error::Driver(DriverError::BadTypeName));
            },
        };
        proof {
            assert(tyname@.subrange(0, tyname@.len() as int) =~= tyname@);
            crate::binary::lemma_read_str_progress(buf@, pos as int);
            crate::binary::lemma_read_str_progress(buf@, p1 as int);
        }
        match ColumnData::decode(buf, p2, &t, nrows) {
            Ok((d, np)) => Ok((Column { name, data: d }, np)),
            Err(e) => Err(e),
        }
    }
}

impl Block {
    /// A fresh block with no columns.
    pub fn new() -> (r: Block)
        ensures
            r@.columns.len() == 0,
            r@.info == (BlockInfo { is_overflows: false, bucket_num: -1i32 }),
            r@.wf(),
    {
        let b = Block { info: BlockInfo::fresh(), columns: Vec::new() };
        proof {
            assert(b@.columns =~= Seq::<ColumnM>::empty());
        }
        b
    }

    /// Rows carried by this block.
    pub fn rows(&self) -> (r: u64)
        ensures
            r == self@.rows(),
    {
        if self.columns.len() == 0 {
            0
        } else {
            proof {
                assert(self@.columns[0] == self.columns@[0]@);
            }
            self.columns[0].data.rows()
        }
    }

    /// Whether this block carries no rows.  An empty block on the wire is
    /// the terminator of an INSERT stream.
    pub fn is_empty(&self) -> (r: bool)
        ensures
            r == (self@.rows() == 0),
    {
        self.rows() == 0
    }

    /// Append a column to this block.  The first column fixes the block's
    /// row count; later ones must match it.
    pub fn column(self, name: Vec<u8>, data: ColumnData) -> (r: Block)
        requires
            self@.wf(),
            name@.len() <= u64::MAX,
            data_view(data).wf(),
            data_view(data).typ().wf(),
            spec_type_name(data_view(data).typ()).len() <= u64::MAX,
            self@.columns.len() < u64::MAX,
            self@.columns.len() > 0 ==> data_view(data).rows() == self@.rows(),
        ensures
            r@.wf(),
            r@.info == self@.info,
            r@.columns == self@.columns.push(ColumnM { name: name@, data: data_view(data) }),
            r@.rows() == data_view(data).rows(),
    {
        let mut b = self;
        let ghost oldcols = b.columns@.map_values(|c: Column| c@);
        proof {
            crate::column::lemma_wf_rows_bound(data_view(data));
        }
        b.columns.push(Column { name, data });
        proof {
            assert(b.columns@.map_values(|c: Column| c@) =~= oldcols.push(
                b.columns@[b.columns@.len() - 1]@,
            ));
        }
        b
    }

    /// Append this block in its wire layout (uncompressed).
    pub fn encode(&self, enc: &mut Encoder)
        requires
            self@.wf(),
        ensures
            final (enc)@ == old(enc)@ + spec_block_enc(self@),
    {
        enc.uvarint(1);
        enc.write_bool(self.info.is_overflows);
        enc.uvarint(2);
        enc.write_i32(self.info.bucket_num);
        enc.uvarint(0);
        assert(enc@ =~= old(enc)@ + spec_block_info_enc(self@.info));
        enc.uvarint(self.columns.len() as u64);
        let nrows = self.rows();
        enc.uvarint(nrows);
        let n = self.columns.len();
        let mut i: usize = 0;
        let ghost head = enc@;
        while i < n
            invariant
                i <= n,
                n == self.columns@.len(),
                enc@ == head + enc_cols(self@.columns.subrange(0, i as int)),
                self@.columns.len() == n,
            decreases n - i,
        {
            self.columns[i].encode(enc);
            proof {
                lemma_enc_cols_push(self@.columns.subrange(0, i as int), self@.columns[i as int]);
                assert(self@.columns[i as int] == self.columns@[i as int]@);
                assert(self@.columns.subrange(0, i as int).push(self@.columns[i as int])
                    =~= self@.columns.subrange(0, i + 1));
                assert(enc@ =~= head + enc_cols(self@.columns.subrange(0, i + 1)));
            }
            i = i + 1;
        }
        proof {
            assert(self@.columns.subrange(0, n as int) =~= self@.columns);
            assert(enc@ =~= old(enc)@ + spec_block_enc(self@));
        }
    }

    /// Decode one block starting at `pos`.
    #[verifier::spinoff_prover]
    #[verifier::rlimit(100)]
    pub fn decode(buf: &Vec<u8>, pos: usize) -> (r: Result<(Block, usize), Error>)
        requires
            pos <= buf@.len(),
        ensures
            ({
                let sr = spec_read_block(buf@, pos as int);
                match sr {
                    ReadOutcome::Val(b, n) => r matches Ok(p) && p.0@ == b && pos <= p.1 && p.1
                        == pos + n && p.1 <= buf@.len(),
                    ReadOutcome::Short => r matches Err(e) && e is WouldBlock,
                    ReadOutcome::Bad(d) => r matches Err(e) && e == Error::Driver(d),
                }
            }),
    {
        proof {
            reveal(spec_read_block);
        }
        let (f1, p1) = match read_uvarint(buf, pos) {
            Ok(p) => p,
            Err(e) => {
                return Err(e);
            },
        };
        if f1 != 1 {
            return Err(Error::Driver(DriverError::BadFrame));
        }
        let (ov, p2) = match read_u8(buf, p1) {
            Ok(p) => p,
            Err(e) => {
                return Err(e);
            },
        };
        let (f2, p3) = match read_uvarint(buf, p2) {
            Ok(p) => p,
            Err(e) => {
                return Err(e);
            },
        };
        if f2 != 2 {
            return Err(Error::Driver(DriverError::BadFrame));
        }
        let (bucket, p4) = match read_u32(buf, p3) {
            Ok(p) => p,
            Err(e) => {
                return Err(e);
            },
        };
        let (f0, p5) = match read_uvarint(buf, p4) {
            Ok(p) => p,
            Err(e) => {
                return Err(e);
            },
        };
        if f0 != 0 {
            return Err(Error::Driver(DriverError::BadFrame));
        }
        let info = BlockInfo { is_overflows: ov != 0, bucket_num: #[verifier::truncate] (bucket as i32) };
        let (ncols, p6) = match read_uvarint(buf, p5) {
            Ok(p) => p,
            Err(e) => {
                return Err(e);
            },
        };
        let (nrows, p7) = match read_uvarint(buf, p6) {
            Ok(p) => p,
            Err(e) => {
                return Err(e);
            },
        };
        let mut cols: Vec<Column> = Vec::new();
        let mut cur = p7;
        let mut i: u64 = 0;
        proof {
            crate::binary::lemma_read_uvarint_progress(buf@, pos as int);
            crate::binary::lemma_read_uvarint_progress(buf@, p2 as int);
            crate::binary::lemma_read_uvarint_progress(buf@, p4 as int);
            crate::binary::lemma_read_uvarint_progress(buf@, p5 as int);
            crate::binary::lemma_read_uvarint_progress(buf@, p6 as int);
            assert(spec_read_block(buf@, pos as int) == (match spec_read_cols(
                buf@,
                p7 as int,
                ncols as nat,
                nrows as nat,
            ) {
                ReadOutcome::Val(cs, m) => ReadOutcome::<BlockM>::Val(
                    BlockM { info: info, columns: cs },
                    (p7 - pos) + m,
                ),
                o => o.pass(),
            }));
        }
        while i < ncols
            invariant
                i <= ncols,
                pos <= p7 <= cur <= buf@.len(),
                cols@.len() == i as nat,
                spec_read_block(buf@, pos as int) == (match spec_read_cols(
                    buf@,
                    cur as int,
                    (ncols - i) as nat,
                    nrows as nat,
                ) {
                    ReadOutcome::Val(rest, m) => ReadOutcome::<BlockM>::Val(
                        BlockM {
                            info: info,
                            columns: cols@.map_values(|c: Column| c@) + rest,
                        },
                        (cur - pos) + m,
                    ),
                    o => o.pass(),
                }),
            decreases ncols - i,
        {
            let (c, np) = match Column::decode(buf, cur, nrows) {
                Ok(p) => p,
                Err(e) => {
                    return Err(e);
                },
            };
            proof {
                let m0 = cols@.map_values(|c2: Column| c2@);
                let tail = spec_read_cols(buf@, np as int, (ncols - i - 1) as nat, nrows as nat);
                match tail {
                    ReadOutcome::Val(rest, m) => {
                        assert(m0 + (seq![c@] + rest) =~= (m0 + seq![c@]) + rest);
                    },
                    _ => {},
                }
                assert(cols@.push(c).map_values(|c2: Column| c2@) =~= m0 + seq![c@]);
            }
            cols.push(c);
            cur = np;
            i = i + 1;
        }
        proof {
            assert(cols@.map_values(|c: Column| c@) + Seq::<ColumnM>::empty() =~= cols@.map_values(
                |c: Column| c@,
            ));
        }
        Ok((Block { info, columns: cols }, cur))
    }
}

/// Appending one column appends its encoding.
pub proof fn lemma_enc_cols_push(cols: Seq<ColumnM>, c: ColumnM)
    ensures
        enc_cols(cols.push(c)) == enc_cols(cols) + spec_col_enc(c),
    decreases cols.len(),
{
    if cols.len() == 0 {
        assert(cols.push(c)[0] == c);
        assert(cols.push(c).drop_first() =~= cols);
        assert(enc_cols(cols.push(c)) =~= enc_cols(cols) + spec_col_enc(c));
    } else {
        assert(cols.push(c).drop_first() =~= cols.drop_first().push(c));
        lemma_enc_cols_push(cols.drop_first(), c);
        assert(cols.push(c)[0] == cols[0]);
        assert(enc_cols(cols.push(c)) =~= enc_cols(cols) + spec_col_enc(c));
    }
}

proof fn lemma_read_cols_rows(s: Seq<u8>, pos: int, k: nat, nrows: nat)
    ensures
        spec_read_cols(s, pos, k, nrows) matches ReadOutcome::Val(cols, n) ==> forall|i: int|
            0 <= i < cols.len() ==> (#[trigger] cols[i]).data.rows() == nrows,
    decreases k,
{
    if k > 0 {
        match spec_read_col(s, pos, nrows) {
            ReadOutcome::Val(c, n) => {
                match spec_read_str(s, pos) {
                    ReadOutcome::Val(name, n1) => {
                        match spec_read_str(s, pos + n1) {
                            ReadOutcome::Val(tyname, n2) => {
                                match spec_parse_type(tyname) {
                                    Option::Some(t) => {
                                        crate::column::lemma_read_data_rows(
                                            s,
                                            pos + n1 + n2,
                                            t,
                                            nrows,
                                        );
                                    },
                                    Option::None => {},
                                }
                            },
                            _ => {},
                        }
                    },
                    _ => {},
                }
                lemma_read_cols_rows(s, pos + n, (k - 1) as nat, nrows);
            },
            _ => {},
        }
    }
}

/// The declared row count of a decoded block holds for every column: each
/// decoded column carries exactly the row count the block header declares.
pub proof fn lemma_read_block_rows(s: Seq<u8>, pos: int)
    ensures
        spec_read_block(s, pos) matches ReadOutcome::Val(b, n) ==> forall|i: int|
            0 <= i < b.columns.len() ==> (#[trigger] b.columns[i]).data.rows() == b.rows(),
{
    reveal(spec_read_block);
    match spec_read_block_info(s, pos) {
        ReadOutcome::Val(info, n1) => {
            match spec_read_uvarint(s, pos + n1) {
                ReadOutcome::Val(ncols, n2) => {
                    match spec_read_uvarint(s, pos + n1 + n2) {
                        ReadOutcome::Val(nrows, n3) => {
                            lemma_read_cols_rows(
                                s,
                                pos + n1 + n2 + n3,
                                ncols as nat,
                                nrows as nat,
                            );
                        },
                        _ => {},
                    }
                },
                _ => {},
            }
        },
        _ => {},
    }
}

} // verus!
