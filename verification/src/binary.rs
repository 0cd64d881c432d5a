//! Codec primitives of the wire format: unsigned LEB128 varints,
//! little-endian fixed-width scalars, and length-prefixed strings.
//!
//! Every value has a specification-level encoding (a function from the value
//! to the byte sequence it puts on the wire) and a specification-level reader
//! (a function from a byte sequence and a position to a [`ReadOutcome`]).
//! The executable `Encoder` and `read_*` functions are proved to agree with
//! those, and each primitive carries a round-trip lemma: reading an encoding
//! back yields the original value and consumes exactly its bytes.
use vstd::arithmetic::div_mod::lemma_fundamental_div_mod;
use vstd::bytes::*;
use vstd::prelude::*;
use vstd::slice::slice_subrange;

use crate::errors::DriverError;
use crate::errors::Error;

verus! {

/// The outcome of reading one value out of a byte sequence at a position:
/// either too few bytes are present (`Short`, the retryable case), the bytes
/// are structurally invalid (`Bad`), or a value was read and `n` bytes of the
/// input belong to it (`Val`).
pub enum ReadOutcome<T> {
    Short,
    Bad(DriverError),
    Val(T, int),
}

impl<T> ReadOutcome<T> {
    /// Carry a `Short` or `Bad` outcome over to a reader of another value
    /// type; meant for the two non-value cases only.
    pub open spec fn pass<U>(self) -> ReadOutcome<U>
        recommends
            !(self is Val),
    {
        match self {
            ReadOutcome::Bad(d) => ReadOutcome::Bad(d),
            _ => ReadOutcome::Short,
        }
    }
}

// ---------------------------------------------------------------------------
// Unsigned LEB128 varints
// ---------------------------------------------------------------------------
/// Wire encoding of an unsigned LEB128 varint: seven value bits per byte,
/// least-significant group first, high bit set on every byte but the last.
pub open spec fn spec_uvarint(v: nat) -> Seq<u8>
    decreases v,
{
    if v < 128 {
        seq![v as u8]
    } else {
        seq![(v % 128 + 128) as u8] + spec_uvarint(v / 128)
    }
}

/// Reader for the raw varint digit groups, bounded by `fuel` bytes.
pub open spec fn spec_read_uvarint_rec(s: Seq<u8>, pos: int, fuel: nat) -> ReadOutcome<nat>
    decreases fuel,
{
    if fuel == 0 {
        ReadOutcome::Bad(DriverError::Overflow)
    } else if pos < 0 || pos >= s.len() {
        ReadOutcome::Short
    } else if s[pos] < 128 {
        ReadOutcome::Val(s[pos] as nat, 1)
    } else {
        match spec_read_uvarint_rec(s, pos + 1, (fuel - 1) as nat) {
            ReadOutcome::Val(v, n) => ReadOutcome::Val((s[pos] - 128) as nat + 128 * v, n + 1),
            o => o,
        }
    }
}

/// Reader for a varint that must fit in a `u64`: at most ten bytes, and the
/// accumulated value must be in range.
pub open spec fn spec_read_uvarint(s: Seq<u8>, pos: int) -> ReadOutcome<u64> {
    match spec_read_uvarint_rec(s, pos, 10) {
        ReadOutcome::Val(v, n) => if v <= u64::MAX {
            ReadOutcome::Val(v as u64, n)
        } else {
            ReadOutcome::Bad(DriverError::Overflow)
        },
        ReadOutcome::Short => ReadOutcome::Short,
        ReadOutcome::Bad(d) => ReadOutcome::Bad(d),
    }
}

/// 128 raised to `k`; used to bound varint widths.
pub open spec fn pow128(k: nat) -> nat
    decreases k,
{
    if k == 0 {
        1
    } else {
        128 * pow128((k - 1) as nat)
    }
}

/// A value below `pow128(k)` encodes in at most `k` bytes.
pub proof fn lemma_uvarint_len_bound(v: nat, k: nat)
    requires
        1 <= k,
        v < pow128(k),
    ensures
        1 <= spec_uvarint(v).len() <= k,
    decreases k,
{
    if v < 128 {
    } else {
        assert(pow128(k) == 128 * pow128((k - 1) as nat));
        assert(v / 128 < pow128((k - 1) as nat)) by (nonlinear_arith)
            requires
                v < 128 * pow128((k - 1) as nat),
        ;
        assert(k >= 2) by {
            if k == 1 {
                assert(pow128(1nat) == 128 * pow128(0nat));
                assert(pow128(0nat) == 1);
            }
        }
        lemma_uvarint_len_bound(v / 128, (k - 1) as nat);
    }
}

/// Every `u64` varint encoding is between one and ten bytes long.
pub proof fn lemma_uvarint_len(v: nat)
    requires
        v <= u64::MAX,
    ensures
        1 <= spec_uvarint(v).len() <= 10,
{
    reveal_with_fuel(pow128, 11);
    assert(pow128(10) == 0x400000000000000000nat);
    lemma_uvarint_len_bound(v, 10);
}

proof fn lemma_read_uvarint_rec_enc(s: Seq<u8>, pos: int, v: nat, fuel: nat)
    requires
        0 <= pos,
        pos + spec_uvarint(v).len() <= s.len(),
        s.subrange(pos, pos + spec_uvarint(v).len() as int) == spec_uvarint(v),
        spec_uvarint(v).len() <= fuel,
    ensures
        spec_read_uvarint_rec(s, pos, fuel) == ReadOutcome::<nat>::Val(
            v,
            spec_uvarint(v).len() as int,
        ),
    decreases v,
{
    let e = spec_uvarint(v);
    if v < 128 {
        assert(s[pos] == e[0]);
    } else {
        let tail = spec_uvarint(v / 128);
        assert(e == seq![(v % 128 + 128) as u8] + tail);
        assert(s[pos] == e[0]);
        assert(e[0] == (v % 128 + 128) as u8);
        assert(v % 128 + 128 < 256);
        assert(s[pos] >= 128);
        assert(s.subrange(pos + 1, pos + 1 + tail.len() as int) =~= tail) by {
            assert(forall|i: int|
                0 <= i < tail.len() ==> #[trigger] s.subrange(pos + 1, pos + 1 + tail.len() as int)[i]
                    == e[i + 1]);
        }
        lemma_read_uvarint_rec_enc(s, pos + 1, v / 128, (fuel - 1) as nat);
        lemma_fundamental_div_mod(v as int, 128);
        assert((s[pos] - 128) as nat + 128 * (v / 128) == v);
    }
}

/// Round trip: reading at a position whose bytes hold `spec_uvarint(v)`
/// yields `v` and consumes exactly those bytes.
pub proof fn lemma_read_uvarint_enc(s: Seq<u8>, pos: int, v: u64)
    requires
        0 <= pos,
        pos + spec_uvarint(v as nat).len() <= s.len(),
        s.subrange(pos, pos + spec_uvarint(v as nat).len() as int) == spec_uvarint(v as nat),
    ensures
        spec_read_uvarint(s, pos) == ReadOutcome::<u64>::Val(
            v,
            spec_uvarint(v as nat).len() as int,
        ),
{
    lemma_uvarint_len(v as nat);
    lemma_read_uvarint_rec_enc(s, pos, v as nat, 10);
}

// ---------------------------------------------------------------------------
// Length-prefixed strings (raw bytes after a varint length)
// ---------------------------------------------------------------------------
/// Wire encoding of a length-prefixed string.
pub open spec fn spec_str_enc(b: Seq<u8>) -> Seq<u8> {
    spec_uvarint(b.len()) + b
}

/// Reader for a length-prefixed string.
pub open spec fn spec_read_str(s: Seq<u8>, pos: int) -> ReadOutcome<Seq<u8>> {
    match spec_read_uvarint(s, pos) {
        ReadOutcome::Val(len, n) => if pos + n + len <= s.len() {
            ReadOutcome::Val(s.subrange(pos + n, pos + n + len), n + len)
        } else {
            ReadOutcome::Short
        },
        ReadOutcome::Short => ReadOutcome::Short,
        ReadOutcome::Bad(d) => ReadOutcome::Bad(d),
    }
}

proof fn lemma_read_uvarint_rec_progress(s: Seq<u8>, pos: int, fuel: nat)
    ensures
        spec_read_uvarint_rec(s, pos, fuel) matches ReadOutcome::Val(v, n) ==> 1 <= n && 0 <= pos
            && pos + n <= s.len(),
    decreases fuel,
{
    if fuel > 0 && 0 <= pos && pos < s.len() && s[pos] >= 128 {
        lemma_read_uvarint_rec_progress(s, pos + 1, (fuel - 1) as nat);
    }
}

/// A read varint occupies at least one byte and lies inside the buffer.
pub proof fn lemma_read_uvarint_progress(s: Seq<u8>, pos: int)
    ensures
        spec_read_uvarint(s, pos) matches ReadOutcome::Val(v, n) ==> 1 <= n && 0 <= pos && pos + n
            <= s.len(),
{
    lemma_read_uvarint_rec_progress(s, pos, 10);
}

/// A read string occupies at least one byte (its length prefix) and lies
/// inside the buffer; its content is strictly shorter than its encoding.
pub proof fn lemma_read_str_progress(s: Seq<u8>, pos: int)
    ensures
        spec_read_str(s, pos) matches ReadOutcome::Val(b, n) ==> 1 + b.len() <= n && 0 <= pos && pos
            + n <= s.len(),
{
    lemma_read_uvarint_progress(s, pos);
}

/// Restriction of a matching subrange: when the bytes at `pos` hold `whole`,
/// any window into `whole` is found at the corresponding offset in `s`.
/// This is the glue for reading several encoded fields laid out back to back.
pub proof fn lemma_subrange_sub(s: Seq<u8>, pos: int, off: int, n: int, whole: Seq<u8>)
    requires
        0 <= pos,
        0 <= off,
        0 <= n,
        off + n <= whole.len(),
        pos + whole.len() <= s.len(),
        s.subrange(pos, pos + whole.len() as int) == whole,
    ensures
        s.subrange(pos + off, pos + off + n) == whole.subrange(off, off + n),
{
    assert(s.subrange(pos + off, pos + off + n) =~= whole.subrange(off, off + n)) by {
        assert(forall|i: int|
            0 <= i < n ==> #[trigger] s.subrange(pos + off, pos + off + n)[i] == s.subrange(
                pos,
                pos + whole.len() as int,
            )[off + i]);
    }
}

/// Round trip for length-prefixed strings.
pub proof fn lemma_read_str_enc(s: Seq<u8>, pos: int, b: Seq<u8>)
    requires
        0 <= pos,
        b.len() <= u64::MAX,
        pos + spec_str_enc(b).len() <= s.len(),
        s.subrange(pos, pos + spec_str_enc(b).len() as int) == spec_str_enc(b),
    ensures
        spec_read_str(s, pos) == ReadOutcome::<Seq<u8>>::Val(b, spec_str_enc(b).len() as int),
{
    let lv = spec_uvarint(b.len());
    let e = spec_str_enc(b);
    assert(s.subrange(pos, pos + lv.len() as int) =~= lv) by {
        assert(forall|i: int|
            0 <= i < lv.len() ==> #[trigger] s.subrange(pos, pos + lv.len() as int)[i] == e[i]);
    }
    lemma_read_uvarint_enc(s, pos, b.len() as u64);
    assert(s.subrange(pos + lv.len(), pos + lv.len() + b.len()) =~= b) by {
        assert(forall|i: int|
            0 <= i < b.len() ==> #[trigger] s.subrange(pos + lv.len(), pos + lv.len() + b.len())[i]
                == e[i + lv.len()]);
    }
}

// ---------------------------------------------------------------------------
// Little-endian fixed-width scalars
// ---------------------------------------------------------------------------
/// Reader for a little-endian `u16`.
pub open spec fn spec_read_u16(s: Seq<u8>, pos: int) -> ReadOutcome<u16> {
    if 0 <= pos && pos + 2 <= s.len() {
        ReadOutcome::Val(spec_u16_from_le_bytes(s.subrange(pos, pos + 2)), 2)
    } else {
        ReadOutcome::Short
    }
}

/// Reader for a little-endian `u32`.
pub open spec fn spec_read_u32(s: Seq<u8>, pos: int) -> ReadOutcome<u32> {
    if 0 <= pos && pos + 4 <= s.len() {
        ReadOutcome::Val(spec_u32_from_le_bytes(s.subrange(pos, pos + 4)), 4)
    } else {
        ReadOutcome::Short
    }
}

/// Reader for a little-endian `u64`.
pub open spec fn spec_read_u64(s: Seq<u8>, pos: int) -> ReadOutcome<u64> {
    if 0 <= pos && pos + 8 <= s.len() {
        ReadOutcome::Val(spec_u64_from_le_bytes(s.subrange(pos, pos + 8)), 8)
    } else {
        ReadOutcome::Short
    }
}

/// Reader for a little-endian `u128`.
pub open spec fn spec_read_u128(s: Seq<u8>, pos: int) -> ReadOutcome<u128> {
    if 0 <= pos && pos + 16 <= s.len() {
        ReadOutcome::Val(spec_u128_from_le_bytes(s.subrange(pos, pos + 16)), 16)
    } else {
        ReadOutcome::Short
    }
}

/// Reader for one byte.
pub open spec fn spec_read_u8(s: Seq<u8>, pos: int) -> ReadOutcome<u8> {
    if 0 <= pos && pos + 1 <= s.len() {
        ReadOutcome::Val(s[pos], 1)
    } else {
        ReadOutcome::Short
    }
}

/// Round trip for little-endian `u16`.
pub proof fn lemma_read_u16_enc(s: Seq<u8>, pos: int, v: u16)
    requires
        0 <= pos,
        pos + 2 <= s.len(),
        s.subrange(pos, pos + 2) == spec_u16_to_le_bytes(v),
    ensures
        spec_read_u16(s, pos) == ReadOutcome::<u16>::Val(v, 2),
{
    lemma_auto_spec_u16_to_from_le_bytes();
    assert(spec_u16_to_le_bytes(v).len() == 2);
    assert(spec_u16_from_le_bytes(spec_u16_to_le_bytes(v)) == v);
}

/// Round trip for little-endian `u32`.
pub proof fn lemma_read_u32_enc(s: Seq<u8>, pos: int, v: u32)
    requires
        0 <= pos,
        pos + 4 <= s.len(),
        s.subrange(pos, pos + 4) == spec_u32_to_le_bytes(v),
    ensures
        spec_read_u32(s, pos) == ReadOutcome::<u32>::Val(v, 4),
{
    lemma_auto_spec_u32_to_from_le_bytes();
    assert(spec_u32_to_le_bytes(v).len() == 4);
    assert(spec_u32_from_le_bytes(spec_u32_to_le_bytes(v)) == v);
}

/// Round trip for little-endian `u64`.
pub proof fn lemma_read_u64_enc(s: Seq<u8>, pos: int, v: u64)
    requires
        0 <= pos,
        pos + 8 <= s.len(),
        s.subrange(pos, pos + 8) == spec_u64_to_le_bytes(v),
    ensures
        spec_read_u64(s, pos) == ReadOutcome::<u64>::Val(v, 8),
{
    lemma_auto_spec_u64_to_from_le_bytes();
}

/// Round trip for little-endian `u128`.
pub proof fn lemma_read_u128_enc(s: Seq<u8>, pos: int, v: u128)
    requires
        0 <= pos,
        pos + 16 <= s.len(),
        s.subrange(pos, pos + 16) == spec_u128_to_le_bytes(v),
    ensures
        spec_read_u128(s, pos) == ReadOutcome::<u128>::Val(v, 16),
{
    lemma_auto_spec_u128_to_from_le_bytes();
    assert(spec_u128_to_le_bytes(v).len() == 16);
    assert(spec_u128_from_le_bytes(spec_u128_to_le_bytes(v)) == v);
}

// ---------------------------------------------------------------------------
// Encoder
// ---------------------------------------------------------------------------
/// An output buffer for server frames.  Its view is the byte sequence
/// written so far; every writer appends exactly the specification encoding
/// of its argument.
pub struct Encoder {
    buffer: Vec<u8>,
}

impl View for Encoder {
    type V = Seq<u8>;

    closed spec fn view(&self) -> Seq<u8> {
        self.buffer@
    }
}

impl Encoder {
    /// A fresh, empty encoder.
    pub fn new() -> (e: Encoder)
        ensures
            e@ == Seq::<u8>::empty(),
    {
        Encoder { buffer: Vec::new() }
    }

    /// Number of bytes written so far.
    pub fn len(&self) -> (n: usize)
        ensures
            n == self@.len(),
    {
        self.buffer.len()
    }

    /// Hand out the accumulated bytes.
    pub fn get_buffer(self) -> (r: Vec<u8>)
        ensures
            r@ == self@,
    {
        self.buffer
    }

    /// Append raw bytes unchanged.
    pub fn raw(&mut self, b: &Vec<u8>)
        ensures
            final (self)@ == old(self)@ + b@,
    {
        let n = b.len();
        let mut i: usize = 0;
        while i < n
            invariant
                i <= n,
                n == b@.len(),
                self.buffer@ == old(self).buffer@ + b@.subrange(0, i as int),
            decreases n - i,
        {
            self.buffer.push(b[i]);
            i = i + 1;
            assert(self.buffer@ =~= old(self).buffer@ + b@.subrange(0, i as int));
        }
        assert(b@.subrange(0, n as int) =~= b@);
    }

    /// Append one byte.
    pub fn write_u8(&mut self, v: u8)
        ensures
            final (self)@ == old(self)@ + seq![v],
    {
        self.buffer.push(v);
    }

    /// Append one signed byte (two's complement).
    pub fn write_i8(&mut self, v: i8)
        ensures
            final (self)@ == old(self)@ + seq![v as u8],
    {
        self.buffer.push(v as u8);
    }

    /// Append a boolean as a single `0`/`1` byte.
    pub fn write_bool(&mut self, v: bool)
        ensures
            final (self)@ == old(self)@ + seq![(if v { 1u8 } else { 0u8 })],
    {
        self.buffer.push(if v { 1u8 } else { 0u8 });
    }

    /// Append a little-endian `u16`.
    pub fn write_u16(&mut self, v: u16)
        ensures
            final (self)@ == old(self)@ + spec_u16_to_le_bytes(v),
    {
        let bytes = u16_to_le_bytes(v);
        self.raw(&bytes);
    }

    /// Append a little-endian `u32`.
    pub fn write_u32(&mut self, v: u32)
        ensures
            final (self)@ == old(self)@ + spec_u32_to_le_bytes(v),
    {
        let bytes = u32_to_le_bytes(v);
        self.raw(&bytes);
    }

    /// Append a little-endian `u64`.
    pub fn write_u64(&mut self, v: u64)
        ensures
            final (self)@ == old(self)@ + spec_u64_to_le_bytes(v),
    {
        let bytes = u64_to_le_bytes(v);
        self.raw(&bytes);
    }

    /// Append a little-endian `u128`.
    pub fn write_u128(&mut self, v: u128)
        ensures
            final (self)@ == old(self)@ + spec_u128_to_le_bytes(v),
    {
        let bytes = u128_to_le_bytes(v);
        self.raw(&bytes);
    }

    /// Append a little-endian `i16` (two's complement).
    pub fn write_i16(&mut self, v: i16)
        ensures
            final (self)@ == old(self)@ + spec_u16_to_le_bytes(v as u16),
    {
        self.write_u16(v as u16);
    }

    /// Append a little-endian `i32` (two's complement).
    pub fn write_i32(&mut self, v: i32)
        ensures
            final (self)@ == old(self)@ + spec_u32_to_le_bytes(v as u32),
    {
        self.write_u32(v as u32);
    }

    /// Append a little-endian `i64` (two's complement).
    pub fn write_i64(&mut self, v: i64)
        ensures
            final (self)@ == old(self)@ + spec_u64_to_le_bytes(v as u64),
    {
        self.write_u64(v as u64);
    }

    /// Append an unsigned LEB128 varint.
    pub fn uvarint(&mut self, v: u64)
        ensures
            final (self)@ == old(self)@ + spec_uvarint(v as nat),
    {
        let ghost orig = self.buffer@;
        let mut cur: u64 = v;
        while cur >= 128
            invariant
                self.buffer@ + spec_uvarint(cur as nat) == orig + spec_uvarint(v as nat),
            decreases cur,
        {
            let b: u8 = (cur % 128) as u8 + 128;
            assert(spec_uvarint(cur as nat) == seq![b] + spec_uvarint((cur as nat) / 128));
            self.buffer.push(b);
            assert(self.buffer@ + spec_uvarint((cur as nat) / 128) =~= orig + spec_uvarint(
                v as nat,
            ));
            cur = cur / 128;
        }
        assert(spec_uvarint(cur as nat) == seq![cur as u8]);
        self.buffer.push(cur as u8);
        assert(self.buffer@ =~= orig + spec_uvarint(v as nat));
    }

    /// Append a length-prefixed string.
    pub fn string(&mut self, b: &Vec<u8>)
        ensures
            final (self)@ == old(self)@ + spec_str_enc(b@),
    {
        self.uvarint(b.len() as u64);
        self.raw(b);
        assert(final (self)@ =~= old(self)@ + spec_str_enc(b@));
    }
}

// ---------------------------------------------------------------------------
// Readers over a buffer
// ---------------------------------------------------------------------------
fn read_uvarint_rec(buf: &Vec<u8>, pos: usize, fuel: u8) -> (r: Result<(u64, usize), Error>)
    requires
        pos <= buf@.len(),
    ensures
        ({
            let sr = spec_read_uvarint_rec(buf@, pos as int, fuel as nat);
            match sr {
                ReadOutcome::Val(v, n) => if v <= u64::MAX {
                    r matches Ok(p) && p.0 == v && pos < p.1 && p.1 == pos + n && p.1 <= buf@.len()
                } else {
                    r matches Err(e) && e == Error::Driver(DriverError::Overflow)
                },
                ReadOutcome::Short => r matches Err(e) && e is WouldBlock,
                ReadOutcome::Bad(d) => r matches Err(e) && e == Error::Driver(d),
            }
        }),
    decreases fuel,
{
    if fuel == 0 {
        return Err(Error::Driver(DriverError::Overflow));
    }
    if pos >= buf.len() {
        return Err(Error::WouldBlock);
    }
    let b = buf[pos];
    if b < 128 {
        return Ok((b as u64, pos + 1));
    }
    match read_uvarint_rec(buf, pos + 1, fuel - 1) {
        Ok((v, np)) => {
            let low = (b - 128) as u64;
            if v <= (u64::MAX - low) / 128 {
                assert(128 * v <= u64::MAX - low) by (nonlinear_arith)
                    requires
                        v <= (u64::MAX - low) / 128,
                        low <= 127,
                ;
                Ok((low + 128 * v, np))
            } else {
                assert(low + 128 * v > u64::MAX) by (nonlinear_arith)
                    requires
                        v > (u64::MAX - low) / 128,
                        low <= 127,
                ;
                Err(Error::Driver(DriverError::Overflow))
            }
        },
        Err(e) => Err(e),
    }
}

/// Read an unsigned LEB128 varint.  On success the returned position is the
/// first byte after the value.
pub fn read_uvarint(buf: &Vec<u8>, pos: usize) -> (r: Result<(u64, usize), Error>)
    requires
        pos <= buf@.len(),
    ensures
        ({
            let sr = spec_read_uvarint(buf@, pos as int);
            match sr {
                ReadOutcome::Val(v, n) => r matches Ok(p) && p.0 == v && pos < p.1 && p.1 == pos
                    + n && p.1 <= buf@.len(),
                ReadOutcome::Short => r matches Err(e) && e is WouldBlock,
                ReadOutcome::Bad(d) => r matches Err(e) && e == Error::Driver(d),
            }
        }),
{
    read_uvarint_rec(buf, pos, 10)
}

/// Read a length-prefixed string into an owned byte vector.
pub fn read_string(buf: &Vec<u8>, pos: usize) -> (r: Result<(Vec<u8>, usize), Error>)
    requires
        pos <= buf@.len(),
    ensures
        ({
            let sr = spec_read_str(buf@, pos as int);
            match sr {
                ReadOutcome::Val(v, n) => r matches Ok(p) && p.0@ == v && pos < p.1 && p.1 == pos
                    + n && p.1 <= buf@.len(),
                ReadOutcome::Short => r matches Err(e) && e is WouldBlock,
                ReadOutcome::Bad(d) => r matches Err(e) && e == Error::Driver(d),
            }
        }),
{
    let (len, cur) = match read_uvarint(buf, pos) {
        Ok(p) => p,
        Err(e) => {
            return Err(e);
        },
    };
    let remaining = buf.len() - cur;
    if len > remaining as u64 {
        return Err(Error::WouldBlock);
    }
    let n = len as usize;
    let blen = buf.len();
    let mut out: Vec<u8> = Vec::new();
    let mut i: usize = 0;
    while i < n
        invariant
            i <= n,
            cur + n <= blen,
            blen == buf@.len(),
            out@ == buf@.subrange(cur as int, cur as int + i as int),
        decreases n - i,
    {
        out.push(buf[cur + i]);
        i = i + 1;
        assert(out@ =~= buf@.subrange(cur as int, cur as int + i as int));
    }
    Ok((out, cur + n))
}

/// Read one byte.
pub fn read_u8(buf: &Vec<u8>, pos: usize) -> (r: Result<(u8, usize), Error>)
    requires
        pos <= buf@.len(),
    ensures
        ({
            let sr = spec_read_u8(buf@, pos as int);
            match sr {
                ReadOutcome::Val(v, n) => r matches Ok(p) && p.0 == v && p.1 == pos + n && p.1
                    <= buf@.len(),
                ReadOutcome::Short => r matches Err(e) && e is WouldBlock,
                ReadOutcome::Bad(d) => r matches Err(e) && e == Error::Driver(d),
            }
        }),
{
    if pos >= buf.len() {
        return Err(Error::WouldBlock);
    }
    Ok((buf[pos], pos + 1))
}

/// Read a little-endian `u16`.
pub fn read_u16(buf: &Vec<u8>, pos: usize) -> (r: Result<(u16, usize), Error>)
    requires
        pos <= buf@.len(),
    ensures
        ({
            let sr = spec_read_u16(buf@, pos as int);
            match sr {
                ReadOutcome::Val(v, n) => r matches Ok(p) && p.0 == v && p.1 == pos + n && p.1
                    <= buf@.len(),
                ReadOutcome::Short => r matches Err(e) && e is WouldBlock,
                ReadOutcome::Bad(d) => r matches Err(e) && e == Error::Driver(d),
            }
        }),
{
    if buf.len() < 2 || pos > buf.len() - 2 {
        return Err(Error::WouldBlock);
    }
    let sl = slice_subrange(buf.as_slice(), pos, pos + 2);
    Ok((u16_from_le_bytes(sl), pos + 2))
}

/// Read a little-endian `u32`.
pub fn read_u32(buf: &Vec<u8>, pos: usize) -> (r: Result<(u32, usize), Error>)
    requires
        pos <= buf@.len(),
    ensures
        ({
            let sr = spec_read_u32(buf@, pos as int);
            match sr {
                ReadOutcome::Val(v, n) => r matches Ok(p) && p.0 == v && p.1 == pos + n && p.1
                    <= buf@.len(),
                ReadOutcome::Short => r matches Err(e) && e is WouldBlock,
                ReadOutcome::Bad(d) => r matches Err(e) && e == Error::Driver(d),
            }
        }),
{
    if buf.len() < 4 || pos > buf.len() - 4 {
        return Err(Error::WouldBlock);
    }
    let sl = slice_subrange(buf.as_slice(), pos, pos + 4);
    Ok((u32_from_le_bytes(sl), pos + 4))
}

/// Read a little-endian `u64`.
pub fn read_u64(buf: &Vec<u8>, pos: usize) -> (r: Result<(u64, usize), Error>)
    requires
        pos <= buf@.len(),
    ensures
        ({
            let sr = spec_read_u64(buf@, pos as int);
            match sr {
                ReadOutcome::Val(v, n) => r matches Ok(p) && p.0 == v && p.1 == pos + n && p.1
                    <= buf@.len(),
                ReadOutcome::Short => r matches Err(e) && e is WouldBlock,
                ReadOutcome::Bad(d) => r matches Err(e) && e == Error::Driver(d),
            }
        }),
{
    if buf.len() < 8 || pos > buf.len() - 8 {
        return Err(Error::WouldBlock);
    }
    let sl = slice_subrange(buf.as_slice(), pos, pos + 8);
    Ok((u64_from_le_bytes(sl), pos + 8))
}

/// Read a little-endian `u128`.
pub fn read_u128(buf: &Vec<u8>, pos: usize) -> (r: Result<(u128, usize), Error>)
    requires
        pos <= buf@.len(),
    ensures
        ({
            let sr = spec_read_u128(buf@, pos as int);
            match sr {
                ReadOutcome::Val(v, n) => r matches Ok(p) && p.0 == v && p.1 == pos + n && p.1
                    <= buf@.len(),
                ReadOutcome::Short => r matches Err(e) && e is WouldBlock,
                ReadOutcome::Bad(d) => r matches Err(e) && e == Error::Driver(d),
            }
        }),
{
    if buf.len() < 16 || pos > buf.len() - 16 {
        return Err(Error::WouldBlock);
    }
    let sl = slice_subrange(buf.as_slice(), pos, pos + 16);
    Ok((u128_from_le_bytes(sl), pos + 16))
}

} // verus!
