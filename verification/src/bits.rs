//! Bit-level model of MSB-first bitstreams and the trusted bridge to the
//! `bitvec_helpers` reader and writer.
use vstd::prelude::*;

use bitvec_helpers::bitstream_io_reader::BsIoSliceReader;
use bitvec_helpers::bitstream_io_writer::BitstreamIoWriter;
use bitvec_helpers::bitvec_writer::BitVecWriter;

verus! {

/// `2^n`.
pub open spec fn pow2(n: nat) -> nat
    decreases n,
{
    if n == 0 {
        1
    } else {
        2 * pow2((n - 1) as nat)
    }
}

/// The `n` low bits of `v`, most significant first.
pub open spec fn bits_of(v: nat, n: nat) -> Seq<bool>
    decreases n,
{
    if n == 0 {
        seq![]
    } else {
        bits_of(v / 2, (n - 1) as nat).push(v % 2 == 1)
    }
}

/// The unsigned value of a bit sequence read most significant bit first.
pub open spec fn bits_value(s: Seq<bool>) -> nat
    decreases s.len(),
{
    if s.len() == 0 {
        0
    } else {
        2 * bits_value(s.drop_last()) + (if s.last() { 1nat } else { 0nat })
    }
}

/// The bits of a byte sequence, each byte most significant bit first.
pub open spec fn bytes_to_bits(data: Seq<u8>) -> Seq<bool>
    decreases data.len(),
{
    if data.len() == 0 {
        seq![]
    } else {
        bits_of(data[0] as nat, 8) + bytes_to_bits(data.drop_first())
    }
}

/// The bytes packed from a bit sequence, eight bits per byte.
pub open spec fn bits_to_bytes(bits: Seq<bool>) -> Seq<u8>
    decreases bits.len(),
{
    if bits.len() < 8 {
        seq![]
    } else {
        seq![bits_value(bits.take(8)) as u8] + bits_to_bytes(bits.skip(8))
    }
}

/// `n` zero bits.
pub open spec fn zero_bits(n: nat) -> Seq<bool> {
    Seq::new(n, |i: int| false)
}

/// The number of zero bits that bring a stream of `len` bits to a byte boundary.
pub open spec fn align_pad(len: nat) -> nat {
    ((8 - (len % 8)) % 8) as nat
}

pub proof fn lemma_pow2_pos(n: nat)
    ensures
        pow2(n) >= 1,
    decreases n,
{
    if n > 0 {
        lemma_pow2_pos((n - 1) as nat);
    }
}

pub proof fn lemma_bits_of_len(v: nat, n: nat)
    ensures
        bits_of(v, n).len() == n,
    decreases n,
{
    if n > 0 {
        lemma_bits_of_len(v / 2, (n - 1) as nat);
    }
}

/// Reading back the bits of a value that fits gives the value.
pub proof fn lemma_bits_value_of(v: nat, n: nat)
    requires
        v < pow2(n),
    ensures
        bits_value(bits_of(v, n)) == v,
    decreases n,
{
    if n > 0 {
        let s = bits_of(v, n);
        assert(s.drop_last() =~= bits_of(v / 2, (n - 1) as nat));
        lemma_bits_value_of(v / 2, (n - 1) as nat);
    }
}

/// Every value read from `n` bits is below `2^n`.
pub proof fn lemma_bits_value_bound(s: Seq<bool>)
    ensures
        bits_value(s) < pow2(s.len()),
    decreases s.len(),
{
    if s.len() > 0 {
        lemma_bits_value_bound(s.drop_last());
    }
}

/// Writing the value of a bit sequence gives back the sequence.
pub proof fn lemma_bits_of_value(s: Seq<bool>)
    ensures
        bits_of(bits_value(s), s.len()) == s,
    decreases s.len(),
{
    if s.len() > 0 {
        lemma_bits_of_value(s.drop_last());
        let v = bits_value(s);
        assert(v / 2 == bits_value(s.drop_last()));
        assert(bits_of(v, s.len()) =~= s);
    }
}

pub proof fn lemma_bytes_to_bits_len(data: Seq<u8>)
    ensures
        bytes_to_bits(data).len() == 8 * data.len(),
    decreases data.len(),
{
    if data.len() > 0 {
        lemma_bytes_to_bits_len(data.drop_first());
        lemma_bits_of_len(data[0] as nat, 8);
    }
}


/// Skipping whole bytes skips eight bits per byte.
pub proof fn lemma_bytes_to_bits_skip(data: Seq<u8>, b: int)
    requires
        0 <= b <= data.len(),
    ensures
        bytes_to_bits(data.skip(b)) == bytes_to_bits(data).skip(8 * b),
    decreases b,
{
    lemma_bytes_to_bits_len(data);
    if b > 0 {
        let rest = data.drop_first();
        lemma_bytes_to_bits_skip(rest, b - 1);
        assert(data.skip(b) =~= rest.skip(b - 1));
        lemma_bits_of_len(data[0] as nat, 8);
        assert(bytes_to_bits(data).skip(8 * b) =~= bytes_to_bits(rest).skip(8 * (b - 1)));
    } else {
        assert(data.skip(0) =~= data);
        assert(bytes_to_bits(data).skip(0) =~= bytes_to_bits(data));
    }
}

/// The powers of two that the bitstream syntax uses.
pub proof fn lemma_pow2_values()
    ensures
        pow2(1) == 2,
        pow2(2) == 4,
        pow2(3) == 8,
        pow2(4) == 16,
        pow2(5) == 32,
        pow2(6) == 64,
        pow2(7) == 128,
        pow2(8) == 256,
        pow2(10) == 1024,
        pow2(12) == 4096,
        pow2(16) == 65536,
        pow2(17) == 131072,
        pow2(27) == 134217728,
        pow2(32) == 4294967296,
{
    reveal_with_fuel(pow2, 33);
}

/// A bit sequence padded with zero bits to a whole number of bytes.
pub open spec fn padded(b: Seq<bool>) -> Seq<bool> {
    b + zero_bits(align_pad(b.len()))
}

/// Padding fills a whole number of bytes.
pub proof fn lemma_padded_len(b: Seq<bool>)
    ensures
        padded(b).len() % 8 == 0,
        padded(b).len() == b.len() + align_pad(b.len()),
        padded(b).len() >= b.len(),
        padded(b).subrange(0, b.len() as int) == b,
{
    let l = b.len();
    assert((l + align_pad(l)) % 8 == 0) by (nonlinear_arith)
        requires
            align_pad(l) == ((8 - (l % 8)) % 8) as nat,
    ;
    assert(padded(b).subrange(0, b.len() as int) =~= b);
}

/// Unpacking packed bytes gives back whole-byte bit sequences.
pub proof fn lemma_bits_bytes_roundtrip(bits: Seq<bool>)
    requires
        bits.len() % 8 == 0,
    ensures
        bytes_to_bits(bits_to_bytes(bits)) == bits,
    decreases bits.len(),
{
    if bits.len() >= 8 {
        let t = bits.take(8);
        let rest = bits.skip(8);
        lemma_bits_bytes_roundtrip(rest);
        lemma_bits_value_bound(t);
        lemma_pow2_values();
        lemma_bits_of_value(t);
        let bytes = bits_to_bytes(bits);
        assert(bytes[0] == bits_value(t) as u8);
        assert(bytes.drop_first() =~= bits_to_bytes(rest));
        assert(bits =~= t + rest);
    } else {
        assert(bits.len() == 0);
        assert(bits =~= Seq::<bool>::empty());
    }
}

/// Failure of a bitstream read or write.
#[derive(Debug, Clone, Copy, PartialEq, Eq)]
pub enum BitstreamError {
    /// Fewer bits remain than a read asked for.
    UnexpectedEnd,
    /// A value does not fit in the number of bits it is written with.
    ValueTooLarge,
}

/// Calls `BsIoSliceReader::skip_n(skip)` and then `BsIoSliceReader::read_var::<u64>(n)` on a
/// reader over `data`. Claimed: the call succeeds exactly when `skip + n` bits are
/// available, and the value is that of the bits `skip .. skip + n` of `data`, each byte read
/// most significant bit first.
#[verifier::external_body]
fn read_var_at(data: &[u8], skip: u32, n: u32) -> (r: Result<u64, BitstreamError>)
    requires
        skip < 8,
        1 <= n <= 32,
    ensures
        r is Ok <==> skip + n <= 8 * data@.len(),
        r matches Ok(v) ==> v == bits_value(
            bytes_to_bits(data@).subrange(skip as int, skip + n),
        ),
{
    let mut reader = BsIoSliceReader::from_slice(data);
    reader.skip_n(skip).map_err(|_| BitstreamError::UnexpectedEnd)?;
    reader.read_var::<u64>(n).map_err(|_| BitstreamError::UnexpectedEnd)
}

/// A reading position in a byte slice, counted in bits from its start.
pub struct BitReader<'a> {
    data: &'a [u8],
    byte: usize,
    bit: u32,
}

impl<'a> BitReader<'a> {
    /// The bits of the underlying data.
    pub closed spec fn bits(&self) -> Seq<bool> {
        bytes_to_bits(self.data@)
    }

    /// The position of the next bit to read.
    pub closed spec fn pos(&self) -> nat {
        (8 * self.byte + self.bit) as nat
    }

    pub closed spec fn wf(&self) -> bool {
        &&& self.bit < 8
        &&& self.byte <= self.data@.len()
        &&& self.byte == self.data@.len() ==> self.bit == 0
    }

    pub proof fn lemma_wf(&self)
        requires
            self.wf(),
        ensures
            self.pos() <= self.bits().len(),
    {
        lemma_bytes_to_bits_len(self.data@);
    }

    pub fn new(data: &'a [u8]) -> (r: Self)
        ensures
            r.wf(),
            r.bits() == bytes_to_bits(data@),
            r.pos() == 0,
    {
        BitReader { data, byte: 0, bit: 0 }
    }

    /// Reads `n` bits as an unsigned value, most significant bit first.
    pub fn read(&mut self, n: u32) -> (r: Result<u64, BitstreamError>)
        requires
            old(self).wf(),
            1 <= n <= 32,
        ensures
            final(self).wf(),
            final(self).bits() == old(self).bits(),
            r is Ok <==> old(self).pos() + n <= old(self).bits().len(),
            r matches Ok(v) ==> {
                &&& v == bits_value(old(self).bits().subrange(old(self).pos() as int, old(self).pos() + n))
                &&& final(self).pos() == old(self).pos() + n
            },
    {
        let tail = vstd::slice::slice_subrange(self.data, self.byte, self.data.len());
        proof {
            lemma_bytes_to_bits_len(self.data@);
            lemma_bytes_to_bits_len(tail@);
            assert(tail@ =~= self.data@.skip(self.byte as int));
            lemma_bytes_to_bits_skip(self.data@, self.byte as int);
        }
        let r = read_var_at(tail, self.bit, n);
        match r {
            Ok(v) => {
                let consumed = self.bit + n;
                self.byte = self.byte + (consumed / 8) as usize;
                self.bit = consumed % 8;
                assert(bytes_to_bits(tail@).subrange(old(self).bit as int, old(self).bit + n)
                    =~= self.bits().subrange(old(self).pos() as int, old(self).pos() + n));
                Ok(v)
            },
            Err(e) => Err(e),
        }
    }

    /// Reads one bit.
    pub fn read_flag(&mut self) -> (r: Result<bool, BitstreamError>)
        requires
            old(self).wf(),
        ensures
            final(self).wf(),
            final(self).bits() == old(self).bits(),
            r is Ok <==> old(self).pos() + 1 <= old(self).bits().len(),
            r matches Ok(b) ==> {
                &&& b == old(self).bits()[old(self).pos() as int]
                &&& final(self).pos() == old(self).pos() + 1
            },
    {
        let r = self.read(1);
        match r {
            Ok(v) => {
                proof {
                    let s = old(self).bits().subrange(old(self).pos() as int, old(self).pos() + 1int);
                    assert(s.drop_last().len() == 0);
                    assert(bits_value(s.drop_last()) == 0);
                    assert(s.last() == old(self).bits()[old(self).pos() as int]);
                    assert(v == (if s.last() { 1nat } else { 0nat }));
                }
                Ok(v != 0)
            },
            Err(e) => Err(e),
        }
    }
}

/// `bitvec_helpers`' MSB-first bit writer over a growing byte vector.
#[verifier::external_type_specification]
#[verifier::external_body]
pub struct ExBitstreamIoWriter(BitstreamIoWriter);

/// The bits written so far to a `BitstreamIoWriter`, complete bytes and the pending
/// partial byte alike.
pub uninterp spec fn written_bits(w: BitstreamIoWriter) -> Seq<bool>;

/// Calls `BitstreamIoWriter::with_capacity`. Claimed: the new writer holds no bits.
#[verifier::external_body]
pub(crate) fn new_writer(capacity: usize) -> (w: BitstreamIoWriter)
    ensures
        written_bits(w) == Seq::<bool>::empty(),
{
    BitstreamIoWriter::with_capacity(capacity)
}

/// Calls `BitstreamIoWriter::write_var::<u64>(n, value)`. Claimed, as the `bitstream-io`
/// source shows: the value is checked before anything is written; the call fails exactly
/// when `value` does not fit in `n` bits, and then writes nothing; otherwise it appends the
/// `n` low bits of `value`, most significant first (a `Vec<u8>` sink never fails).
#[verifier::external_body]
pub(crate) fn write_bits(w: &mut BitstreamIoWriter, n: u32, value: u64) -> (r: Result<(), BitstreamError>)
    requires
        1 <= n <= 32,
    ensures
        r is Ok <==> value < pow2(n as nat),
        r is Ok ==> written_bits(*final(w)) == written_bits(*old(w)) + bits_of(value as nat, n as nat),
        r is Err ==> written_bits(*final(w)) == written_bits(*old(w)),
{
    w.write_var::<u64>(n, value).map_err(|_| BitstreamError::ValueTooLarge)
}

/// Calls `BitstreamIoWriter::write_bit`. Claimed: it appends `bit` and does not fail on a
/// `Vec<u8>` sink.
#[verifier::external_body]
pub(crate) fn write_flag(w: &mut BitstreamIoWriter, bit: bool) -> (r: Result<(), BitstreamError>)
    ensures
        r is Ok,
        written_bits(*final(w)) == written_bits(*old(w)).push(bit),
{
    w.write_bit(bit).map_err(|_| BitstreamError::ValueTooLarge)
}

/// Calls `BitstreamIoWriter::byte_align`. Claimed: it appends zero bits up to the next byte
/// boundary and does not fail on a `Vec<u8>` sink.
#[verifier::external_body]
pub(crate) fn byte_align(w: &mut BitstreamIoWriter) -> (r: Result<(), BitstreamError>)
    ensures
        r is Ok,
        written_bits(*final(w)) == written_bits(*old(w)) + zero_bits(
            align_pad(written_bits(*old(w)).len()),
        ),
{
    w.byte_align().map_err(|_| BitstreamError::ValueTooLarge)
}

/// Calls `BitstreamIoWriter::into_inner`. Claimed: the bytes are the complete bytes written,
/// eight bits each; a pending partial byte is dropped.
#[verifier::external_body]
pub(crate) fn into_bytes(w: BitstreamIoWriter) -> (r: Vec<u8>)
    ensures
        r@ == bits_to_bytes(written_bits(w)),
{
    w.into_inner()
}

/// `bitvec_helpers`' bit writer over a `BitVec`, which cuts each value to the bits it is
/// written with.
#[verifier::external_type_specification]
#[verifier::external_body]
pub struct ExBitVecWriter(BitVecWriter);

/// The bits written so far to a `BitVecWriter`.
pub uninterp spec fn bitvec_written(w: BitVecWriter) -> Seq<bool>;

/// Calls `BitVecWriter::new`. Claimed: the new writer holds no bits.
#[verifier::external_body]
pub(crate) fn bitvec_writer() -> (w: BitVecWriter)
    ensures
        bitvec_written(w) == Seq::<bool>::empty(),
{
    BitVecWriter::new()
}

/// Calls `BitVecWriter::write`. Claimed: it appends `bit`.
#[verifier::external_body]
pub(crate) fn bitvec_write(w: &mut BitVecWriter, bit: bool)
    ensures
        bitvec_written(*final(w)) == bitvec_written(*old(w)).push(bit),
{
    w.write(bit)
}

/// Calls `BitVecWriter::write_n::<u64>(&value, n)`. Claimed, as its source shows: it
/// appends the `n` low bits of `value`, most significant first, whatever the higher bits.
#[verifier::external_body]
pub(crate) fn bitvec_write_n(w: &mut BitVecWriter, value: u64, n: usize)
    requires
        1 <= n <= 64,
    ensures
        bitvec_written(*final(w)) == bitvec_written(*old(w)) + bits_of(value as nat, n as nat),
{
    w.write_n(&value, n)
}

/// Calls `BitVecWriter::as_slice` and copies the slice. Claimed, as the `bitvec` source
/// shows: the bytes hold the bits written, eight per byte, the last byte filled with zero
/// bits.
#[verifier::external_body]
pub(crate) fn bitvec_bytes(w: &BitVecWriter) -> (r: Vec<u8>)
    ensures
        r@ == bits_to_bytes(padded(bitvec_written(*w))),
{
    w.as_slice().to_vec()
}

} // verus!
