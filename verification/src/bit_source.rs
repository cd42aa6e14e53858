use vstd::prelude::*;
use crate::bitmatrix_parser::bits_value;
use crate::error::Error;
use crate::format_information::pow2_nat;

verus! {

/// Bit `i` (0 the most significant) of byte `b`.
pub open spec fn byte_bit(b: u8, i: int) -> bool {
    ((b >> ((7 - i) as u8)) & 1u8) == 1u8
}

/// The bits of a byte sequence, first byte first, each byte from its most
/// significant bit down.
pub open spec fn source_bits(bytes: Seq<u8>) -> Seq<bool> {
    Seq::new(8 * bytes.len(), |p: int| byte_bit(bytes[p / 8], p % 8))
}

/// The lowest `n` bits of `value`, most significant first.
pub open spec fn value_bits(value: u32, n: nat) -> Seq<bool> {
    Seq::new(n, |i: int| ((value >> ((n - 1 - i) as u32)) & 1u32) == 1u32)
}

proof fn lemma_bits_value_push(bits: Seq<bool>, b: bool)
    ensures
        bits_value(bits.push(b)) == 2 * bits_value(bits) + if b {
            1nat
        } else {
            0nat
        },
{
    assert(bits.push(b).drop_last() =~= bits);
}

proof fn lemma_bits_value_fits(bits: Seq<bool>)
    requires
        bits.len() <= 32,
    ensures
        bits_value(bits) < 0x1_0000_0000,
{
    crate::bitmatrix_parser::lemma_bits_value_bound(bits);
    lemma_pow2_le_32(bits.len());
}

proof fn lemma_pow2_le_32(n: nat)
    requires
        n <= 32,
    ensures
        pow2_nat(n) <= 0x1_0000_0000,
    decreases 32 - n,
{
    if n < 32 {
        lemma_pow2_le_32(n + 1);
    } else {
        reveal_with_fuel(pow2_nat, 33);
    }
}

/// Reads bits from a byte slice, first byte first and, within a byte, most
/// significant bit first.
pub struct BitSource<'a> {
    bytes: &'a [u8],
    byte_offset: usize,
    bit_offset: usize,
}

impl<'a> BitSource<'a> {
    #[verifier::type_invariant]
    spec fn inv(&self) -> bool {
        &&& self.bit_offset < 8
        &&& 8 * self.byte_offset + self.bit_offset <= 8 * self.bytes@.len()
        &&& 8 * self.bytes@.len() <= usize::MAX
    }

    /// The bytes being read.
    pub closed spec fn spec_bytes(&self) -> Seq<u8> {
        self.bytes@
    }

    /// Index of the next bit to be read among all bits of the bytes.
    pub closed spec fn spec_position(&self) -> nat {
        (8 * self.byte_offset + self.bit_offset) as nat
    }

    /// A source at the first bit of `bytes`.
    pub fn new(bytes: &'a [u8]) -> (res: Self)
        requires
            8 * bytes@.len() <= usize::MAX,
        ensures
            res.spec_bytes() == bytes@,
            res.spec_position() == 0,
    {
        BitSource { bytes, byte_offset: 0, bit_offset: 0 }
    }

    /// Index of the next bit within its byte.
    pub fn get_bit_offset(&self) -> (res: usize)
        ensures
            res == self.spec_position() % 8,
    {
        proof {
            use_type_invariant(self);
        }
        self.bit_offset
    }

    /// Index of the byte that holds the next bit.
    pub fn get_byte_offset(&self) -> (res: usize)
        ensures
            res == self.spec_position() / 8,
            res <= self.spec_bytes().len(),
    {
        proof {
            use_type_invariant(self);
        }
        self.byte_offset
    }

    /// Number of bits left to read.
    pub fn available(&self) -> (res: usize)
        ensures
            res == 8 * self.spec_bytes().len() - self.spec_position(),
            self.spec_position() <= 8 * self.spec_bytes().len(),
    {
        proof {
            use_type_invariant(self);
        }
        8 * (self.bytes.len() - self.byte_offset) - self.bit_offset
    }

    fn bits_at(&self, num_bits: usize) -> (res: u32)
        requires
            1 <= num_bits <= 32,
            self.spec_position() + num_bits <= 8 * self.spec_bytes().len(),
        ensures
            res == bits_value(
                source_bits(self.spec_bytes()).subrange(
                    self.spec_position() as int,
                    self.spec_position() + num_bits,
                ),
            ),
    {
        proof {
            use_type_invariant(self);
        }
        let ghost all = source_bits(self.bytes@);
        let ghost start = self.spec_position() as int;
        let start_bit: usize = 8 * self.byte_offset + self.bit_offset;
        let mut result: u32 = 0;
        let mut i: usize = 0;
        while i < num_bits
            invariant
                i <= num_bits <= 32,
                start == start_bit,
                start + num_bits <= all.len(),
                all == source_bits(self.bytes@),
                self.bytes@.len() * 8 == all.len(),
                all.len() <= usize::MAX,
                result == bits_value(all.subrange(start, start + i)),
            decreases num_bits - i,
        {
            let p: usize = start_bit + i;
            let byte = self.bytes[p / 8];
            let shift: u8 = (7 - p % 8) as u8;
            let bit = ((byte >> shift) & 1) == 1;
            proof {
                assert(bit == all[p as int]);
                assert(all.subrange(start, start + i + 1) =~= all.subrange(start, start + i).push(bit));
                lemma_bits_value_push(all.subrange(start, start + i), bit);
                lemma_bits_value_fits(all.subrange(start, start + i + 1));
            }
            result = result * 2 + if bit {
                1
            } else {
                0
            };
            i = i + 1;
        }
        result
    }

    /// Reads the next `num_bits` bits as a number, first bit most
    /// significant. Between 1 and 32 bits can be read, and no more than are
    /// left; otherwise the read is an invalid argument and nothing is
    /// consumed.
    pub fn read_bits(&mut self, num_bits: usize) -> (res: Result<u32, Error>)
        ensures
            final(self).spec_bytes() == old(self).spec_bytes(),
            (1 <= num_bits <= 32 && old(self).spec_position() + num_bits <= 8 * old(self).spec_bytes().len())
                ==> res == Ok::<u32, Error>(
                bits_value(
                    source_bits(old(self).spec_bytes()).subrange(
                        old(self).spec_position() as int,
                        old(self).spec_position() + num_bits,
                    ),
                ) as u32,
            ) && final(self).spec_position() == old(self).spec_position() + num_bits,
            !(1 <= num_bits <= 32 && old(self).spec_position() + num_bits <= 8 * old(self).spec_bytes().len())
                ==> res == Err::<u32, Error>(Error::InvalidArgument) && final(self).spec_position()
                == old(self).spec_position(),
    {
        proof {
            use_type_invariant(&*self);
        }
        if num_bits < 1 || num_bits > 32 || num_bits > self.available() {
            return Err(Error::InvalidArgument);
        }
        let result = self.bits_at(num_bits);
        let next: usize = 8 * self.byte_offset + self.bit_offset + num_bits;
        *self = BitSource { bytes: self.bytes, byte_offset: next / 8, bit_offset: next % 8 };
        Ok(result)
    }

    /// Reads whole bytes into `buf`: as many as `buf` holds and the source
    /// has left, returning how many; the rest of `buf` stays as it is.
    pub fn read(&mut self, buf: &mut [u8]) -> (res: Result<usize, Error>)
        ensures
            final(self).spec_bytes() == old(self).spec_bytes(),
            final(buf)@.len() == old(buf)@.len(),
            res matches Ok(n) && {
                let avail = (8 * old(self).spec_bytes().len() - old(self).spec_position()) / 8;
                let src = source_bits(old(self).spec_bytes());
                let pos = old(self).spec_position() as int;
                &&& n == (if old(buf)@.len() <= avail { old(buf)@.len() as int } else { avail })
                &&& final(self).spec_position() == pos + 8 * n
                &&& forall|i: int|
                    0 <= i < n ==> #[trigger] final(buf)@[i] == bits_value(src.subrange(pos + 8 * i, pos + 8 * i + 8))
                        as u8
                &&& forall|i: int| n <= i < old(buf)@.len() ==> #[trigger] final(buf)@[i] == old(buf)@[i]
            },
    {
        let requested_bytes = buf.len();
        let available_bytes = self.available() / 8;
        let to_read = if requested_bytes <= available_bytes {
            requested_bytes
        } else {
            available_bytes
        };
        let ghost src = source_bits(self.spec_bytes());
        let ghost pos = self.spec_position() as int;
        let ghost start_buf = buf@;
        let mut i: usize = 0;
        while i < to_read
            invariant
                i <= to_read,
                to_read <= buf@.len(),
                buf@.len() == start_buf.len(),
                to_read <= (8 * self.spec_bytes().len() - pos) / 8,
                self.spec_bytes() == old(self).spec_bytes(),
                src == source_bits(self.spec_bytes()),
                pos == old(self).spec_position(),
                self.spec_position() == pos + 8 * i,
                forall|k: int| 0 <= k < i ==> #[trigger] buf@[k] == bits_value(src.subrange(pos + 8 * k, pos + 8 * k + 8))
                    as u8,
                forall|k: int| i <= k < buf@.len() ==> #[trigger] buf@[k] == start_buf[k],
            decreases to_read - i,
        {
            let bits = self.read_bits(8);
            match bits {
                Ok(v) => {
                    proof {
                        lemma_bits_value_fits_8(src.subrange(pos + 8 * i, pos + 8 * i + 8));
                    }
                    buf[i] = v as u8;
                },
                Err(e) => {
                    return Err(e);
                },
            }
            i = i + 1;
        }
        Ok(to_read)
    }

    /// Reads the next `num_bits` bits as [`Self::read_bits`] does, without
    /// consuming them.
    pub fn peek_bits(&self, num_bits: usize) -> (res: Result<u32, Error>)
        ensures
            (1 <= num_bits <= 32 && self.spec_position() + num_bits <= 8 * self.spec_bytes().len())
                ==> res == Ok::<u32, Error>(
                bits_value(
                    source_bits(self.spec_bytes()).subrange(
                        self.spec_position() as int,
                        self.spec_position() + num_bits,
                    ),
                ) as u32,
            ),
            !(1 <= num_bits <= 32 && self.spec_position() + num_bits <= 8 * self.spec_bytes().len())
                ==> res == Err::<u32, Error>(Error::InvalidArgument),
    {
        proof {
            use_type_invariant(self);
        }
        if num_bits < 1 || num_bits > 32 || num_bits > self.available() {
            return Err(Error::InvalidArgument);
        }
        Ok(self.bits_at(num_bits))
    }
}

proof fn lemma_value_bits_push(v: u32, k: nat, b: u32)
    requires
        k < 32,
        v < pow2_nat(k),
        b <= 1,
    ensures
        value_bits((v * 2 + b) as u32, k + 1) == value_bits(v, k).push(b == 1),
        (v * 2 + b) < pow2_nat(k + 1),
{
    lemma_pow2_le_32(k + 1);
    assert(pow2_nat(k + 1) == 2 * pow2_nat(k));
    assert(v * 2 + b < 0x1_0000_0000);
    let w: u32 = (v * 2 + b) as u32;
    let kk: u32 = k as u32;
    assert forall|i: int| 0 <= i < k implies #[trigger] value_bits(w, k + 1)[i] == value_bits(v, k)[i] by {
        let ii: u32 = i as u32;
        assert(((w >> ((kk - ii) as u32)) & 1u32) == ((v >> ((kk - 1 - ii) as u32)) & 1u32)) by (bit_vector)
            requires
                w == v * 2 + b,
                b <= 1,
                ii < kk,
                kk < 32,
        ;
    }
    assert(((w >> 0u32) & 1u32) == b) by (bit_vector)
        requires
            w == v * 2 + b,
            b <= 1,
    ;
    assert(value_bits(w, k + 1) =~= value_bits(v, k).push(b == 1));
}

pub(crate) proof fn lemma_byte_bits(v: u32)
    requires
        v < 256,
    ensures
        source_bits(seq![v as u8]) == value_bits(v, 8),
{
    assert forall|i: int| 0 <= i < 8 implies #[trigger] source_bits(seq![v as u8])[i] == value_bits(v, 8)[i] by {
        let ii: u32 = i as u32;
        assert((((v as u8) >> ((7 - ii) as u8)) & 1u8 == 1u8) == (((v >> ((8 - 1 - ii) as u32)) & 1u32)
            == 1u32)) by (bit_vector)
            requires
                v < 256,
                ii < 8,
        ;
        assert(i / 8 == 0 && i % 8 == i);
    }
    assert(source_bits(seq![v as u8]) =~= value_bits(v, 8));
}

proof fn lemma_source_bits_push(bytes: Seq<u8>, b: u8)
    ensures
        source_bits(bytes.push(b)) == source_bits(bytes) + source_bits(seq![b]),
{
    let n = bytes.len();
    assert forall|p: int| 0 <= p < 8 * (n + 1) implies #[trigger] source_bits(bytes.push(b))[p] == (
    source_bits(bytes) + source_bits(seq![b]))[p] by {
        if p >= 8 * n {
            assert((p - 8 * n) / 8 == 0);
            assert(p / 8 == n);
            assert((p - 8 * n) % 8 == p % 8);
        } else {
            assert(p / 8 < n);
        }
    }
    assert(source_bits(bytes.push(b)) =~= source_bits(bytes) + source_bits(seq![b]));
}

/// The value of the lowest `n` bits of `v`, read most significant first,
/// is `v` itself when `v` fits in `n` bits.
pub proof fn lemma_value_bits_value(v: u32, n: nat)
    requires
        n <= 32,
        v < pow2_nat(n),
    ensures
        bits_value(value_bits(v, n)) == v,
    decreases n,
{
    if n == 0 {
        assert(v == 0);
    } else {
        let h: u32 = v / 2;
        let b: u32 = v % 2;
        assert(h < pow2_nat((n - 1) as nat));
        lemma_value_bits_value(h, (n - 1) as nat);
        lemma_value_bits_push(h, (n - 1) as nat, b);
        assert(v == h * 2 + b);
        assert(value_bits(v, n).drop_last() == value_bits(h, (n - 1) as nat));
    }
}

/// Writes bits into bytes, most significant bit of each byte first.
pub struct BitSourceBuilder {
    output: Vec<u8>,
    next_byte: u32,
    bits_left_in_next_byte: u32,
}

impl BitSourceBuilder {
    #[verifier::type_invariant]
    spec fn inv(&self) -> bool {
        &&& 1 <= self.bits_left_in_next_byte <= 8
        &&& self.next_byte < pow2_nat((8 - self.bits_left_in_next_byte) as nat)
    }

    /// All bits written so far.
    pub closed spec fn written(&self) -> Seq<bool> {
        source_bits(self.output@) + value_bits(self.next_byte, (8 - self.bits_left_in_next_byte) as nat)
    }

    /// A builder with nothing written.
    pub fn new() -> (res: Self)
        ensures
            res.written() == Seq::<bool>::empty(),
    {
        let res = BitSourceBuilder { output: Vec::new(), next_byte: 0, bits_left_in_next_byte: 8 };
        assert(res.written() =~= Seq::<bool>::empty());
        res
    }

    fn push_bit(&mut self, bit: u32)
        requires
            bit <= 1,
        ensures
            final(self).written() == old(self).written().push(bit == 1),
    {
        proof {
            use_type_invariant(&*self);
            reveal_with_fuel(pow2_nat, 9);
        }
        let ghost before = self.written();
        let k: u32 = 8 - self.bits_left_in_next_byte;
        proof {
            lemma_value_bits_push(self.next_byte, k as nat, bit);
        }
        let next: u32 = self.next_byte * 2 + bit;
        if self.bits_left_in_next_byte == 1 {
            let ghost old_output = self.output@;
            let mut output: Vec<u8> = Vec::new();
            std::mem::swap(&mut output, &mut self.output);
            proof {
                lemma_byte_bits(next);
                lemma_source_bits_push(output@, next as u8);
            }
            output.push(next as u8);
            *self = BitSourceBuilder { output, next_byte: 0, bits_left_in_next_byte: 8 };
            proof {
                assert(value_bits(0, 0) =~= Seq::<bool>::empty());
                assert(self.written() =~= before.push(bit == 1));
            }
        } else {
            let left = self.bits_left_in_next_byte - 1;
            let mut output: Vec<u8> = Vec::new();
            std::mem::swap(&mut output, &mut self.output);
            *self = BitSourceBuilder { output, next_byte: next, bits_left_in_next_byte: left };
            proof {
                assert(self.written() =~= before.push(bit == 1));
            }
        }
    }

    /// Appends the lowest `num_bits` bits of `value`, most significant first;
    /// `value` must fit in those bits.
    pub fn write(&mut self, value: u32, num_bits: u32)
        requires
            num_bits <= 32,
            value < pow2_nat(num_bits as nat),
        ensures
            final(self).written() == old(self).written() + value_bits(value, num_bits as nat),
    {
        let ghost start = self.written();
        let mut i: u32 = num_bits;
        while i > 0
            invariant
                i <= num_bits <= 32,
                self.written() == start + value_bits(value, num_bits as nat).take(num_bits - i),
            decreases i,
        {
            i = i - 1;
            let bit: u32 = (value >> i) & 1;
            proof {
                assert(bit <= 1) by (bit_vector)
                    requires
                        bit == (value >> i) & 1u32,
                ;
                assert(value_bits(value, num_bits as nat)[num_bits - 1 - i] == (bit == 1));
            }
            self.push_bit(bit);
            proof {
                assert(value_bits(value, num_bits as nat).take(num_bits - i) =~= value_bits(
                    value,
                    num_bits as nat,
                ).take(num_bits - i - 1).push(bit == 1));
            }
        }
        proof {
            assert(value_bits(value, num_bits as nat).take(num_bits as int) =~= value_bits(value, num_bits as nat));
        }
    }

    #[verifier::spinoff_prover]
    #[verifier::rlimit(40)]
    fn pad(&mut self)
        ensures
            final(self).written() == old(self).written() + Seq::new(
                (if old(self).written().len() % 8 == 0 { 0 } else { 8 - old(self).written().len() % 8 }) as nat,
                |i: int| false,
            ),
            final(self).written().len() % 8 == 0,
            final(self).written() == source_bits(final(self).output@),
    {
        proof {
            use_type_invariant(&*self);
            reveal_with_fuel(pow2_nat, 9);
        }
        let ghost start = self.written();
        assert(start.len() % 8 == 8 - self.bits_left_in_next_byte || self.bits_left_in_next_byte == 8);
        if self.bits_left_in_next_byte < 8 {
            let n = self.bits_left_in_next_byte;
            proof {
                assert(0 < pow2_nat(n as nat));
                assert forall|i: int| 0 <= i < n implies #[trigger] value_bits(0, n as nat)[i] == false by {
                    let s: u32 = (n - 1 - i) as u32;
                    assert(((0u32 >> s) & 1u32) == 0u32) by (bit_vector);
                }
                assert(value_bits(0, n as nat) =~= Seq::new(n as nat, |i: int| false));
            }
            self.write(0, n);
        } else {
            assert(Seq::new(0, |i: int| false) =~= Seq::<bool>::empty());
            assert(start + Seq::new(0, |i: int| false) =~= start);
        }
        proof {
            use_type_invariant(&*self);
            assert(self.written().len() == 8 * self.output@.len() + (8 - self.bits_left_in_next_byte));
            assert(self.bits_left_in_next_byte == 8);
            assert(value_bits(self.next_byte, 0) =~= Seq::<bool>::empty());
            assert(self.written() =~= source_bits(self.output@));
        }
    }

    /// Pads what was written with zero bits to a whole byte and returns the
    /// bytes.
    pub fn as_byte_array(&mut self) -> (res: &Vec<u8>)
        ensures
            source_bits(res@) == old(self).written() + Seq::new(
                (if old(self).written().len() % 8 == 0 { 0 } else { 8 - old(self).written().len() % 8 }) as nat,
                |i: int| false,
            ),
            final(self).written() == source_bits(res@),
    {
        self.pad();
        &self.output
    }

    /// Pads what was written with zero bits to a whole byte and returns the
    /// bytes.
    pub fn to_byte_array(self) -> (res: Vec<u8>)
        ensures
            source_bits(res@) == self.written() + Seq::new(
                (if self.written().len() % 8 == 0 { 0 } else { 8 - self.written().len() % 8 }) as nat,
                |i: int| false,
            ),
    {
        let mut builder = self;
        builder.pad();
        builder.output
    }
}

impl Default for BitSourceBuilder {
    /// A builder with nothing written.
    fn default() -> (res: Self)
        ensures
            res.written() == Seq::<bool>::empty(),
    {
        Self::new()
    }
}

/// What a builder wrote, a source over the builder's bytes reads back: the
/// `num_bits` bits that a `write` appended at bit `position` read as the
/// value written.
pub proof fn lemma_write_then_read(bytes: Seq<u8>, written: Seq<bool>, position: nat, value: u32, num_bits: nat)
    requires
        1 <= num_bits <= 32,
        value < pow2_nat(num_bits),
        written.subrange(position as int, (position + num_bits) as int) == value_bits(value, num_bits),
        (position + num_bits) as int <= written.len(),
        source_bits(bytes).len() >= written.len(),
        source_bits(bytes).subrange(0, written.len() as int) == written,
    ensures
        bits_value(source_bits(bytes).subrange(position as int, (position + num_bits) as int)) == value,
{
    assert(source_bits(bytes).subrange(position as int, (position + num_bits) as int) =~= written.subrange(
        position as int,
        (position + num_bits) as int,
    )) by {
        assert forall|i: int| 0 <= i < num_bits implies #[trigger] source_bits(bytes).subrange(
            position as int,
            (position + num_bits) as int,
        )[i] == written.subrange(position as int, (position + num_bits) as int)[i] by {
            assert(source_bits(bytes).subrange(0, written.len() as int)[position + i] == written[position + i]);
        }
    }
    lemma_value_bits_value(value, num_bits);
}

/// The bits that a sequence of writes of `(value, width)` appends, in order.
pub open spec fn writes_bits(writes: Seq<(u32, nat)>) -> Seq<bool>
    decreases writes.len(),
{
    if writes.len() == 0 {
        Seq::empty()
    } else {
        writes_bits(writes.drop_last()) + value_bits(writes.last().0, writes.last().1)
    }
}

/// The total width of a sequence of writes.
pub open spec fn writes_width(writes: Seq<(u32, nat)>) -> nat
    decreases writes.len(),
{
    if writes.len() == 0 {
        0
    } else {
        writes_width(writes.drop_last()) + writes.last().1
    }
}

proof fn lemma_writes_bits_prefix(writes: Seq<(u32, nat)>, i: int)
    requires
        0 <= i < writes.len(),
    ensures
        writes_bits(writes).len() == writes_width(writes),
        writes_width(writes.take(i)) + writes[i].1 <= writes_width(writes),
        writes_bits(writes).subrange(
            writes_width(writes.take(i)) as int,
            (writes_width(writes.take(i)) + writes[i].1) as int,
        ) == value_bits(writes[i].0, writes[i].1),
    decreases writes.len(),
{
    let prev = writes.drop_last();
    if i == writes.len() - 1 {
        assert(writes.take(i) =~= prev);
        lemma_writes_bits_len(prev);
        assert(writes_bits(writes).subrange(writes_width(prev) as int, writes_width(writes) as int) =~= value_bits(
            writes[i].0,
            writes[i].1,
        ));
    } else {
        lemma_writes_bits_prefix(prev, i);
        assert(prev.take(i) =~= writes.take(i));
        lemma_writes_bits_len(prev);
        assert(writes_bits(writes).subrange(
            writes_width(writes.take(i)) as int,
            (writes_width(writes.take(i)) + writes[i].1) as int,
        ) =~= writes_bits(prev).subrange(writes_width(prev.take(i)) as int, (writes_width(prev.take(i)) + prev[i].1) as int));
    }
}

proof fn lemma_writes_bits_len(writes: Seq<(u32, nat)>)
    ensures
        writes_bits(writes).len() == writes_width(writes),
    decreases writes.len(),
{
    if writes.len() > 0 {
        lemma_writes_bits_len(writes.drop_last());
    }
}

/// Bytes whose bits begin with what a sequence of writes wrote (as the
/// bytes of a builder after those writes do) read back each written value:
/// the value of write `i` is the `width` bits that start after the widths of
/// the writes before it.
pub proof fn lemma_writes_read_back(bytes: Seq<u8>, writes: Seq<(u32, nat)>, i: int)
    requires
        0 <= i < writes.len(),
        forall|k: int| 0 <= k < writes.len() ==> 1 <= #[trigger] writes[k].1 <= 32 && writes[k].0 < pow2_nat(writes[k].1),
        source_bits(bytes).len() >= writes_width(writes),
        source_bits(bytes).subrange(0, writes_width(writes) as int) == writes_bits(writes),
    ensures
        writes_width(writes.take(i)) + writes[i].1 <= source_bits(bytes).len(),
        bits_value(
            source_bits(bytes).subrange(
                writes_width(writes.take(i)) as int,
                (writes_width(writes.take(i)) + writes[i].1) as int,
            ),
        ) == writes[i].0,
{
    lemma_writes_bits_prefix(writes, i);
    lemma_write_then_read(bytes, writes_bits(writes), writes_width(writes.take(i)), writes[i].0, writes[i].1);
}

/// The total width of a sequence of reads.
pub open spec fn reads_width(widths: Seq<nat>) -> nat
    decreases widths.len(),
{
    if widths.len() == 0 {
        0
    } else {
        reads_width(widths.drop_last()) + widths.last()
    }
}

/// A source made by `new` starts at position 0, and each successful
/// `read_bits` of width `w` moves it by `w` (their contracts): along such a
/// run, recorded as the positions before and after each read, the position
/// is the total width read. So `get_bit_offset` gives that total modulo 8
/// and `get_byte_offset` that total divided by 8.
pub proof fn lemma_offsets_after_reads(positions: Seq<nat>, widths: Seq<nat>)
    requires
        positions.len() == widths.len() + 1,
        positions[0] == 0,
        forall|i: int| 0 <= i < widths.len() ==> #[trigger] positions[i + 1] == positions[i] + widths[i],
    ensures
        positions.last() == reads_width(widths),
        positions.last() % 8 == reads_width(widths) % 8,
        positions.last() / 8 == reads_width(widths) / 8,
    decreases widths.len(),
{
    if widths.len() > 0 {
        let p = positions.drop_last();
        let w = widths.drop_last();
        assert forall|i: int| 0 <= i < w.len() implies #[trigger] p[i + 1] == p[i] + w[i] by {
            assert(positions[i + 1] == positions[i] + widths[i]);
        }
        lemma_offsets_after_reads(p, w);
        assert(positions[widths.len() as int] == positions[widths.len() - 1] + widths[widths.len() - 1]);
    }
}

/// A builder's writes, turned into bytes by `to_byte_array`, read back:
/// a builder made by `new` holds, after writes of `(value, width)`, exactly
/// `writes_bits(writes)` (the contracts of `new` and `write`), and
/// `to_byte_array` pads that to whole bytes with clear bits. Reading the
/// bytes then gives each value written, in order, and leaves fewer than 8
/// bits, all clear.
pub proof fn lemma_builder_round_trip(bytes: Seq<u8>, writes: Seq<(u32, nat)>)
    requires
        forall|k: int| 0 <= k < writes.len() ==> 1 <= #[trigger] writes[k].1 <= 32 && writes[k].0 < pow2_nat(writes[k].1),
        source_bits(bytes) == writes_bits(writes) + Seq::new(
            (if writes_bits(writes).len() % 8 == 0 { 0 } else { 8 - writes_bits(writes).len() % 8 }) as nat,
            |i: int| false,
        ),
    ensures
        forall|i: int|
            0 <= i < writes.len() ==> bits_value(
                #[trigger] source_bits(bytes).subrange(
                    writes_width(writes.take(i)) as int,
                    (writes_width(writes.take(i)) + writes[i].1) as int,
                ),
            ) == writes[i].0,
        source_bits(bytes).len() - writes_width(writes) < 8,
        forall|p: int| writes_width(writes) <= p < source_bits(bytes).len() ==> !#[trigger] source_bits(bytes)[p],
{
    lemma_writes_bits_len(writes);
    let w = writes_bits(writes);
    assert(source_bits(bytes).subrange(0, writes_width(writes) as int) =~= w);
    assert forall|i: int| 0 <= i < writes.len() implies bits_value(
        #[trigger] source_bits(bytes).subrange(
            writes_width(writes.take(i)) as int,
            (writes_width(writes.take(i)) + writes[i].1) as int,
        ),
    ) == writes[i].0 by {
        lemma_writes_read_back(bytes, writes, i);
    }
}

/// Two byte sequences with the same bits are the same; so a second call of
/// `as_byte_array`, which pads nothing more, gives the bytes of the first.
pub proof fn lemma_source_bits_injective(a: Seq<u8>, b: Seq<u8>)
    requires
        source_bits(a) == source_bits(b),
    ensures
        a == b,
{
    assert(8 * a.len() == source_bits(a).len());
    assert(a.len() == b.len());
    assert forall|k: int| 0 <= k < a.len() implies a[k] == b[k] by {
        assert forall|i: int| 0 <= i < 8 implies byte_bit(a[k], i) == byte_bit(b[k], i) by {
            let p = 8 * k + i;
            assert(p / 8 == k && p % 8 == i);
            assert(0 <= p < 8 * a.len());
            assert(source_bits(a)[p] == byte_bit(a[p / 8], p % 8));
            assert(source_bits(b)[p] == byte_bit(b[p / 8], p % 8));
            assert(source_bits(a)[p] == source_bits(b)[p]);
        }
        let x = a[k];
        let y = b[k];
        assert(byte_bit(x, 0) == byte_bit(y, 0));
        assert(byte_bit(x, 1) == byte_bit(y, 1));
        assert(byte_bit(x, 2) == byte_bit(y, 2));
        assert(byte_bit(x, 3) == byte_bit(y, 3));
        assert(byte_bit(x, 4) == byte_bit(y, 4));
        assert(byte_bit(x, 5) == byte_bit(y, 5));
        assert(byte_bit(x, 6) == byte_bit(y, 6));
        assert(byte_bit(x, 7) == byte_bit(y, 7));
        assert(x == y) by (bit_vector)
            requires
                ((x >> 7u8) & 1u8 == 1u8) == ((y >> 7u8) & 1u8 == 1u8),
                ((x >> 6u8) & 1u8 == 1u8) == ((y >> 6u8) & 1u8 == 1u8),
                ((x >> 5u8) & 1u8 == 1u8) == ((y >> 5u8) & 1u8 == 1u8),
                ((x >> 4u8) & 1u8 == 1u8) == ((y >> 4u8) & 1u8 == 1u8),
                ((x >> 3u8) & 1u8 == 1u8) == ((y >> 3u8) & 1u8 == 1u8),
                ((x >> 2u8) & 1u8 == 1u8) == ((y >> 2u8) & 1u8 == 1u8),
                ((x >> 1u8) & 1u8 == 1u8) == ((y >> 1u8) & 1u8 == 1u8),
                ((x >> 0u8) & 1u8 == 1u8) == ((y >> 0u8) & 1u8 == 1u8),
        ;
    }
    assert(a =~= b);
}

/// The value of at most `n` bits is below `2^n`.
pub proof fn lemma_bits_value_fits_small(bits: Seq<bool>)
    requires
        bits.len() <= 4,
    ensures
        bits_value(bits) < 16,
{
    crate::bitmatrix_parser::lemma_bits_value_bound(bits);
    reveal_with_fuel(pow2_nat, 5);
    lemma_pow2_monotone_local(bits.len(), 4);
}

pub proof fn lemma_bits_value_fits_8(bits: Seq<bool>)
    requires
        bits.len() == 8,
    ensures
        bits_value(bits) < 256,
{
    crate::bitmatrix_parser::lemma_bits_value_bound(bits);
    reveal_with_fuel(pow2_nat, 9);
}

pub proof fn lemma_bits_value_fits_11(bits: Seq<bool>)
    requires
        bits.len() == 11,
    ensures
        bits_value(bits) < 2048,
{
    crate::bitmatrix_parser::lemma_bits_value_bound(bits);
    reveal_with_fuel(pow2_nat, 12);
}

pub proof fn lemma_bits_value_fits_13(bits: Seq<bool>)
    requires
        bits.len() == 13,
    ensures
        bits_value(bits) < 8192,
{
    crate::bitmatrix_parser::lemma_bits_value_bound(bits);
    reveal_with_fuel(pow2_nat, 14);
}

pub proof fn lemma_bits_value_fits_16(bits: Seq<bool>)
    requires
        bits.len() == 16,
    ensures
        bits_value(bits) < 65536,
{
    crate::bitmatrix_parser::lemma_bits_value_bound(bits);
    reveal_with_fuel(pow2_nat, 17);
}

proof fn lemma_pow2_monotone_local(a: nat, b: nat)
    requires
        a <= b,
    ensures
        pow2_nat(a) <= pow2_nat(b),
    decreases b,
{
    if a < b {
        lemma_pow2_monotone_local(a, (b - 1) as nat);
    }
}

} // verus!
