use vstd::prelude::*;
use bitvec::prelude::{BitVec, Lsb0};
use crate::bitmatrix_parser::bits_value;
use crate::error::Error;

verus! {

/// A bit vector of the `bitvec` crate, words of `usize` filled from their
/// least significant bit.
#[verifier::external_body]
#[derive(Debug, PartialEq, Eq)]
pub struct Bits {
    inner: BitVec<usize, Lsb0>,
}

impl Clone for Bits {
    /// `Clone` of a bit vector: the copy holds the same bits.
    #[verifier::external_body]
    fn clone(&self) -> (res: Self)
        ensures
            bits_of(res) == bits_of(*self),
    {
        Bits { inner: self.inner.clone() }
    }
}

/// The bits that a bit vector holds, first to last.
pub uninterp spec fn bits_of(v: Bits) -> Seq<bool>;

/// The most bits a bit vector can hold: `bitvec` keeps three bits of the
/// length for the head position.
pub open spec fn max_bits() -> nat {
    (usize::MAX / 8) as nat
}

/// Bit `j` (0 the least significant) of a word.
pub open spec fn word_bit(w: usize, j: int) -> bool {
    ((w >> (j as usize)) & 1usize) == 1usize
}

/// Number of words that `len` bits take.
pub open spec fn words_for(len: nat) -> nat {
    ((len + usize::BITS - 1) / (usize::BITS as int)) as nat
}

/// `BitVec::new`: an empty bit vector.
#[verifier::external_body]
fn bv_new() -> (res: Bits)
    ensures
        bits_of(res) == Seq::<bool>::empty(),
{
    Bits { inner: BitVec::new() }
}

/// `BitVec::with_capacity`: an empty bit vector with room for `capacity`
/// bits; a capacity beyond what a bit vector can hold panics.
#[verifier::external_body]
fn bv_with_capacity(capacity: usize) -> (res: Bits)
    requires
        capacity <= max_bits(),
    ensures
        bits_of(res) == Seq::<bool>::empty(),
{
    Bits { inner: BitVec::with_capacity(capacity) }
}

/// `BitVec::resize`: cuts the bits to `new_len` or appends copies of
/// `value` up to it; a length beyond what a bit vector can hold panics.
#[verifier::external_body]
fn bv_resize(v: &mut Bits, new_len: usize, value: bool)
    requires
        new_len <= max_bits(),
    ensures
        bits_of(*final(v)) == if new_len <= bits_of(*old(v)).len() {
            bits_of(*old(v)).take(new_len as int)
        } else {
            bits_of(*old(v)) + Seq::new((new_len - bits_of(*old(v)).len()) as nat, |i: int| value)
        },
{
    v.inner.resize(new_len, value)
}

/// `BitSlice::len`: the number of bits, never beyond what a bit vector can
/// hold.
#[verifier::external_body]
fn bv_len(v: &Bits) -> (res: usize)
    ensures
        res == bits_of(*v).len(),
        res <= max_bits(),
{
    v.inner.len()
}

/// Indexing a bit slice: the bit at `i`, which must be in range (else it
/// panics).
#[verifier::external_body]
fn bv_index(v: &Bits, i: usize) -> (res: bool)
    requires
        i < bits_of(*v).len(),
    ensures
        res == bits_of(*v)[i as int],
{
    v.inner[i]
}

/// `BitSlice::get`: the bit at `i`, `None` out of range.
#[verifier::external_body]
fn bv_get(v: &Bits, i: usize) -> (res: Option<bool>)
    ensures
        i < bits_of(*v).len() ==> res == Some(bits_of(*v)[i as int]),
        i >= bits_of(*v).len() ==> res is None,
{
    v.inner.get(i).map(|b| *b)
}

/// `BitSlice::set`: writes the bit at `i`, which must be in range (else it
/// panics).
#[verifier::external_body]
fn bv_set(v: &mut Bits, i: usize, value: bool)
    requires
        i < bits_of(*old(v)).len(),
    ensures
        bits_of(*final(v)) == bits_of(*old(v)).update(i as int, value),
{
    v.inner.set(i, value)
}

/// `BitSlice::first_one` on the bits from `from` on: the offset (from
/// `from`) of the first set bit, `None` if there is none.
#[verifier::external_body]
fn bv_first_one_from(v: &Bits, from: usize) -> (res: Option<usize>)
    requires
        from <= bits_of(*v).len(),
    ensures
        match res {
            Some(k) => from + k < bits_of(*v).len() && bits_of(*v)[from + k] && forall|j: int|
                from <= j < from + k ==> !#[trigger] bits_of(*v)[j],
            None => forall|j: int| from <= j < bits_of(*v).len() ==> !#[trigger] bits_of(*v)[j],
        },
{
    v.inner[from..].first_one()
}

/// `BitSlice::first_zero` on the bits from `from` on: the offset (from
/// `from`) of the first clear bit, `None` if there is none.
#[verifier::external_body]
fn bv_first_zero_from(v: &Bits, from: usize) -> (res: Option<usize>)
    requires
        from <= bits_of(*v).len(),
    ensures
        match res {
            Some(k) => from + k < bits_of(*v).len() && !bits_of(*v)[from + k] && forall|j: int|
                from <= j < from + k ==> #[trigger] bits_of(*v)[j],
            None => forall|j: int| from <= j < bits_of(*v).len() ==> #[trigger] bits_of(*v)[j],
        },
{
    v.inner[from..].first_zero()
}

/// `BitSlice::fill` on the bits `start..end`, which must be in range.
#[verifier::external_body]
fn bv_fill_range(v: &mut Bits, start: usize, end: usize, value: bool)
    requires
        start <= end <= bits_of(*old(v)).len(),
    ensures
        bits_of(*final(v)) == Seq::new(
            bits_of(*old(v)).len(),
            |i: int| if start <= i < end { value } else { bits_of(*old(v))[i] },
        ),
{
    v.inner[start..end].fill(value)
}

/// `BitSlice::all` on the bits `start..end`, which must be in range.
#[verifier::external_body]
fn bv_all_range(v: &Bits, start: usize, end: usize) -> (res: bool)
    requires
        start <= end <= bits_of(*v).len(),
    ensures
        res == forall|i: int| start <= i < end ==> #[trigger] bits_of(*v)[i],
{
    v.inner[start..end].all()
}

/// `BitSlice::not_any` on the bits `start..end`, which must be in range.
#[verifier::external_body]
fn bv_not_any_range(v: &Bits, start: usize, end: usize) -> (res: bool)
    requires
        start <= end <= bits_of(*v).len(),
    ensures
        res == forall|i: int| start <= i < end ==> !#[trigger] bits_of(*v)[i],
{
    v.inner[start..end].not_any()
}

/// `BitVec::push`: appends a bit; a length beyond what a bit vector can
/// hold panics.
#[verifier::external_body]
fn bv_push(v: &mut Bits, value: bool)
    requires
        bits_of(*old(v)).len() < max_bits(),
    ensures
        bits_of(*final(v)) == bits_of(*old(v)).push(value),
{
    v.inner.push(value)
}

/// `BitVec::extend_from_bitslice`: appends the bits of `other`.
#[verifier::external_body]
fn bv_extend(v: &mut Bits, other: &Bits)
    requires
        bits_of(*old(v)).len() + bits_of(*other).len() <= max_bits(),
    ensures
        bits_of(*final(v)) == bits_of(*old(v)) + bits_of(*other),
{
    v.inner.extend_from_bitslice(&other.inner)
}

/// `^=` between bit vectors of one length: each bit becomes the exclusive
/// or of the two.
#[verifier::external_body]
fn bv_xor(v: &mut Bits, other: &Bits)
    requires
        bits_of(*old(v)).len() == bits_of(*other).len(),
    ensures
        bits_of(*final(v)) == Seq::new(
            bits_of(*old(v)).len(),
            |i: int| bits_of(*old(v))[i] != bits_of(*other)[i],
        ),
{
    v.inner ^= &other.inner;
}

/// `BitVec::as_raw_slice`: the words that hold the bits, least significant
/// bit first (`Lsb0`); the bits past the length in the last word are not
/// stated.
#[verifier::external_body]
fn bv_words(v: &Bits) -> (res: &[usize])
    ensures
        res@.len() == words_for(bits_of(*v).len()),
        forall|i: int|
            0 <= i < bits_of(*v).len() ==> #[trigger] bits_of(*v)[i] == word_bit(
                res@[i / (usize::BITS as int)],
                i % (usize::BITS as int),
            ),
{
    v.inner.as_raw_slice()
}

/// Writing word `k` of `BitVec::as_raw_mut_slice`: the bits held in that
/// word become its bits, least significant first; `k` must be in range.
#[verifier::external_body]
fn bv_set_word(v: &mut Bits, k: usize, w: usize)
    requires
        k < words_for(bits_of(*old(v)).len()),
    ensures
        bits_of(*final(v)).len() == bits_of(*old(v)).len(),
        forall|i: int|
            0 <= i < bits_of(*old(v)).len() ==> #[trigger] bits_of(*final(v))[i] == if i / (usize::BITS as int)
                == k {
                word_bit(w, i % (usize::BITS as int))
            } else {
                bits_of(*old(v))[i]
            },
{
    v.inner.as_raw_mut_slice()[k] = w;
}

/// `BitSlice::reverse`: the bits in reverse order.
#[verifier::external_body]
fn bv_reverse(v: &mut Bits)
    ensures
        bits_of(*final(v)) == bits_of(*old(v)).reverse(),
{
    v.inner.reverse()
}

/// An array of bits, growable at its end.
#[derive(Debug, Clone, PartialEq, Eq)]
pub struct BitArray {
    bits: Bits,
    read_offset: usize,
}

/// The byte made of the eight bits of `bits` from `start`, most significant
/// first.
pub open spec fn byte_from(bits: Seq<bool>, start: int) -> u8 {
    bits_value(bits.subrange(start, start + 8)) as u8
}

impl BitArray {
    /// The bits, first to last.
    pub closed spec fn spec_bits(&self) -> Seq<bool> {
        bits_of(self.bits)
    }

    /// An empty array.
    pub fn new() -> (res: Self)
        ensures
            res.spec_bits() == Seq::<bool>::empty(),
    {
        BitArray { bits: bv_new(), read_offset: 0 }
    }

    /// An array of `size` clear bits; `size` must be what a bit vector can
    /// hold.
    pub fn with_size(size: usize) -> (res: Self)
        requires
            size <= max_bits(),
        ensures
            res.spec_bits() == Seq::new(size as nat, |i: int| false),
    {
        let mut bits = bv_new();
        bv_resize(&mut bits, size, false);
        assert(bits_of(bits) =~= Seq::new(size as nat, |i: int| false));
        BitArray { bits, read_offset: 0 }
    }

    /// An empty array with room for `size` bits.
    pub fn with_capacity(size: usize) -> (res: Self)
        requires
            size <= max_bits(),
        ensures
            res.spec_bits() == Seq::<bool>::empty(),
    {
        BitArray { bits: bv_with_capacity(size), read_offset: 0 }
    }

    /// Number of bits.
    pub fn get_size(&self) -> (res: usize)
        ensures
            res == self.spec_bits().len(),
            res <= max_bits(),
    {
        bv_len(&self.bits)
    }

    /// Number of bytes that the bits fill, the last possibly in part.
    pub fn get_size_in_bytes(&self) -> (res: usize)
        ensures
            res == (self.spec_bits().len() + 7) / 8,
    {
        let n = bv_len(&self.bits);
        (n + 7) / 8
    }

    /// The bit at `i`, which must be in range.
    pub fn get(&self, i: usize) -> (res: bool)
        requires
            i < self.spec_bits().len(),
        ensures
            res == self.spec_bits()[i as int],
    {
        bv_index(&self.bits, i)
    }

    /// The bit at `i`, `None` out of range.
    pub fn try_get(&self, i: usize) -> (res: Option<bool>)
        ensures
            i < self.spec_bits().len() ==> res == Some(self.spec_bits()[i as int]),
            i >= self.spec_bits().len() ==> res is None,
    {
        bv_get(&self.bits, i)
    }

    /// Sets the bit at `i`, which must be in range.
    pub fn set(&mut self, i: usize)
        requires
            i < old(self).spec_bits().len(),
        ensures
            final(self).spec_bits() == old(self).spec_bits().update(i as int, true),
    {
        bv_set(&mut self.bits, i, true)
    }

    /// Clears the bit at `i`, which must be in range.
    pub fn unset(&mut self, i: usize)
        requires
            i < old(self).spec_bits().len(),
        ensures
            final(self).spec_bits() == old(self).spec_bits().update(i as int, false),
    {
        bv_set(&mut self.bits, i, false)
    }

    /// Inverts the bit at `i`, which must be in range.
    pub fn flip(&mut self, i: usize)
        requires
            i < old(self).spec_bits().len(),
        ensures
            final(self).spec_bits() == old(self).spec_bits().update(i as int, !old(self).spec_bits()[i as int]),
    {
        let v = bv_index(&self.bits, i);
        bv_set(&mut self.bits, i, !v)
    }

    /// Index of the first set bit at or after `from`; the size when there is
    /// none.
    pub fn get_next_set(&self, from: usize) -> (res: usize)
        ensures
            from <= res <= self.spec_bits().len() || (from >= self.spec_bits().len() && res
                == self.spec_bits().len()),
            res < self.spec_bits().len() ==> self.spec_bits()[res as int],
            forall|j: int| from <= j < res ==> !#[trigger] self.spec_bits()[j],
    {
        let size = bv_len(&self.bits);
        if from >= size {
            return size;
        }
        match bv_first_one_from(&self.bits, from) {
            Some(i) => from + i,
            None => size,
        }
    }

    /// Index of the first clear bit at or after `from`; the size when there
    /// is none.
    pub fn get_next_unset(&self, from: usize) -> (res: usize)
        ensures
            from <= res <= self.spec_bits().len() || (from >= self.spec_bits().len() && res
                == self.spec_bits().len()),
            res < self.spec_bits().len() ==> !self.spec_bits()[res as int],
            forall|j: int| from <= j < res ==> #[trigger] self.spec_bits()[j],
    {
        let size = bv_len(&self.bits);
        if from >= size {
            return size;
        }
        match bv_first_zero_from(&self.bits, from) {
            Some(i) => from + i,
            None => size,
        }
    }

    /// Replaces the word of bits that holds bit `i` by `new_bits`: bit `j`
    /// of the word (least significant first) becomes bit `(i / W) * W + j`,
    /// `W` the bits of a word. The word must hold some of the bits.
    pub fn set_bulk(&mut self, i: usize, new_bits: usize)
        requires
            (i as int) / (usize::BITS as int) < words_for(old(self).spec_bits().len()),
        ensures
            final(self).spec_bits().len() == old(self).spec_bits().len(),
            forall|p: int|
                0 <= p < old(self).spec_bits().len() ==> #[trigger] final(self).spec_bits()[p] == if p / (
                usize::BITS as int) == (i as int) / (usize::BITS as int) {
                    word_bit(new_bits, p % (usize::BITS as int))
                } else {
                    old(self).spec_bits()[p]
                },
    {
        bv_set_word(&mut self.bits, i / (usize::BITS as usize), new_bits)
    }

    /// Sets the bits `start..end`; a range that is reversed or passes the
    /// end is an invalid argument and changes nothing.
    pub fn set_range(&mut self, start: usize, end: usize) -> (res: Result<(), Error>)
        ensures
            (end < start || end > old(self).spec_bits().len()) ==> res == Err::<(), Error>(
                Error::InvalidArgument,
            ) && final(self).spec_bits() == old(self).spec_bits(),
            !(end < start || end > old(self).spec_bits().len()) ==> res is Ok && final(self).spec_bits()
                == Seq::new(
                old(self).spec_bits().len(),
                |i: int| if start <= i < end { true } else { old(self).spec_bits()[i] },
            ),
    {
        let len = bv_len(&self.bits);
        if end < start || end > len {
            return Err(Error::InvalidArgument);
        }
        if end == start {
            assert(self.spec_bits() =~= Seq::new(
                old(self).spec_bits().len(),
                |i: int| if start <= i < end { true } else { old(self).spec_bits()[i] },
            ));
            return Ok(());
        }
        bv_fill_range(&mut self.bits, start, end, true);
        Ok(())
    }

    /// Clears every bit.
    pub fn clear(&mut self)
        ensures
            final(self).spec_bits() == Seq::new(old(self).spec_bits().len(), |i: int| false),
    {
        let len = bv_len(&self.bits);
        bv_fill_range(&mut self.bits, 0, len, false);
        assert(self.spec_bits() =~= Seq::new(old(self).spec_bits().len(), |i: int| false));
    }

    /// Whether the bits `start..end` all equal `value`; a range that is
    /// reversed or passes the end is an invalid argument.
    pub fn is_range(&self, start: usize, end: usize, value: bool) -> (res: Result<bool, Error>)
        ensures
            (end < start || end > self.spec_bits().len()) ==> res == Err::<bool, Error>(Error::InvalidArgument),
            !(end < start || end > self.spec_bits().len()) ==> res == Ok::<bool, Error>(
                forall|i: int| start <= i < end ==> #[trigger] self.spec_bits()[i] == value,
            ),
    {
        let len = bv_len(&self.bits);
        if end < start || end > len {
            return Err(Error::InvalidArgument);
        }
        if end == start {
            return Ok(true);
        }
        if value {
            Ok(bv_all_range(&self.bits, start, end))
        } else {
            Ok(bv_not_any_range(&self.bits, start, end))
        }
    }

    /// Appends a bit; the array must have room for it.
    pub fn append_bit(&mut self, bit: bool)
        requires
            old(self).spec_bits().len() < max_bits(),
        ensures
            final(self).spec_bits() == old(self).spec_bits().push(bit),
    {
        bv_push(&mut self.bits, bit)
    }

    /// Appends the lowest `num_bits` bits of `value`, most significant
    /// first; more bits than a word has is an invalid argument. The array
    /// must have room for them.
    pub fn append_bits(&mut self, value: usize, num_bits: usize) -> (res: Result<(), Error>)
        requires
            old(self).spec_bits().len() + num_bits <= max_bits(),
        ensures
            num_bits > usize::BITS ==> res == Err::<(), Error>(Error::InvalidArgument) && final(self).spec_bits()
                == old(self).spec_bits(),
            num_bits <= usize::BITS ==> res is Ok && final(self).spec_bits() == old(self).spec_bits()
                + Seq::new(num_bits as nat, |k: int| word_bit(value, num_bits - 1 - k)),
    {
        if num_bits > usize::BITS as usize {
            return Err(Error::InvalidArgument);
        }
        let ghost start = self.spec_bits();
        let mut i: usize = num_bits;
        while i > 0
            invariant
                i <= num_bits <= usize::BITS,
                start.len() + num_bits <= max_bits(),
                self.spec_bits() == start + Seq::new((num_bits - i) as nat, |k: int| word_bit(value, num_bits - 1 - k)),
            decreases i,
        {
            i = i - 1;
            let bit = (value >> i) & 1 != 0;
            assert(bit == (((value >> i) & 1usize) == 1usize)) by (bit_vector)
                requires
                    bit == ((value >> i) & 1usize != 0usize),
            ;
            assert(bit == word_bit(value, i as int));
            bv_push(&mut self.bits, bit);
            assert(self.spec_bits() =~= start + Seq::new(
                (num_bits - i) as nat,
                |k: int| word_bit(value, num_bits - 1 - k),
            ));
        }
        Ok(())
    }

    /// Appends the bits of `other`; the array must have room for them.
    pub fn append_bit_array(&mut self, other: BitArray)
        requires
            old(self).spec_bits().len() + other.spec_bits().len() <= max_bits(),
        ensures
            final(self).spec_bits() == old(self).spec_bits() + other.spec_bits(),
    {
        self.append_bit_array_ref(&other)
    }

    /// Appends the bits of `other`; the array must have room for them.
    pub fn append_bit_array_ref(&mut self, other: &BitArray)
        requires
            old(self).spec_bits().len() + other.spec_bits().len() <= max_bits(),
        ensures
            final(self).spec_bits() == old(self).spec_bits() + other.spec_bits(),
    {
        bv_extend(&mut self.bits, &other.bits)
    }

    /// Replaces each bit by its exclusive or with the bit of `other` at the
    /// same place; arrays of different sizes are an invalid argument.
    pub fn xor(&mut self, other: &BitArray) -> (res: Result<(), Error>)
        ensures
            old(self).spec_bits().len() != other.spec_bits().len() ==> res == Err::<(), Error>(
                Error::InvalidArgument,
            ) && final(self).spec_bits() == old(self).spec_bits(),
            old(self).spec_bits().len() == other.spec_bits().len() ==> res is Ok && final(self).spec_bits()
                == Seq::new(
                old(self).spec_bits().len(),
                |i: int| old(self).spec_bits()[i] != other.spec_bits()[i],
            ),
    {
        if bv_len(&self.bits) != bv_len(&other.bits) {
            return Err(Error::InvalidArgument);
        }
        bv_xor(&mut self.bits, &other.bits);
        Ok(())
    }

    /// Writes `num_bytes` bytes made of the bits from `bit_offset` on, most
    /// significant bit first, into `array` from `offset` on. The bits and
    /// the places must be there.
    pub fn to_bytes(&self, bit_offset: usize, array: &mut [u8], offset: usize, num_bytes: usize)
        requires
            bit_offset + 8 * num_bytes <= self.spec_bits().len(),
            offset + num_bytes <= old(array)@.len(),
        ensures
            final(array)@.len() == old(array)@.len(),
            forall|i: int|
                0 <= i < old(array)@.len() ==> #[trigger] final(array)@[i] == if offset <= i < offset + num_bytes {
                    byte_from(self.spec_bits(), bit_offset + 8 * (i - offset))
                } else {
                    old(array)@[i]
                },
    {
        let total = bv_len(&self.bits);
        let alen = array.len();
        let mut bit_offset = bit_offset;
        let ghost first = bit_offset;
        let mut i: usize = 0;
        while i < num_bytes
            invariant
                i <= num_bytes,
                total == self.spec_bits().len(),
                total <= max_bits(),
                alen == array@.len(),
                first + 8 * num_bytes <= self.spec_bits().len(),
                offset + num_bytes <= array@.len(),
                bit_offset == first + 8 * i,
                array@.len() == old(array)@.len(),
                forall|p: int|
                    0 <= p < array@.len() ==> #[trigger] array@[p] == if offset <= p < offset + i {
                        byte_from(self.spec_bits(), first + 8 * (p - offset))
                    } else {
                        old(array)@[p]
                    },
            decreases num_bytes - i,
        {
            let mut the_byte: u32 = 0;
            let ghost start = bit_offset as int;
            let mut j: usize = 0;
            while j < 8
                invariant
                    j <= 8,
                    0 <= start,
                    total == self.spec_bits().len(),
                    total <= max_bits(),
                    alen == array@.len(),
                    i < num_bytes,
                    offset + num_bytes <= array@.len(),
                    start + 8 <= self.spec_bits().len(),
                    bit_offset == start + j,
                    the_byte == bits_value(self.spec_bits().subrange(start, start + j)),
                decreases 8 - j,
            {
                let bit = bv_index(&self.bits, bit_offset);
                proof {
                    assert(self.spec_bits().subrange(start, start + j + 1) =~= self.spec_bits().subrange(
                        start,
                        start + j,
                    ).push(bit));
                }
                the_byte = crate::bitmatrix_parser::append_bit_u32(
                    the_byte,
                    Ghost(self.spec_bits().subrange(start, start + j)),
                    bit,
                );
                bit_offset = bit_offset + 1;
                j = j + 1;
            }
            proof {
                crate::bit_source::lemma_bits_value_fits_8(self.spec_bits().subrange(start, start + 8));
            }
            array[offset + i] = the_byte as u8;
            i = i + 1;
        }
    }

    /// The words that hold the bits, least significant bit first; the bits
    /// past the size in the last word are not stated.
    pub fn get_bit_array(&self) -> (res: &[usize])
        ensures
            res@.len() == words_for(self.spec_bits().len()),
            forall|i: int|
                0 <= i < self.spec_bits().len() ==> #[trigger] self.spec_bits()[i] == word_bit(
                    res@[i / (usize::BITS as int)],
                    i % (usize::BITS as int),
                ),
    {
        bv_words(&self.bits)
    }

    /// Reverses the order of the bits.
    pub fn reverse(&mut self)
        ensures
            final(self).spec_bits() == old(self).spec_bits().reverse(),
    {
        bv_reverse(&mut self.bits)
    }

    /// The bytes that the bits make, most significant bit first; the size
    /// must be a whole number of bytes.
    pub fn to_byte_vec(&self) -> (res: Vec<u8>)
        requires
            self.spec_bits().len() % 8 == 0,
        ensures
            res@.len() == self.spec_bits().len() / 8,
            forall|k: int| 0 <= k < res@.len() ==> #[trigger] res@[k] == byte_from(self.spec_bits(), 8 * k),
    {
        let n = self.get_size_in_bytes();
        let mut array: Vec<u8> = vec![0u8; n];
        self.to_bytes(0, array.as_mut_slice(), 0, n);
        array
    }

    /// The array of the bits of `bytes`, each byte from its most significant
    /// bit down; the bits must fit in a bit vector.
    pub fn from_bytes(bytes: Vec<u8>) -> (res: BitArray)
        requires
            8 * bytes@.len() <= max_bits(),
        ensures
            res.spec_bits() == crate::bit_source::source_bits(bytes@),
    {
        let n = bytes.len();
        let mut array = BitArray::with_size(n * 8);
        let mut byte_idx: usize = 0;
        while byte_idx < n
            invariant
                byte_idx <= n,
                n == bytes@.len(),
                8 * n <= max_bits(),
                array.spec_bits().len() == 8 * n,
                forall|p: int|
                    0 <= p < 8 * n ==> #[trigger] array.spec_bits()[p] == if p < 8 * byte_idx {
                        crate::bit_source::byte_bit(bytes@[p / 8], p % 8)
                    } else {
                        false
                    },
            decreases n - byte_idx,
        {
            let byte = bytes[byte_idx];
            let mut bit: usize = 0;
            while bit < 8
                invariant
                    bit <= 8,
                    byte_idx < n,
                    n == bytes@.len(),
                    byte == bytes@[byte_idx as int],
                    8 * n <= max_bits(),
                    array.spec_bits().len() == 8 * n,
                    forall|p: int|
                        0 <= p < 8 * n ==> #[trigger] array.spec_bits()[p] == if p < 8 * byte_idx + bit {
                            crate::bit_source::byte_bit(bytes@[p / 8], p % 8)
                        } else {
                            false
                        },
                decreases 8 - bit,
            {
                let b: u8 = bit as u8;
                let sh: u8 = 7 - b;
                let on = byte & (1u8 << sh) != 0;
                assert(on == (((byte >> sh) & 1u8) == 1u8)) by (bit_vector)
                    requires
                        sh < 8,
                        on == (byte & (1u8 << sh) != 0),
                ;
                assert(on == crate::bit_source::byte_bit(byte, b as int));
                let p = byte_idx * 8 + bit;
                assert(p / 8 == byte_idx as int && p % 8 == bit as int);
                if on {
                    array.set(p);
                }
                bit = bit + 1;
            }
            byte_idx = byte_idx + 1;
        }
        assert(array.spec_bits() =~= crate::bit_source::source_bits(bytes@));
        array
    }

    /// The bits as booleans, first to last.
    pub fn to_bool_vec(&self) -> (res: Vec<bool>)
        ensures
            res@ == self.spec_bits(),
    {
        let n = bv_len(&self.bits);
        let mut out: Vec<bool> = Vec::new();
        let mut i: usize = 0;
        while i < n
            invariant
                i <= n,
                n == self.spec_bits().len(),
                out@ == self.spec_bits().take(i as int),
            decreases n - i,
        {
            out.push(bv_index(&self.bits, i));
            assert(self.spec_bits().take(i as int + 1) =~= self.spec_bits().take(i as int).push(self.spec_bits()[i as int]));
            i = i + 1;
        }
        assert(self.spec_bits().take(n as int) =~= self.spec_bits());
        out
    }
}

/// The bytes of an array made from bytes are those bytes: byte `k` of the
/// bits of `bytes` is `bytes[k]`, so `to_byte_vec` after `from_bytes` gives
/// the bytes back.
pub proof fn lemma_bytes_round_trip(bytes: Seq<u8>, k: int)
    requires
        0 <= k < bytes.len(),
    ensures
        byte_from(crate::bit_source::source_bits(bytes), 8 * k) == bytes[k],
{
    let b = bytes[k];
    let bits = crate::bit_source::source_bits(bytes);
    crate::bit_source::lemma_byte_bits(b as u32);
    assert forall|p: int| 0 <= p < 8 implies #[trigger] bits.subrange(8 * k, 8 * k + 8)[p]
        == crate::bit_source::source_bits(seq![b])[p] by {
        assert((8 * k + p) / 8 == k && (8 * k + p) % 8 == p);
        assert(p / 8 == 0 && p % 8 == p);
    }
    assert(bits.subrange(8 * k, 8 * k + 8) =~= crate::bit_source::source_bits(seq![b]));
    reveal_with_fuel(crate::format_information::pow2_nat, 9);
    crate::bit_source::lemma_value_bits_value(b as u32, 8);
}

impl Default for BitArray {
    /// An empty array.
    fn default() -> (res: Self)
        ensures
            res.spec_bits() == Seq::<bool>::empty(),
    {
        Self::new()
    }
}

} // verus!
