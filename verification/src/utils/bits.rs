//! Bit-level access to byte buffers, most significant bit first.

use vstd::prelude::*;
use crate::Error;

verus! {

/// The mask that selects bit `k` of a byte, counting from the most
/// significant bit; zero when `k` is not a bit position.
pub open spec fn mask_of(k: int) -> u8 {
    if k == 0 {
        0x80
    } else if k == 1 {
        0x40
    } else if k == 2 {
        0x20
    } else if k == 3 {
        0x10
    } else if k == 4 {
        0x08
    } else if k == 5 {
        0x04
    } else if k == 6 {
        0x02
    } else if k == 7 {
        0x01
    } else {
        0
    }
}

/// Bit `i` of `data`: bytes in sequence order, the most significant bit of
/// each byte first.
pub open spec fn bit_at(data: Seq<u8>, i: int) -> bool {
    data[i / 8] & mask_of(i % 8) != 0
}

/// All bits of `data` in reading order.
pub open spec fn bits_of(data: Seq<u8>) -> Seq<bool> {
    Seq::new((8 * data.len()) as nat, |i: int| bit_at(data, i))
}

/// The unsigned number that the `width` bits from bit `start` on spell,
/// most significant bit first.
pub open spec fn field_value(data: Seq<u8>, start: int, width: nat) -> nat
    decreases width,
{
    if width == 0 {
        0
    } else {
        2 * field_value(data, start, (width - 1) as nat) + (if bit_at(
            data,
            start + width - 1,
        ) {
            1nat
        } else {
            0nat
        })
    }
}

/// `mask` shifted right by one place, `times` times over.
pub open spec fn halved(mask: usize, times: nat) -> usize
    decreases times,
{
    if times == 0 {
        mask
    } else {
        halved(mask, (times - 1) as nat) >> 1
    }
}

/// What reading `count` bits from bit `start` on gathers: for every set bit,
/// the mask as it stands at that bit is or-ed in, and the mask moves one place
/// to the right after each bit.
pub open spec fn gathered(data: Seq<u8>, start: int, count: nat, mask: usize) -> usize
    decreases count,
{
    if count == 0 {
        0
    } else {
        let before = gathered(data, start, (count - 1) as nat, mask);
        if bit_at(data, start + count - 1) {
            before | halved(mask, (count - 1) as nat)
        } else {
            before
        }
    }
}

/// How many bits of the current byte a cursor with this mask has passed.
pub open spec fn offset_of(mask: u8) -> int {
    if mask == 0x80 {
        0
    } else if mask == 0x40 {
        1
    } else if mask == 0x20 {
        2
    } else if mask == 0x10 {
        3
    } else if mask == 0x08 {
        4
    } else if mask == 0x04 {
        5
    } else if mask == 0x02 {
        6
    } else if mask == 0x01 {
        7
    } else {
        8
    }
}

/// Shifting a single-bit mask right moves it to the next bit position.
proof fn lemma_mask_step(mask: u8)
    requires
        mask != 0,
        mask == mask_of(offset_of(mask)),
    ensures
        offset_of(mask >> 1) == offset_of(mask) + 1,
        mask >> 1 == mask_of(offset_of(mask) + 1),
{
    assert(0x80u8 >> 1 == 0x40u8) by (bit_vector);
    assert(0x40u8 >> 1 == 0x20u8) by (bit_vector);
    assert(0x20u8 >> 1 == 0x10u8) by (bit_vector);
    assert(0x10u8 >> 1 == 0x08u8) by (bit_vector);
    assert(0x08u8 >> 1 == 0x04u8) by (bit_vector);
    assert(0x04u8 >> 1 == 0x02u8) by (bit_vector);
    assert(0x02u8 >> 1 == 0x01u8) by (bit_vector);
    assert(0x01u8 >> 1 == 0x00u8) by (bit_vector);
}

/// Exactly one bit of `mask` is set.
pub open spec fn is_single_bit(mask: usize) -> bool {
    mask != 0 && mask & ((mask - 1) as usize) == 0
}

proof fn lemma_single_bit_or(a: usize, p: usize)
    by (bit_vector)
    requires
        p != 0 && p & ((p - 1) as usize) == 0,
        a & ((p - 1) as usize) == 0,
        p >> 1 != 0,
    ensures
        (p >> 1) != 0 && (p >> 1) & (((p >> 1) - 1) as usize) == 0,
        2 * (p >> 1) == p,
        a | (p >> 1) == a + (p >> 1),
        (a | (p >> 1)) & (((p >> 1) - 1) as usize) == 0,
        a & (((p >> 1) - 1) as usize) == 0,
{
}

proof fn lemma_single_bit_base(p: usize)
    by (bit_vector)
    requires
        p != 0 && p & ((p - 1) as usize) == 0,
    ensures
        0usize | p == p,
        p & ((p - 1) as usize) == 0,
        0usize & ((p - 1) as usize) == 0,
        0usize >> 1 == 0usize,
{
}

/// Under a single-bit mask that does not run out, the gathered bits are the
/// number they spell, scaled by the place the mask has reached.
proof fn lemma_gathered_scaled(data: Seq<u8>, start: int, count: nat, mask: usize)
    requires
        count >= 1,
        is_single_bit(mask),
        halved(mask, (count - 1) as nat) != 0,
    ensures
        is_single_bit(halved(mask, (count - 1) as nat)),
        gathered(data, start, count, mask) & ((halved(mask, (count - 1) as nat) - 1) as usize)
            == 0,
        gathered(data, start, count, mask) == field_value(data, start, count) * halved(
            mask,
            (count - 1) as nat,
        ),
    decreases count,
{
    let bit = bit_at(data, start + count - 1);
    if count == 1 {
        lemma_single_bit_base(mask);
        assert(gathered(data, start, 0, mask) == 0);
        assert(field_value(data, start, 0) == 0);
        assert(halved(mask, 0) == mask);
        assert(field_value(data, start, 1) == if bit { 1nat } else { 0nat });
        assert(gathered(data, start, 1, mask) == if bit { mask } else { 0usize });
        assert(1 * mask == mask && 0 * mask == 0) by (nonlinear_arith);
    } else {
        let before = (count - 1) as nat;
        let p = halved(mask, (before - 1) as nat);
        let q = halved(mask, before);
        assert(q == p >> 1);
        if p == 0 {
            lemma_single_bit_base(mask);
            assert(false);
        }
        lemma_gathered_scaled(data, start, before, mask);
        let a = gathered(data, start, before, mask);
        let f = field_value(data, start, before);
        lemma_single_bit_or(a, p);
        assert(p == 2 * q);
        assert(a == f * p);
        assert(f * p == (2 * f) * q) by (nonlinear_arith)
            requires
                p == 2 * q,
        ;
        assert((2 * f) * q + q == (2 * f + 1) * q) by (nonlinear_arith);
        assert(gathered(data, start, count, mask) == if bit { a | q } else { a });
        assert(field_value(data, start, count) == 2 * f + if bit { 1nat } else { 0nat });
        if bit {
            assert(gathered(data, start, count, mask) == (2 * f + 1) * q);
        } else {
            assert(gathered(data, start, count, mask) == (2 * f) * q);
        }
    }
}

/// The masks under which two, eight and sixteen bits are read reach the
/// lowest place with the last bit.
proof fn lemma_field_masks()
    ensures
        is_single_bit(0x02),
        is_single_bit(0x80),
        is_single_bit(0x8000),
        halved(0x02, 1) == 1,
        halved(0x80, 7) == 1,
        halved(0x8000, 15) == 1,
{
    assert(is_single_bit(0x02) && is_single_bit(0x80) && is_single_bit(0x8000)) by (bit_vector);
    assert(0x8000usize >> 1 == 0x4000usize && 0x4000usize >> 1 == 0x2000usize && 0x2000usize >> 1
        == 0x1000usize && 0x1000usize >> 1 == 0x800usize && 0x800usize >> 1 == 0x400usize
        && 0x400usize >> 1 == 0x200usize && 0x200usize >> 1 == 0x100usize && 0x100usize >> 1
        == 0x80usize && 0x80usize >> 1 == 0x40usize && 0x40usize >> 1 == 0x20usize && 0x20usize
        >> 1 == 0x10usize && 0x10usize >> 1 == 0x08usize && 0x08usize >> 1 == 0x04usize
        && 0x04usize >> 1 == 0x02usize && 0x02usize >> 1 == 0x01usize) by (bit_vector);
    reveal_with_fuel(halved, 16);
}

/// Bit `i` of a bit sequence, and `false` past its end.
pub open spec fn bit_or_clear(bits: Seq<bool>, i: int) -> bool {
    0 <= i < bits.len() && bits[i]
}

/// `mask` when bit `i` is set, zero otherwise.
pub open spec fn masked_bit(bits: Seq<bool>, i: int, mask: u8) -> u8 {
    if bit_or_clear(bits, i) {
        mask
    } else {
        0
    }
}

/// The byte made of the eight bits from `start` on, the first bit in the most
/// significant place; bits past the end count as clear.
pub open spec fn packed_byte(bits: Seq<bool>, start: int) -> u8 {
    masked_bit(bits, start, 0x80) | masked_bit(bits, start + 1, 0x40) | masked_bit(
        bits,
        start + 2,
        0x20,
    ) | masked_bit(bits, start + 3, 0x10) | masked_bit(bits, start + 4, 0x08) | masked_bit(
        bits,
        start + 5,
        0x04,
    ) | masked_bit(bits, start + 6, 0x02) | masked_bit(bits, start + 7, 0x01)
}

/// The bits packed into bytes, most significant bit first; a partial last
/// byte is filled up with clear bits.
pub open spec fn pack(bits: Seq<bool>) -> Seq<u8> {
    Seq::new(((bits.len() + 7) / 8) as nat, |j: int| packed_byte(bits, 8 * j))
}

proof fn lemma_or_of_masked(x0: u8, x1: u8, x2: u8, x3: u8, x4: u8, x5: u8, x6: u8, x7: u8)
    by (bit_vector)
    requires
        x0 == 0 || x0 == 0x80,
        x1 == 0 || x1 == 0x40,
        x2 == 0 || x2 == 0x20,
        x3 == 0 || x3 == 0x10,
        x4 == 0 || x4 == 0x08,
        x5 == 0 || x5 == 0x04,
        x6 == 0 || x6 == 0x02,
        x7 == 0 || x7 == 0x01,
    ensures
        ((x0 | x1 | x2 | x3 | x4 | x5 | x6 | x7) & 0x80 != 0) == (x0 != 0),
        ((x0 | x1 | x2 | x3 | x4 | x5 | x6 | x7) & 0x40 != 0) == (x1 != 0),
        ((x0 | x1 | x2 | x3 | x4 | x5 | x6 | x7) & 0x20 != 0) == (x2 != 0),
        ((x0 | x1 | x2 | x3 | x4 | x5 | x6 | x7) & 0x10 != 0) == (x3 != 0),
        ((x0 | x1 | x2 | x3 | x4 | x5 | x6 | x7) & 0x08 != 0) == (x4 != 0),
        ((x0 | x1 | x2 | x3 | x4 | x5 | x6 | x7) & 0x04 != 0) == (x5 != 0),
        ((x0 | x1 | x2 | x3 | x4 | x5 | x6 | x7) & 0x02 != 0) == (x6 != 0),
        ((x0 | x1 | x2 | x3 | x4 | x5 | x6 | x7) & 0x01 != 0) == (x7 != 0),
{
}

proof fn lemma_byte_is_or_of_bits(
    x: u8,
    x0: u8,
    x1: u8,
    x2: u8,
    x3: u8,
    x4: u8,
    x5: u8,
    x6: u8,
    x7: u8,
)
    by (bit_vector)
    requires
        x0 == (if x & 0x80 != 0 { 0x80u8 } else { 0u8 }),
        x1 == (if x & 0x40 != 0 { 0x40u8 } else { 0u8 }),
        x2 == (if x & 0x20 != 0 { 0x20u8 } else { 0u8 }),
        x3 == (if x & 0x10 != 0 { 0x10u8 } else { 0u8 }),
        x4 == (if x & 0x08 != 0 { 0x08u8 } else { 0u8 }),
        x5 == (if x & 0x04 != 0 { 0x04u8 } else { 0u8 }),
        x6 == (if x & 0x02 != 0 { 0x02u8 } else { 0u8 }),
        x7 == (if x & 0x01 != 0 { 0x01u8 } else { 0u8 }),
    ensures
        x0 | x1 | x2 | x3 | x4 | x5 | x6 | x7 == x,
{
}

/// Reading the packed bytes bit by bit gives the bits back, and clear bits
/// after them.
pub proof fn lemma_bit_of_pack(bits: Seq<bool>, i: int)
    requires
        0 <= i < 8 * pack(bits).len(),
    ensures
        bit_at(pack(bits), i) == bit_or_clear(bits, i),
{
    let j = i / 8;
    let start = 8 * j;
    lemma_or_of_masked(
        masked_bit(bits, start, 0x80),
        masked_bit(bits, start + 1, 0x40),
        masked_bit(bits, start + 2, 0x20),
        masked_bit(bits, start + 3, 0x10),
        masked_bit(bits, start + 4, 0x08),
        masked_bit(bits, start + 5, 0x04),
        masked_bit(bits, start + 6, 0x02),
        masked_bit(bits, start + 7, 0x01),
    );
    assert(pack(bits)[j] == packed_byte(bits, start));
}

/// Bytes whose bits past the first `count` are clear are the packing of
/// their first `count` bits.
pub proof fn lemma_pack_of_bits(data: Seq<u8>, count: int)
    requires
        0 <= count <= 8 * data.len(),
        8 * data.len() < count + 8,
        forall|i: int| count <= i < 8 * data.len() ==> !#[trigger] bit_at(data, i),
    ensures
        data == pack(Seq::new(count as nat, |i: int| bit_at(data, i))),
{
    let bits = Seq::new(count as nat, |i: int| bit_at(data, i));
    assert(pack(bits).len() == data.len());
    assert forall|j: int| 0 <= j < data.len() implies data[j] == #[trigger] pack(bits)[j] by {
        let x = data[j];
        let start = 8 * j;
        assert forall|k: int| 0 <= k < 8 implies bit_or_clear(bits, start + k) == (x & mask_of(k)
            != 0) by {
            assert((start + k) / 8 == j && (start + k) % 8 == k);
            assert(bit_at(data, start + k) == (x & mask_of(k) != 0));
        }
        assert(bit_or_clear(bits, start + 0) == (x & mask_of(0) != 0));
        assert(bit_or_clear(bits, start + 1) == (x & mask_of(1) != 0));
        assert(bit_or_clear(bits, start + 2) == (x & mask_of(2) != 0));
        assert(bit_or_clear(bits, start + 3) == (x & mask_of(3) != 0));
        assert(bit_or_clear(bits, start + 4) == (x & mask_of(4) != 0));
        assert(bit_or_clear(bits, start + 5) == (x & mask_of(5) != 0));
        assert(bit_or_clear(bits, start + 6) == (x & mask_of(6) != 0));
        assert(bit_or_clear(bits, start + 7) == (x & mask_of(7) != 0));
        lemma_byte_is_or_of_bits(
            x,
            masked_bit(bits, start, 0x80),
            masked_bit(bits, start + 1, 0x40),
            masked_bit(bits, start + 2, 0x20),
            masked_bit(bits, start + 3, 0x10),
            masked_bit(bits, start + 4, 0x08),
            masked_bit(bits, start + 5, 0x04),
            masked_bit(bits, start + 6, 0x02),
            masked_bit(bits, start + 7, 0x01),
        );
    }
    assert(data =~= pack(bits));
}

proof fn lemma_set_mask(x: u8, m: u8, n: u8)
    by (bit_vector)
    requires
        m == 0x80 || m == 0x40 || m == 0x20 || m == 0x10 || m == 0x08 || m == 0x04 || m == 0x02
            || m == 0x01,
        n == 0x80 || n == 0x40 || n == 0x20 || n == 0x10 || n == 0x08 || n == 0x04 || n == 0x02
            || n == 0x01,
    ensures
        (x | m) & m != 0,
        m != n ==> (x | m) & n == x & n,
        0u8 & n == 0,
{
}

/// A writer that collects bits into bytes, most significant bit first.
pub struct Aggregator {
    pub data: Vec<u8>,
    bit_mask: u8,
}

impl Aggregator {
    /// Number of bits appended so far.
    pub closed spec fn count(&self) -> int {
        if self.bit_mask == 0 {
            8 * (self.data@.len() as int)
        } else {
            8 * (self.data@.len() - 1) + offset_of(self.bit_mask)
        }
    }

    /// The bytes collected so far.
    pub closed spec fn bytes(&self) -> Seq<u8> {
        self.data@
    }

    /// The bits appended so far, in order.
    pub closed spec fn bits(&self) -> Seq<bool> {
        Seq::new(self.count() as nat, |i: int| bit_at(self.data@, i))
    }

    /// The mask marks the next free place of the last byte, and the places
    /// from there on are clear.
    pub closed spec fn wf(&self) -> bool {
        &&& self.bit_mask != 0 ==> {
            &&& self.bit_mask != 0x80
            &&& self.bit_mask == mask_of(offset_of(self.bit_mask))
            &&& self.data@.len() >= 1
        }
        &&& forall|i: int|
            self.count() <= i < 8 * self.data@.len() ==> !#[trigger] bit_at(self.data@, i)
    }

    /// The bytes are the packing of the bits.
    pub proof fn lemma_bytes_are_packed(&self)
        requires
            self.wf(),
        ensures
            self.bytes() == pack(self.bits()),
            self.bits().len() == self.count(),
            self.count() >= 0,
    {
        lemma_pack_of_bits(self.data@, self.count());
    }

    /// A writer that holds no bits.
    pub fn new() -> (writer: Aggregator)
        ensures
            writer.wf(),
            writer.bits() == Seq::<bool>::empty(),
            writer.bytes() == Seq::<u8>::empty(),
    {
        let writer = Self { data: Vec::new(), bit_mask: 0 };
        assert(writer.bits() =~= Seq::<bool>::empty());
        writer
    }

    /// Hands out the bytes collected so far.
    pub fn into_bytes(self) -> (data: Vec<u8>)
        ensures
            data@ == self.bytes(),
    {
        self.data
    }

    /// Appends one bit.
    pub fn append(&mut self, bit: bool)
        requires
            old(self).wf(),
        ensures
            final(self).wf(),
            final(self).bits() == old(self).bits().push(bit),
            final(self).bytes() == pack(final(self).bits()),
    {
        if self.bit_mask == 0 {
            self.bit_mask = 0x80;
            self.data.push(0);
        }
        let ghost grown = self.data@;
        let ghost place = offset_of(self.bit_mask);
        let index: usize = self.data.len() - 1;
        let last: u8 = self.data[index];
        assert(grown[index as int] & self.bit_mask == 0) by {
            if old(self).bit_mask == 0 {
                lemma_set_mask(0, 0x80, 0x80);
            } else {
                assert(!bit_at(old(self).data@, old(self).count()));
                assert(old(self).count() / 8 == index && old(self).count() % 8 == place);
            }
        }
        if bit {
            self.data.set(index, last | self.bit_mask);
        }
        proof {
            lemma_mask_step(self.bit_mask);
        }
        let ghost mask = self.bit_mask;
        self.bit_mask = self.bit_mask >> 1;
        proof {
            let count = old(self).count();
            assert(count == 8 * index + place);
            assert(self.count() == count + 1);
            assert forall|i: int| 0 <= i < 8 * self.data@.len() implies #[trigger] bit_at(
                self.data@,
                i,
            ) == (if i < count {
                bit_at(old(self).data@, i)
            } else {
                i == count && bit
            }) by {
                let k = i % 8;
                if i / 8 == index {
                    lemma_set_mask(last, mask, mask_of(k));
                    if old(self).bit_mask == 0 {
                        assert(last == 0);
                    } else {
                        assert(last == old(self).data@[index as int]);
                        if i > count {
                            assert(!bit_at(old(self).data@, i));
                        }
                    }
                    if i == count {
                        assert(mask_of(k) == mask);
                    } else {
                        assert(mask_of(k) != mask);
                    }
                } else {
                    assert(self.data@[i / 8] == old(self).data@[i / 8]);
                }
            }
            assert(self.bits() =~= old(self).bits().push(bit));
            self.lemma_bytes_are_packed();
        }
    }
}

/// A sequential reader of the bits of a byte buffer.
pub struct Enumerator<'a> {
    pub data: &'a [u8],
    index: usize,
    mask: u8,
}

impl<'a> Enumerator<'a> {
    /// The cursor stands at a bit of the buffer or at its end.
    pub closed spec fn wf(&self) -> bool {
        &&& self.mask == mask_of(offset_of(self.mask))
        &&& (self.index < self.data@.len() || (self.index == 0 && self.mask == 0x80))
    }

    /// Number of bits read so far.
    pub closed spec fn position(&self) -> int {
        8 * self.index + offset_of(self.mask)
    }

    /// The bytes that are read.
    pub closed spec fn bytes(&self) -> Seq<u8> {
        self.data@
    }

    /// Number of bits in the buffer.
    pub open spec fn total_bits(&self) -> int {
        8 * (self.bytes().len() as int)
    }

    /// A well-formed cursor never stands past the end.
    pub proof fn lemma_position_in_range(&self)
        requires
            self.wf(),
        ensures
            0 <= self.position() <= self.total_bits(),
    {
    }

    /// A reader that stands before the first bit of `data`.
    pub fn new(data: &'a [u8]) -> (reader: Enumerator<'a>)
        ensures
            reader.wf(),
            reader.bytes() == data@,
            reader.position() == 0,
    {
        Self { data, mask: 0x80, index: 0 }
    }

    /// Whether a bit is left to read.
    pub fn has_next(&self) -> (more: bool)
        requires
            self.wf(),
        ensures
            more == (self.position() < self.total_bits()),
    {
        self.index < self.data.len() && (self.mask != 0 || self.index + 1 < self.data.len())
    }

    /// Reads one bit, or fails when the buffer is used up.
    pub fn next(&mut self) -> (r: Result<bool, Error>)
        requires
            old(self).wf(),
        ensures
            final(self).wf(),
            final(self).bytes() == old(self).bytes(),
            match r {
                Ok(bit) => {
                    &&& old(self).position() < old(self).total_bits()
                    &&& bit == bit_at(old(self).bytes(), old(self).position())
                    &&& final(self).position() == old(self).position() + 1
                },
                Err(e) => {
                    &&& e == Error::Exhausted
                    &&& old(self).position() == old(self).total_bits()
                    &&& final(self).position() == old(self).position()
                },
            },
    {
        if !self.has_next() {
            return Err(Error::Exhausted);
        }
        let len: usize = self.data.len();
        if self.mask == 0 {
            assert(self.index + 1 < len);
            self.mask = 0x80;
            self.index += 1;
        }
        let b = (self.data[self.index] & self.mask) != 0;
        proof {
            lemma_mask_step(self.mask);
        }
        self.mask = self.mask >> 1;
        Ok(b)
    }

    /// Reads `count` bits and gathers them under `bit_mask`, which is moved
    /// one place to the right after every bit.
    pub fn next_bits(&mut self, bit_mask: usize, count: usize) -> (r: Result<usize, Error>)
        requires
            old(self).wf(),
        ensures
            final(self).wf(),
            final(self).bytes() == old(self).bytes(),
            match r {
                Ok(value) => {
                    &&& old(self).position() + count <= old(self).total_bits()
                    &&& value == gathered(
                        old(self).bytes(),
                        old(self).position(),
                        count as nat,
                        bit_mask,
                    )
                    &&& final(self).position() == old(self).position() + count
                },
                Err(e) => {
                    &&& e == Error::Exhausted
                    &&& old(self).position() + count > old(self).total_bits()
                    &&& final(self).position() == old(self).total_bits()
                },
            },
    {
        let mut value: usize = 0;
        let mut mask: usize = bit_mask;
        let mut i: usize = 0;
        while i < count
            invariant
                self.wf(),
                self.bytes() == old(self).bytes(),
                i <= count,
                self.position() == old(self).position() + i,
                self.position() <= self.total_bits(),
                mask == halved(bit_mask, i as nat),
                value == gathered(old(self).bytes(), old(self).position(), i as nat, bit_mask),
            decreases count - i,
        {
            match self.next() {
                Ok(bit) => {
                    if bit {
                        value = value | mask;
                    }
                },
                Err(e) => {
                    return Err(e);
                },
            }
            mask = mask >> 1;
            i += 1;
        }
        Ok(value)
    }

    /// Reads a two-bit number.
    pub fn next_u2(&mut self) -> (r: Result<usize, Error>)
        requires
            old(self).wf(),
        ensures
            final(self).wf(),
            final(self).bytes() == old(self).bytes(),
            match r {
                Ok(value) => {
                    &&& old(self).position() + 2 <= old(self).total_bits()
                    &&& value == field_value(old(self).bytes(), old(self).position(), 2)
                    &&& final(self).position() == old(self).position() + 2
                },
                Err(e) => {
                    &&& e == Error::Exhausted
                    &&& old(self).position() + 2 > old(self).total_bits()
                    &&& final(self).position() == old(self).total_bits()
                },
            },
    {
        let bit_mask: usize = 0x02;
        proof {
            lemma_field_masks();
            lemma_gathered_scaled(self.bytes(), self.position(), 2, bit_mask);
        }
        self.next_bits(bit_mask, 2)
    }

    /// Reads an eight-bit number.
    pub fn next_u8(&mut self) -> (r: Result<usize, Error>)
        requires
            old(self).wf(),
        ensures
            final(self).wf(),
            final(self).bytes() == old(self).bytes(),
            match r {
                Ok(value) => {
                    &&& old(self).position() + 8 <= old(self).total_bits()
                    &&& value == field_value(old(self).bytes(), old(self).position(), 8)
                    &&& final(self).position() == old(self).position() + 8
                },
                Err(e) => {
                    &&& e == Error::Exhausted
                    &&& old(self).position() + 8 > old(self).total_bits()
                    &&& final(self).position() == old(self).total_bits()
                },
            },
    {
        let bit_mask: usize = 0x80;
        proof {
            lemma_field_masks();
            lemma_gathered_scaled(self.bytes(), self.position(), 8, bit_mask);
        }
        self.next_bits(bit_mask, 8)
    }

    /// Reads a sixteen-bit number.
    pub fn next_u16(&mut self) -> (r: Result<usize, Error>)
        requires
            old(self).wf(),
        ensures
            final(self).wf(),
            final(self).bytes() == old(self).bytes(),
            match r {
                Ok(value) => {
                    &&& old(self).position() + 16 <= old(self).total_bits()
                    &&& value == field_value(old(self).bytes(), old(self).position(), 16)
                    &&& final(self).position() == old(self).position() + 16
                },
                Err(e) => {
                    &&& e == Error::Exhausted
                    &&& old(self).position() + 16 > old(self).total_bits()
                    &&& final(self).position() == old(self).total_bits()
                },
            },
    {
        let bit_mask: usize = 0x8000;
        proof {
            lemma_field_masks();
            lemma_gathered_scaled(self.bytes(), self.position(), 16, bit_mask);
        }
        self.next_bits(bit_mask, 16)
    }
}

} // verus!
