//! An 8-bit cyclic redundancy check, computed one bit at a time.
//!
//! The data is read as one long row of bits, the high bit of the first byte
//! first, followed by eight zero bits. A register of eight bits is filled with
//! the first byte. Each step moves the register up by one bit and takes the
//! next bit of the row in at the bottom; when the bit that left at the top was
//! set, the polynomial is added to the register. The register after the last
//! step is the checksum.

use vstd::prelude::*;

verus! {

/// The bit of `data` at `index`, counted from the high bit of the first byte.
/// Past the end every bit is zero.
pub open spec fn bit_at(data: Seq<u8>, index: nat) -> bool {
    &&& index < 8 * data.len()
    &&& (data[index as int / 8] >> ((7 - index % 8) as u8)) & 1 == 1
}

/// One step of the division: `register` moves up by one bit, `incoming`
/// enters at the bottom, and `poly` is added when the top bit was set.
pub open spec fn divide(poly: u8, register: u8, incoming: bool) -> u8 {
    let moved = (register << 1) | (if incoming { 1u8 } else { 0u8 });
    if register & 0x80 == 0x80 {
        moved ^ poly
    } else {
        moved
    }
}

/// The register after `steps` steps over `data`.
pub open spec fn remainder(poly: u8, data: Seq<u8>, steps: nat) -> u8
    decreases steps,
{
    if steps == 0 {
        if data.len() == 0 {
            0
        } else {
            data[0]
        }
    } else {
        divide(poly, remainder(poly, data, (steps - 1) as nat), bit_at(data, steps + 7))
    }
}

/// The checksum of `data` under `poly`: the register after one step for each
/// bit of `data`.
pub open spec fn checksum(poly: u8, data: Seq<u8>) -> u8 {
    remainder(poly, data, 8 * data.len())
}

/// What a check of stored data can find.
#[derive(Debug, Clone, Copy, PartialEq, Eq, Structural)]
pub enum Error {
    /// The checksum stored with the data is not the checksum of the data.
    BadChecksum,
}

/// A single bit.
#[derive(Debug, Clone, Copy, PartialEq, Eq, Structural)]
pub enum Bit {
    High,
    Unset,
}

impl Bit {
    /// Whether the bit is one.
    pub open spec fn is_high(self) -> bool {
        self == Bit::High
    }

    /// The bit that `n` stands for: `n` is 0 or 1.
    pub fn from(n: u8) -> (bit: Bit)
        requires
            n <= 1,
        ensures
            bit.is_high() <==> n == 1,
    {
        if n == 1 {
            Bit::High
        } else {
            Bit::Unset
        }
    }

}

impl core::ops::BitOr<u8> for Bit {
    type Output = u8;

    /// `rhs` with its lowest bit set where this bit is set.
    fn bitor(self, rhs: u8) -> (out: u8) {
        match self {
            Bit::High => {
                assert(1u8 | rhs == rhs | 1u8) by (bit_vector);
                1 | rhs
            },
            Bit::Unset => {
                assert(rhs | 0u8 == rhs) by (bit_vector);
                rhs
            },
        }
    }
}

impl vstd::std_specs::ops::BitOrSpecImpl<u8> for Bit {
    open spec fn obeys_bitor_spec() -> bool {
        true
    }

    open spec fn bitor_req(self, rhs: u8) -> bool {
        true
    }

    open spec fn bitor_spec(self, rhs: u8) -> u8 {
        rhs | (if self.is_high() {
            1u8
        } else {
            0u8
        })
    }
}

/// The division in progress: the register, the data, and how far into the
/// data the division has come.
pub struct Register<'a> {
    /// The eight bits of the register.
    pub current: u8,
    n: &'a [u8],
    /// The place of the next bit to take in: its number within its byte, from
    /// 7 down to 0, and the number of whole bytes that have left the register.
    cursor: (u8, usize),
}

impl<'a> Register<'a> {
    /// The eight bits that the register holds.
    pub closed spec fn value(&self) -> u8 {
        self.current
    }

    /// The data under division.
    pub closed spec fn data(&self) -> Seq<u8> {
        self.n@
    }

    /// The number of steps taken so far.
    pub closed spec fn consumed(&self) -> nat {
        (8 * self.cursor.1 + 7 - self.cursor.0) as nat
    }

    /// The cursor points into the data or stands right behind its last step.
    pub closed spec fn wf(&self) -> bool {
        &&& self.cursor.0 <= 7
        &&& self.cursor.1 <= self.n@.len()
        &&& self.cursor.1 == self.n@.len() ==> self.cursor.0 == 7
    }

    /// Whether every step over the data has been taken.
    pub open spec fn exhausted(&self) -> bool {
        self.consumed() == 8 * self.data().len()
    }

    /// A register over `n`, filled with its first byte, before the first step.
    pub fn new(n: &'a [u8]) -> (register: Self)
        ensures
            register.wf(),
            register.data() == n@,
            register.consumed() == 0,
            register.value() == (if n@.len() == 0 { 0u8 } else { n@[0] }),
    {
        Self { current: if n.len() == 0 { 0 } else { n[0] }, n, cursor: (7, 0) }
    }

    /// Takes one step without adding the polynomial, and hands out the bit
    /// that left the register at the top; `None`, and no step, once the data
    /// is exhausted.
    pub fn shift(&mut self) -> (out: Option<Bit>)
        requires
            old(self).wf(),
        ensures
            final(self).wf(),
            final(self).data() == old(self).data(),
            old(self).exhausted() ==> out is None && *final(self) == *old(self),
            !old(self).exhausted() ==> {
                &&& out is Some
                &&& out->0.is_high() <==> old(self).value() & 0x80 == 0x80
                &&& final(self).consumed() == old(self).consumed() + 1
                &&& final(self).value() == (old(self).value() << 1) | (if bit_at(
                    old(self).data(),
                    old(self).consumed() + 8,
                ) {
                    1u8
                } else {
                    0u8
                })
            },
    {
        if self.cursor.1 >= self.n.len() {
            return None;
        }
        let current: u8 = self.current;
        let top: u8 = current >> 7;
        assert(top <= 1 && (top == 1 <==> current & 0x80 == 0x80)) by (bit_vector)
            requires
                top == current >> 7,
        ;
        let bit = Bit::from(top);
        let incoming = self.pop();
        self.current = incoming | (current << 1);
        Some(bit)
    }

    /// Hands out the next bit of the data, a zero bit behind its end, and
    /// moves the cursor past it.
    fn pop(&mut self) -> (bit: Bit)
        requires
            old(self).wf(),
            !old(self).exhausted(),
        ensures
            final(self).wf(),
            final(self).data() == old(self).data(),
            final(self).value() == old(self).value(),
            final(self).consumed() == old(self).consumed() + 1,
            bit.is_high() <==> bit_at(old(self).data(), old(self).consumed() + 8),
    {
        let ghost index = self.consumed() + 8;
        proof {
            vstd::slice::axiom_spec_len(self.n);
        }
        assert(index / 8 == self.cursor.1 + 1 && index % 8 == 7 - self.cursor.0);
        let bit = if self.cursor.1 + 1 < self.n.len() {
            let byte: u8 = self.n[self.cursor.1 + 1];
            let place: u8 = self.cursor.0;
            assert((byte >> place) & 1 <= 1) by (bit_vector);
            Bit::from(byte >> place & 1)
        } else {
            Bit::Unset
        };
        self.advance();
        bit
    }

    /// Moves the cursor on by one bit.
    fn advance(&mut self)
        requires
            old(self).wf(),
            !old(self).exhausted(),
        ensures
            final(self).wf(),
            final(self).data() == old(self).data(),
            final(self).value() == old(self).value(),
            final(self).consumed() == old(self).consumed() + 1,
    {
        proof {
            vstd::slice::axiom_spec_len(self.n);
        }
        if self.cursor.0 == 0 {
            self.cursor.1 += 1;
            self.cursor.0 = 7;
        } else {
            self.cursor.0 -= 1;
        }
    }

    /// Adds `n` to the register.
    pub fn xor(&mut self, n: u8)
        ensures
            final(self).wf() == old(self).wf(),
            final(self).data() == old(self).data(),
            final(self).consumed() == old(self).consumed(),
            final(self).value() == old(self).value() ^ n,
    {
        self.current ^= n
    }

    /// The register's eight bits.
    pub fn get(self) -> (out: u8)
        ensures
            out == self.value(),
    {
        self.current
    }
}

/// The checksum of `n` under the polynomial `poly`.
pub fn crc(poly: u8, n: &[u8]) -> (out: u8)
    ensures
        out == checksum(poly, n@),
{
    let mut register = Register::new(n);
    loop
        invariant_except_break
            register.wf(),
            register.data() == n@,
            register.value() == remainder(poly, n@, register.consumed()),
        ensures
            register.value() == checksum(poly, n@),
        decreases 8 * n@.len() - register.consumed(),
    {
        match register.shift() {
            None => {
                break ;
            },
            Some(bit) => {
                if Bit::High == bit {
                    register.xor(poly);
                }
            },
        }
    }
    register.get()
}

/// `data` with the bit at `index` turned over.
pub open spec fn flipped(data: Seq<u8>, index: nat) -> Seq<u8> {
    data.update(index as int / 8, data[index as int / 8] ^ (0x80u8 >> ((index % 8) as u8)))
}

/// The register that a lone set bit has become `exponent` steps after it
/// entered at the bottom, with zero bits coming in behind it.
pub open spec fn power(poly: u8, exponent: nat) -> u8
    decreases exponent,
{
    if exponent == 0 {
        1
    } else {
        divide(poly, power(poly, (exponent - 1) as nat), false)
    }
}

/// The checksum of no data is zero, whatever the polynomial.
pub proof fn lemma_checksum_of_nothing(poly: u8)
    ensures
        checksum(poly, Seq::<u8>::empty()) == 0,
{
}

/// A step is linear: the step from the sum of two registers, on the sum of
/// two incoming bits, is the sum of the two steps.
pub proof fn lemma_divide_is_linear(poly: u8, a: u8, b: u8, x: bool, y: bool)
    ensures
        divide(poly, a ^ b, x != y) == divide(poly, a, x) ^ divide(poly, b, y),
{
    let p = if x { 1u8 } else { 0u8 };
    let q = if y { 1u8 } else { 0u8 };
    let r = if x != y { 1u8 } else { 0u8 };
    assert(r == p ^ q) by (bit_vector)
        requires
            p <= 1,
            q <= 1,
            r <= 1,
            (r == 1) <==> ((p == 1) != (q == 1)),
    ;
    assert((((a ^ b) << 1) | (p ^ q)) == ((a << 1) | p) ^ ((b << 1) | q)) by (bit_vector)
        requires
            p <= 1,
            q <= 1,
    ;
    assert(((a ^ b) & 0x80 == 0x80) <==> ((a & 0x80 == 0x80) != (b & 0x80 == 0x80)))
        by (bit_vector);
    let m = (a << 1) | p;
    let n = (b << 1) | q;
    assert((m ^ poly) ^ (n ^ poly) == m ^ n) by (bit_vector);
    assert((m ^ poly) ^ n == (m ^ n) ^ poly) by (bit_vector);
    assert(m ^ (n ^ poly) == (m ^ n) ^ poly) by (bit_vector);
}

/// In its first seven steps a lone bit only moves up.
pub proof fn lemma_power_below_eight(poly: u8, exponent: nat)
    requires
        exponent <= 7,
    ensures
        power(poly, exponent) == 1u8 << (exponent as u8),
    decreases exponent,
{
    if exponent == 0 {
        assert(1u8 << 0u8 == 1u8) by (bit_vector);
    } else {
        lemma_power_below_eight(poly, (exponent - 1) as nat);
        let e = exponent as u8;
        let before = (exponent - 1) as u8;
        let x = power(poly, (exponent - 1) as nat);
        assert((x & 0x80 != 0x80) && ((x << 1) | 0u8) == 1u8 << e) by (bit_vector)
            requires
                1 <= e <= 7,
                before == e - 1,
                x == 1u8 << before,
        ;
    }
}

/// Under a polynomial whose lowest bit is set, a lone bit never vanishes
/// from the register.
pub proof fn lemma_power_of_odd_polynomial(poly: u8, exponent: nat)
    requires
        poly & 1 == 1,
    ensures
        power(poly, exponent) != 0,
    decreases exponent,
{
    if exponent > 0 {
        lemma_power_of_odd_polynomial(poly, (exponent - 1) as nat);
        let x = power(poly, (exponent - 1) as nat);
        assert(divide(poly, x, false) != 0) by (bit_vector)
            requires
                poly & 1 == 1,
                x != 0,
        ;
    }
}

/// Turning one bit of the data over turns over exactly that bit of the row
/// of bits.
pub proof fn lemma_bits_of_flipped(data: Seq<u8>, index: nat, other: nat)
    requires
        index < 8 * data.len(),
    ensures
        bit_at(flipped(data, index), other) == (bit_at(data, other) != (other == index)),
{
    if other < 8 * data.len() && other / 8 == index / 8 {
        let byte = data[index as int / 8];
        let i = (index % 8) as u8;
        let j = (other % 8) as u8;
        let k = (7 - other % 8) as u8;
        assert((((byte ^ (0x80u8 >> i)) >> k) & 1 == 1) == (((byte >> k) & 1 == 1) != (j == i)))
            by (bit_vector)
            requires
                i <= 7,
                j <= 7,
                k == 7 - j,
        ;
    }
}

/// The registers of two divisions whose data differ in the bit at `index`
/// alone differ, after any number of steps, by what that lone bit has become
/// in the register.
pub proof fn lemma_remainder_of_flipped(poly: u8, data: Seq<u8>, index: nat, steps: nat)
    requires
        index < 8 * data.len(),
    ensures
        remainder(poly, flipped(data, index), steps) == remainder(poly, data, steps) ^ (if steps
            + 7 >= index {
            power(poly, (steps + 7 - index) as nat)
        } else {
            0u8
        }),
    decreases steps,
{
    let turned = flipped(data, index);
    if steps == 0 {
        let first = data[0];
        if index <= 7 {
            lemma_power_below_eight(poly, (7 - index) as nat);
            let i = index as u8;
            let e = (7 - index) as u8;
            assert(0x80u8 >> i == 1u8 << e) by (bit_vector)
                requires
                    i <= 7,
                    e == 7 - i,
            ;
        } else {
            assert(first ^ 0u8 == first) by (bit_vector);
        }
    } else {
        let before = (steps - 1) as nat;
        lemma_remainder_of_flipped(poly, data, index, before);
        lemma_bits_of_flipped(data, index, steps + 7);
        let a = remainder(poly, data, before);
        let b = bit_at(data, steps + 7);
        if steps + 7 < index {
            assert(a ^ 0u8 == a) by (bit_vector);
            let r = divide(poly, a, b);
            assert(r ^ 0u8 == r) by (bit_vector);
        } else if steps + 7 == index {
            assert(a ^ 0u8 == a) by (bit_vector);
            lemma_divide_is_linear(poly, a, 0u8, b, true);
            assert(divide(poly, 0u8, true) == 1u8) by (bit_vector);
        } else {
            let e = power(poly, (before + 7 - index) as nat);
            lemma_divide_is_linear(poly, a, e, b, false);
        }
    }
}

/// Turning the bit at `index` of the data over changes the checksum by what
/// a lone bit becomes in as many steps as lie between its entry into the
/// register and the end of the division.
pub proof fn lemma_checksum_of_flipped(poly: u8, data: Seq<u8>, index: nat)
    requires
        index < 8 * data.len(),
    ensures
        checksum(poly, flipped(data, index)) == checksum(poly, data) ^ power(
            poly,
            (8 * data.len() + 7 - index) as nat,
        ),
{
    lemma_remainder_of_flipped(poly, data, index, 8 * data.len());
}

/// Under a polynomial whose lowest bit is set, every change of a single bit
/// of the data changes the checksum.
pub proof fn lemma_odd_polynomial_detects_flip(poly: u8, data: Seq<u8>, index: nat)
    requires
        poly & 1 == 1,
        index < 8 * data.len(),
    ensures
        checksum(poly, flipped(data, index)) != checksum(poly, data),
{
    lemma_checksum_of_flipped(poly, data, index);
    let e = power(poly, (8 * data.len() + 7 - index) as nat);
    lemma_power_of_odd_polynomial(poly, (8 * data.len() + 7 - index) as nat);
    let sum = checksum(poly, data);
    assert(sum ^ e != sum) by (bit_vector)
        requires
            e != 0,
    ;
}

} // verus!
