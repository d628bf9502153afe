//! The 32-bit container and its push and pop operations.
use vstd::prelude::*;
use vstd::arithmetic::power2::{lemma2_to64, lemma_pow2_adds, lemma_pow2_pos, pow2};
use vstd::arithmetic::div_mod::lemma_multiply_divide_lt;
use vstd::arithmetic::mul::lemma_mul_upper_bound;
use vstd::bits::{
    lemma_u32_low_bits_mask_is_mod,
    lemma_u32_pow2_no_overflow,
    lemma_u32_shl_is_mul,
    lemma_u32_shr_is_div,
    lemma_u64_shl_is_mul,
};
use crate::model::{pushed, row_modulus, shifted, top_field};

verus! {

/// A 32-bit container where fields of a few bits each are pushed in at the
/// low end and popped out at the high end.
///
/// Its view is the current bit pattern as a natural number below `2^32`.
/// Equality and ordering are those of the bit pattern.
#[derive(Debug, Default, Clone, Copy, PartialEq, Eq, Structural, Ord)]
pub struct Bits32 {
    bits: u32,
}

impl View for Bits32 {
    type V = nat;

    closed spec fn view(&self) -> nat {
        self.bits as nat
    }
}

impl PartialOrd for Bits32 {
    fn partial_cmp(&self, other: &Bits32) -> (r: Option<core::cmp::Ordering>) {
        if self.bits < other.bits {
            Some(core::cmp::Ordering::Less)
        } else if self.bits > other.bits {
            Some(core::cmp::Ordering::Greater)
        } else {
            Some(core::cmp::Ordering::Equal)
        }
    }
}

impl vstd::std_specs::cmp::PartialOrdSpecImpl for Bits32 {
    open spec fn obeys_partial_cmp_spec() -> bool {
        true
    }

    /// Containers are ordered by their bit patterns.
    open spec fn partial_cmp_spec(&self, other: &Bits32) -> Option<core::cmp::Ordering> {
        if self@ < other@ {
            Some(core::cmp::Ordering::Less)
        } else if self@ > other@ {
            Some(core::cmp::Ordering::Greater)
        } else {
            Some(core::cmp::Ordering::Equal)
        }
    }
}

/// Shifting a `u32` left drops the bits that pass the top of the row.
proof fn lemma_shl_is_shifted(x: u32, n: u32)
    requires
        n < 32,
    ensures
        (x << n) as nat == shifted(x as nat, n as nat),
{
    let wide: u64 = (x as u64) << (n as u64);
    assert((x << n) as u64 == wide % 0x1_0000_0000) by (bit_vector)
        requires
            n < 32,
            wide == (x as u64) << (n as u64),
    ;
    lemma_u32_pow2_no_overflow(n as nat);
    lemma_mul_upper_bound(x as int, 0xffff_ffff, pow2(n as nat) as int, 0xffff_ffff);
    lemma_u64_shl_is_mul(x as u64, n as u64);
    lemma2_to64();
}

/// The low-bits mask built by shifting selects `x` modulo `2^n`.
proof fn lemma_mask_is_mod(x: u32, n: u32)
    requires
        n < 32,
    ensures
        1u32 << n >= 1,
        x & (((1u32 << n) - 1) as u32) == x as nat % pow2(n as nat),
{
    lemma_u32_pow2_no_overflow(n as nat);
    lemma_u32_shl_is_mul(1, n);
    lemma_u32_low_bits_mask_is_mod(x, n as nat);
}

impl Bits32 {
    /// Bit width of this container.
    pub const BIT_WIDTH: u32 = 32;

    /// The container holds exactly `row_bits()` bits.
    pub proof fn lemma_view_bounded(&self)
        ensures
            self@ < row_modulus(),
    {
        lemma2_to64();
    }

    /// Two containers are equal exactly when their bit patterns are.
    pub proof fn lemma_view_injective(a: Bits32, b: Bits32)
        ensures
            (a@ == b@) == (a == b),
    {
    }

    /// Creates a container holding the bit pattern `bits`.
    pub fn new(bits: u32) -> (r: Bits32)
        ensures
            r@ == bits as nat,
    {
        Bits32 { bits }
    }

    /// Copies out the current bit pattern.
    pub fn get(&self) -> (r: u32)
        ensures
            r as nat == self@,
    {
        self.bits
    }

    /// Pushes the low `num_bits` bits of `value` into the low end of the row,
    /// moving the previous content up by `num_bits` bits (the top bits are
    /// lost). Higher bits of `value` are ignored. A width of `BIT_WIDTH` or
    /// more is a caller error and is not admitted.
    pub fn push(&mut self, num_bits: u32, value: u32)
        requires
            num_bits < Self::BIT_WIDTH,
        ensures
            final(self)@ == pushed(old(self)@, num_bits as nat, value as nat),
    {
        let bits: u32 = self.bits;
        proof {
            lemma_mask_is_mod(value, num_bits);
            lemma_shl_is_shifted(bits, num_bits);
        }
        let mask: u32 = (1u32 << num_bits) - 1;
        let field: u32 = value & mask;
        let moved: u32 = bits << num_bits;
        assert(moved | field == moved + field) by (bit_vector)
            requires
                num_bits < 32,
                moved == bits << num_bits,
                field == value & (((1u32 << num_bits) - 1) as u32),
        ;
        self.bits = moved | field;
    }

    /// Pushes a boolean as a single bit: one for `true`, zero for `false`.
    pub fn push_bool(&mut self, value: bool)
        ensures
            final(self)@ == pushed(old(self)@, 1, if value { 1 } else { 0 }),
    {
        self.push(1, if value { 1 } else { 0 })
    }

    /// Pops the top `num_bits` bits of the row and returns them
    /// right-justified; the rest of the row moves up by `num_bits` bits and
    /// zeros enter at the low end. Popping zero bits returns zero and leaves
    /// the row as it was. A width of `BIT_WIDTH` or more is a caller error and
    /// is not admitted.
    pub fn pop(&mut self, num_bits: u32) -> (r: u32)
        requires
            num_bits < Self::BIT_WIDTH,
        ensures
            r as nat == top_field(old(self)@, num_bits as nat),
            (r as nat) < pow2(num_bits as nat),
            final(self)@ == shifted(old(self)@, num_bits as nat),
    {
        let bits: u32 = self.bits;
        proof {
            lemma_shl_is_shifted(bits, num_bits);
            lemma_top_field_bounded(bits as nat, num_bits as nat);
        }
        let res: u32 = if num_bits == 0 {
            0
        } else {
            proof {
                lemma_u32_shr_is_div(bits, (32 - num_bits) as u32);
            }
            bits >> (32 - num_bits)
        };
        self.bits = bits << num_bits;
        res
    }

    /// Pops the top bit of the row as a boolean.
    pub fn pop_bool(&mut self) -> (r: bool)
        ensures
            r == (top_field(old(self)@, 1) != 0),
            final(self)@ == shifted(old(self)@, 1),
    {
        self.pop(1) != 0
    }
}

/// The top `n` bits of a row, right-justified, are below `2^n`; with `n`
/// zero they are zero.
proof fn lemma_top_field_bounded(v: nat, n: nat)
    requires
        v < 0x1_0000_0000,
        n < 32,
    ensures
        top_field(v, n) < pow2(n),
        n == 0 ==> top_field(v, n) == 0,
{
    lemma2_to64();
    lemma_pow2_pos((32 - n) as nat);
    lemma_pow2_adds((32 - n) as nat, n);
    lemma_multiply_divide_lt(v as int, pow2((32 - n) as nat) as int, pow2(n) as int);
}

} // verus!
