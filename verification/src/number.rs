//! JSON numbers, and the wide reads that decoding narrows.
//!
//! Decoding a number never fails: the number is read as one 64-bit pattern
//! and the pattern is cut down to the width of the target type. The cut
//! silently loses whatever does not fit; a caller that needs a range check
//! makes it before decoding.

use vstd::arithmetic::div_mod::lemma_small_mod;
use vstd::arithmetic::power2::*;
use vstd::bits::*;
use vstd::prelude::*;

verus! {

/// A JSON number: a non-negative integer, a negative integer, or a double
/// held by its IEEE 754 bit pattern.
#[derive(Clone, Copy, Debug, PartialEq, Eq, Structural)]
pub enum Number {
    PosInt(u64),
    NegInt(i64),
    Float(u64),
}

/// The integer types a number can be decoded into.
#[derive(Clone, Copy, Debug, PartialEq, Eq, Structural)]
pub enum NumberKind {
    U8,
    U16,
    U32,
    U64,
    I8,
    I16,
    I32,
    I64,
}

/// Two to the power 52: the implicit leading bit of a double's significand.
pub open spec fn hidden_bit() -> int {
    0x10_0000_0000_0000
}

/// Two to the power 64.
pub open spec fn word() -> int {
    0x1_0000_0000_0000_0000
}

/// The biased exponent of the double with bit pattern `bits`.
pub open spec fn float_exponent(bits: u64) -> int {
    ((bits as int) / 0x10_0000_0000_0000) % 2048
}

/// The fraction bits of the double with bit pattern `bits`.
pub open spec fn float_fraction(bits: u64) -> int {
    (bits as int) % 0x10_0000_0000_0000
}

/// Whether the sign bit of `bits` is set.
pub open spec fn float_negative(bits: u64) -> bool {
    bits >= 0x8000_0000_0000_0000
}

/// Whether `bits` is the pattern of a NaN.
pub open spec fn float_nan(bits: u64) -> bool {
    float_exponent(bits) == 2047 && float_fraction(bits) != 0
}

/// The absolute value of the double with bit pattern `bits`, rounded towards
/// zero to an integer. An infinity counts as two to the power 1024.
pub open spec fn float_magnitude(bits: u64) -> nat {
    let exponent = float_exponent(bits);
    let significand = hidden_bit() + float_fraction(bits);
    if exponent < 1023 {
        0
    } else if exponent < 1075 {
        (significand / (pow2((1075 - exponent) as nat) as int)) as nat
    } else {
        (significand * pow2((exponent - 1075) as nat)) as nat
    }
}

/// The double with bit pattern `bits` as a `u64`: rounded towards zero and
/// held to the range of `u64`; a NaN gives zero.
pub open spec fn float_as_u64(bits: u64) -> int {
    if float_nan(bits) || float_negative(bits) {
        0
    } else if float_magnitude(bits) > u64::MAX {
        u64::MAX as int
    } else {
        float_magnitude(bits) as int
    }
}

/// The double with bit pattern `bits` as an `i64`: rounded towards zero and
/// held to the range of `i64`; a NaN gives zero.
pub open spec fn float_as_i64(bits: u64) -> int {
    if float_nan(bits) {
        0
    } else if float_negative(bits) {
        if float_magnitude(bits) > -(i64::MIN as int) {
            i64::MIN as int
        } else {
            -(float_magnitude(bits) as int)
        }
    } else if float_magnitude(bits) > i64::MAX {
        i64::MAX as int
    } else {
        float_magnitude(bits) as int
    }
}

/// The 64-bit two's complement pattern of `i`, as a non-negative integer.
pub open spec fn twos_complement(i: int) -> int {
    if i < 0 {
        word() + i
    } else {
        i
    }
}

impl Number {
    /// The 64-bit pattern that an unsigned target reads from this number.
    pub open spec fn unsigned_pattern(self) -> int {
        match self {
            Number::PosInt(p) => p as int,
            Number::NegInt(i) => twos_complement(i as int),
            Number::Float(bits) => float_as_u64(bits),
        }
    }

    /// The 64-bit pattern that a signed target reads from this number.
    pub open spec fn signed_pattern(self) -> int {
        match self {
            Number::PosInt(p) => p as int,
            Number::NegInt(i) => twos_complement(i as int),
            Number::Float(bits) => twos_complement(float_as_i64(bits)),
        }
    }

    /// The number that stands for the unsigned integer `v`.
    pub open spec fn of_unsigned(v: u64) -> Number {
        Number::PosInt(v)
    }

    /// The number that stands for the signed integer `i`.
    pub open spec fn of_signed(i: i64) -> Number {
        if i < 0 {
            Number::NegInt(i)
        } else {
            Number::PosInt(i as u64)
        }
    }

    /// Reads the number as the 64-bit pattern for an unsigned target.
    pub fn read_unsigned(&self) -> (pattern: u64)
        ensures
            pattern == self.unsigned_pattern(),
    {
        match self {
            Number::PosInt(p) => *p,
            Number::NegInt(i) => pattern_of(*i),
            Number::Float(bits) => float_to_u64(*bits),
        }
    }

    /// Reads the number as the 64-bit pattern for a signed target.
    pub fn read_signed(&self) -> (pattern: u64)
        ensures
            pattern == self.signed_pattern(),
    {
        match self {
            Number::PosInt(p) => *p,
            Number::NegInt(i) => pattern_of(*i),
            Number::Float(bits) => pattern_of(float_to_i64(*bits)),
        }
    }

    /// The number that stands for the unsigned integer `v`.
    pub fn from_unsigned(v: u64) -> (n: Number)
        ensures
            n == Number::of_unsigned(v),
    {
        Number::PosInt(v)
    }

    /// The number that stands for the signed integer `i`.
    pub fn from_signed(i: i64) -> (n: Number)
        ensures
            n == Number::of_signed(i),
    {
        if i < 0 {
            Number::NegInt(i)
        } else {
            Number::PosInt(i as u64)
        }
    }
}

impl NumberKind {
    /// Whether the kind is a signed integer type.
    pub open spec fn is_signed(self) -> bool {
        match self {
            NumberKind::I8 | NumberKind::I16 | NumberKind::I32 | NumberKind::I64 => true,
            _ => false,
        }
    }

    /// Two to the power of the kind's width in bits.
    pub open spec fn modulus(self) -> int {
        match self {
            NumberKind::U8 | NumberKind::I8 => 0x100,
            NumberKind::U16 | NumberKind::I16 => 0x1_0000,
            NumberKind::U32 | NumberKind::I32 => 0x1_0000_0000,
            NumberKind::U64 | NumberKind::I64 => word(),
        }
    }

    /// The least value of the kind.
    pub open spec fn min_value(self) -> int {
        if self.is_signed() {
            -(self.modulus() / 2)
        } else {
            0
        }
    }

    /// The greatest value of the kind.
    pub open spec fn max_value(self) -> int {
        if self.is_signed() {
            self.modulus() / 2 - 1
        } else {
            self.modulus() - 1
        }
    }

    /// The value of the kind whose bits are the low bits of `pattern`.
    pub open spec fn narrow(self, pattern: int) -> int {
        let low = pattern % self.modulus();
        if self.is_signed() && low >= self.modulus() / 2 {
            low - self.modulus()
        } else {
            low
        }
    }

    /// The value that decoding `n` into this kind gives.
    pub open spec fn decode(self, n: Number) -> int {
        if self.is_signed() {
            self.narrow(n.signed_pattern())
        } else {
            self.narrow(n.unsigned_pattern())
        }
    }

    /// The name of the integer type.
    pub open spec fn name(self) -> Seq<char> {
        match self {
            NumberKind::U8 => "u8"@,
            NumberKind::U16 => "u16"@,
            NumberKind::U32 => "u32"@,
            NumberKind::U64 => "u64"@,
            NumberKind::I8 => "i8"@,
            NumberKind::I16 => "i16"@,
            NumberKind::I32 => "i32"@,
            NumberKind::I64 => "i64"@,
        }
    }

    /// Whether the kind is a signed integer type.
    pub fn signed(&self) -> (r: bool)
        ensures
            r == self.is_signed(),
    {
        match self {
            NumberKind::I8 | NumberKind::I16 | NumberKind::I32 | NumberKind::I64 => true,
            _ => false,
        }
    }

    /// Whether the unsigned integer `v` is a value of the kind.
    pub fn holds_unsigned(&self, v: u64) -> (r: bool)
        ensures
            r == (self.min_value() <= v <= self.max_value()),
    {
        match self {
            NumberKind::U8 => v <= 0xff,
            NumberKind::U16 => v <= 0xffff,
            NumberKind::U32 => v <= 0xffff_ffff,
            NumberKind::U64 => true,
            NumberKind::I8 => v <= 0x7f,
            NumberKind::I16 => v <= 0x7fff,
            NumberKind::I32 => v <= 0x7fff_ffff,
            NumberKind::I64 => v <= 0x7fff_ffff_ffff_ffff,
        }
    }

    /// Whether the signed integer `i` is a value of the kind.
    pub fn holds_signed(&self, i: i64) -> (r: bool)
        ensures
            r == (self.min_value() <= i <= self.max_value()),
    {
        match self {
            NumberKind::U8 => 0 <= i && i <= 0xff,
            NumberKind::U16 => 0 <= i && i <= 0xffff,
            NumberKind::U32 => 0 <= i && i <= 0xffff_ffff,
            NumberKind::U64 => 0 <= i,
            NumberKind::I8 => -0x80 <= i && i <= 0x7f,
            NumberKind::I16 => -0x8000 <= i && i <= 0x7fff,
            NumberKind::I32 => -0x8000_0000 <= i && i <= 0x7fff_ffff,
            NumberKind::I64 => true,
        }
    }

    /// Cuts `pattern` down to an unsigned kind.
    pub fn narrow_unsigned(&self, pattern: u64) -> (v: u64)
        requires
            !self.is_signed(),
        ensures
            v == self.narrow(pattern as int),
            self.min_value() <= v <= self.max_value(),
    {
        match self {
            NumberKind::U8 => pattern % 0x100,
            NumberKind::U16 => pattern % 0x1_0000,
            NumberKind::U32 => pattern % 0x1_0000_0000,
            _ => {
                proof {
                    lemma_small_mod(pattern as nat, word() as nat);
                }
                pattern
            },
        }
    }

    /// Cuts `pattern` down to a signed kind.
    pub fn narrow_signed(&self, pattern: u64) -> (v: i64)
        requires
            self.is_signed(),
        ensures
            v == self.narrow(pattern as int),
            self.min_value() <= v <= self.max_value(),
    {
        match self {
            NumberKind::I8 => {
                let low: u64 = pattern % 0x100;
                if low >= 0x80 {
                    low as i64 - 0x100
                } else {
                    low as i64
                }
            },
            NumberKind::I16 => {
                let low: u64 = pattern % 0x1_0000;
                if low >= 0x8000 {
                    low as i64 - 0x1_0000
                } else {
                    low as i64
                }
            },
            NumberKind::I32 => {
                let low: u64 = pattern % 0x1_0000_0000;
                if low >= 0x8000_0000 {
                    low as i64 - 0x1_0000_0000
                } else {
                    low as i64
                }
            },
            _ => {
                proof {
                    lemma_small_mod(pattern as nat, word() as nat);
                }
                if pattern >= 0x8000_0000_0000_0000 {
                    (pattern - 0x8000_0000_0000_0000) as i64 + i64::MIN
                } else {
                    pattern as i64
                }
            },
        }
    }

    /// Decodes `n` into an unsigned kind.
    pub fn decode_unsigned(&self, n: &Number) -> (v: u64)
        requires
            !self.is_signed(),
        ensures
            v == self.decode(*n),
            self.min_value() <= v <= self.max_value(),
    {
        self.narrow_unsigned(n.read_unsigned())
    }

    /// Decodes `n` into a signed kind.
    pub fn decode_signed(&self, n: &Number) -> (v: i64)
        requires
            self.is_signed(),
        ensures
            v == self.decode(*n),
            self.min_value() <= v <= self.max_value(),
    {
        self.narrow_signed(n.read_signed())
    }

    /// The name of the integer type.
    pub fn to_name(&self) -> (s: String)
        ensures
            s@ == self.name(),
    {
        match self {
            NumberKind::U8 => "u8".to_string(),
            NumberKind::U16 => "u16".to_string(),
            NumberKind::U32 => "u32".to_string(),
            NumberKind::U64 => "u64".to_string(),
            NumberKind::I8 => "i8".to_string(),
            NumberKind::I16 => "i16".to_string(),
            NumberKind::I32 => "i32".to_string(),
            NumberKind::I64 => "i64".to_string(),
        }
    }
}

/// The 64-bit two's complement pattern of `i`.
pub fn pattern_of(i: i64) -> (pattern: u64)
    ensures
        pattern == twos_complement(i as int),
{
    if i < 0 {
        let above_min: i64 = i - i64::MIN;
        above_min as u64 + 0x8000_0000_0000_0000
    } else {
        i as u64
    }
}

/// The magnitude of the double with bit pattern `bits`, rounded towards zero
/// and held to the range of `u64`.
fn float_magnitude_capped(bits: u64) -> (m: u64)
    ensures
        float_magnitude(bits) <= u64::MAX ==> m == float_magnitude(bits),
        float_magnitude(bits) > u64::MAX ==> m == u64::MAX,
{
    let exponent: u64 = (bits / 0x10_0000_0000_0000) % 2048;
    let significand: u64 = 0x10_0000_0000_0000 + bits % 0x10_0000_0000_0000;
    proof {
        lemma2_to64();
    }
    if exponent < 1023 {
        0
    } else if exponent < 1075 {
        let shift: u64 = 1075 - exponent;
        proof {
            lemma_u64_shr_is_div(significand, shift);
        }
        significand >> shift
    } else if exponent < 1087 {
        let shift: u64 = exponent - 1075;
        proof {
            lemma_pow2_at_most(shift as nat, 11);
            assert(significand * pow2(shift as nat) <= u64::MAX) by (nonlinear_arith)
                requires
                    significand < 0x20_0000_0000_0000,
                    0 < pow2(shift as nat) <= 0x800,
            ;
            lemma_u64_shl_is_mul(significand, shift);
        }
        significand << shift
    } else {
        proof {
            let shift = (exponent - 1075) as nat;
            lemma_pow2_at_most(12, shift);
            assert(significand * pow2(shift) > u64::MAX) by (nonlinear_arith)
                requires
                    significand >= 0x10_0000_0000_0000,
                    pow2(shift) >= 0x1000,
            ;
        }
        u64::MAX
    }
}

/// Powers of two grow with the exponent.
proof fn lemma_pow2_at_most(small: nat, large: nat)
    requires
        small <= large,
    ensures
        0 < pow2(small) <= pow2(large),
{
    lemma_pow2_pos(small);
    if small < large {
        lemma_pow2_strictly_increases(small, large);
    }
}

/// The double with bit pattern `bits` as a `u64`.
pub fn float_to_u64(bits: u64) -> (v: u64)
    ensures
        v == float_as_u64(bits),
{
    let exponent: u64 = (bits / 0x10_0000_0000_0000) % 2048;
    let fraction: u64 = bits % 0x10_0000_0000_0000;
    if (exponent == 2047 && fraction != 0) || bits >= 0x8000_0000_0000_0000 {
        0
    } else {
        float_magnitude_capped(bits)
    }
}

/// The double with bit pattern `bits` as an `i64`.
pub fn float_to_i64(bits: u64) -> (v: i64)
    ensures
        v == float_as_i64(bits),
{
    let exponent: u64 = (bits / 0x10_0000_0000_0000) % 2048;
    let fraction: u64 = bits % 0x10_0000_0000_0000;
    let magnitude: u64 = float_magnitude_capped(bits);
    if exponent == 2047 && fraction != 0 {
        0
    } else if bits >= 0x8000_0000_0000_0000 {
        if magnitude >= 0x8000_0000_0000_0000 {
            i64::MIN
        } else {
            -(magnitude as i64)
        }
    } else if magnitude > 0x7fff_ffff_ffff_ffff {
        i64::MAX
    } else {
        magnitude as i64
    }
}

} // verus!
