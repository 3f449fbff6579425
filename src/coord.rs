use vstd::bytes::{spec_u64_from_le_bytes, u64_from_le_bytes};
use vstd::prelude::*;
use vstd::slice::slice_subrange;

verus! {

/// The sign bit of an IEEE-754 binary64 bit pattern.
pub const SIGN_BIT: u64 = 0x8000_0000_0000_0000;

/// The largest magnitude that is not a NaN: the bit pattern of infinity.
pub const INFINITY_BITS: u64 = 0x7FF0_0000_0000_0000;

/// Size in bytes of one encoded coordinate.
pub const COORD_SIZE_IN_BYTES: usize = 16;

/// The bit pattern is a NaN.
pub open spec fn is_nan(bits: u64) -> bool {
    bits % SIGN_BIT > INFINITY_BITS
}

/// The position of a non-NaN binary64 value on the number line: the order of
/// these integers is the order of the values, and both zeros sit at 0.
pub open spec fn ordinal(bits: u64) -> int {
    if bits >= SIGN_BIT {
        -(bits - SIGN_BIT)
    } else {
        bits as int
    }
}

/// IEEE-754 `a <= b` on two binary64 bit patterns (false when either is a NaN).
pub open spec fn float_le(a: u64, b: u64) -> bool {
    !is_nan(a) && !is_nan(b) && ordinal(a) <= ordinal(b)
}

/// IEEE-754 `a < b` on two binary64 bit patterns (false when either is a NaN).
pub open spec fn float_lt(a: u64, b: u64) -> bool {
    !is_nan(a) && !is_nan(b) && ordinal(a) < ordinal(b)
}

/// The 8 little-endian bytes at `off`, read as a `u64`.
pub open spec fn u64_at(b: Seq<u8>, off: int) -> u64 {
    spec_u64_from_le_bytes(b.subrange(off, off + 8))
}

/// The coordinate encoded at byte offset `off`.
pub open spec fn coord_at(b: Seq<u8>, off: int) -> Coord {
    Coord { x: u64_at(b, off), y: u64_at(b, off + 8) }
}

/// `a <= b` on two binary64 values given by their bit patterns.
pub fn float_le_bits(a: u64, b: u64) -> (r: bool)
    ensures
        r == float_le(a, b),
{
    if a % SIGN_BIT > INFINITY_BITS || b % SIGN_BIT > INFINITY_BITS {
        return false;
    }
    let a_neg = a >= SIGN_BIT;
    let b_neg = b >= SIGN_BIT;
    if a_neg && b_neg {
        a >= b
    } else if a_neg {
        true
    } else if b_neg {
        a == 0 && b == SIGN_BIT
    } else {
        a <= b
    }
}

/// `a < b` on two binary64 values given by their bit patterns.
pub fn float_lt_bits(a: u64, b: u64) -> (r: bool)
    ensures
        r == float_lt(a, b),
{
    float_le_bits(a, b) && !float_le_bits(b, a)
}

/// The bit pattern of negative infinity.
pub const NEG_INFINITY_BITS: u64 = 0xFFF0_0000_0000_0000;

/// The largest binary64 value below `bits`: one step down the number line.
/// A NaN and negative infinity stay as they are.
pub open spec fn next_down(bits: u64) -> u64 {
    if bits % SIGN_BIT > INFINITY_BITS || bits == NEG_INFINITY_BITS {
        bits
    } else if bits == 0 || bits == SIGN_BIT {
        (SIGN_BIT + 1) as u64
    } else if bits < SIGN_BIT {
        (bits - 1) as u64
    } else {
        (bits + 1) as u64
    }
}

/// Computes [`next_down`].
pub fn next_down_bits(bits: u64) -> (r: u64)
    ensures
        r == next_down(bits),
        !is_nan(bits) && bits != NEG_INFINITY_BITS ==> !is_nan(r) && ordinal(r) == ordinal(bits)
            - 1,
{
    if bits % SIGN_BIT > INFINITY_BITS || bits == NEG_INFINITY_BITS {
        bits
    } else if bits == 0 || bits == SIGN_BIT {
        SIGN_BIT + 1
    } else if bits < SIGN_BIT {
        bits - 1
    } else {
        bits + 1
    }
}

/// Reads the little-endian `u64` at `off`.
pub fn read_u64(data: &[u8], off: usize) -> (r: u64)
    requires
        off + 8 <= data@.len(),
    ensures
        r == u64_at(data@, off as int),
{
    let _len = data.len();
    u64_from_le_bytes(slice_subrange(data, off, off + 8))
}

/// One (x, y) pair. Each value is held as the bit pattern of an IEEE-754
/// binary64 number: `x` is the longitude, `y` the latitude.
#[derive(Debug, Clone, Copy, PartialEq, Eq, Structural)]
pub struct Coord {
    pub x: u64,
    pub y: u64,
}

impl Coord {
    pub fn new(x: u64, y: u64) -> (r: Self)
        ensures
            r == (Coord { x, y }),
    {
        Coord { x, y }
    }

    /// Reads a coordinate from its 16 encoded bytes.
    pub fn from_bytes(data: &[u8]) -> (r: Self)
        requires
            data@.len() == COORD_SIZE_IN_BYTES,
        ensures
            r == coord_at(data@, 0),
    {
        Self::read_at(data, 0)
    }

    /// Reads the coordinate encoded at byte offset `off`.
    pub fn read_at(data: &[u8], off: usize) -> (r: Self)
        requires
            off + COORD_SIZE_IN_BYTES <= data@.len(),
        ensures
            r == coord_at(data@, off as int),
    {
        let _len = data.len();
        Coord { x: read_u64(data, off), y: read_u64(data, off + 8) }
    }

    /// The longitude.
    pub fn lng(&self) -> (r: u64)
        ensures
            r == self.x,
    {
        self.x
    }

    /// The latitude.
    pub fn lat(&self) -> (r: u64)
        ensures
            r == self.y,
    {
        self.y
    }

    /// Mutable access to the longitude.
    pub fn lng_mut(&mut self) -> (r: &mut u64)
        ensures
            *r == old(self).x,
            *final(self) == (Coord { x: *final(r), y: old(self).y }),
    {
        &mut self.x
    }

    /// Mutable access to the latitude.
    pub fn lat_mut(&mut self) -> (r: &mut u64)
        ensures
            *r == old(self).y,
            *final(self) == (Coord { x: old(self).x, y: *final(r) }),
    {
        &mut self.y
    }

    /// The longitude.
    pub fn x(&self) -> (r: u64)
        ensures
            r == self.x,
    {
        self.x
    }

    /// The latitude.
    pub fn y(&self) -> (r: u64)
        ensures
            r == self.y,
    {
        self.y
    }
}

} // verus!
