//! Primitive geometric quantities: distances in centimeters and scaled
//! integer geographic positions.

use vstd::prelude::*;

verus! {

/// Number of integer steps per degree of longitude or latitude.
pub const COORD_SCALE: i32 = 10_000_000;

/// Largest valid scaled longitude (180 degrees).
pub const MAX_LONGITUDE: i32 = 1_800_000_000;

/// Largest valid scaled latitude (90 degrees).
pub const MAX_LATITUDE: i32 = 900_000_000;

/// The value of `q` reduced to the 32-bit two's complement range.
pub open spec fn wrap_i32(q: int) -> int {
    (q + 0x8000_0000) % 0x1_0000_0000 - 0x8000_0000
}

/// `a / 10` rounded toward zero.
pub open spec fn div10_toward_zero(a: int) -> int {
    if a >= 0 {
        a / 10
    } else {
        -((-a) / 10)
    }
}

/// The sum of `a` and `b`, reduced to 32 bits.
pub fn wrapping_sum(a: i32, b: i32) -> (sum: i32)
    ensures
        sum == wrap_i32(a + b),
{
    let wide: i64 = a as i64 + b as i64;
    let low: i64 = if wide >= 0x8000_0000 {
        wide - 0x1_0000_0000
    } else if wide < -0x8000_0000 {
        wide + 0x1_0000_0000
    } else {
        wide
    };
    low as i32
}

/// The difference of `a` and `b`, reduced to 32 bits.
pub fn wrapping_difference(a: i32, b: i32) -> (difference: i32)
    ensures
        difference == wrap_i32(a - b),
{
    let wide: i64 = a as i64 - b as i64;
    let low: i64 = if wide >= 0x8000_0000 {
        wide - 0x1_0000_0000
    } else if wide < -0x8000_0000 {
        wide + 0x1_0000_0000
    } else {
        wide
    };
    low as i32
}

/// A signed distance in centimeters.
#[derive(Clone, Copy, Debug, PartialEq, Eq, Structural)]
pub struct Centimeters(pub i32);

impl View for Centimeters {
    type V = int;

    open spec fn view(&self) -> int {
        self.0 as int
    }
}

impl Centimeters {
    /// The distance in millimeters; always exact.
    pub fn as_millimeters(&self) -> (mm: i64)
        ensures
            mm == self@ * 10,
    {
        let wide: i64 = self.0 as i64;
        wide * 10
    }

    /// The distance of `mm` millimeters, rounded toward zero to whole
    /// centimeters and reduced to 32 bits.
    pub fn from_millimeters(mm: i64) -> (cm: Self)
        ensures
            cm@ == wrap_i32(div10_toward_zero(mm as int)),
            i32::MIN * 10 <= mm <= i32::MAX * 10 + 9 ==> cm@ == div10_toward_zero(mm as int),
    {
        let q: i64 = mm / 10;
        let r: i64 = q % 0x1_0000_0000;
        let low: i64 = if r >= 0x8000_0000 {
            r - 0x1_0000_0000
        } else if r < -0x8000_0000 {
            r + 0x1_0000_0000
        } else {
            r
        };
        Centimeters(low as i32)
    }
}

/// A geographic position: longitude `x` and latitude `y`, both in degrees
/// scaled by [`COORD_SCALE`].
#[derive(Clone, Copy, Debug, PartialEq, Eq, Structural)]
pub struct Position {
    pub x: i32,
    pub y: i32,
}

impl Position {
    /// Whether the position lies within 180 degrees of longitude and
    /// 90 degrees of latitude.
    pub open spec fn valid(&self) -> bool {
        &&& -MAX_LONGITUDE <= self.x <= MAX_LONGITUDE
        &&& -MAX_LATITUDE <= self.y <= MAX_LATITUDE
    }

    pub fn new(x: Centimeters, y: Centimeters) -> (position: Self)
        ensures
            position.x == x.0,
            position.y == y.0,
    {
        Position { x: x.0, y: y.0 }
    }

    pub fn x(&self) -> (x: Centimeters)
        ensures
            x.0 == self.x,
    {
        Centimeters(self.x)
    }

    pub fn y(&self) -> (y: Centimeters)
        ensures
            y.0 == self.y,
    {
        Centimeters(self.y)
    }

    /// Decides [`Position::valid`].
    pub fn is_valid(&self) -> (ok: bool)
        ensures
            ok == self.valid(),
    {
        -MAX_LONGITUDE <= self.x && self.x <= MAX_LONGITUDE && -MAX_LATITUDE <= self.y
            && self.y <= MAX_LATITUDE
    }
}

} // verus!
