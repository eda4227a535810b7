use std::ops::{Add, Div, Mul, Sub};
use vstd::prelude::*;

verus! {

/// A pair of signed integers, used both as a position on the grid and as a
/// displacement or velocity. `width` runs along a row, `height` down the rows.
#[derive(Debug, Clone, Copy, PartialEq, Eq, Structural)]
pub struct Point {
    pub width: i64,
    pub height: i64,
}

/// Whether `value` can be held in an `i64`.
pub open spec fn fits_i64(value: int) -> bool {
    i64::MIN <= value <= i64::MAX
}

/// Integer division that rounds toward zero, as machine division does.
pub open spec fn truncated_div(dividend: int, divisor: int) -> int
    recommends
        divisor > 0,
{
    if dividend >= 0 {
        dividend / divisor
    } else {
        -((-dividend) / divisor)
    }
}

impl Point {
    pub fn new(width: i64, height: i64) -> (point: Self)
        ensures
            point == (Point { width, height }),
    {
        Self { width, height }
    }

    pub fn add_width(self, width: i64) -> (point: Self)
        requires
            fits_i64(self.width + width),
        ensures
            point.width == self.width + width,
            point.height == self.height,
    {
        Self { width: self.width + width, height: self.height }
    }

    pub fn sub_width(self, width: i64) -> (point: Self)
        requires
            fits_i64(self.width - width),
        ensures
            point.width == self.width - width,
            point.height == self.height,
    {
        Self { width: self.width - width, height: self.height }
    }

    pub fn add_height(self, height: i64) -> (point: Self)
        requires
            fits_i64(self.height + height),
        ensures
            point.width == self.width,
            point.height == self.height + height,
    {
        Self { width: self.width, height: self.height + height }
    }

    pub fn sub_height(self, height: i64) -> (point: Self)
        requires
            fits_i64(self.height - height),
        ensures
            point.width == self.width,
            point.height == self.height - height,
    {
        Self { width: self.width, height: self.height - height }
    }

    /// The origin.
    pub fn default() -> (point: Self)
        ensures
            point == (Point { width: 0, height: 0 }),
    {
        Self { width: 0, height: 0 }
    }
}

impl Default for Point {
    fn default() -> (point: Self)
        ensures
            point == (Point { width: 0, height: 0 }),
    {
        Self { width: 0, height: 0 }
    }
}

impl vstd::std_specs::ops::AddSpecImpl for Point {
    open spec fn obeys_add_spec() -> bool {
        true
    }

    open spec fn add_req(self, other: Point) -> bool {
        fits_i64(self.width + other.width) && fits_i64(self.height + other.height)
    }

    open spec fn add_spec(self, other: Point) -> Point {
        Point {
            width: (self.width + other.width) as i64,
            height: (self.height + other.height) as i64,
        }
    }
}

impl Add for Point {
    type Output = Point;

    fn add(self, other: Point) -> Point {
        Point { width: self.width + other.width, height: self.height + other.height }
    }
}

impl vstd::std_specs::ops::SubSpecImpl for Point {
    open spec fn obeys_sub_spec() -> bool {
        true
    }

    open spec fn sub_req(self, other: Point) -> bool {
        fits_i64(self.width - other.width) && fits_i64(self.height - other.height)
    }

    open spec fn sub_spec(self, other: Point) -> Point {
        Point {
            width: (self.width - other.width) as i64,
            height: (self.height - other.height) as i64,
        }
    }
}

impl Sub for Point {
    type Output = Point;

    fn sub(self, other: Point) -> Point {
        Point { width: self.width - other.width, height: self.height - other.height }
    }
}

impl vstd::std_specs::ops::MulSpecImpl for Point {
    open spec fn obeys_mul_spec() -> bool {
        true
    }

    open spec fn mul_req(self, other: Point) -> bool {
        fits_i64(self.width * other.width) && fits_i64(self.height * other.height)
    }

    open spec fn mul_spec(self, other: Point) -> Point {
        Point {
            width: (self.width * other.width) as i64,
            height: (self.height * other.height) as i64,
        }
    }
}

impl Mul for Point {
    type Output = Point;

    fn mul(self, other: Point) -> Point {
        Point { width: self.width * other.width, height: self.height * other.height }
    }
}

impl vstd::std_specs::ops::DivSpecImpl for Point {
    open spec fn obeys_div_spec() -> bool {
        true
    }

    open spec fn div_req(self, other: Point) -> bool {
        other.width > 0 && other.height > 0
    }

    open spec fn div_spec(self, other: Point) -> Point {
        Point {
            width: truncated_div(self.width as int, other.width as int) as i64,
            height: truncated_div(self.height as int, other.height as int) as i64,
        }
    }
}

impl Div for Point {
    type Output = Point;

    fn div(self, other: Point) -> Point {
        Point { width: self.width / other.width, height: self.height / other.height }
    }
}

} // verus!
