//! Lengths, sizes and the measurement requests exchanged between a widget and its children.
//!
//! Lengths are whole logical pixels held in a `u64`; sums saturate at `u64::MAX`.
use vstd::prelude::*;

verus! {

/// The two layout axes.
#[derive(Clone, Copy, PartialEq, Eq, Structural, Debug)]
pub enum Axis {
    Horizontal,
    Vertical,
}

impl Axis {
    /// The other axis.
    pub fn cross(self) -> (r: Axis)
        ensures
            r != self,
    {
        match self {
            Axis::Horizontal => Axis::Vertical,
            Axis::Vertical => Axis::Horizontal,
        }
    }
}

/// What a parent asks when it measures a widget along one axis.
#[derive(Clone, Copy, PartialEq, Eq, Structural, Debug)]
pub enum LenReq {
    /// The smallest length the widget can take.
    MinContent,
    /// The length the widget takes when given unlimited room.
    MaxContent,
    /// The natural length, but no more than the given space.
    FitContent(u64),
}

/// How a child's length along an axis is to be computed.
#[derive(Clone, Copy, PartialEq, Eq, Structural, Debug)]
pub enum LenDef {
    /// Exactly this length.
    Fixed(u64),
    MinContent,
    MaxContent,
    FitContent(u64),
}

/// `a + b`, saturated at `u64::MAX`.
pub open spec fn sat_add(a: int, b: int) -> u64 {
    if a + b > u64::MAX { u64::MAX } else { (a + b) as u64 }
}

/// `a - b`, saturated at `0`.
pub open spec fn sat_sub(a: int, b: int) -> u64 {
    if a - b < 0 { 0 } else { (a - b) as u64 }
}

pub open spec fn max_len(a: u64, b: u64) -> u64 {
    if a >= b { a } else { b }
}

pub open spec fn min_len(a: u64, b: u64) -> u64 {
    if a <= b { a } else { b }
}

impl LenDef {
    /// The definition that asks a child the same question as `req`.
    pub fn from_req(req: LenReq) -> (r: LenDef)
        ensures
            r == (match req {
                LenReq::MinContent => LenDef::MinContent,
                LenReq::MaxContent => LenDef::MaxContent,
                LenReq::FitContent(s) => LenDef::FitContent(s),
            }),
    {
        match req {
            LenReq::MinContent => LenDef::MinContent,
            LenReq::MaxContent => LenDef::MaxContent,
            LenReq::FitContent(s) => LenDef::FitContent(s),
        }
    }

    /// The definition left once `amount` of the space is taken by something else:
    /// a fixed or offered length shrinks by `amount` (not below zero), content-based
    /// definitions stay as they are.
    pub fn reduce(self, amount: u64) -> (r: LenDef)
        ensures
            r == (match self {
                LenDef::Fixed(l) => LenDef::Fixed(sat_sub(l as int, amount as int)),
                LenDef::FitContent(s) => LenDef::FitContent(sat_sub(s as int, amount as int)),
                other => other,
            }),
    {
        match self {
            LenDef::Fixed(l) => LenDef::Fixed(l.saturating_sub(amount)),
            LenDef::FitContent(s) => LenDef::FitContent(s.saturating_sub(amount)),
            other => other,
        }
    }
}

/// A question put to a child while measuring: its length along `axis` under `request`,
/// with `cross_length` (when known) as its length along the other axis.
#[derive(Clone, Copy, PartialEq, Eq, Structural, Debug)]
pub struct LengthQuery {
    pub axis: Axis,
    pub request: LenDef,
    pub cross_length: Option<u64>,
}

/// A width and a height.
#[derive(Clone, Copy, PartialEq, Eq, Structural, Debug)]
pub struct Size {
    pub width: u64,
    pub height: u64,
}

impl Size {
    pub fn new(width: u64, height: u64) -> (r: Size)
        ensures
            r.width == width,
            r.height == height,
    {
        Size { width, height }
    }
}

/// A position relative to the parent's origin.
#[derive(Clone, Copy, PartialEq, Eq, Structural, Debug)]
pub struct Point {
    pub x: u64,
    pub y: u64,
}

impl Point {
    pub fn new(x: u64, y: u64) -> (r: Point)
        ensures
            r.x == x,
            r.y == y,
    {
        Point { x, y }
    }
}

} // verus!
