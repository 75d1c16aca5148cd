use crate::scale::{ceil_sqrt, div_floor, floor_div, sqrt_ceil};
use vstd::prelude::*;

verus! {

/// The number of parts into which a design unit is divided: outline
/// coordinates are whole numbers of these parts.
pub const IMT_SUBUNITS: i32 = 1024;

/// A point of an outline, in parts of a design unit, y upwards.
#[derive(Clone, Copy, Debug, PartialEq, Eq, Structural)]
pub struct ImtPoint {
    pub x: i32,
    pub y: i32,
}

impl ImtPoint {
    /// The point on the way from `self` to `other` at `num / den` of the
    /// way, each coordinate rounded down.
    pub open spec fn spec_lerp(self, num: int, den: int, other: ImtPoint) -> ImtPoint {
        ImtPoint {
            x: (self.x + floor_div((other.x - self.x) * num, den)) as i32,
            y: (self.y + floor_div((other.y - self.y) * num, den)) as i32,
        }
    }

    /// The distance from `self` to `other`, rounded up to a whole part of a
    /// design unit.
    pub open spec fn spec_dist(self, other: ImtPoint) -> int {
        ceil_sqrt(
            (other.x - self.x) * (other.x - self.x) + (other.y - self.y) * (other.y - self.y),
        )
    }

    /// `spec_lerp` for a part of the way: `num` is at most `den`.
    pub fn lerp(&self, num: u16, den: u16, other: &Self) -> (p: Self)
        requires
            0 < den,
            num <= den,
        ensures
            p == self.spec_lerp(num as int, den as int, *other),
    {
        ImtPoint {
            x: lerp_coord(self.x, other.x, num, den),
            y: lerp_coord(self.y, other.y, num, den),
        }
    }

    /// `spec_dist`, computed.
    pub fn dist(&self, other: &Self) -> (l: u64)
        ensures
            l == self.spec_dist(*other),
            l <= 0x2_0000_0000,
    {
        let dx: i64 = other.x as i64 - self.x as i64;
        let dy: i64 = other.y as i64 - self.y as i64;
        let ax: u128 = if dx < 0 {
            (-dx) as u128
        } else {
            dx as u128
        };
        let ay: u128 = if dy < 0 {
            (-dy) as u128
        } else {
            dy as u128
        };
        assert(ax * ax == dx * dx && ay * ay == dy * dy && ax * ax <= 0xffff_ffff * 0xffff_ffff
            && ay * ay <= 0xffff_ffff * 0xffff_ffff) by (nonlinear_arith)
            requires
                ax == dx || ax == -dx,
                ay == dy || ay == -dy,
                ax <= 0xffff_ffff,
                ay <= 0xffff_ffff,
        ;
        sqrt_ceil(ax * ax + ay * ay) as u64
    }
}

fn lerp_coord(from: i32, to: i32, num: u16, den: u16) -> (r: i32)
    requires
        0 < den,
        num <= den,
    ensures
        r == from + floor_div((to - from) * num, den as int),
{
    let way: i64 = to as i64 - from as i64;
    assert(-0xffff_ffff * 0xffff <= way * num <= 0xffff_ffff * 0xffff) by (nonlinear_arith)
        requires
            -0xffff_ffff <= way <= 0xffff_ffff,
            0 <= num <= 0xffff,
    ;
    let step = div_floor(way * num as i64, den as u64);
    proof {
        crate::scale::lemma_floor_ceil(way * num, den as int);
        if way >= 0 {
            assert(0 <= step <= way) by (nonlinear_arith)
                requires
                    step * den <= way * num < (step + 1) * den,
                    0 <= num <= den,
                    0 < den,
                    way >= 0,
            ;
        } else {
            assert(way <= step <= 0) by (nonlinear_arith)
                requires
                    step * den <= way * num < (step + 1) * den,
                    0 <= num <= den,
                    0 < den,
                    way < 0,
            ;
        }
    }
    (from as i64 + step) as i32
}

/// A place on the line of text, in parts of a design unit.
#[derive(Clone, Copy, Debug, PartialEq, Eq, Structural)]
pub struct ImtPosition {
    pub x: i64,
    pub y: i64,
}

/// One piece of an outline: a straight line, or a quadratic curve whose
/// middle point is the control point.
#[derive(Clone, Copy, Debug, PartialEq, Eq)]
pub enum ImtGeometry {
    Line([ImtPoint; 2]),
    Curve([ImtPoint; 3]),
}

impl ImtGeometry {
    /// Where the piece begins.
    pub open spec fn start(self) -> ImtPoint {
        match self {
            ImtGeometry::Line(p) => p[0],
            ImtGeometry::Curve(p) => p[0],
        }
    }

    /// Where the piece ends.
    pub open spec fn end(self) -> ImtPoint {
        match self {
            ImtGeometry::Line(p) => p[1],
            ImtGeometry::Curve(p) => p[2],
        }
    }

    /// `start`, computed.
    pub fn first_point(&self) -> (p: ImtPoint)
        ensures
            p == self.start(),
    {
        match self {
            ImtGeometry::Line(p) => p[0],
            ImtGeometry::Curve(p) => p[0],
        }
    }

    /// `end`, computed.
    pub fn last_point(&self) -> (p: ImtPoint)
        ensures
            p == self.end(),
    {
        match self {
            ImtGeometry::Line(p) => p[1],
            ImtGeometry::Curve(p) => p[2],
        }
    }
}

/// Whether each piece begins where the one before it ended, and the first
/// where the last ended: a closed chain.
pub open spec fn closed_chain(g: Seq<ImtGeometry>) -> bool {
    &&& g.len() > 0
    &&& forall|i: int| 0 <= i < g.len() - 1 ==> (#[trigger] g[i]).end() == g[i + 1].start()
    &&& g.last().end() == g[0].start()
}

} // verus!
