//! Wall segments and the distance from a point to a wall.
//!
//! A wall is authored as two endpoints. One that runs along an axis gets a
//! body: a rectangle `HALF_WALL_THICKNESS` to either side of its centre line.
//! A slanted wall is kept in the layout but has no body and is never hit.

use vstd::prelude::*;
use vstd::string::StringExecFns;
use crate::constants::{HALF_WALL_THICKNESS, NO_CONTACT, WALL_THICKNESS};
use crate::decimal::{push_units, units_text};
use crate::fixed::{abs, Point, Vec2};

verus! {

/// The axis that a wall runs along.
#[allow(non_camel_case_types)]
#[derive(Clone, Copy, Debug, PartialEq, Eq, Structural)]
pub enum WallType {
    HORIZONTAL,
    VERTICAL,
    SLANTED,
}

/// A wall segment from `a` to `b` with the geometry derived from them.
#[derive(Clone, Copy, Debug, PartialEq, Eq, Structural)]
pub struct Wall {
    /// Top-left corner of the body.
    pub top_left: Vec2,
    /// Width and height of the body.
    pub dimensions: Vec2,
    /// Signed span from `a` to `b` along the wall's axis.
    pub length: i64,
    pub wall_type: WallType,
    /// The anchor, as authored.
    pub a: Vec2,
    /// The opposite end, as authored.
    pub b: Vec2,
}

/// Vertical where the endpoints share `x`, else horizontal where they share
/// `y`, else slanted.
pub open spec fn wall_type_of(a: Vec2, b: Vec2) -> WallType {
    if a.x == b.x {
        WallType::VERTICAL
    } else if a.y == b.y {
        WallType::HORIZONTAL
    } else {
        WallType::SLANTED
    }
}

impl Wall {
    /// The wall that the endpoints `a` and `b` determine.
    pub open spec fn built(a: Vec2, b: Vec2) -> Wall {
        match wall_type_of(a, b) {
            WallType::HORIZONTAL => Wall {
                top_left: Vec2 { x: a.x, y: (a.y - HALF_WALL_THICKNESS) as i64 },
                dimensions: Vec2 { x: (b.x - a.x) as i64, y: WALL_THICKNESS },
                length: (b.x - a.x) as i64,
                wall_type: WallType::HORIZONTAL,
                a,
                b,
            },
            WallType::VERTICAL => Wall {
                top_left: Vec2 { x: (a.x - HALF_WALL_THICKNESS) as i64, y: a.y },
                dimensions: Vec2 { x: WALL_THICKNESS, y: (b.y - a.y) as i64 },
                length: (b.y - a.y) as i64,
                wall_type: WallType::VERTICAL,
                a,
                b,
            },
            WallType::SLANTED => Wall {
                top_left: Vec2 { x: 0, y: 0 },
                dimensions: Vec2 { x: 0, y: 0 },
                length: 0,
                wall_type: WallType::SLANTED,
                a,
                b,
            },
        }
    }

    /// The endpoints lie in the field and every other field follows from them.
    pub open spec fn wf(self) -> bool {
        &&& self.a@.in_field()
        &&& self.b@.in_field()
        &&& self == Wall::built(self.a, self.b)
    }

    /// The lesser of the two endpoints' coordinates along the wall's axis.
    pub open spec fn low_end(self) -> int {
        match self.wall_type {
            WallType::HORIZONTAL => vstd::math::min(self.a.x as int, self.b.x as int),
            WallType::VERTICAL => vstd::math::min(self.a.y as int, self.b.y as int),
            WallType::SLANTED => 0,
        }
    }

    /// The greater of the two endpoints' coordinates along the wall's axis.
    pub open spec fn high_end(self) -> int {
        match self.wall_type {
            WallType::HORIZONTAL => vstd::math::max(self.a.x as int, self.b.x as int),
            WallType::VERTICAL => vstd::math::max(self.a.y as int, self.b.y as int),
            WallType::SLANTED => 0,
        }
    }

    /// The wall can be written to a layout file and read again: it is valid,
    /// and the corner of its body, which is what is written, lies in the
    /// field.
    pub open spec fn writable(self) -> bool {
        self.wf() && self.top_left@.in_field()
    }

    /// `p` lies beside the wall's run: its coordinate along the wall is at
    /// most `WALL_THICKNESS` past either end, whichever way the endpoints
    /// were given. Never so for a slanted wall.
    pub open spec fn in_band(self, p: Point) -> bool {
        match self.wall_type {
            WallType::HORIZONTAL => self.low_end() - WALL_THICKNESS <= p.x <= self.high_end()
                + WALL_THICKNESS,
            WallType::VERTICAL => self.low_end() - WALL_THICKNESS <= p.y <= self.high_end()
                + WALL_THICKNESS,
            WallType::SLANTED => false,
        }
    }

    /// Twice the signed area of the triangle `a`, `b`, `p`: the numerator of
    /// the distance from `p` to the line through `a` and `b`.
    pub open spec fn cross(self, p: Point) -> int {
        (self.b.y - self.a.y) * p.x - (self.b.x - self.a.x) * p.y + self.b.x * self.a.y - self.b.y
            * self.a.x
    }

    /// Distance from `p` to the face of the wall: the distance to the line
    /// through the endpoints, as `|cross| / |length|`, less
    /// `HALF_WALL_THICKNESS`. `NO_CONTACT` outside the band and for a wall of
    /// no length, through whose endpoints no line is given.
    pub open spec fn gap(self, p: Point) -> int {
        if self.in_band(p) && self.length != 0 {
            abs(self.cross(p)) / abs(self.length as int) - HALF_WALL_THICKNESS
        } else {
            NO_CONTACT as int
        }
    }

    /// Distance from `p` to the centre line of a wall that runs along an axis.
    pub open spec fn offset(self, p: Point) -> int {
        match self.wall_type {
            WallType::HORIZONTAL => abs(p.y - self.a.y),
            WallType::VERTICAL => abs(p.x - self.a.x),
            WallType::SLANTED => 0,
        }
    }

    /// The wall as it stands in a layout file: the word `wall`, then the
    /// corner of the body and the point one length further along the wall,
    /// as `x1 y1 x2 y2`. Nothing for a slanted wall.
    pub open spec fn text(self) -> Seq<char> {
        match self.wall_type {
            WallType::HORIZONTAL => "wall "@ + units_text(self.top_left.x as int) + " "@
                + units_text(self.top_left.y as int) + " "@ + units_text(
                self.top_left.x + self.length,
            ) + " "@ + units_text(self.top_left.y as int),
            WallType::VERTICAL => "wall "@ + units_text(self.top_left.x as int) + " "@
                + units_text(self.top_left.y as int) + " "@ + units_text(self.top_left.x as int)
                + " "@ + units_text(self.top_left.y + self.length),
            WallType::SLANTED => Seq::empty(),
        }
    }

    /// Builds the wall from `top_left` to `bottom_right`.
    pub fn new(top_left: Vec2, bottom_right: Vec2) -> (w: Wall)
        requires
            top_left@.in_field(),
            bottom_right@.in_field(),
        ensures
            w == Wall::built(top_left, bottom_right),
            w.wf(),
    {
        let wt: WallType = get_wall_type(top_left, bottom_right);
        match wt {
            WallType::HORIZONTAL => Wall {
                top_left: Vec2::new(top_left.x, top_left.y - HALF_WALL_THICKNESS),
                dimensions: Vec2::new(
                    bottom_right.x - top_left.x,
                    HALF_WALL_THICKNESS + HALF_WALL_THICKNESS,
                ),
                length: bottom_right.x - top_left.x,
                wall_type: WallType::HORIZONTAL,
                a: top_left,
                b: bottom_right,
            },
            WallType::VERTICAL => Wall {
                top_left: Vec2::new(top_left.x - HALF_WALL_THICKNESS, top_left.y),
                dimensions: Vec2::new(
                    HALF_WALL_THICKNESS + HALF_WALL_THICKNESS,
                    bottom_right.y - top_left.y,
                ),
                length: bottom_right.y - top_left.y,
                wall_type: WallType::VERTICAL,
                a: top_left,
                b: bottom_right,
            },
            WallType::SLANTED => Wall {
                top_left: Vec2::new(0, 0),
                dimensions: Vec2::new(0, 0),
                length: 0,
                wall_type: WallType::SLANTED,
                a: top_left,
                b: bottom_right,
            },
        }
    }

    /// Whether the wall is valid.
    pub fn is_valid(&self) -> (b: bool)
        ensures
            b == self.wf(),
    {
        if !self.a.is_in_field() || !self.b.is_in_field() {
            return false;
        }
        let w = Wall::new(self.a, self.b);
        self.top_left == w.top_left && self.dimensions == w.dimensions && self.length == w.length
            && self.wall_type == w.wall_type
    }

    /// Whether the wall can be written to a layout file and read again.
    pub fn is_writable(&self) -> (b: bool)
        ensures
            b == self.writable(),
    {
        self.is_valid() && self.top_left.is_in_field()
    }

    /// The wall that an editor draws from `anchor` when the pointer is let
    /// go at `click`: along the axis on which the pointer went further
    /// (vertical on a tie), from `anchor` to the pointer's place on that
    /// axis, with the lesser end first.
    pub open spec fn drawn(anchor: Vec2, click: Vec2) -> Wall {
        if abs(click.x - anchor.x) <= abs(click.y - anchor.y) {
            let end = Vec2 { x: anchor.x, y: click.y };
            if anchor.y <= end.y {
                Wall::built(anchor, end)
            } else {
                Wall::built(end, anchor)
            }
        } else {
            let end = Vec2 { x: click.x, y: anchor.y };
            if anchor.x <= end.x {
                Wall::built(anchor, end)
            } else {
                Wall::built(end, anchor)
            }
        }
    }

    /// The wall drawn from `anchor` to `click`: never slanted, and never of
    /// negative length.
    pub fn from_drag(anchor: Vec2, click: Vec2) -> (w: Wall)
        requires
            anchor@.in_field(),
            click@.in_field(),
        ensures
            w == Wall::drawn(anchor, click),
            w.wf(),
            w.wall_type != WallType::SLANTED,
            w.length >= 0,
    {
        let dx = if click.x >= anchor.x {
            click.x - anchor.x
        } else {
            anchor.x - click.x
        };
        let dy = if click.y >= anchor.y {
            click.y - anchor.y
        } else {
            anchor.y - click.y
        };
        if dx <= dy {
            let end = Vec2::new(anchor.x, click.y);
            if anchor.y <= end.y {
                Wall::new(anchor, end)
            } else {
                Wall::new(end, anchor)
            }
        } else {
            let end = Vec2::new(click.x, anchor.y);
            if anchor.x <= end.x {
                Wall::new(anchor, end)
            } else {
                Wall::new(end, anchor)
            }
        }
    }

    /// The wall as it stands in a layout file.
    pub fn to_string(&self) -> (s: String)
        requires
            self.wf(),
        ensures
            s@ == self.text(),
    {
        let mut s = String::new();
        match self.wall_type {
            WallType::HORIZONTAL => {
                s.append("wall ");
                push_units(&mut s, self.top_left.x);
                s.append(" ");
                push_units(&mut s, self.top_left.y);
                s.append(" ");
                push_units(&mut s, self.top_left.x + self.length);
                s.append(" ");
                push_units(&mut s, self.top_left.y);
            },
            WallType::VERTICAL => {
                s.append("wall ");
                push_units(&mut s, self.top_left.x);
                s.append(" ");
                push_units(&mut s, self.top_left.y);
                s.append(" ");
                push_units(&mut s, self.top_left.x);
                s.append(" ");
                push_units(&mut s, self.top_left.y + self.length);
            },
            WallType::SLANTED => {},
        }
        assert(s@ =~= self.text());
        s
    }

    /// Distance from `p` to the face of the wall, `NO_CONTACT` where `p` is
    /// not beside the wall's run.
    pub fn distance_to_wall(&self, p: Vec2) -> (d: i64)
        requires
            self.wf(),
            p@.in_reach(),
        ensures
            d == self.gap(p@),
    {
        let in_bounds = match self.wall_type {
            WallType::HORIZONTAL => {
                let (low, high) = if self.a.x <= self.b.x {
                    (self.a.x, self.b.x)
                } else {
                    (self.b.x, self.a.x)
                };
                low - WALL_THICKNESS <= p.x && p.x <= high + WALL_THICKNESS
            },
            WallType::VERTICAL => {
                let (low, high) = if self.a.y <= self.b.y {
                    (self.a.y, self.b.y)
                } else {
                    (self.b.y, self.a.y)
                };
                low - WALL_THICKNESS <= p.y && p.y <= high + WALL_THICKNESS
            },
            WallType::SLANTED => false,
        };
        if !in_bounds || self.length == 0 {
            return NO_CONTACT;
        }
        proof {
            lemma_gap_of_axis_wall(*self, p@);
            lemma_cross_range(*self, p@);
        }
        let rise: i128 = self.b.y as i128 - self.a.y as i128;
        let run: i128 = self.b.x as i128 - self.a.x as i128;
        let a: i128 = rise * (p.x as i128);
        let b: i128 = run * (p.y as i128);
        let c: i128 = (self.b.x as i128) * (self.a.y as i128);
        let d: i128 = (self.b.y as i128) * (self.a.x as i128);
        let sum: i128 = a - b + c - d;
        let numerator: i128 = if sum >= 0 {
            sum
        } else {
            -sum
        };
        assert(sum == self.cross(p@));
        assert(numerator == abs(self.cross(p@)));
        let span: i128 = if self.length >= 0 {
            self.length as i128
        } else {
            -(self.length as i128)
        };
        let q: i128 = numerator / span;
        assert(q == self.offset(p@));
        let distance: i128 = q - (HALF_WALL_THICKNESS as i128);
        distance as i64
    }
}

/// Classifies the wall from `top_left` to `bottom_right`.
pub fn get_wall_type(top_left: Vec2, bottom_right: Vec2) -> (wt: WallType)
    ensures
        wt == wall_type_of(top_left, bottom_right),
{
    if top_left.x == bottom_right.x {
        return WallType::VERTICAL;
    }
    if top_left.y == bottom_right.y {
        return WallType::HORIZONTAL;
    }
    return WallType::SLANTED;
}

/// The magnitude of a product divided by the magnitude of one factor gives
/// the magnitude of the other.
pub proof fn lemma_quot_of_product(len: int, off: int)
    requires
        len != 0,
    ensures
        abs(len * off) / abs(len) == abs(off),
{
    let l = abs(len);
    let o = abs(off);
    assert(abs(len * off) == l * o) by (nonlinear_arith)
        requires
            l == abs(len),
            o == abs(off),
    ;
    assert((l * o) / l == o) by (nonlinear_arith)
        requires
            l > 0,
            o >= 0,
    ;
}

/// The terms of `cross` are small enough to be added in 128 bits.
proof fn lemma_cross_range(w: Wall, p: Point)
    requires
        w.wf(),
        p.in_reach(),
    ensures
        abs((w.b.y - w.a.y) * p.x) <= 200_000_000_000_000_000_000_000_000_000_000,
        abs((w.b.x - w.a.x) * p.y) <= 200_000_000_000_000_000_000_000_000_000_000,
        abs(w.b.x * w.a.y) <= 1_000_000_000_000_000_000_000_000_000_000,
        abs(w.b.y * w.a.x) <= 1_000_000_000_000_000_000_000_000_000_000,
{
    let rise = w.b.y - w.a.y;
    let run = w.b.x - w.a.x;
    assert(abs(rise * p.x) <= 2_000_000_000_000_000 * 100_000_000_000_000_000) by (nonlinear_arith)
        requires
            -2_000_000_000_000_000 <= rise <= 2_000_000_000_000_000,
            -100_000_000_000_000_000 <= p.x <= 100_000_000_000_000_000,
    ;
    assert(abs(run * p.y) <= 2_000_000_000_000_000 * 100_000_000_000_000_000) by (nonlinear_arith)
        requires
            -2_000_000_000_000_000 <= run <= 2_000_000_000_000_000,
            -100_000_000_000_000_000 <= p.y <= 100_000_000_000_000_000,
    ;
    assert(abs(w.b.x * w.a.y) <= 1_000_000_000_000_000 * 1_000_000_000_000_000) by (nonlinear_arith)
        requires
            -1_000_000_000_000_000 <= w.b.x <= 1_000_000_000_000_000,
            -1_000_000_000_000_000 <= w.a.y <= 1_000_000_000_000_000,
    ;
    assert(abs(w.b.y * w.a.x) <= 1_000_000_000_000_000 * 1_000_000_000_000_000) by (nonlinear_arith)
        requires
            -1_000_000_000_000_000 <= w.b.y <= 1_000_000_000_000_000,
            -1_000_000_000_000_000 <= w.a.x <= 1_000_000_000_000_000,
    ;
}

/// Beside a wall that runs along an axis, the point-to-line formula gives
/// the perpendicular offset from the centre line exactly, whichever way the
/// endpoints were given: the gap is that offset less `HALF_WALL_THICKNESS`,
/// and so never under `-HALF_WALL_THICKNESS`.
pub proof fn lemma_gap_of_axis_wall(w: Wall, p: Point)
    requires
        w.wf(),
        w.in_band(p),
        w.length != 0,
    ensures
        w.gap(p) == w.offset(p) - HALF_WALL_THICKNESS,
        w.gap(p) >= -HALF_WALL_THICKNESS,
{
    match w.wall_type {
        WallType::HORIZONTAL => {
            let len = w.b.x - w.a.x;
            let off = w.a.y - p.y;
            assert(w.cross(p) == len * off) by (nonlinear_arith)
                requires
                    w.b.y == w.a.y,
                    len == w.b.x - w.a.x,
                    off == w.a.y - p.y,
                    w.cross(p) == (w.b.y - w.a.y) * p.x - (w.b.x - w.a.x) * p.y + w.b.x * w.a.y
                        - w.b.y * w.a.x,
            ;
            lemma_quot_of_product(len, off);
        },
        WallType::VERTICAL => {
            let len = w.b.y - w.a.y;
            let off = p.x - w.a.x;
            assert(w.cross(p) == len * off) by (nonlinear_arith)
                requires
                    w.b.x == w.a.x,
                    len == w.b.y - w.a.y,
                    off == p.x - w.a.x,
                    w.cross(p) == (w.b.y - w.a.y) * p.x - (w.b.x - w.a.x) * p.y + w.b.x * w.a.y
                        - w.b.y * w.a.x,
            ;
            lemma_quot_of_product(len, off);
        },
        WallType::SLANTED => {},
    }
}

/// A point whose coordinate along the wall is more than `WALL_THICKNESS`
/// past the lesser or the greater end is never in contact, and no point is
/// in contact with a slanted wall.
pub proof fn lemma_no_contact_outside_band(w: Wall, p: Point)
    requires
        w.wf(),
        match w.wall_type {
            WallType::HORIZONTAL => {
                ||| p.x < w.low_end() - WALL_THICKNESS
                ||| p.x > w.high_end() + WALL_THICKNESS
            },
            WallType::VERTICAL => {
                ||| p.y < w.low_end() - WALL_THICKNESS
                ||| p.y > w.high_end() + WALL_THICKNESS
            },
            WallType::SLANTED => true,
        },
    ensures
        w.gap(p) == NO_CONTACT,
{
}

} // verus!
