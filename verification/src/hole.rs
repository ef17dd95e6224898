//! The layout of one hole: where the ball starts, where the cup is, and the
//! walls between them.

use vstd::prelude::*;
use vstd::string::StringExecFns;
use crate::ball::{walls_wf, Ball, BallState};
use crate::constants::{BALL_RADIUS, CUP_RADIUS};
use crate::decimal::{nat_text, parse_number, parse_units, push_nat};
use crate::fixed::Vec2;
use crate::layout_laws::{first_unwritable, lemma_saved_layout_reads, save_error, saved};
use crate::text::{
    chars_of,
    has_prefix,
    split,
    split_at_char,
    starts_with,
    trim,
    trimmed,
    views,
};
use crate::wall::Wall;

verus! {

/// What a `Hole` stands for in contracts.
pub struct HoleModel {
    pub ball: BallState,
    pub cup: BallState,
    pub walls: Seq<Wall>,
}

impl HoleModel {
    /// Ball and cup are placed in the field with a radius each, and every
    /// wall is valid.
    pub open spec fn wf(self) -> bool {
        &&& self.ball.wf()
        &&& self.ball.pos.in_field()
        &&& self.cup.wf()
        &&& self.cup.pos.in_field()
        &&& walls_wf(self.walls)
    }
}

/// A hole: the ball at its start, the cup, and the walls in the order in
/// which they were authored.
pub struct Hole {
    pub ball: Ball,
    pub cup: Ball,
    pub walls: Vec<Wall>,
}

impl View for Hole {
    type V = HoleModel;

    open spec fn view(&self) -> HoleModel {
        HoleModel { ball: self.ball@, cup: self.cup@, walls: self.walls@ }
    }
}

impl Hole {
    /// The empty hole: ball at (300, 500) pixels, cup at (300, 100), no wall.
    pub fn new() -> (h: Hole)
        ensures
            h.ball == (Ball {
                pos: Vec2 { x: 300_000_000, y: 500_000_000 },
                vel: Vec2 { x: 0, y: 0 },
                radius: BALL_RADIUS,
                starting_pos: Vec2 { x: 300_000_000, y: 500_000_000 },
            }),
            h.cup == (Ball {
                pos: Vec2 { x: 300_000_000, y: 100_000_000 },
                vel: Vec2 { x: 0, y: 0 },
                radius: CUP_RADIUS,
                starting_pos: Vec2 { x: 300_000_000, y: 100_000_000 },
            }),
            h.walls@ == Seq::<Wall>::empty(),
            h@.wf(),
    {
        Hole {
            ball: Ball::new(300_000_000, 500_000_000, BALL_RADIUS),
            cup: Ball::new(300_000_000, 100_000_000, CUP_RADIUS),
            walls: Vec::new(),
        }
    }
}

/// Why a text is no layout.
#[derive(Clone, Copy, Debug, PartialEq, Eq, Structural)]
pub enum LayoutError {
    /// Line `line`, counted from 0, starts with `ball` and is not `ball x y`.
    InvalidBall { line: usize },
    /// Line `line` starts with `cup` and is not `cup x y`.
    InvalidCup { line: usize },
    /// Line `line` starts with `wall` and is not `wall x1 y1 x2 y2`.
    InvalidWall { line: usize },
    /// No line places the ball.
    MissingBall,
    /// No line places the cup.
    MissingCup,
    /// The ball started outside the field and cannot be saved.
    UnwritableBall,
    /// The cup started outside the field and cannot be saved.
    UnwritableCup,
    /// Wall `wall`, counted from 0, is not valid, or the corner of its body
    /// lies outside the field, and cannot be saved.
    UnwritableWall { wall: usize },
}

impl LayoutError {
    /// The diagnostic in words: the line, where one is wrong, and what was
    /// expected or is missing.
    pub open spec fn text(self) -> Seq<char> {
        match self {
            LayoutError::InvalidBall { line } => "line "@ + nat_text(line as nat)
                + ": expected 'ball x y'"@,
            LayoutError::InvalidCup { line } => "line "@ + nat_text(line as nat)
                + ": expected 'cup x y'"@,
            LayoutError::InvalidWall { line } => "line "@ + nat_text(line as nat)
                + ": expected 'wall x1 y1 x2 y2'"@,
            LayoutError::MissingBall => "ball not defined in file!"@,
            LayoutError::MissingCup => "cup not defined in file!"@,
            LayoutError::UnwritableBall => "ball outside the field"@,
            LayoutError::UnwritableCup => "cup outside the field"@,
            LayoutError::UnwritableWall { wall } => "wall "@ + nat_text(wall as nat)
                + " outside the field"@,
        }
    }

    /// The diagnostic in words.
    pub fn to_string(&self) -> (s: String)
        ensures
            s@ == self.text(),
    {
        let mut s = String::new();
        match self {
            LayoutError::InvalidBall { line } => {
                s.append("line ");
                push_nat(&mut s, *line as u64);
                s.append(": expected 'ball x y'");
            },
            LayoutError::InvalidCup { line } => {
                s.append("line ");
                push_nat(&mut s, *line as u64);
                s.append(": expected 'cup x y'");
            },
            LayoutError::InvalidWall { line } => {
                s.append("line ");
                push_nat(&mut s, *line as u64);
                s.append(": expected 'wall x1 y1 x2 y2'");
            },
            LayoutError::MissingBall => {
                s.append("ball not defined in file!");
            },
            LayoutError::MissingCup => {
                s.append("cup not defined in file!");
            },
            LayoutError::UnwritableBall => {
                s.append("ball outside the field");
            },
            LayoutError::UnwritableCup => {
                s.append("cup outside the field");
            },
            LayoutError::UnwritableWall { wall } => {
                s.append("wall ");
                push_nat(&mut s, *wall as u64);
                s.append(" outside the field");
            },
        }
        assert(s@ =~= self.text());
        s
    }
}

/// What one line of a layout says.
#[derive(Clone, Copy, Debug, PartialEq, Eq, Structural)]
pub enum Entry {
    /// Nothing: a blank line, or one that starts with no known word.
    Skip,
    Ball(Vec2),
    Cup(Vec2),
    Wall(Vec2, Vec2),
    BadBall,
    BadCup,
    BadWall,
}

/// What the lines read so far have placed.
pub struct Draft {
    pub ball: Option<Vec2>,
    pub cup: Option<Vec2>,
    pub walls: Seq<Wall>,
}

/// The point that the numbers `xs` and `ys` spell, where both are numbers
/// in the field.
pub open spec fn point_of(xs: Seq<char>, ys: Seq<char>) -> Option<Vec2> {
    match (parse_units(xs), parse_units(ys)) {
        (Some(x), Some(y)) => Some(Vec2 { x: x as i64, y: y as i64 }),
        _ => None,
    }
}

/// What `line` says. The line is trimmed and split at every blank; the word
/// it starts with decides what it must hold.
pub open spec fn entry_of(line: Seq<char>) -> Entry {
    let t = trim(line);
    let f = split(t, ' ');
    if t.len() == 0 {
        Entry::Skip
    } else if starts_with(t, "ball"@) {
        if f.len() == 3 && point_of(f[1], f[2]) is Some {
            Entry::Ball(point_of(f[1], f[2])->0)
        } else {
            Entry::BadBall
        }
    } else if starts_with(t, "cup"@) {
        if f.len() == 3 && point_of(f[1], f[2]) is Some {
            Entry::Cup(point_of(f[1], f[2])->0)
        } else {
            Entry::BadCup
        }
    } else if starts_with(t, "wall"@) {
        if f.len() == 5 && point_of(f[1], f[2]) is Some && point_of(f[3], f[4]) is Some {
            Entry::Wall(point_of(f[1], f[2])->0, point_of(f[3], f[4])->0)
        } else {
            Entry::BadWall
        }
    } else {
        Entry::Skip
    }
}

/// What `lines` place, or the first line that is wrong. A later `ball` or
/// `cup` line replaces an earlier one; walls are kept in their order.
pub open spec fn read_lines(lines: Seq<Seq<char>>) -> Result<Draft, LayoutError>
    decreases lines.len(),
{
    if lines.len() == 0 {
        Ok(Draft { ball: None, cup: None, walls: Seq::empty() })
    } else {
        match read_lines(lines.drop_last()) {
            Err(e) => Err(e),
            Ok(d) => match entry_of(lines.last()) {
                Entry::Skip => Ok(d),
                Entry::Ball(p) => Ok(Draft { ball: Some(p), ..d }),
                Entry::Cup(p) => Ok(Draft { cup: Some(p), ..d }),
                Entry::Wall(a, b) => Ok(Draft { walls: d.walls.push(Wall::built(a, b)), ..d }),
                Entry::BadBall => Err(LayoutError::InvalidBall { line: (lines.len() - 1) as usize }),
                Entry::BadCup => Err(LayoutError::InvalidCup { line: (lines.len() - 1) as usize }),
                Entry::BadWall => Err(
                    LayoutError::InvalidWall { line: (lines.len() - 1) as usize },
                ),
            },
        }
    }
}

/// A ball of radius `r` at rest at `p`.
pub open spec fn placed(p: Vec2, r: int) -> BallState {
    BallState { pos: p@, vel: Vec2 { x: 0, y: 0 }@, radius: r, start: p@ }
}

/// The hole that `text` lays out: its lines are read in order, and both
/// ball and cup must have been placed when the text ends.
pub open spec fn parse_layout(text: Seq<char>) -> Result<HoleModel, LayoutError> {
    match read_lines(split(text, '\n')) {
        Err(e) => Err(e),
        Ok(d) => if d.ball is None {
            Err(LayoutError::MissingBall)
        } else if d.cup is None {
            Err(LayoutError::MissingCup)
        } else {
            Ok(
                HoleModel {
                    ball: placed(d.ball->0, BALL_RADIUS as int),
                    cup: placed(d.cup->0, CUP_RADIUS as int),
                    walls: d.walls,
                },
            )
        },
    }
}

/// The lines that write `walls`, each ended by a line feed.
pub open spec fn walls_text(walls: Seq<Wall>) -> Seq<char>
    decreases walls.len(),
{
    if walls.len() == 0 {
        Seq::empty()
    } else {
        walls_text(walls.drop_last()) + walls.last().text() + "\n"@
    }
}

/// The layout file of `h`: the ball's line, the cup's line, a line for each
/// wall.
pub open spec fn layout_text(h: HoleModel) -> Seq<char> {
    "ball "@ + h.ball.text() + "\n"@ + "cup "@ + h.cup.text() + "\n"@ + walls_text(h.walls)
}

/// Reads the two numbers `xs` and `ys` as a point.
fn read_point(xs: &Vec<char>, ys: &Vec<char>) -> (p: Option<Vec2>)
    ensures
        p == point_of(xs@, ys@),
        p matches Some(v) ==> v@.in_field(),
{
    match parse_number(xs) {
        Some(x) => match parse_number(ys) {
            Some(y) => Some(Vec2::new(x, y)),
            None => None,
        },
        None => None,
    }
}

/// Reads one line of a layout.
pub fn read_entry(line: &Vec<char>) -> (e: Entry)
    ensures
        e == entry_of(line@),
        e matches Entry::Ball(p) ==> p@.in_field(),
        e matches Entry::Cup(p) ==> p@.in_field(),
        e matches Entry::Wall(a, b) ==> a@.in_field() && b@.in_field(),
{
    let t = trimmed(line);
    if t.len() == 0 {
        return Entry::Skip;
    }
    let f = split_at_char(&t, ' ');
    proof {
        assert forall|i: int| 0 <= i < f@.len() implies (#[trigger] f@[i])@ == split(t@, ' ')[i] by {
            assert(views(f@)[i] == f@[i]@);
        }
        assert(f@.len() == views(f@).len());
    }
    if has_prefix(&t, "ball") {
        if f.len() == 3 {
            if let Some(p) = read_point(&f[1], &f[2]) {
                return Entry::Ball(p);
            }
        }
        Entry::BadBall
    } else if has_prefix(&t, "cup") {
        if f.len() == 3 {
            if let Some(p) = read_point(&f[1], &f[2]) {
                return Entry::Cup(p);
            }
        }
        Entry::BadCup
    } else if has_prefix(&t, "wall") {
        if f.len() == 5 {
            if let Some(a) = read_point(&f[1], &f[2]) {
                if let Some(b) = read_point(&f[3], &f[4]) {
                    return Entry::Wall(a, b);
                }
            }
        }
        Entry::BadWall
    } else {
        Entry::Skip
    }
}

impl Hole {
    /// Whether the hole is valid: ball and cup placed in the field, each
    /// with a radius, and every wall valid.
    pub fn is_valid(&self) -> (b: bool)
        ensures
            b == self@.wf(),
    {
        if !(self.ball.is_valid() && self.ball.pos.is_in_field() && self.cup.is_valid()
            && self.cup.pos.is_in_field()) {
            return false;
        }
        let mut i: usize = 0;
        while i < self.walls.len()
            invariant
                i <= self.walls.len(),
                forall|j: int| 0 <= j < i ==> (#[trigger] self.walls@[j]).wf(),
            decreases self.walls.len() - i,
        {
            if !self.walls[i].is_valid() {
                return false;
            }
            i += 1;
        }
        true
    }

    /// Reads a layout file. Each line is `ball x y`, `cup x y` or
    /// `wall x1 y1 x2 y2`, with one blank between the fields and white space
    /// around the line passed over. A number is a length in pixels in
    /// decimal: a sign, digits, a point, places and an exponent, as far as
    /// it has them; it is read to the millionth of a pixel and must lie in
    /// the field. Blank lines and lines that start with another word are
    /// passed over. Fails on the first line that starts with one of the
    /// three words and does not hold what the word asks for, naming the
    /// line, and on a text that places no ball or no cup.
    pub fn from_file(text: &str) -> (r: Result<Hole, LayoutError>)
        ensures
            match r {
                Ok(h) => parse_layout(text@) == Ok::<HoleModel, LayoutError>(h@) && h@.wf(),
                Err(e) => parse_layout(text@) == Err::<HoleModel, LayoutError>(e),
            },
    {
        let chars = chars_of(text);
        let lines = split_at_char(&chars, '\n');
        let mut ball: Option<Vec2> = None;
        let mut cup: Option<Vec2> = None;
        let mut walls: Vec<Wall> = Vec::new();
        let mut i: usize = 0;
        let ghost all = views(lines@);
        assert(all.take(0) =~= Seq::<Seq<char>>::empty());
        while i < lines.len()
            invariant
                i <= lines.len(),
                all == views(lines@),
                all == split(text@, '\n'),
                read_lines(all.take(i as int)) == Ok::<Draft, LayoutError>(
                    Draft { ball, cup, walls: walls@ },
                ),
                walls_wf(walls@),
                ball matches Some(p) ==> p@.in_field(),
                cup matches Some(p) ==> p@.in_field(),
            decreases lines.len() - i,
        {
            proof {
                assert(all.take(i + 1).drop_last() =~= all.take(i as int));
                assert(all.take(i + 1).last() == lines@[i as int]@);
            }
            match read_entry(&lines[i]) {
                Entry::Skip => {},
                Entry::Ball(p) => {
                    ball = Some(p);
                },
                Entry::Cup(p) => {
                    cup = Some(p);
                },
                Entry::Wall(a, b) => {
                    let w = Wall::new(a, b);
                    walls.push(w);
                },
                Entry::BadBall => {
                    proof {
                        lemma_read_lines_stops(all, i + 1);
                    }
                    return Err(LayoutError::InvalidBall { line: i });
                },
                Entry::BadCup => {
                    proof {
                        lemma_read_lines_stops(all, i + 1);
                    }
                    return Err(LayoutError::InvalidCup { line: i });
                },
                Entry::BadWall => {
                    proof {
                        lemma_read_lines_stops(all, i + 1);
                    }
                    return Err(LayoutError::InvalidWall { line: i });
                },
            }
            i += 1;
        }
        assert(all.take(lines.len() as int) =~= all);
        match ball {
            None => Err(LayoutError::MissingBall),
            Some(b) => match cup {
                None => Err(LayoutError::MissingCup),
                Some(c) => Ok(
                    Hole {
                        ball: Ball::new(b.x, b.y, BALL_RADIUS),
                        cup: Ball::new(c.x, c.y, CUP_RADIUS),
                        walls,
                    },
                ),
            },
        }
    }

    /// The layout file of the hole: `ball x y`, `cup x y`, and a line for
    /// each wall in order. What is given can be read again by `from_file`;
    /// a hole of which that does not hold is refused, with the ball, the cup
    /// or the first wall that is in the way.
    pub fn save_to_file(&self) -> (r: Result<String, LayoutError>)
        ensures
            match r {
                Ok(s) => save_error(self@) is None && s@ == layout_text(self@) && parse_layout(s@)
                    == Ok::<HoleModel, LayoutError>(saved(self@)),
                Err(e) => save_error(self@) == Some(e),
            },
    {
        if !self.ball.starting_pos.is_in_field() {
            return Err(LayoutError::UnwritableBall);
        }
        if !self.cup.starting_pos.is_in_field() {
            return Err(LayoutError::UnwritableCup);
        }
        let mut s = String::new();
        s.append("ball ");
        s.append(self.ball.to_string().as_str());
        s.append("\n");
        s.append("cup ");
        s.append(self.cup.to_string().as_str());
        s.append("\n");
        let ghost head = s@;
        let mut i: usize = 0;
        assert(self.walls@.take(0) =~= Seq::<Wall>::empty());
        assert(s@ =~= head + walls_text(self.walls@.take(0)));
        while i < self.walls.len()
            invariant
                i <= self.walls.len(),
                self@.ball.start.in_field(),
                self@.cup.start.in_field(),
                first_unwritable(self.walls@.take(i as int)) is None,
                s@ == head + walls_text(self.walls@.take(i as int)),
            decreases self.walls.len() - i,
        {
            proof {
                assert(self.walls@.take(i + 1).drop_last() =~= self.walls@.take(i as int));
                assert(self.walls@.take(i + 1).last() == self.walls@[i as int]);
            }
            if !self.walls[i].is_writable() {
                proof {
                    assert(first_unwritable(self.walls@.take(i + 1)) == Some(i as int));
                    lemma_first_unwritable_stops(self.walls@, i + 1);
                }
                return Err(LayoutError::UnwritableWall { wall: i });
            }
            s.append(self.walls[i].to_string().as_str());
            s.append("\n");
            assert(s@ =~= head + walls_text(self.walls@.take(i + 1)));
            i += 1;
        }
        proof {
            assert(self.walls@.take(self.walls.len() as int) =~= self.walls@);
            assert(s@ =~= layout_text(self@));
            lemma_saved_layout_reads(self@);
        }
        Ok(s)
    }
}

/// The first wall that cannot be written is the first of every longer list
/// too.
pub proof fn lemma_first_unwritable_stops(walls: Seq<Wall>, n: int)
    requires
        0 <= n <= walls.len(),
        first_unwritable(walls.take(n)) is Some,
    ensures
        first_unwritable(walls) == first_unwritable(walls.take(n)),
    decreases walls.len() - n,
{
    if n < walls.len() {
        assert(walls.take(n + 1).drop_last() =~= walls.take(n));
        lemma_first_unwritable_stops(walls, n + 1);
    } else {
        assert(walls.take(n) =~= walls);
    }
}

/// Once a line is wrong, the lines after it change nothing: the error of a
/// prefix is the error of the whole.
pub proof fn lemma_read_lines_stops(lines: Seq<Seq<char>>, n: int)
    requires
        0 <= n <= lines.len(),
        read_lines(lines.take(n)) is Err,
    ensures
        read_lines(lines) == read_lines(lines.take(n)),
    decreases lines.len() - n,
{
    if n < lines.len() {
        assert(lines.take(n + 1).drop_last() =~= lines.take(n));
        lemma_read_lines_stops(lines, n + 1);
    } else {
        assert(lines.take(n) =~= lines);
    }
}

} // verus!
