//! What is written can be read: the text that `save_to_file` gives is a
//! layout, and reading it gives the ball and the cup back, and each wall
//! that has a body as that body's corner line.

use vstd::prelude::*;
use crate::decimal::{
    frac_text,
    is_digit,
    lemma_frac_text,
    lemma_nat_text,
    lemma_text_round_trip,
    nat_text,
    parse_units,
    units_text,
};
use crate::constants::{BALL_RADIUS, CUP_RADIUS, FIELD_MAX, SCALE};
use crate::fixed::{abs, Vec2};
use crate::hole::{
    entry_of,
    layout_text,
    parse_layout,
    placed,
    point_of,
    read_lines,
    walls_text,
    Draft,
    Entry,
    HoleModel,
    LayoutError,
};
use crate::wall::{Wall, WallType};
use crate::text::{is_space, split, starts_with, trim};

verus! {

/// `s` is written with digits, minus signs and points alone.
pub open spec fn numeric(s: Seq<char>) -> bool {
    forall|i: int| 0 <= i < s.len() ==> is_digit(#[trigger] s[i]) || s[i] == '-' || s[i] == '.'
}

/// `sep` does not occur in `s`.
pub open spec fn free_of(s: Seq<char>, sep: char) -> bool {
    forall|i: int| 0 <= i < s.len() ==> #[trigger] s[i] != sep
}

/// A written length is numeric, and begins and ends with a character that
/// is no space.
pub proof fn lemma_units_text_numeric(v: int)
    ensures
        units_text(v).len() >= 1,
        numeric(units_text(v)),
        free_of(units_text(v), ' '),
        free_of(units_text(v), '\n'),
        !is_space(units_text(v)[0]),
        !is_space(units_text(v).last()),
{
    let w = (abs(v) / (SCALE as int)) as nat;
    let m = abs(v) % (SCALE as int);
    let sign = if v < 0 {
        seq!['-']
    } else {
        Seq::<char>::empty()
    };
    let whole = nat_text(w);
    let frac = frac_text(m);
    let t = units_text(v);
    lemma_nat_text(w);
    if m != 0 {
        lemma_frac_text(m);
        assert forall|i: int| 1 <= i < frac.len() implies is_digit(#[trigger] frac[i]) by {
            assert(frac[i] == frac.skip(1)[i - 1]);
        }
    }
    assert(t =~= sign + whole + frac);
    assert forall|i: int| 0 <= i < t.len() implies is_digit(#[trigger] t[i]) || t[i] == '-'
        || t[i] == '.' by {
        if i < sign.len() {
            assert(t[i] == sign[i]);
        } else if i < sign.len() + whole.len() {
            assert(t[i] == whole[i - sign.len()]);
        } else {
            assert(t[i] == frac[i - sign.len() - whole.len()]);
        }
    }
    assert(is_digit(t.last())) by {
        if m == 0 {
            assert(t.last() == whole.last());
        } else {
            assert(t.last() == frac.last());
        }
    }
    assert(t[0] == '-' || is_digit(t[0])) by {
        if v < 0 {
            assert(t[0] == sign[0]);
        } else {
            assert(t[0] == whole[0]);
        }
    }
}

/// A text without `sep` is one piece.
pub proof fn lemma_split_one(s: Seq<char>, sep: char)
    requires
        free_of(s, sep),
    ensures
        split(s, sep) == seq![s],
    decreases s.len(),
{
    if s.len() == 0 {
        assert(s =~= Seq::<char>::empty());
    } else {
        let head = s.drop_last();
        lemma_split_one(head, sep);
        let pieces = split(head, sep);
        assert(pieces.drop_last() =~= Seq::<Seq<char>>::empty());
        assert(pieces.last().push(s.last()) =~= s);
        assert(pieces.drop_last().push(s) =~= seq![s]);
    }
}

/// A piece without `sep` added behind a `sep` is one more piece.
pub proof fn lemma_split_push(a: Seq<char>, b: Seq<char>, sep: char)
    requires
        free_of(b, sep),
    ensures
        split(a + seq![sep] + b, sep) == split(a, sep).push(b),
    decreases b.len(),
{
    let whole = a + seq![sep] + b;
    if b.len() == 0 {
        assert(whole.drop_last() =~= a);
        assert(whole.last() == sep);
        assert(b =~= Seq::<char>::empty());
    } else {
        let head = b.drop_last();
        lemma_split_push(a, head, sep);
        assert(whole.drop_last() =~= a + seq![sep] + head);
        assert(whole.last() == b.last());
        let pieces = split(a, sep).push(head);
        assert(pieces.drop_last() =~= split(a, sep));
        assert(pieces.last().push(b.last()) =~= b);
    }
}

/// A text that begins and ends with a character that is no space is its
/// own trimming.
pub proof fn lemma_trim_tight(s: Seq<char>)
    requires
        s.len() > 0,
        !is_space(s[0]),
        !is_space(s.last()),
    ensures
        trim(s) == s,
{
}

/// A word, a blank and a written length, and so on: the line that holds
/// `word` and the lengths `vs` as its fields.
pub open spec fn line_of(word: Seq<char>, vs: Seq<int>) -> Seq<char>
    decreases vs.len(),
{
    if vs.len() == 0 {
        word
    } else {
        line_of(word, vs.drop_last()) + seq![' '] + units_text(vs.last())
    }
}

/// The fields of such a line.
pub open spec fn fields_of(word: Seq<char>, vs: Seq<int>) -> Seq<Seq<char>>
    decreases vs.len(),
{
    if vs.len() == 0 {
        seq![word]
    } else {
        fields_of(word, vs.drop_last()).push(units_text(vs.last()))
    }
}

/// A line of a word and lengths is its own trimming, begins with the word,
/// and splits at its blanks into the word and the lengths as written.
pub proof fn lemma_line(word: Seq<char>, vs: Seq<int>)
    requires
        word.len() > 0,
        free_of(word, ' '),
        !is_space(word[0]),
        !is_space(word.last()),
    ensures
        line_of(word, vs).len() >= word.len(),
        line_of(word, vs).take(word.len() as int) == word,
        !is_space(line_of(word, vs).last()),
        trim(line_of(word, vs)) == line_of(word, vs),
        split(line_of(word, vs), ' ') == fields_of(word, vs),
        fields_of(word, vs).len() == vs.len() + 1,
        free_of(line_of(word, vs), '\n') <== free_of(word, '\n'),
    decreases vs.len(),
{
    let line = line_of(word, vs);
    if vs.len() == 0 {
        lemma_split_one(word, ' ');
        assert(word.take(word.len() as int) =~= word);
    } else {
        let head = line_of(word, vs.drop_last());
        let t = units_text(vs.last());
        lemma_line(word, vs.drop_last());
        lemma_units_text_numeric(vs.last());
        lemma_split_push(head, t, ' ');
        assert(line.take(word.len() as int) =~= head.take(word.len() as int));
        assert(line.last() == t.last());
        assert(line[0] == head[0]);
        assert(head[0] == head.take(word.len() as int)[0]);
        if free_of(word, '\n') {
            assert forall|i: int| 0 <= i < line.len() implies #[trigger] line[i] != '\n' by {
                if i < head.len() {
                    assert(line[i] == head[i]);
                } else if i == head.len() {
                } else {
                    assert(line[i] == t[i - head.len() - 1]);
                }
            }
        }
    }
    lemma_trim_tight(line);
}

/// Field `i + 1` of a line of a word and lengths in the field reads as
/// length `i`.
pub proof fn lemma_field_reads(word: Seq<char>, vs: Seq<int>, i: int)
    requires
        0 <= i < vs.len(),
        abs(vs[i]) <= FIELD_MAX,
    ensures
        fields_of(word, vs).len() == vs.len() + 1,
        fields_of(word, vs)[0] == word,
        parse_units(fields_of(word, vs)[i + 1]) == Some(vs[i]),
    decreases vs.len(),
{
    lemma_fields_len(word, vs);
    if i == vs.len() - 1 {
        lemma_text_round_trip(vs[i]);
        lemma_fields_len(word, vs.drop_last());
    } else {
        lemma_field_reads(word, vs.drop_last(), i);
    }
    lemma_fields_len(word, vs.drop_last());
}

/// A line has one field more than lengths, and the first is the word.
pub proof fn lemma_fields_len(word: Seq<char>, vs: Seq<int>)
    ensures
        fields_of(word, vs).len() == vs.len() + 1,
        fields_of(word, vs)[0] == word,
    decreases vs.len(),
{
    if vs.len() > 0 {
        lemma_fields_len(word, vs.drop_last());
    }
}

/// The line that places the ball at `(x, y)` reads as that.
pub proof fn lemma_ball_line(x: int, y: int)
    requires
        abs(x) <= FIELD_MAX,
        abs(y) <= FIELD_MAX,
    ensures
        entry_of("ball "@ + (units_text(x) + " "@ + units_text(y))) == Entry::Ball(
            Vec2 { x: x as i64, y: y as i64 },
        ),
        free_of("ball "@ + (units_text(x) + " "@ + units_text(y)), '\n'),
{
    reveal_strlit("ball ");
    reveal_strlit("ball");
    reveal_strlit(" ");
    let word = "ball"@;
    let vs = seq![x, y];
    let line = "ball "@ + (units_text(x) + " "@ + units_text(y));
    lemma_spell(word, x, y);
    assert(line =~= line_of(word, vs));
    lemma_line(word, vs);
    lemma_field_reads(word, vs, 0);
    lemma_field_reads(word, vs, 1);
    assert(point_of(units_text(x), units_text(y)) == Some(Vec2 { x: x as i64, y: y as i64 }));
}

/// A line of two lengths, written out.
proof fn lemma_spell(word: Seq<char>, x: int, y: int)
    ensures
        line_of(word, seq![x, y]) == word + seq![' '] + units_text(x) + seq![' '] + units_text(y),
        fields_of(word, seq![x, y]) == seq![word, units_text(x), units_text(y)],
{
    let vs = seq![x, y];
    assert(vs.drop_last() =~= seq![x]);
    assert(seq![x].drop_last() =~= Seq::<int>::empty());
    assert(line_of(word, Seq::<int>::empty()) == word);
    assert(fields_of(word, Seq::<int>::empty()) == seq![word]);
    assert(seq![x].last() == x);
    assert(line_of(word, seq![x]) == word + seq![' '] + units_text(x));
    assert(fields_of(word, seq![x]) =~= seq![word, units_text(x)]);
    assert(fields_of(word, vs) =~= seq![word, units_text(x), units_text(y)]);
}

/// The line that places the cup at `(x, y)` reads as that.
pub proof fn lemma_cup_line(x: int, y: int)
    requires
        abs(x) <= FIELD_MAX,
        abs(y) <= FIELD_MAX,
    ensures
        entry_of("cup "@ + (units_text(x) + " "@ + units_text(y))) == Entry::Cup(
            Vec2 { x: x as i64, y: y as i64 },
        ),
        free_of("cup "@ + (units_text(x) + " "@ + units_text(y)), '\n'),
{
    reveal_strlit("cup ");
    reveal_strlit("cup");
    reveal_strlit("ball");
    reveal_strlit(" ");
    let word = "cup"@;
    let vs = seq![x, y];
    let line = "cup "@ + (units_text(x) + " "@ + units_text(y));
    lemma_spell(word, x, y);
    assert(line =~= line_of(word, vs));
    lemma_line(word, vs);
    lemma_field_reads(word, vs, 0);
    lemma_field_reads(word, vs, 1);
    assert(point_of(units_text(x), units_text(y)) == Some(Vec2 { x: x as i64, y: y as i64 }));
    assert(line[0] == word[0]);
    assert(!starts_with(line, "ball"@)) by {
        if starts_with(line, "ball"@) {
            assert(line.take(4)[0] == "ball"@[0]);
        }
    }
}

/// A line of four lengths, written out.
proof fn lemma_spell_four(word: Seq<char>, x1: int, y1: int, x2: int, y2: int)
    ensures
        line_of(word, seq![x1, y1, x2, y2]) == word + seq![' '] + units_text(x1) + seq![' ']
            + units_text(y1) + seq![' '] + units_text(x2) + seq![' '] + units_text(y2),
        fields_of(word, seq![x1, y1, x2, y2]) == seq![
            word,
            units_text(x1),
            units_text(y1),
            units_text(x2),
            units_text(y2),
        ],
{
    let vs = seq![x1, y1, x2, y2];
    assert(vs.drop_last() =~= seq![x1, y1, x2]);
    assert(seq![x1, y1, x2].drop_last() =~= seq![x1, y1]);
    lemma_spell(word, x1, y1);
    assert(line_of(word, seq![x1, y1, x2]) == line_of(word, seq![x1, y1]) + seq![' ']
        + units_text(x2));
    assert(fields_of(word, seq![x1, y1, x2]) =~= seq![
        word,
        units_text(x1),
        units_text(y1),
        units_text(x2),
    ]);
    assert(fields_of(word, vs) =~= seq![
        word,
        units_text(x1),
        units_text(y1),
        units_text(x2),
        units_text(y2),
    ]);
}

/// The line that lays a wall from `(x1, y1)` to `(x2, y2)` reads as that.
#[verifier::rlimit(60)]
pub proof fn lemma_wall_line(x1: int, y1: int, x2: int, y2: int)
    requires
        abs(x1) <= FIELD_MAX,
        abs(y1) <= FIELD_MAX,
        abs(x2) <= FIELD_MAX,
        abs(y2) <= FIELD_MAX,
    ensures
        entry_of(
            "wall "@ + units_text(x1) + " "@ + units_text(y1) + " "@ + units_text(x2) + " "@
                + units_text(y2),
        ) == Entry::Wall(
            Vec2 { x: x1 as i64, y: y1 as i64 },
            Vec2 { x: x2 as i64, y: y2 as i64 },
        ),
        free_of(
            "wall "@ + units_text(x1) + " "@ + units_text(y1) + " "@ + units_text(x2) + " "@
                + units_text(y2),
            '\n',
        ),
{
    reveal_strlit("wall ");
    reveal_strlit("wall");
    reveal_strlit("ball");
    reveal_strlit("cup");
    reveal_strlit(" ");
    let word = "wall"@;
    let vs = seq![x1, y1, x2, y2];
    let line = "wall "@ + units_text(x1) + " "@ + units_text(y1) + " "@ + units_text(x2) + " "@
        + units_text(y2);
    lemma_spell_four(word, x1, y1, x2, y2);
    assert(line =~= line_of(word, vs));
    lemma_line(word, vs);
    lemma_field_reads(word, vs, 0);
    lemma_field_reads(word, vs, 1);
    lemma_field_reads(word, vs, 2);
    lemma_field_reads(word, vs, 3);
    assert(point_of(units_text(x1), units_text(y1)) == Some(
        Vec2 { x: x1 as i64, y: y1 as i64 },
    ));
    assert(point_of(units_text(x2), units_text(y2)) == Some(
        Vec2 { x: x2 as i64, y: y2 as i64 },
    ));
    assert(line[0] == word[0]);
    assert(!starts_with(line, "ball"@)) by {
        if starts_with(line, "ball"@) {
            assert(line.take(4)[0] == "ball"@[0]);
        }
    }
    assert(!starts_with(line, "cup"@)) by {
        if starts_with(line, "cup"@) {
            assert(line.take(3)[0] == "cup"@[0]);
        }
    }
}

/// The wall that the line written for `w` lays: from the corner of the body
/// of `w` one length along its axis.
pub open spec fn reread(w: Wall) -> Wall {
    match w.wall_type {
        WallType::HORIZONTAL => Wall::built(
            w.top_left,
            Vec2 { x: (w.top_left.x + w.length) as i64, y: w.top_left.y },
        ),
        WallType::VERTICAL => Wall::built(
            w.top_left,
            Vec2 { x: w.top_left.x, y: (w.top_left.y + w.length) as i64 },
        ),
        WallType::SLANTED => w,
    }
}

/// The walls that the lines written for `walls` lay: one for each wall with
/// a body, in order, and none for a slanted wall.
pub open spec fn reread_all(walls: Seq<Wall>) -> Seq<Wall>
    decreases walls.len(),
{
    if walls.len() == 0 {
        Seq::empty()
    } else if walls.last().wall_type == WallType::SLANTED {
        reread_all(walls.drop_last())
    } else {
        reread_all(walls.drop_last()).push(reread(walls.last()))
    }
}

/// The lines written for `walls`.
pub open spec fn wall_lines(walls: Seq<Wall>) -> Seq<Seq<char>> {
    Seq::new(walls.len(), |i: int| walls[i].text())
}

/// Every wall of `walls` can be written.
pub open spec fn all_writable(walls: Seq<Wall>) -> bool {
    forall|i: int| 0 <= i < walls.len() ==> (#[trigger] walls[i]).writable()
}

/// The first wall of `walls` that cannot be written, if there is one.
pub open spec fn first_unwritable(walls: Seq<Wall>) -> Option<int>
    decreases walls.len(),
{
    if walls.len() == 0 {
        None
    } else {
        match first_unwritable(walls.drop_last()) {
            Some(i) => Some(i),
            None => if walls.last().writable() {
                None
            } else {
                Some(walls.len() - 1)
            },
        }
    }
}

/// Why `h` cannot be saved, if it cannot: the ball or the cup started
/// outside the field, or a wall cannot be written. What is saved must be a
/// text that can be read again.
pub open spec fn save_error(h: HoleModel) -> Option<LayoutError> {
    if !h.ball.start.in_field() {
        Some(LayoutError::UnwritableBall)
    } else if !h.cup.start.in_field() {
        Some(LayoutError::UnwritableCup)
    } else {
        match first_unwritable(h.walls) {
            Some(i) => Some(LayoutError::UnwritableWall { wall: i as usize }),
            None => None,
        }
    }
}

/// The hole that reading the saved text of `h` gives: the ball and the cup
/// at rest where they started, with the radii that a layout gives them, and
/// the walls as reread.
pub open spec fn saved(h: HoleModel) -> HoleModel {
    HoleModel {
        ball: placed(
            Vec2 { x: h.ball.start.x as i64, y: h.ball.start.y as i64 },
            BALL_RADIUS as int,
        ),
        cup: placed(Vec2 { x: h.cup.start.x as i64, y: h.cup.start.y as i64 }, CUP_RADIUS as int),
        walls: reread_all(h.walls),
    }
}

/// Where no wall is found that cannot be written, all can.
pub proof fn lemma_first_unwritable(walls: Seq<Wall>)
    ensures
        first_unwritable(walls) is None <==> all_writable(walls),
        first_unwritable(walls) matches Some(i) ==> 0 <= i < walls.len() && !walls[i].writable(),
    decreases walls.len(),
{
    if walls.len() > 0 {
        let head = walls.drop_last();
        lemma_first_unwritable(head);
        if all_writable(head) && walls.last().writable() {
            assert forall|i: int| 0 <= i < walls.len() implies (#[trigger] walls[i]).writable() by {
                if i < head.len() {
                    assert(walls[i] == head[i]);
                }
            }
        }
        if all_writable(walls) {
            assert forall|i: int| 0 <= i < head.len() implies (#[trigger] head[i]).writable() by {
                assert(head[i] == walls[i]);
            }
        }
        if first_unwritable(head) is Some {
            let i = first_unwritable(head)->0;
            assert(head[i] == walls[i]);
        }
    }
}

/// The line written for a wall holds no line feed.
pub proof fn lemma_wall_text_clean(w: Wall)
    ensures
        free_of(w.text(), '\n'),
{
    reveal_strlit("wall");
    reveal_strlit("wall ");
    reveal_strlit(" ");
    match w.wall_type {
        WallType::HORIZONTAL => {
            let vs = seq![
                w.top_left.x as int,
                w.top_left.y as int,
                w.top_left.x + w.length,
                w.top_left.y as int,
            ];
            lemma_spell_four(
                "wall"@,
                w.top_left.x as int,
                w.top_left.y as int,
                w.top_left.x + w.length,
                w.top_left.y as int,
            );
            lemma_line("wall"@, vs);
            assert(w.text() =~= line_of("wall"@, vs));
        },
        WallType::VERTICAL => {
            let vs = seq![
                w.top_left.x as int,
                w.top_left.y as int,
                w.top_left.x as int,
                w.top_left.y + w.length,
            ];
            lemma_spell_four(
                "wall"@,
                w.top_left.x as int,
                w.top_left.y as int,
                w.top_left.x as int,
                w.top_left.y + w.length,
            );
            lemma_line("wall"@, vs);
            assert(w.text() =~= line_of("wall"@, vs));
        },
        WallType::SLANTED => {},
    }
}

/// The line written for a wall reads as the wall from the corner of its
/// body, or as nothing where the wall is slanted.
pub proof fn lemma_wall_text_reads(w: Wall)
    requires
        w.writable(),
    ensures
        free_of(w.text(), '\n'),
        w.wall_type == WallType::SLANTED ==> entry_of(w.text()) == Entry::Skip,
        w.wall_type != WallType::SLANTED ==> entry_of(w.text()) == Entry::Wall(
            reread(w).a,
            reread(w).b,
        ) && reread(w) == Wall::built(reread(w).a, reread(w).b),
{
    match w.wall_type {
        WallType::HORIZONTAL => {
            lemma_wall_line(
                w.top_left.x as int,
                w.top_left.y as int,
                w.top_left.x + w.length,
                w.top_left.y as int,
            );
        },
        WallType::VERTICAL => {
            lemma_wall_line(
                w.top_left.x as int,
                w.top_left.y as int,
                w.top_left.x as int,
                w.top_left.y + w.length,
            );
        },
        WallType::SLANTED => {
            assert(w.text() =~= Seq::<char>::empty());
        },
    }
}

/// Reading one more line: the lines before it are read, then the line.
pub proof fn lemma_read_one_more(lines: Seq<Seq<char>>, line: Seq<char>)
    ensures
        read_lines(lines.push(line)) == match read_lines(lines) {
            Err(e) => Err::<Draft, LayoutError>(e),
            Ok(d) => match entry_of(line) {
                Entry::Skip => Ok(d),
                Entry::Ball(p) => Ok(Draft { ball: Some(p), ..d }),
                Entry::Cup(p) => Ok(Draft { cup: Some(p), ..d }),
                Entry::Wall(a, b) => Ok(Draft { walls: d.walls.push(Wall::built(a, b)), ..d }),
                Entry::BadBall => Err(LayoutError::InvalidBall { line: lines.len() as usize }),
                Entry::BadCup => Err(LayoutError::InvalidCup { line: lines.len() as usize }),
                Entry::BadWall => Err(LayoutError::InvalidWall { line: lines.len() as usize }),
            },
        },
{
    let all = lines.push(line);
    assert(all.drop_last() =~= lines);
    assert(all.last() == line);
}

/// The text written for ball, cup and walls splits at its line feeds into
/// the ball's line, the cup's line, a line for each wall, and an empty
/// piece behind the last line feed.
pub proof fn lemma_layout_lines(ball: Seq<char>, cup: Seq<char>, walls: Seq<Wall>)
    requires
        free_of(ball, '\n'),
        free_of(cup, '\n'),
    ensures
        split(ball + seq!['\n'] + cup + seq!['\n'] + walls_text(walls), '\n') == (seq![ball, cup]
            + wall_lines(walls)).push(Seq::<char>::empty()),
    decreases walls.len(),
{
    reveal_strlit("\n");
    let none = Seq::<char>::empty();
    let head = ball + seq!['\n'] + cup;
    let text = head + seq!['\n'] + walls_text(walls);
    let lines = seq![ball, cup] + wall_lines(walls);
    if walls.len() == 0 {
        lemma_split_one(ball, '\n');
        lemma_split_push(ball, cup, '\n');
        lemma_split_push(head, none, '\n');
        assert(text =~= head + seq!['\n'] + none);
        assert(lines =~= seq![ball].push(cup));
    } else {
        let w = walls.last();
        let before = walls.drop_last();
        let prev = head + seq!['\n'] + walls_text(before);
        let prev_lines = seq![ball, cup] + wall_lines(before);
        lemma_layout_lines(ball, cup, before);
        lemma_wall_text_clean(w);
        let u = prev.drop_last();
        assert(prev.last() == '\n');
        assert(split(prev, '\n') == split(u, '\n').push(none));
        assert(split(u, '\n') =~= prev_lines) by {
            assert(split(u, '\n').push(none).drop_last() =~= split(u, '\n'));
            assert(prev_lines.push(none).drop_last() =~= prev_lines);
        }
        lemma_split_push(u, w.text(), '\n');
        lemma_split_push(u + seq!['\n'] + w.text(), none, '\n');
        assert(text =~= u + seq!['\n'] + w.text() + seq!['\n'] + none) by {
            assert(prev =~= u + seq!['\n']);
            assert(walls_text(walls) == walls_text(before) + w.text() + "\n"@);
        }
        assert(lines =~= prev_lines.push(w.text()));
    }
}

/// Reading the lines of ball, cup and walls places the ball, the cup and
/// the walls as reread.
pub proof fn lemma_layout_reads(
    ball: Seq<char>,
    cup: Seq<char>,
    walls: Seq<Wall>,
    b: Vec2,
    c: Vec2,
)
    requires
        entry_of(ball) == Entry::Ball(b),
        entry_of(cup) == Entry::Cup(c),
        all_writable(walls),
    ensures
        read_lines(seq![ball, cup] + wall_lines(walls)) == Ok::<Draft, LayoutError>(
            Draft { ball: Some(b), cup: Some(c), walls: reread_all(walls) },
        ),
    decreases walls.len(),
{
    let lines = seq![ball, cup] + wall_lines(walls);
    if walls.len() == 0 {
        let none = Seq::<Seq<char>>::empty();
        lemma_read_one_more(none, ball);
        lemma_read_one_more(none.push(ball), cup);
        assert(lines =~= none.push(ball).push(cup));
    } else {
        let w = walls.last();
        let before = walls.drop_last();
        let prev = seq![ball, cup] + wall_lines(before);
        lemma_layout_reads(ball, cup, before, b, c);
        assert(w.writable());
        lemma_wall_text_reads(w);
        lemma_read_one_more(prev, w.text());
        assert(lines =~= prev.push(w.text()));
    }
}

/// Reading what was saved gives the hole back as far as the text holds it:
/// the ball and the cup at rest where they started, with the radii that a
/// layout gives them, and the walls as reread.
pub proof fn lemma_saved_layout_reads(h: HoleModel)
    requires
        save_error(h) is None,
    ensures
        parse_layout(layout_text(h)) == Ok::<HoleModel, LayoutError>(saved(h)),
{
    reveal_strlit("\n");
    lemma_first_unwritable(h.walls);
    let ball = "ball "@ + h.ball.text();
    let cup = "cup "@ + h.cup.text();
    let b = Vec2 { x: h.ball.start.x as i64, y: h.ball.start.y as i64 };
    let c = Vec2 { x: h.cup.start.x as i64, y: h.cup.start.y as i64 };
    lemma_ball_line(h.ball.start.x, h.ball.start.y);
    lemma_cup_line(h.cup.start.x, h.cup.start.y);
    lemma_layout_lines(ball, cup, h.walls);
    lemma_layout_reads(ball, cup, h.walls, b, c);
    let lines = seq![ball, cup] + wall_lines(h.walls);
    lemma_read_one_more(lines, Seq::<char>::empty());
    assert(layout_text(h) =~= ball + seq!['\n'] + cup + seq!['\n'] + walls_text(h.walls));
    assert(entry_of(Seq::<char>::empty()) == Entry::Skip);
}

} // verus!
