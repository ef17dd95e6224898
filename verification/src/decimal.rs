//! Lengths as decimal text: a sign, whole pixels, places of a pixel and an
//! exponent of ten. A length is read to the millionth of a pixel and written
//! with as many places as it needs.

use vstd::prelude::*;
use vstd::string::StringExecFns;
use crate::constants::{FIELD_MAX, SCALE};
use crate::fixed::abs;

verus! {

pub open spec fn is_digit(c: char) -> bool {
    48 <= c as int <= 57
}

/// The number that the digit `c` stands for.
pub open spec fn digit_value(c: char) -> int {
    c as int - 48
}

/// The digit for `d`.
pub open spec fn digit_char(d: int) -> char {
    (d + 48) as char
}

pub open spec fn all_digits(s: Seq<char>) -> bool {
    forall|i: int| 0 <= i < s.len() ==> is_digit(#[trigger] s[i])
}

/// Number of digits that `s` begins with.
pub open spec fn digit_run(s: Seq<char>) -> int
    decreases s.len(),
{
    if s.len() > 0 && is_digit(s[0]) {
        1 + digit_run(s.skip(1))
    } else {
        0
    }
}

/// The number that the digits `s` spell; 0 for none.
pub open spec fn digits_value(s: Seq<char>) -> int
    decreases s.len(),
{
    if s.len() == 0 {
        0
    } else {
        digits_value(s.drop_last()) * 10 + digit_value(s.last())
    }
}

/// Ten to the `n`.
pub open spec fn pow10(n: nat) -> int
    decreases n,
{
    if n == 0 {
        1
    } else {
        10 * pow10((n - 1) as nat)
    }
}

/// The first `n` of the digits `d`, with zeros behind them where `d` has
/// fewer; nothing for an `n` under 1.
pub open spec fn extended(d: Seq<char>, n: int) -> Seq<char> {
    Seq::new(
        if n < 0 {
            0nat
        } else {
            n as nat
        },
        |i: int|
            if i < d.len() {
                d[i]
            } else {
                '0'
            },
    )
}

/// A decimal number taken apart: all its digits, how many of them stand
/// before the point, and its exponent of ten.
pub struct Numeral {
    pub digits: Seq<char>,
    pub whole: int,
    pub exponent: int,
}

/// `s` begins with a sign.
pub open spec fn signed(s: Seq<char>) -> bool {
    s.len() > 0 && (s[0] == '-' || s[0] == '+')
}

/// The exponent that `t` spells: an optional sign and one digit or more.
pub open spec fn exponent_of(t: Seq<char>) -> Option<int> {
    let d = if signed(t) {
        t.skip(1)
    } else {
        t
    };
    if d.len() > 0 && all_digits(d) {
        if signed(t) && t[0] == '-' {
            Some(-digits_value(d))
        } else {
            Some(digits_value(d))
        }
    } else {
        None
    }
}

/// What follows the digits that `body` begins with.
pub open spec fn behind_whole(body: Seq<char>) -> Seq<char> {
    body.skip(digit_run(body))
}

/// A point follows the digits that `body` begins with.
pub open spec fn pointed(body: Seq<char>) -> bool {
    behind_whole(body).len() > 0 && behind_whole(body)[0] == '.'
}

/// What follows those digits and the point, where there is one.
pub open spec fn behind_point(body: Seq<char>) -> Seq<char> {
    if pointed(body) {
        behind_whole(body).skip(1)
    } else {
        behind_whole(body)
    }
}

/// Number of places: of digits behind the point.
pub open spec fn places_len(body: Seq<char>) -> int {
    if pointed(body) {
        digit_run(behind_point(body))
    } else {
        0
    }
}

/// What follows the places.
pub open spec fn behind_places(body: Seq<char>) -> Seq<char> {
    behind_point(body).skip(places_len(body))
}

/// The digits before the point and the places.
pub open spec fn digits_of(body: Seq<char>) -> Seq<char> {
    body.take(digit_run(body)) + behind_point(body).take(places_len(body))
}

/// The unsigned number that `body` spells: digits, optionally a point and
/// more digits, with a digit on one side of the point at least, and
/// optionally `e` or `E` and an exponent.
pub open spec fn numeral_of(body: Seq<char>) -> Option<Numeral> {
    let tail = behind_places(body);
    if digit_run(body) + places_len(body) == 0 {
        None
    } else if tail.len() == 0 {
        Some(Numeral { digits: digits_of(body), whole: digit_run(body), exponent: 0 })
    } else if tail[0] == 'e' || tail[0] == 'E' {
        match exponent_of(tail.skip(1)) {
            Some(e) => Some(
                Numeral { digits: digits_of(body), whole: digit_run(body), exponent: e },
            ),
            None => None,
        }
    } else {
        None
    }
}

/// The number in units, what lies beyond the millionth of a pixel cut off:
/// the digits up to six behind where the exponent puts the point.
pub open spec fn units_of(n: Numeral) -> int {
    digits_value(extended(n.digits, n.whole + n.exponent + 6))
}

/// The units that an unsigned number spells.
pub open spec fn magnitude_of(body: Seq<char>) -> Option<int> {
    match numeral_of(body) {
        Some(n) => Some(units_of(n)),
        None => None,
    }
}

/// The units that the number `s` spells, where it is a number of magnitude
/// `FIELD_MAX` at most: an optional sign, then an unsigned number.
pub open spec fn parse_units(s: Seq<char>) -> Option<int> {
    let body = if signed(s) {
        s.skip(1)
    } else {
        s
    };
    match magnitude_of(body) {
        Some(m) => if m > FIELD_MAX {
            None
        } else if signed(s) && s[0] == '-' {
            Some(-m)
        } else {
            Some(m)
        },
        None => None,
    }
}

/// The decimal digits of `n`, without leading zeros.
pub open spec fn nat_text(n: nat) -> Seq<char>
    decreases n,
{
    if n < 10 {
        seq![digit_char(n as int)]
    } else {
        nat_text(n / 10).push(digit_char((n % 10) as int))
    }
}

/// The last `n` decimal digits of `m`, leading zeros included.
pub open spec fn places(m: nat, n: nat) -> Seq<char>
    decreases n,
{
    if n == 0 {
        Seq::empty()
    } else {
        places(m / 10, (n - 1) as nat).push(digit_char((m % 10) as int))
    }
}

/// The same without the zeros at the end.
pub open spec fn stripped(m: nat, n: nat) -> Seq<char>
    decreases n,
{
    if n == 0 {
        Seq::empty()
    } else if m % 10 == 0 {
        stripped(m / 10, (n - 1) as nat)
    } else {
        places(m, n)
    }
}

/// The places of `m` millionths behind a point, without trailing zeros;
/// nothing for 0.
pub open spec fn frac_text(m: int) -> Seq<char> {
    if m == 0 {
        Seq::empty()
    } else {
        seq!['.'] + stripped(m as nat, 6)
    }
}

/// `v` units as a decimal number of pixels.
pub open spec fn units_text(v: int) -> Seq<char> {
    let sign = if v < 0 {
        seq!['-']
    } else {
        Seq::<char>::empty()
    };
    sign + nat_text((abs(v) / (SCALE as int)) as nat) + frac_text(abs(v) % (SCALE as int))
}

/// A text that starts with `k` digits and then ends, or goes on with another
/// character, has a digit run of `k`.
pub proof fn lemma_digit_run(s: Seq<char>, k: int)
    requires
        0 <= k <= s.len(),
        forall|i: int| 0 <= i < k ==> is_digit(#[trigger] s[i]),
        k == s.len() || !is_digit(s[k]),
    ensures
        digit_run(s) == k,
    decreases k,
{
    if k > 0 {
        let t = s.skip(1);
        assert forall|i: int| 0 <= i < k - 1 implies is_digit(#[trigger] t[i]) by {
            assert(t[i] == s[i + 1]);
        }
        lemma_digit_run(t, k - 1);
    }
}

/// Digits spell no negative number, and a longer beginning of them spells
/// no less; where a beginning spells 0 and only zeros follow, all spell 0.
pub proof fn lemma_prefix_value(x: Seq<char>, k: int)
    requires
        all_digits(x),
        0 <= k <= x.len(),
    ensures
        0 <= digits_value(x.take(k)) <= digits_value(x),
        digits_value(x.take(k)) == 0 && (forall|j: int| k <= j < x.len() ==> x[j] == '0')
            ==> digits_value(x) == 0,
    decreases x.len() - k,
{
    if k == x.len() {
        assert(x.take(k) =~= x);
        lemma_digits_value_nonneg(x);
    } else {
        let head = x.drop_last();
        assert(head.take(k) =~= x.take(k));
        lemma_prefix_value(head, k);
    }
}

/// Digits spell no negative number.
pub proof fn lemma_digits_value_nonneg(s: Seq<char>)
    requires
        all_digits(s),
    ensures
        digits_value(s) >= 0,
    decreases s.len(),
{
    if s.len() > 0 {
        lemma_digits_value_nonneg(s.drop_last());
    }
}

/// Each digit added behind a number that is not 0 makes it ten times as
/// large or more.
pub proof fn lemma_value_grows(x: Seq<char>, k: int, j: nat)
    requires
        all_digits(x),
        0 <= k,
        k + j <= x.len(),
        digits_value(x.take(k)) >= 1,
    ensures
        digits_value(x.take(k + j)) >= pow10(j),
    decreases j,
{
    if j > 0 {
        lemma_value_grows(x, k, (j - 1) as nat);
        assert(x.take(k + j).drop_last() =~= x.take(k + j - 1));
    }
}

pub fn char_is_digit(c: char) -> (b: bool)
    ensures
        b == is_digit(c),
{
    '0' <= c && c <= '9'
}

/// The number that the digit `c` stands for.
pub fn char_digit_value(c: char) -> (d: i64)
    requires
        is_digit(c),
    ensures
        d == digit_value(c),
        0 <= d <= 9,
{
    (c as u8 - 48) as i64
}

/// The index behind the digits that `tok` holds from index `from` on.
fn scan_run(tok: &Vec<char>, from: usize) -> (end: usize)
    requires
        from <= tok.len(),
    ensures
        from <= end <= tok.len(),
        end - from == digit_run(tok@.skip(from as int)),
        all_digits(tok@.subrange(from as int, end as int)),
        end < tok.len() ==> !is_digit(tok@[end as int]),
{
    let n = tok.len();
    let ghost body = tok@.skip(from as int);
    let mut i: usize = from;
    while i < n && char_is_digit(tok[i])
        invariant
            from <= i <= n == tok.len(),
            body == tok@.skip(from as int),
            forall|j: int| from <= j < i ==> is_digit(#[trigger] tok@[j]),
        decreases n - i,
    {
        i += 1;
    }
    proof {
        assert forall|j: int| 0 <= j < i - from implies is_digit(#[trigger] body[j]) by {
            assert(body[j] == tok@[from + j]);
        }
        lemma_digit_run(body, i - from);
        let part = tok@.subrange(from as int, i as int);
        assert forall|j: int| 0 <= j < part.len() implies is_digit(#[trigger] part[j]) by {
            assert(part[j] == tok@[from + j]);
        }
    }
    i
}

/// Reads the exponent that `tok` holds from index `from` to its end, kept
/// within a nonillion either way.
fn scan_exponent(tok: &Vec<char>, from: usize) -> (r: Option<i128>)
    requires
        from <= tok.len(),
    ensures
        match r {
            Some(e) => exponent_of(tok@.skip(from as int)) matches Some(t) && e
                == vstd::math::max(
                vstd::math::min(t, 1_000_000_000_000_000_000_000_000_000_000),
                -1_000_000_000_000_000_000_000_000_000_000,
            ),
            None => exponent_of(tok@.skip(from as int)) is None,
        },
{
    let n = tok.len();
    let ghost t = tok@.skip(from as int);
    let mut start = from;
    let mut negative = false;
    if from < n && (tok[from] == '-' || tok[from] == '+') {
        negative = tok[from] == '-';
        start = from + 1;
    }
    let ghost d = tok@.skip(start as int);
    proof {
        if start == from {
            assert(d =~= t);
        } else {
            assert(d =~= t.skip(1));
        }
        assert(t.len() > 0 ==> t[0] == tok@[from as int]);
    }
    if start == n {
        return None;
    }
    let mut i: usize = start;
    let mut acc: i128 = 0;
    assert(d.take(0) =~= Seq::<char>::empty());
    while i < n
        invariant
            start <= i <= n == tok.len(),
            start < n,
            t == tok@.skip(from as int),
            d == tok@.skip(start as int),
            d == if signed(t) {
                t.skip(1)
            } else {
                t
            },
            negative == (signed(t) && t[0] == '-'),
            all_digits(d.take(i - start)),
            0 <= acc <= 1_000_000_000_000_000_000_000_000_000_000,
            acc == vstd::math::min(
                digits_value(d.take(i - start)),
                1_000_000_000_000_000_000_000_000_000_000,
            ),
        decreases n - i,
    {
        if !char_is_digit(tok[i]) {
            assert(d[i - start] == tok@[i as int]);
            return None;
        }
        let v = char_digit_value(tok[i]);
        proof {
            let next = d.take(i - start + 1);
            assert(next.drop_last() =~= d.take(i - start));
            assert(next.last() == tok@[i as int]);
            lemma_digits_value_nonneg(d.take(i - start));
            assert forall|j: int| 0 <= j < next.len() implies is_digit(#[trigger] next[j]) by {
                if j < i - start {
                    assert(next[j] == d.take(i - start)[j]);
                }
            }
        }
        acc = acc * 10 + (v as i128);
        if acc > 1_000_000_000_000_000_000_000_000_000_000 {
            acc = 1_000_000_000_000_000_000_000_000_000_000;
        }
        i += 1;
    }
    proof {
        assert(d.take(n - start) =~= d);
    }
    if negative {
        Some(-acc)
    } else {
        Some(acc)
    }
}

/// The digits of a number whose whole part is `tok[start..point]` and whose
/// places are `tok[from..end]`.
pub open spec fn digits_at(tok: Seq<char>, start: int, point: int, from: int, end: int) -> Seq<
    char,
> {
    tok.subrange(start, point) + tok.subrange(from, end)
}

/// The number that the first `target` of those digits spell, zeros added
/// where there are fewer, or `FIELD_MAX + 1` where that is less. `t` is the
/// exact count where `target` stands for one beyond what matters.
fn evaluate(
    tok: &Vec<char>,
    start: usize,
    point: usize,
    from: usize,
    end: usize,
    target: i128,
    Ghost(t): Ghost<int>,
) -> (units: i64)
    requires
        start <= point <= from <= end <= tok.len(),
        all_digits(tok@.subrange(start as int, point as int)),
        all_digits(tok@.subrange(from as int, end as int)),
        -1_000_000_000_000_000_000_000_000_000_000_000 <= target
            <= 1_000_000_000_000_000_000_000_000_000_000_000,
        t == target || (target <= 0 && t <= target) || (target >= (point - start) + (end - from)
            + 16 && t >= target),
    ensures
        units == vstd::math::min(
            digits_value(
                extended(digits_at(tok@, start as int, point as int, from as int, end as int), t),
            ),
            FIELD_MAX + 1,
        ),
        0 <= units <= FIELD_MAX + 1,
{
    let ghost d = digits_at(tok@, start as int, point as int, from as int, end as int);
    let ghost x = extended(d, t);
    let w = point - start;
    let len = w + (end - from);
    if target <= 0 {
        assert(x =~= Seq::<char>::empty());
        return 0;
    }
    proof {
        assert forall|i: int| 0 <= i < x.len() implies is_digit(#[trigger] x[i]) by {
            if i < d.len() {
                if i < w {
                    assert(d[i] == tok@.subrange(start as int, point as int)[i]);
                } else {
                    assert(d[i] == tok@.subrange(from as int, end as int)[i - w]);
                }
            }
        }
    }
    let lim: usize = if target < len as i128 {
        target as usize
    } else {
        len
    };
    let mut acc: i64 = 0;
    let mut k: usize = 0;
    assert(x.take(0) =~= Seq::<char>::empty());
    while k < lim
        invariant
            start <= point <= from <= end <= tok.len(),
            w == point - start,
            len == w + (end - from),
            k <= lim <= len,
            lim <= t,
            d == digits_at(tok@, start as int, point as int, from as int, end as int),
            x == extended(d, t),
            all_digits(x),
            0 <= acc <= FIELD_MAX + 1,
            acc == vstd::math::min(digits_value(x.take(k as int)), FIELD_MAX + 1),
        decreases lim - k,
    {
        let c = if k < w {
            tok[start + k]
        } else {
            tok[from + (k - w)]
        };
        proof {
            assert(x[k as int] == d[k as int]);
            assert(d[k as int] == c);
            assert(is_digit(x[k as int]));
            assert(x.take(k + 1).drop_last() =~= x.take(k as int));
            assert(x.take(k + 1).last() == c);
            lemma_prefix_value(x, k as int);
        }
        acc = acc * 10 + char_digit_value(c);
        if acc > FIELD_MAX + 1 {
            acc = FIELD_MAX + 1;
        }
        k += 1;
    }
    proof {
        lemma_prefix_value(x, lim as int);
    }
    if target <= len as i128 {
        assert(x.take(lim as int) =~= x);
        return acc;
    }
    // Only zeros follow.
    if acc == 0 {
        return 0;
    }
    if acc == FIELD_MAX + 1 {
        return acc;
    }
    let pad: i128 = target - len as i128;
    if pad >= 16 {
        proof {
            lemma_value_grows(x, len as int, 16);
            lemma_prefix_value(x, len + 16);
            reveal_with_fuel(pow10, 17);
        }
        return FIELD_MAX + 1;
    }
    let mut j: i128 = 0;
    while j < pad
        invariant
            0 <= j <= pad < 16,
            t == len + pad,
            x == extended(d, t),
            d.len() == len,
            all_digits(x),
            0 <= acc <= FIELD_MAX + 1,
            acc == vstd::math::min(digits_value(x.take(len + j)), FIELD_MAX + 1),
        decreases pad - j,
    {
        proof {
            assert(x[len + j] == '0');
            assert(x.take(len + j + 1).drop_last() =~= x.take(len + j));
            lemma_prefix_value(x, len + j);
        }
        acc = acc * 10;
        if acc > FIELD_MAX + 1 {
            acc = FIELD_MAX + 1;
        }
        j += 1;
    }
    assert(x.take(len + pad) =~= x);
    acc
}

/// Finds the parts of the number that `tok` holds from index `start` on:
/// the index behind its whole digits, the index of its first place, and
/// the index behind its places.
fn find_parts(tok: &Vec<char>, start: usize) -> (r: (usize, usize, usize))
    requires
        start <= tok.len(),
    ensures
        start <= r.0 <= r.1 <= r.2 <= tok.len(),
        r.0 - start == digit_run(tok@.skip(start as int)),
        r.2 - r.1 == places_len(tok@.skip(start as int)),
        tok@.skip(r.2 as int) == behind_places(tok@.skip(start as int)),
        digits_at(tok@, start as int, r.0 as int, r.1 as int, r.2 as int) == digits_of(
            tok@.skip(start as int),
        ),
        all_digits(tok@.subrange(start as int, r.0 as int)),
        all_digits(tok@.subrange(r.1 as int, r.2 as int)),
{
    let n = tok.len();
    let ghost body = tok@.skip(start as int);
    let point = scan_run(tok, start);
    assert(behind_whole(body) =~= tok@.skip(point as int));
    assert(body.take(point - start) =~= tok@.subrange(start as int, point as int));
    if point < n && tok[point] == '.' {
        let from = point + 1;
        let end = scan_run(tok, from);
        proof {
            assert(behind_whole(body)[0] == tok@[point as int]);
            assert(behind_point(body) =~= tok@.skip(from as int));
            assert(behind_places(body) =~= tok@.skip(end as int));
            assert(behind_point(body).take(end - from) =~= tok@.subrange(
                from as int,
                end as int,
            ));
        }
        (point, from, end)
    } else {
        proof {
            if point < n {
                assert(behind_whole(body)[0] == tok@[point as int]);
            }
            assert(behind_places(body) =~= tok@.skip(point as int));
            assert(behind_point(body).take(0) =~= tok@.subrange(point as int, point as int));
        }
        (point, point, point)
    }
}

/// Reads the unsigned number that `tok` holds from index `start` on, where
/// it is one of `FIELD_MAX` units at most.
fn parse_magnitude(tok: &Vec<char>, start: usize) -> (r: Option<i64>)
    requires
        start <= tok.len(),
    ensures
        match r {
            Some(m) => magnitude_of(tok@.skip(start as int)) == Some(m as int) && 0 <= m
                <= FIELD_MAX,
            None => match magnitude_of(tok@.skip(start as int)) {
                Some(m) => m > FIELD_MAX,
                None => true,
            },
        },
{
    let n = tok.len();
    let ghost body = tok@.skip(start as int);
    let (point, from, end) = find_parts(tok, start);
    if (point - start) + (end - from) == 0 {
        return None;
    }
    let mut exponent: i128 = 0;
    if end < n {
        assert(behind_places(body)[0] == tok@[end as int]);
        if tok[end] == 'e' || tok[end] == 'E' {
            assert(behind_places(body).skip(1) =~= tok@.skip(end + 1));
            match scan_exponent(tok, end + 1) {
                Some(e) => {
                    exponent = e;
                },
                None => {
                    return None;
                },
            }
        } else {
            return None;
        }
    }
    let ghost number = numeral_of(body)->0;
    assert(numeral_of(body) is Some);
    assert(number.digits == digits_at(tok@, start as int, point as int, from as int, end as int));
    let target: i128 = (point - start) as i128 + exponent + 6;
    let units = evaluate(
        tok,
        start,
        point,
        from,
        end,
        target,
        Ghost(number.whole + number.exponent + 6),
    );
    if units > FIELD_MAX {
        None
    } else {
        Some(units)
    }
}

/// Reads a length in pixels: an optional sign, digits, optionally a point
/// and more digits, optionally an exponent. What lies beyond the millionth
/// of a pixel is cut off. `None` for any other text and for a length of
/// magnitude over `FIELD_MAX`.
pub fn parse_number(tok: &Vec<char>) -> (r: Option<i64>)
    ensures
        match r {
            Some(v) => parse_units(tok@) == Some(v as int) && abs(v as int) <= FIELD_MAX,
            None => parse_units(tok@) is None,
        },
{
    let n = tok.len();
    if n > 0 && (tok[0] == '-' || tok[0] == '+') {
        match parse_magnitude(tok, 1) {
            Some(m) => if tok[0] == '-' {
                Some(-m)
            } else {
                Some(m)
            },
            None => None,
        }
    } else {
        assert(tok@.skip(0) =~= tok@);
        parse_magnitude(tok, 0)
    }
}

/// The digit for `d` as a text of one character.
fn digit_text(d: u64) -> (t: &'static str)
    requires
        d < 10,
    ensures
        t@ == seq![digit_char(d as int)],
{
    proof {
        reveal_strlit("0");
        reveal_strlit("1");
        reveal_strlit("2");
        reveal_strlit("3");
        reveal_strlit("4");
        reveal_strlit("5");
        reveal_strlit("6");
        reveal_strlit("7");
        reveal_strlit("8");
        reveal_strlit("9");
    }
    let t = if d == 0 {
        "0"
    } else if d == 1 {
        "1"
    } else if d == 2 {
        "2"
    } else if d == 3 {
        "3"
    } else if d == 4 {
        "4"
    } else if d == 5 {
        "5"
    } else if d == 6 {
        "6"
    } else if d == 7 {
        "7"
    } else if d == 8 {
        "8"
    } else {
        "9"
    };
    assert(t@ =~= seq![digit_char(d as int)]);
    t
}

/// Appends the decimal digits of `n`.
pub fn push_nat(out: &mut String, n: u64)
    ensures
        final(out)@ == old(out)@ + nat_text(n as nat),
    decreases n,
{
    if n >= 10 {
        push_nat(out, n / 10);
    }
    let ghost before = out@;
    out.append(digit_text(n % 10));
    proof {
        if n >= 10 {
            assert(out@ =~= old(out)@ + nat_text((n / 10) as nat).push(
                digit_char((n % 10) as int),
            ));
        } else {
            assert(out@ =~= old(out)@ + seq![digit_char(n as int)]);
        }
    }
}

/// Appends the last `n` decimal digits of `m`.
pub fn push_places(out: &mut String, m: u64, n: u64)
    ensures
        final(out)@ == old(out)@ + places(m as nat, n as nat),
    decreases n,
{
    if n == 0 {
        assert(out@ =~= old(out)@ + places(m as nat, 0));
    } else {
        push_places(out, m / 10, n - 1);
        out.append(digit_text(m % 10));
        assert(out@ =~= old(out)@ + places(m as nat, n as nat));
    }
}

/// Appends `v` units as a decimal number of pixels.
pub fn push_units(out: &mut String, v: i64)
    ensures
        final(out)@ == old(out)@ + units_text(v as int),
{
    let magnitude: u64 = if v < 0 {
        (-(v as i128)) as u64
    } else {
        v as u64
    };
    let ghost sign = if v < 0 {
        seq!['-']
    } else {
        Seq::<char>::empty()
    };
    if v < 0 {
        proof {
            reveal_strlit("-");
        }
        out.append("-");
        assert(out@ =~= old(out)@ + sign);
    } else {
        assert(out@ =~= old(out)@ + sign);
    }
    push_nat(out, magnitude / 1_000_000);
    let m = magnitude % 1_000_000;
    let ghost whole = out@;
    if m != 0 {
        proof {
            reveal_strlit(".");
        }
        out.append(".");
        let mut rest: u64 = m;
        let mut n: u64 = 6;
        proof {
            reveal_with_fuel(pow10, 7);
        }
        while rest % 10 == 0
            invariant
                0 < rest,
                n <= 6,
                rest < pow10(n as nat),
                stripped(rest as nat, n as nat) == stripped(m as nat, 6),
            decreases rest,
        {
            proof {
                reveal_with_fuel(pow10, 2);
                assert(n > 0);
            }
            rest = rest / 10;
            n = n - 1;
        }
        proof {
            assert(n > 0);
        }
        push_places(out, rest, n);
        assert(out@ =~= whole + frac_text(m as int));
    }
    proof {
        assert(out@ =~= whole + frac_text(m as int));
        assert(out@ =~= old(out)@ + units_text(v as int));
    }
}

/// `v` units as a decimal number of pixels.
pub fn format_units(v: i64) -> (s: String)
    ensures
        s@ == units_text(v as int),
{
    let mut s = String::new();
    push_units(&mut s, v);
    assert(s@ =~= units_text(v as int));
    s
}

/// The digits written for `n` are digits, and spell `n`.
pub proof fn lemma_nat_text(n: nat)
    ensures
        nat_text(n).len() >= 1,
        all_digits(nat_text(n)),
        digits_value(nat_text(n)) == n,
    decreases n,
{
    if n < 10 {
        let t = nat_text(n);
        assert(t.drop_last() =~= Seq::<char>::empty());
        assert(digits_value(t.drop_last()) == 0);
    } else {
        lemma_nat_text(n / 10);
        let t = nat_text(n);
        assert(t.drop_last() =~= nat_text(n / 10));
    }
}

/// The places of `m` are `n` digits, and those without the zeros at the
/// end are the same once the zeros are put back.
pub proof fn lemma_places(m: nat, n: nat)
    ensures
        places(m, n).len() == n,
        all_digits(places(m, n)),
        stripped(m, n).len() <= n,
        all_digits(stripped(m, n)),
        extended(stripped(m, n), n as int) == places(m, n),
        0 < m < pow10(n) ==> stripped(m, n).len() >= 1,
    decreases n,
{
    if n > 0 {
        lemma_places(m / 10, (n - 1) as nat);
        let p = places(m, n);
        assert forall|i: int| 0 <= i < p.len() implies is_digit(#[trigger] p[i]) by {
            if i < n - 1 {
                assert(p[i] == places(m / 10, (n - 1) as nat)[i]);
            }
        }
        if m % 10 == 0 {
            assert(extended(stripped(m, n), n as int) =~= p);
        } else {
            assert(extended(stripped(m, n), n as int) =~= p);
        }
    } else {
        assert(extended(stripped(m, n), n as int) =~= places(m, n));
    }
}

/// Digits with the `n` places of `m` behind them spell ten to the `n` times
/// the digits, and `m`.
pub proof fn lemma_value_with_places(a: Seq<char>, m: nat, n: nat)
    requires
        m < pow10(n),
    ensures
        digits_value(a + places(m, n)) == digits_value(a) * pow10(n) + m,
    decreases n,
{
    if n == 0 {
        assert(a + places(m, n) =~= a);
    } else {
        let p = pow10((n - 1) as nat);
        lemma_value_with_places(a, m / 10, (n - 1) as nat);
        let whole = a + places(m, n);
        assert(whole.drop_last() =~= a + places(m / 10, (n - 1) as nat));
        assert(whole.last() == digit_char((m % 10) as int));
        assert(digits_value(a) * (10 * p) == (digits_value(a) * p) * 10) by (nonlinear_arith);
    }
}

/// The places written for `m` millionths are a point and digits, the last
/// of them no zero cut off: at least one digit.
pub proof fn lemma_frac_text(m: int)
    requires
        0 < m < 1_000_000,
    ensures
        frac_text(m).len() >= 2,
        frac_text(m)[0] == '.',
        frac_text(m).skip(1) == stripped(m as nat, 6),
        all_digits(stripped(m as nat, 6)),
{
    reveal_with_fuel(pow10, 7);
    lemma_places(m as nat, 6);
    assert(frac_text(m).skip(1) =~= stripped(m as nat, 6));
}

/// What was written for `w` pixels and `m` millionths reads as that many
/// units.
pub proof fn lemma_magnitude_of_text(w: nat, m: int)
    requires
        0 <= m < 1_000_000,
    ensures
        magnitude_of(nat_text(w) + frac_text(m)) == Some(w * SCALE + m),
        is_digit((nat_text(w) + frac_text(m))[0]),
{
    reveal_with_fuel(pow10, 7);
    let whole = nat_text(w);
    let frac = frac_text(m);
    let body = whole + frac;
    let k = whole.len() as int;
    lemma_nat_text(w);
    lemma_places(m as nat, 6);
    lemma_value_with_places(whole, m as nat, 6);
    assert(body[0] == whole[0]);
    assert forall|i: int| 0 <= i < k implies is_digit(#[trigger] body[i]) by {
        assert(body[i] == whole[i]);
    }
    let rest = body.skip(k);
    assert(rest =~= frac);
    assert(body.take(k) =~= whole);
    if m == 0 {
        assert(body =~= whole);
        lemma_digit_run(body, k);
        assert(rest.skip(0) =~= rest);
        assert(rest.take(0) =~= Seq::<char>::empty());
        let digits = body.take(k) + rest.take(0);
        assert(digits =~= whole);
        reveal_with_fuel(places, 7);
        assert(extended(digits, k + 6) =~= whole + places(0, 6));
    } else {
        lemma_frac_text(m);
        let s = stripped(m as nat, 6);
        assert(body[k] == frac[0]);
        lemma_digit_run(body, k);
        let after = rest.skip(1);
        assert(after =~= s);
        lemma_digit_run(after, s.len() as int);
        assert(after.skip(s.len() as int) =~= Seq::<char>::empty());
        assert(after.take(s.len() as int) =~= s);
        let digits = body.take(k) + after.take(s.len() as int);
        assert(digits =~= whole + s);
        assert(extended(digits, k + 6) =~= whole + extended(s, 6));
    }
}

/// Reading what was written gives the length back: for every length of
/// magnitude `FIELD_MAX` at most, `parse_units(units_text(v))` is `v`.
pub proof fn lemma_text_round_trip(v: int)
    requires
        abs(v) <= FIELD_MAX,
    ensures
        parse_units(units_text(v)) == Some(v),
{
    let w = (abs(v) / (SCALE as int)) as nat;
    let m = abs(v) % (SCALE as int);
    let body = nat_text(w) + frac_text(m);
    let t = units_text(v);
    lemma_magnitude_of_text(w, m);
    if v < 0 {
        assert(t =~= seq!['-'] + body);
        assert(t[0] == '-');
        assert(t.skip(1) =~= body);
    } else {
        assert(t =~= body);
        assert(!signed(t));
    }
}

} // verus!
