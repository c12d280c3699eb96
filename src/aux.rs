//! Coordinates, directions and colors.

use vstd::prelude::*;
use crate::error::ParseDirectionError;

verus! {

/// A point of the plane. The convention is the mathematical one: (0, 0) is the
/// bottom left corner and y grows upwards.
#[derive(Debug, Clone, Copy, PartialEq, Eq, Structural)]
pub struct Coordinates {
    /// Coordinate along the abscissa axis.
    pub x: i32,
    /// Coordinate along the ordinate axis.
    pub y: i32,
}

/// Whether an integer fits in `i32`.
pub open spec fn fits_i32(v: int) -> bool {
    i32::MIN <= v <= i32::MAX
}

impl Coordinates {
    /// Return new [`Coordinates`].
    pub fn new(x: i32, y: i32) -> (r: Self)
        ensures
            r.x == x,
            r.y == y,
    {
        Self { x, y }
    }

    /// Return the coordinates as a two-element array.
    pub fn to_u32(self) -> (r: [i32; 2])
        ensures
            r@ == seq![self.x, self.y],
    {
        [self.x, self.y]
    }
}

impl core::ops::Add for Coordinates {
    type Output = Self;

    fn add(self, other: Self) -> (r: Self)
        ensures
            r.x == self.x + other.x,
            r.y == self.y + other.y,
    {
        Self::new(self.x + other.x, self.y + other.y)
    }
}

impl vstd::std_specs::ops::AddSpecImpl for Coordinates {
    open spec fn obeys_add_spec() -> bool {
        true
    }

    open spec fn add_req(self, other: Self) -> bool {
        fits_i32(self.x + other.x) && fits_i32(self.y + other.y)
    }

    open spec fn add_spec(self, other: Self) -> Self {
        Coordinates { x: (self.x + other.x) as i32, y: (self.y + other.y) as i32 }
    }
}

impl core::ops::Sub for Coordinates {
    type Output = Self;

    fn sub(self, other: Self) -> (r: Self)
        ensures
            r.x == self.x - other.x,
            r.y == self.y - other.y,
    {
        Self::new(self.x - other.x, self.y - other.y)
    }
}

impl vstd::std_specs::ops::SubSpecImpl for Coordinates {
    open spec fn obeys_sub_spec() -> bool {
        true
    }

    open spec fn sub_req(self, other: Self) -> bool {
        fits_i32(self.x - other.x) && fits_i32(self.y - other.y)
    }

    open spec fn sub_spec(self, other: Self) -> Self {
        Coordinates { x: (self.x - other.x) as i32, y: (self.y - other.y) as i32 }
    }
}

impl From<(i32, i32)> for Coordinates {
    fn from(t: (i32, i32)) -> (r: Self) {
        Self::new(t.0, t.1)
    }
}

impl vstd::std_specs::convert::FromSpecImpl<(i32, i32)> for Coordinates {
    open spec fn obeys_from_spec() -> bool {
        true
    }

    open spec fn from_spec(t: (i32, i32)) -> Self {
        Coordinates { x: t.0, y: t.1 }
    }
}

impl From<Coordinates> for (i32, i32) {
    fn from(c: Coordinates) -> (r: Self) {
        (c.x, c.y)
    }
}

impl vstd::std_specs::convert::FromSpecImpl<Coordinates> for (i32, i32) {
    open spec fn obeys_from_spec() -> bool {
        true
    }

    open spec fn from_spec(c: Coordinates) -> Self {
        (c.x, c.y)
    }
}

/// The direction a snake's head is heading to.
#[derive(Debug, Clone, Copy, PartialEq, Eq, Structural)]
pub enum Direction {
    /// Up.
    Up,
    /// Down.
    Down,
    /// Left.
    Left,
    /// Right.
    Right,
}

/// The direction pointing the other way.
pub open spec fn opposite_of(d: Direction) -> Direction {
    match d {
        Direction::Up => Direction::Down,
        Direction::Down => Direction::Up,
        Direction::Left => Direction::Right,
        Direction::Right => Direction::Left,
    }
}

/// The point `k` steps away from `c` in direction `d`.
pub open spec fn offset_by(c: Coordinates, d: Direction, k: int) -> (int, int) {
    match d {
        Direction::Up => (c.x as int, c.y + k),
        Direction::Down => (c.x as int, c.y - k),
        Direction::Left => (c.x - k, c.y as int),
        Direction::Right => (c.x + k, c.y as int),
    }
}

/// Whether the point `k` steps away from `c` in direction `d` fits in `i32`.
pub open spec fn offset_fits(c: Coordinates, d: Direction, k: int) -> bool {
    fits_i32(offset_by(c, d, k).0) && fits_i32(offset_by(c, d, k).1)
}

/// The point `k` steps away from `c` in direction `d`, as coordinates.
pub open spec fn shifted(c: Coordinates, d: Direction, k: int) -> Coordinates {
    Coordinates { x: offset_by(c, d, k).0 as i32, y: offset_by(c, d, k).1 as i32 }
}

/// The direction named by a lower-case word.
pub open spec fn direction_named(s: Seq<char>) -> Option<Direction> {
    if s == "up"@ {
        Some(Direction::Up)
    } else if s == "down"@ {
        Some(Direction::Down)
    } else if s == "right"@ {
        Some(Direction::Right)
    } else if s == "left"@ {
        Some(Direction::Left)
    } else {
        None
    }
}

/// Whether a string holds exactly the characters of `word`.
pub(crate) fn str_is(s: &str, word: &str) -> (r: bool)
    ensures
        r == (s@ == word@),
{
    let n = s.unicode_len();
    if n != word.unicode_len() {
        return false;
    }
    let mut i: usize = 0;
    while i < n
        invariant
            n == s@.len(),
            n == word@.len(),
            i <= n,
            forall|k: int| 0 <= k < i ==> s@[k] == word@[k],
        decreases n - i,
    {
        if s.get_char(i) != word.get_char(i) {
            return false;
        }
        i += 1;
    }
    assert(s@ =~= word@);
    true
}

impl Direction {
    /// Return the opposite direction.
    pub fn opposite(self) -> (r: Self)
        ensures
            r == opposite_of(self),
    {
        match self {
            Self::Up => Self::Down,
            Self::Down => Self::Up,
            Self::Left => Self::Right,
            Self::Right => Self::Left,
        }
    }

    /// Parse a direction from one of the words "up", "down", "left", "right".
    pub fn parse(s: &str) -> (r: Result<Self, ParseDirectionError>)
        ensures
            r is Ok <==> direction_named(s@) is Some,
            r is Ok ==> Some(r->Ok_0) == direction_named(s@),
    {
        if str_is(s, "up") {
            Ok(Self::Up)
        } else if str_is(s, "down") {
            Ok(Self::Down)
        } else if str_is(s, "right") {
            Ok(Self::Right)
        } else if str_is(s, "left") {
            Ok(Self::Left)
        } else {
            Err(ParseDirectionError)
        }
    }
}

impl Default for Direction {
    fn default() -> (r: Self)
        ensures
            r == Direction::Right,
    {
        Self::Right
    }
}

impl core::ops::Neg for Direction {
    type Output = Self;

    fn neg(self) -> (r: Self)
        ensures
            r == opposite_of(self),
    {
        self.opposite()
    }
}

impl vstd::std_specs::ops::NegSpecImpl for Direction {
    open spec fn obeys_neg_spec() -> bool {
        true
    }

    open spec fn neg_req(self) -> bool {
        true
    }

    open spec fn neg_spec(self) -> Self {
        opposite_of(self)
    }
}

impl core::str::FromStr for Direction {
    type Err = ParseDirectionError;

    fn from_str(s: &str) -> Result<Self, Self::Err> {
        Self::parse(s)
    }
}

/// A color in the sRGB color space.
#[derive(Debug, Clone, Copy, PartialEq, Eq, Structural)]
pub struct Color {
    /// Red component.
    pub r: u8,
    /// Green component.
    pub g: u8,
    /// Blue component.
    pub b: u8,
    /// Opacity.
    pub a: u8,
}

impl Color {
    /// Black.
    pub fn black() -> (c: Color)
        ensures
            c == (Color { r: 0, g: 0, b: 0, a: 255 }),
    {
        Color { r: 0, g: 0, b: 0, a: 255 }
    }

    /// White.
    pub fn white() -> (c: Color)
        ensures
            c == (Color { r: 255, g: 255, b: 255, a: 255 }),
    {
        Color { r: 255, g: 255, b: 255, a: 255 }
    }

    /// Green: the color of a snake's body.
    pub open spec fn spec_green() -> Color {
        Color { r: 0, g: 255, b: 0, a: 255 }
    }

    /// Green: the color of a snake's body.
    pub fn green() -> (c: Color)
        ensures
            c == Self::spec_green(),
    {
        Color { r: 0, g: 255, b: 0, a: 255 }
    }

    /// A darker green: the color of a snake's head.
    pub open spec fn spec_head() -> Color {
        Color { r: 0, g: 200, b: 0, a: 255 }
    }

    /// A darker green: the color of a snake's head.
    pub fn head() -> (c: Color)
        ensures
            c == Self::spec_head(),
    {
        Color { r: 0, g: 200, b: 0, a: 255 }
    }

    /// Red: the color of an apple.
    pub open spec fn spec_red() -> Color {
        Color { r: 255, g: 0, b: 0, a: 255 }
    }

    /// Red: the color of an apple.
    pub fn red() -> (c: Color)
        ensures
            c == Self::spec_red(),
    {
        Color { r: 255, g: 0, b: 0, a: 255 }
    }

    /// Yellow.
    pub fn yellow() -> (c: Color)
        ensures
            c == (Color { r: 255, g: 255, b: 0, a: 255 }),
    {
        Color { r: 255, g: 255, b: 0, a: 255 }
    }

    /// Magenta.
    pub fn magenta() -> (c: Color)
        ensures
            c == (Color { r: 255, g: 0, b: 255, a: 255 }),
    {
        Color { r: 255, g: 0, b: 255, a: 255 }
    }

    /// Blue.
    pub fn blue() -> (c: Color)
        ensures
            c == (Color { r: 0, g: 0, b: 255, a: 255 }),
    {
        Color { r: 0, g: 0, b: 255, a: 255 }
    }

    /// Cyan.
    pub fn cyan() -> (c: Color)
        ensures
            c == (Color { r: 0, g: 255, b: 255, a: 255 }),
    {
        Color { r: 0, g: 255, b: 255, a: 255 }
    }

    /// A color with no opacity.
    pub fn transparent() -> (c: Color)
        ensures
            c == (Color { r: 0, g: 0, b: 0, a: 0 }),
    {
        Color { r: 0, g: 0, b: 0, a: 0 }
    }

    /// Return a new [`Color`].
    pub fn new(r: u8, g: u8, b: u8, a: u8) -> (c: Self)
        ensures
            c == (Color { r, g, b, a }),
    {
        Color { r, g, b, a }
    }
}

/// The elements of `s` whose flag is set, in order.
pub open spec fn select<T>(s: Seq<T>, flags: Seq<bool>) -> Seq<T>
    decreases s.len(),
{
    if s.len() == 0 {
        Seq::empty()
    } else if flags[s.len() - 1] {
        select(s.drop_last(), flags.drop_last()).push(s.last())
    } else {
        select(s.drop_last(), flags.drop_last())
    }
}

/// What the `i`-th element of `s` is compared with: the elements kept before
/// it and every element after it.
pub open spec fn compared_with<T>(s: Seq<T>, flags: Seq<bool>, i: int) -> Seq<T> {
    select(s.take(i), flags.take(i)) + s.skip(i + 1)
}

/// Whether the flags record a run of [`product_retain`] with `pred` over `s`:
/// an element is kept when `pred` held between it and each element it is
/// compared with, and dropped when `pred` failed for one of them.
pub open spec fn retained_by<T, F: Fn(&T, &T) -> bool>(s: Seq<T>, flags: Seq<bool>, pred: F, i: int) -> bool {
    let others = compared_with(s, flags, i);
    &&& flags[i] ==> forall|k: int| 0 <= k < others.len() ==> #[trigger] pred.ensures((&s[i], &others[k]), true)
    &&& !flags[i] ==> exists|k: int| 0 <= k < others.len() && #[trigger] pred.ensures((&s[i], &others[k]), false)
}

proof fn lemma_select_len<T>(s: Seq<T>, flags: Seq<bool>)
    requires
        flags.len() == s.len(),
    ensures
        select(s, flags).len() <= s.len(),
    decreases s.len(),
{
    if s.len() > 0 {
        lemma_select_len(s.drop_last(), flags.drop_last());
    }
}

/// Like `Vec::retain`, but with a predicate between two elements: an element
/// stays when `pred` holds between it and every element kept before it and
/// every element after it. The kept elements keep their order.
pub fn product_retain<T, F: Fn(&T, &T) -> bool>(v: &mut Vec<T>, pred: F)
    requires
        forall|a: &T, b: &T| pred.requires((a, b)),
    ensures
        exists|flags: Seq<bool>|
            flags.len() == old(v)@.len() && final(v)@ == select(old(v)@, flags) && forall|i: int|
                0 <= i < old(v)@.len() ==> #[trigger] retained_by(old(v)@, flags, pred, i),
{
    let ghost s = v@;
    let ghost mut flags: Seq<bool> = Seq::empty();
    let n = v.len();
    let mut j: usize = 0;
    let mut i: usize = 0;
    proof {
        assert(v@.take(0) =~= select(s.take(0), flags));
        assert(v@.skip(0) =~= s.skip(0));
    }
    while i < n
        invariant
            n == s.len(),
            v@.len() == n,
            j <= i <= n,
            flags.len() == i,
            v@.take(j as int) == select(s.take(i as int), flags),
            v@.skip(i as int) == s.skip(i as int),
            forall|k: int| 0 <= k < i ==> #[trigger] retained_by(s, flags, pred, k),
            forall|a: &T, b: &T| pred.requires((a, b)),
        decreases n - i,
    {
        let ghost others = compared_with(s, flags.push(true), i as int);
        proof {
            assert(flags.push(true).take(i as int) =~= flags);
            assert(s.take(i as int) =~= s.take(i as int));
            assert(others =~= v@.take(j as int) + s.skip(i + 1));
            assert(v@[i as int] == s[i as int]) by {
                assert(v@.skip(i as int)[0] == s.skip(i as int)[0]);
            }
        }
        let mut ok = true;
        let mut a: usize = 0;
        while ok && a < j
            invariant
                n == s.len(),
                j <= i < n,
                v@.len() == n,
                v@[i as int] == s[i as int],
                others == v@.take(j as int) + s.skip(i + 1),
                a <= j,
                forall|x: &T, y: &T| pred.requires((x, y)),
                ok ==> forall|k: int| 0 <= k < a ==> #[trigger] pred.ensures((&s[i as int], &others[k]), true),
                !ok ==> exists|k: int| 0 <= k < others.len() && #[trigger] pred.ensures((&s[i as int], &others[k]), false),
            decreases j - a,
        {
            ok = pred(&v[i], &v[a]);
            proof {
                assert(others[a as int] == v@[a as int]);
            }
            a += 1;
        }
        let mut b: usize = i + 1;
        while ok && b < n
            invariant
                n == s.len(),
                j <= i < n,
                i + 1 <= b <= n,
                v@.len() == n,
                v@[i as int] == s[i as int],
                v@.skip(i as int) == s.skip(i as int),
                others == v@.take(j as int) + s.skip(i + 1),
                forall|x: &T, y: &T| pred.requires((x, y)),
                ok ==> forall|k: int| 0 <= k < j + (b - i - 1) ==> #[trigger] pred.ensures((&s[i as int], &others[k]), true),
                !ok ==> exists|k: int| 0 <= k < others.len() && #[trigger] pred.ensures((&s[i as int], &others[k]), false),
            decreases n - b,
        {
            proof {
                let vs = v@.skip(i as int);
                let ss = s.skip(i as int);
                assert(vs[b - i] == v@[b as int]);
                assert(ss[b - i] == s[b as int]);
                assert(vs[b - i] == ss[b - i]);
                assert(v@.take(j as int).len() == j);
                assert(s.skip(i + 1)[b - i - 1] == s[b as int]);
                assert(others[j + (b - i - 1)] == s.skip(i + 1)[b - i - 1]);
            }
            ok = pred(&v[i], &v[b]);
            b += 1;
        }
        let ghost before = v@;
        proof {
            lemma_select_len(s.take(i as int), flags);
            assert(others.len() == j + (n - i - 1));
        }
        if ok {
            let x = v.remove(i);
            v.insert(j, x);
            proof {
                let nf = flags.push(true);
                assert(s.take(i + 1).drop_last() =~= s.take(i as int));
                assert(nf.take(i + 1).drop_last() =~= flags);
                assert(nf.take(i + 1) =~= nf);
                assert(v@.take(j + 1) =~= before.take(j as int).push(s[i as int]));
                assert(v@.skip(i + 1) =~= s.skip(i + 1)) by {
                    assert forall|k: int| 0 <= k < n - i - 1 implies #[trigger] v@.skip(i + 1)[k] == s.skip(i + 1)[k] by {
                        assert(v@[i + 1 + k] == before[i + 1 + k]);
                        assert(before.skip(i as int)[k + 1] == s.skip(i as int)[k + 1]);
                    }
                }
                assert forall|k: int| 0 <= k < i implies #[trigger] retained_by(s, nf, pred, k) by {
                    assert(nf.take(k) =~= flags.take(k));
                    assert(compared_with(s, nf, k) == compared_with(s, flags, k));
                    assert(retained_by(s, flags, pred, k));
                }
                assert(compared_with(s, nf, i as int) == others);
                assert(retained_by(s, nf, pred, i as int));
                flags = nf;
            }
            j += 1;
        } else {
            proof {
                let nf = flags.push(false);
                assert(s.take(i + 1).drop_last() =~= s.take(i as int));
                assert(nf.take(i + 1).drop_last() =~= flags);
                assert(nf.take(i + 1) =~= nf);
                assert(v@.skip(i + 1) =~= s.skip(i + 1)) by {
                    assert forall|k: int| 0 <= k < n - i - 1 implies #[trigger] v@.skip(i + 1)[k] == s.skip(i + 1)[k] by {
                        assert(v@.skip(i as int)[k + 1] == s.skip(i as int)[k + 1]);
                    }
                }
                assert forall|k: int| 0 <= k < i implies #[trigger] retained_by(s, nf, pred, k) by {
                    assert(nf.take(k) =~= flags.take(k));
                    assert(compared_with(s, nf, k) == compared_with(s, flags, k));
                    assert(retained_by(s, flags, pred, k));
                }
                assert(nf.take(i as int) =~= flags);
                assert(compared_with(s, nf, i as int) =~= others);
                assert(retained_by(s, nf, pred, i as int));
                flags = nf;
            }
        }
        i += 1;
    }
    v.truncate(j);
    proof {
        assert(s.take(n as int) =~= s);
        assert(v@ =~= select(s, flags));
    }
}

impl Default for Color {
    fn default() -> (c: Self)
        ensures
            c == (Color { r: 0, g: 0, b: 0, a: 0 }),
    {
        Color { r: 0, g: 0, b: 0, a: 0 }
    }
}

} // verus!
