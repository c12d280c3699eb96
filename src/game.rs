//! The world: snakes, apples, the grid, the settings, and the rules of a tick.

use vstd::prelude::*;
use crate::apple::Apple;
use crate::aux::{fits_i32, offset_fits, opposite_of, shifted, Color, Coordinates, Direction};
use crate::error::{fault_of, GameError, GameErrorView};
use crate::grid::{apple_point, apple_points, in_grid, part_point, snake_points, world_points, GameObject, Grid, GridPoint};
use crate::pairs::{lists_pair, ordered_pairs};
use crate::random::random_between;
use crate::snake::{can_step, grown_parts, line_parts, moved_parts, Snake, SnakePart, SnakeView};

verus! {

/// The initial length of new snakes.
#[derive(Debug)]
pub enum SnakeLength {
    /// A length drawn at random from the range.
    Random(core::ops::Range<usize>),
    /// This length.
    Fixed(usize),
}

impl SnakeLength {
    /// Whether `l` is a length this may give.
    pub open spec fn allows(self, l: int) -> bool {
        match self {
            SnakeLength::Random(r) => r.start <= l < r.end,
            SnakeLength::Fixed(n) => l == n,
        }
    }

    /// The longest length this may give.
    pub open spec fn longest(self) -> int {
        match self {
            SnakeLength::Random(r) => r.end - 1,
            SnakeLength::Fixed(n) => n as int,
        }
    }

    /// Whether this gives a length at all: a range must not be empty.
    pub open spec fn valid(self) -> bool {
        match self {
            SnakeLength::Random(r) => r.start < r.end,
            SnakeLength::Fixed(_) => true,
        }
    }

    /// Return a length: the fixed one, or one drawn from the range.
    pub fn get(self) -> (r: usize)
        requires
            self.valid(),
        ensures
            self.allows(r as int),
    {
        match self {
            SnakeLength::Random(range) => {
                let top = if range.end - 1 <= i64::MAX as usize {
                    range.end - 1
                } else {
                    i64::MAX as usize
                };
                if range.start <= top {
                    random_between(range.start as i64, top as i64) as usize
                } else {
                    range.start
                }
            },
            SnakeLength::Fixed(n) => n,
        }
    }
}

impl Clone for SnakeLength {
    fn clone(&self) -> (r: Self)
        ensures
            r == *self,
    {
        match self {
            SnakeLength::Random(range) => SnakeLength::Random(core::ops::Range { start: range.start, end: range.end }),
            SnakeLength::Fixed(n) => SnakeLength::Fixed(*n),
        }
    }
}

/// How the direction of a new snake is chosen.
#[derive(Debug, Clone, Copy, PartialEq, Eq, Structural)]
pub enum DirectionChoice {
    /// As the settings say.
    Configured,
    /// At random.
    Random,
    /// This direction.
    Fixed(Direction),
}

/// Game settings.
#[derive(Debug)]
pub struct Settings {
    /// Most snakes the world holds at once; zero means no limit.
    pub snakes_amount: usize,
    /// Most apples the world holds at once; zero means no limit.
    pub apples_amount: usize,
    /// How many points a snake goes in a tick.
    pub snake_step: i32,
    /// How many parts a snake grows by when it eats an apple.
    pub snake_increment_size: usize,
    /// Initial length of new snakes.
    pub snake_length: SnakeLength,
    /// Initial direction of new snakes; none means a random one for each.
    pub snake_direction: Option<Direction>,
}

impl Clone for Settings {
    fn clone(&self) -> (r: Self)
        ensures
            r == *self,
    {
        Settings {
            snakes_amount: self.snakes_amount,
            apples_amount: self.apples_amount,
            snake_step: self.snake_step,
            snake_increment_size: self.snake_increment_size,
            snake_length: self.snake_length.clone(),
            snake_direction: self.snake_direction,
        }
    }
}

impl Settings {
    /// Default most snakes in the world.
    pub const SNAKES_AMOUNT: usize = 5;

    /// Default most apples in the world.
    pub const APPLES_AMOUNT: usize = 1;

    /// Default growth per apple eaten.
    pub const SNAKE_INCREMENT_SIZE: usize = 1;

    /// Default step of a snake.
    pub const SNAKE_STEP: i32 = 1;

    /// Default initial length of a snake.
    pub const SNAKE_LENGTH: usize = 1;

    /// Default initial direction of a snake.
    pub fn snake_direction_default() -> (r: Option<Direction>)
        ensures
            r == Some(Direction::Right),
    {
        Some(Direction::Right)
    }
}

impl Settings {
    /// Return whether these settings fit a grid of `size` (see
    /// [`settings_fit`]), as a world made with them requires.
    pub fn fits(&self, size: (usize, usize)) -> (r: bool)
        ensures
            r == settings_fit(*self, size),
    {
        let (w, h) = size;
        if w < 1 || h < 1 || w > i32::MAX as usize || h > i32::MAX as usize {
            return false;
        }
        let longest: u64 = match &self.snake_length {
            SnakeLength::Random(r) => {
                if r.start >= r.end {
                    return false;
                }
                (r.end - 1) as u64
            },
            SnakeLength::Fixed(n) => *n as u64,
        };
        let limit = i32::MAX as u64 + 1;
        if longest > limit - w as u64 || longest > limit - h as u64 {
            return false;
        }
        let step_abs: u64 = if self.snake_step < 0 {
            (-(self.snake_step as i64)) as u64
        } else {
            self.snake_step as u64
        };
        w as u64 + step_abs <= i32::MAX as u64 && h as u64 + step_abs <= i32::MAX as u64
    }
}

impl From<core::ops::Range<usize>> for SnakeLength {
    fn from(range: core::ops::Range<usize>) -> (r: Self) {
        SnakeLength::Random(range)
    }
}

impl vstd::std_specs::convert::FromSpecImpl<core::ops::Range<usize>> for SnakeLength {
    open spec fn obeys_from_spec() -> bool {
        true
    }

    open spec fn from_spec(range: core::ops::Range<usize>) -> Self {
        SnakeLength::Random(range)
    }
}

impl Default for Settings {
    fn default() -> (r: Self)
        ensures
            r == (Settings {
                snakes_amount: 5,
                apples_amount: 1,
                snake_step: 1,
                snake_increment_size: 1,
                snake_length: SnakeLength::Fixed(1),
                snake_direction: Some(Direction::Right),
            }),
    {
        Settings {
            snakes_amount: Self::SNAKES_AMOUNT,
            apples_amount: Self::APPLES_AMOUNT,
            snake_step: Self::SNAKE_STEP,
            snake_increment_size: Self::SNAKE_INCREMENT_SIZE,
            snake_length: SnakeLength::Fixed(Self::SNAKE_LENGTH),
            snake_direction: Self::snake_direction_default(),
        }
    }
}

/// The absolute value of an integer.
pub open spec fn abs(v: int) -> int {
    if v < 0 {
        -v
    } else {
        v
    }
}

/// Whether settings fit a grid of the given size on this machine: both sides
/// are at least one and every coordinate a snake can reach from inside the
/// grid, by its step or along its initial body, fits in `i32`.
pub open spec fn settings_fit(settings: Settings, size: (usize, usize)) -> bool {
    &&& 1 <= size.0 <= i32::MAX
    &&& 1 <= size.1 <= i32::MAX
    &&& settings.snake_length.valid()
    &&& size.0 + settings.snake_length.longest() <= i32::MAX + 1
    &&& size.1 + settings.snake_length.longest() <= i32::MAX + 1
    &&& fits_i32(size.0 + abs(settings.snake_step as int))
    &&& fits_i32(size.1 + abs(settings.snake_step as int))
}

/// Whether no two snakes share a name.
pub open spec fn names_unique(snakes: Seq<SnakeView>) -> bool {
    forall|i: int, j: int|
        0 <= i < snakes.len() && 0 <= j < snakes.len() && i != j ==> #[trigger] snakes[i].name
            != #[trigger] snakes[j].name
}

/// Whether a snake is named `name`.
pub open spec fn has_name(snakes: Seq<SnakeView>, name: Seq<char>) -> bool {
    exists|i: int| 0 <= i < snakes.len() && #[trigger] snakes[i].name == name
}

/// The index of the snake named `name`; meaningful when there is one.
pub open spec fn index_of(snakes: Seq<SnakeView>, name: Seq<char>) -> int {
    choose|i: int| 0 <= i < snakes.len() && #[trigger] snakes[i].name == name
}

/// Whether a count stays within a limit, zero meaning no limit.
pub open spec fn within(count: int, limit: usize) -> bool {
    limit > 0 ==> count <= limit
}

/// Whether a count has reached a limit, zero meaning no limit.
pub open spec fn at_limit(count: int, limit: usize) -> bool {
    limit > 0 && count >= limit
}

/// Where the tail of a snake lies when its head is at `head`, it faces `d`
/// and it has `length` parts.
pub open spec fn tail_for(head: Coordinates, d: Direction, length: nat) -> Coordinates {
    if length == 0 {
        head
    } else {
        shifted(head, opposite_of(d), length - 1)
    }
}

/// The snake a spawn makes: `length` parts in a line ending with the head at
/// `head`, facing `d`.
pub open spec fn spawned(name: Seq<char>, head: Coordinates, d: Direction, length: nat) -> SnakeView {
    SnakeView { name, parts: line_parts(tail_for(head, d, length), d, length), direction: d }
}

/// Whether a snake with its head at `head`, facing `d`, with `length` parts
/// fits in `i32`.
pub open spec fn spawn_fits(head: Coordinates, d: Direction, length: int) -> bool {
    length > 0 ==> length - 1 <= i32::MAX && offset_fits(head, opposite_of(d), length - 1)
}

/// The error a spawn of a snake named `name` in `w` ends with, if any.
pub open spec fn spawn_fault(w: WorldView, name: Seq<char>) -> Option<GameErrorView> {
    if at_limit(w.snakes.len() as int, w.settings.snakes_amount) {
        Some(GameErrorView::TooMuchSnakes(name))
    } else if has_name(w.snakes, name) {
        Some(GameErrorView::NonUniqueName(name))
    } else {
        None
    }
}

/// The error turning the snake named `name` in `w` to `d` ends with, if any.
pub open spec fn turn_fault(w: WorldView, name: Seq<char>, d: Direction) -> Option<GameErrorView> {
    if !has_name(w.snakes, name) {
        Some(GameErrorView::SnakeNotFound(name))
    } else if w.snakes[index_of(w.snakes, name)].parts.len() == 0 {
        Some(GameErrorView::EmptySnake(name))
    } else if w.snakes[index_of(w.snakes, name)].parts.len() > 1 && w.snakes[index_of(w.snakes, name)].direction
        == opposite_of(d) {
        Some(GameErrorView::ChangeDirectionToOpposite(name))
    } else {
        None
    }
}

/// The world `w` with the snake named `name` turned to `d`.
pub open spec fn turned(w: WorldView, name: Seq<char>, d: Direction) -> WorldView {
    WorldView {
        snakes: w.snakes.update(
            index_of(w.snakes, name),
            SnakeView { direction: d, ..w.snakes[index_of(w.snakes, name)] },
        ),
        ..w
    }
}

/// The world `w` without the snake named `name`.
pub open spec fn without(w: WorldView, name: Seq<char>) -> WorldView {
    WorldView { snakes: w.snakes.remove(index_of(w.snakes, name)), ..w }
}

/// Whether a spawn asked to choose its direction by `choice`, with the
/// settings' direction `configured`, may give the direction `d`.
pub open spec fn may_face(choice: DirectionChoice, configured: Option<Direction>, d: Direction) -> bool {
    match choice {
        DirectionChoice::Fixed(f) => d == f,
        DirectionChoice::Random => true,
        DirectionChoice::Configured => match configured {
            Some(f) => d == f,
            None => true,
        },
    }
}

/// Whether a spawn asked for `length`, with the settings' length
/// `configured`, may give a snake of `l` parts.
pub open spec fn may_have_length(length: Option<usize>, configured: SnakeLength, l: int) -> bool {
    match length {
        Some(n) => l == n,
        None => configured.allows(l),
    }
}

/// How far from the border a random head is put for a snake of `length`
/// parts: the length, or less where the grid is too small for it.
pub open spec fn inset(size: (usize, usize), length: int) -> int {
    let room = if size.0 <= size.1 {
        (size.0 - 1) / 2
    } else {
        (size.1 - 1) / 2
    };
    if length <= room {
        length
    } else {
        room
    }
}

/// Whether `c` is where a random head of a snake of `length` parts may be
/// put.
pub open spec fn in_interior(c: Coordinates, size: (usize, usize), length: int) -> bool {
    &&& 1 + inset(size, length) <= c.x <= size.0 - inset(size, length)
    &&& 1 + inset(size, length) <= c.y <= size.1 - inset(size, length)
}

/// Return a direction drawn at random.
fn random_direction() -> (r: Direction) {
    match random_between(0, 3) {
        0 => Direction::Up,
        1 => Direction::Down,
        2 => Direction::Left,
        _ => Direction::Right,
    }
}

/// Whether the head of `s` is outside a grid of the given size.
pub open spec fn out_of_bounds(s: SnakeView, size: (usize, usize)) -> bool {
    !in_grid(s.head(), size)
}

/// Whether the head of `a` lies on a part of `b` other than its head.
pub open spec fn hits(a: SnakeView, b: SnakeView) -> bool {
    a.parts.len() > 0 && b.body_has(a.head())
}

/// Whether the `i`-th snake dies in a tick's sweep: it has no parts, its head
/// is outside the grid or on another of its parts, or its head lies on a part
/// other than the head of another snake.
pub open spec fn dies(snakes: Seq<SnakeView>, i: int, size: (usize, usize)) -> bool {
    ||| snakes[i].bumped()
    ||| out_of_bounds(snakes[i], size)
    ||| exists|j: int| 0 <= j < snakes.len() && j != i && #[trigger] hits(snakes[i], snakes[j])
}

/// The snakes among the first `n` that live through the sweep, in order.
pub open spec fn survivors_upto(snakes: Seq<SnakeView>, size: (usize, usize), n: int) -> Seq<SnakeView>
    decreases n,
{
    if n <= 0 {
        Seq::empty()
    } else if dies(snakes, n - 1, size) {
        survivors_upto(snakes, size, n - 1)
    } else {
        survivors_upto(snakes, size, n - 1).push(snakes[n - 1])
    }
}

/// The snakes that live through the sweep, in order.
pub open spec fn survivors(snakes: Seq<SnakeView>, size: (usize, usize)) -> Seq<SnakeView> {
    survivors_upto(snakes, size, snakes.len() as int)
}

/// Every survivor among the first `n` is one of them that does not die, and
/// they keep their order.
proof fn lemma_survivors_from(snakes: Seq<SnakeView>, size: (usize, usize), n: int)
    requires
        0 <= n <= snakes.len(),
    ensures
        survivors_upto(snakes, size, n).len() <= n,
        forall|k: int|
            0 <= k < survivors_upto(snakes, size, n).len() ==> exists|j: int|
                0 <= j < n && !dies(snakes, j, size) && #[trigger] survivors_upto(snakes, size, n)[k]
                    == snakes[j],
    decreases n,
{
    if n > 0 {
        lemma_survivors_from(snakes, size, n - 1);
        let prev = survivors_upto(snakes, size, n - 1);
        let cur = survivors_upto(snakes, size, n);
        assert forall|k: int| 0 <= k < cur.len() implies exists|j: int|
            0 <= j < n && !dies(snakes, j, size) && #[trigger] cur[k] == snakes[j] by {
            if k < prev.len() {
                assert(cur[k] == prev[k]);
                let j = choose|j: int| 0 <= j < n - 1 && !dies(snakes, j, size) && prev[k] == snakes[j];
                assert(cur[k] == snakes[j]);
            } else {
                assert(cur[k] == snakes[n - 1]);
            }
        }
    }
}

/// Whether the head of `a` lies on a part of `b` other than its head.
fn bites(a: &Snake, b: &Snake) -> (r: bool)
    ensures
        r == hits(a@, b@),
{
    let head = match a.lp() {
        Some(p) => p.coords(),
        None => return false,
    };
    let parts = b.parts();
    let n = parts.len();
    if n == 0 {
        return false;
    }
    let mut k: usize = 0;
    while k + 1 < n
        invariant
            parts@ == b@.parts,
            n == parts@.len(),
            head == a@.head(),
            a@.parts.len() > 0,
            k < n,
            forall|m: int| 0 <= m < k ==> parts@[m].coordinates != head,
        decreases n - k,
    {
        if parts[k].coords() == head {
            return true;
        }
        k += 1;
    }
    false
}

/// Two survivors at distinct places come from distinct snakes.
proof fn lemma_survivors_order(snakes: Seq<SnakeView>, size: (usize, usize), n: int, a: int, b: int)
    requires
        0 <= n <= snakes.len(),
        0 <= a < b < survivors_upto(snakes, size, n).len() || 0 <= b < a < survivors_upto(snakes, size, n).len(),
    ensures
        exists|x: int, y: int|
            0 <= x < n && 0 <= y < n && x != y && survivors_upto(snakes, size, n)[a] == snakes[x]
                && survivors_upto(snakes, size, n)[b] == snakes[y],
    decreases n,
{
    lemma_survivors_from(snakes, size, n);
    let prev = survivors_upto(snakes, size, n - 1);
    let cur = survivors_upto(snakes, size, n);
    lemma_survivors_from(snakes, size, n - 1);
    if !dies(snakes, n - 1, size) && (a == prev.len() || b == prev.len()) {
        if a == prev.len() {
            let y = choose|y: int| 0 <= y < n - 1 && !dies(snakes, y, size) && #[trigger] prev[b] == snakes[y];
            assert(cur[b] == prev[b]);
            assert(cur[a] == snakes[n - 1]);
        } else {
            let x = choose|x: int| 0 <= x < n - 1 && !dies(snakes, x, size) && #[trigger] prev[a] == snakes[x];
            assert(cur[a] == prev[a]);
            assert(cur[b] == snakes[n - 1]);
        }
    } else {
        lemma_survivors_order(snakes, size, n - 1, a, b);
        let (x, y) = choose|x: int, y: int|
            0 <= x < n - 1 && 0 <= y < n - 1 && x != y && prev[a] == snakes[x] && prev[b] == snakes[y];
        assert(cur[a] == prev[a]);
        assert(cur[b] == prev[b]);
    }
}

/// How many of `apples` lie at `c`.
pub open spec fn apples_at(apples: Seq<Apple>, c: Coordinates) -> nat
    decreases apples.len(),
{
    if apples.len() == 0 {
        0
    } else {
        apples_at(apples.drop_last(), c) + if apples.last().coords == c {
            1nat
        } else {
            0nat
        }
    }
}

/// The snake with `n` more parts put before its tail, copies of the tail; a
/// snake with no parts stays as it is.
pub open spec fn grown_by(s: SnakeView, n: nat) -> SnakeView {
    if s.parts.len() == 0 {
        s
    } else {
        SnakeView { parts: grown_parts(s.parts, n, Seq::empty()), ..s }
    }
}

/// The snake after it ate the apples under its head: `inc` more parts for
/// each.
pub open spec fn fed(s: SnakeView, apples: Seq<Apple>, inc: nat) -> SnakeView {
    if s.parts.len() == 0 {
        s
    } else {
        grown_by(s, apples_at(apples, s.head()) * inc)
    }
}

/// Every snake after it ate.
pub open spec fn fed_all(snakes: Seq<SnakeView>, apples: Seq<Apple>, inc: nat) -> Seq<SnakeView> {
    snakes.map_values(|s: SnakeView| fed(s, apples, inc))
}

/// Whether the head of one of the snakes lies on the apple.
pub open spec fn eaten(snakes: Seq<SnakeView>, a: Apple) -> bool {
    exists|i: int| 0 <= i < snakes.len() && snakes[i].parts.len() > 0 && #[trigger] snakes[i].head() == a.coords
}

/// The apples no snake eats, in order.
pub open spec fn uneaten(apples: Seq<Apple>, snakes: Seq<SnakeView>) -> Seq<Apple> {
    apples.filter(|a: Apple| !eaten(snakes, a))
}

/// Whether `after` is `kept` followed by new red apples inside the grid, as
/// many as bring the count up to `limit`; zero means no limit and no new
/// apples.
pub open spec fn refilled(kept: Seq<Apple>, after: Seq<Apple>, limit: usize, size: (usize, usize)) -> bool {
    if limit == 0 {
        after == kept
    } else {
        &&& after.len() == if kept.len() < limit {
            limit as int
        } else {
            kept.len() as int
        }
        &&& after.take(kept.len() as int) == kept
        &&& forall|k: int|
            kept.len() <= k < after.len() ==> in_grid(#[trigger] after[k].coords, size) && after[k].color
                == Color::spec_red()
    }
}

/// Growing by `a` then `b` tail copies is growing by `a + b`.
proof fn lemma_grow_twice(p: Seq<SnakePart>, a: nat, b: nat)
    requires
        p.len() > 0,
    ensures
        grown_parts(grown_parts(p, a, Seq::empty()), b, Seq::empty()) == grown_parts(p, a + b, Seq::empty()),
{
    let g = grown_parts(p, a, Seq::empty());
    assert(g[0] == p[0]) by {
        if a == 0 {
            assert(g[0] == p[0]);
        }
    }
    assert(grown_parts(g, b, Seq::empty()) =~= grown_parts(p, a + b, Seq::empty()));
}

/// Grow a snake by `inc` parts `count` times.
fn grow_snake(snake: &mut Snake, count: usize, inc: usize)
    ensures
        final(snake)@ == grown_by(old(snake)@, (count * inc) as nat),
{
    let ghost start = snake@;
    proof {
        assert(grown_parts(start.parts, 0, Seq::empty()) =~= start.parts);
    }
    let mut m: usize = 0;
    while m < count
        invariant
            m <= count,
            snake@ == grown_by(start, (m * inc) as nat),
        decreases count - m,
    {
        let ghost before = snake@;
        let _ = snake.increment_size(inc, None);
        proof {
            assert((m + 1) * inc == m * inc + inc) by (nonlinear_arith);
            assert(0 <= m * inc) by (nonlinear_arith);
            if start.parts.len() > 0 {
                lemma_grow_twice(start.parts, (m * inc) as nat, inc as nat);
                assert(before.parts.len() > 0);
            }
        }
        m += 1;
    }
}

/// Return how many of `apples` lie at `c`.
fn count_apples_at(apples: &Vec<Apple>, c: Coordinates) -> (r: usize)
    ensures
        r == apples_at(apples@, c),
{
    let mut count: usize = 0;
    let mut k: usize = 0;
    while k < apples.len()
        invariant
            k <= apples@.len(),
            count == apples_at(apples@.take(k as int), c),
            count <= k,
        decreases apples@.len() - k,
    {
        proof {
            assert(apples@.take(k + 1).drop_last() =~= apples@.take(k as int));
        }
        if apples[k].coords() == c {
            count += 1;
        }
        k += 1;
    }
    proof {
        assert(apples@.take(k as int) =~= apples@);
    }
    count
}

/// Return whether the head of one of the snakes lies on the apple.
fn is_eaten(snakes: &Vec<Snake>, a: Apple) -> (r: bool)
    ensures
        r == eaten(views(snakes@), a),
{
    let mut i: usize = 0;
    while i < snakes.len()
        invariant
            i <= snakes@.len(),
            forall|k: int|
                0 <= k < i ==> !(views(snakes@)[k].parts.len() > 0 && #[trigger] views(snakes@)[k].head()
                    == a.coords),
        decreases snakes@.len() - i,
    {
        match snakes[i].lp() {
            Some(p) => {
                if p.coords() == a.coords() {
                    proof {
                        assert(views(snakes@)[i as int] == snakes@[i as int]@);
                        assert(views(snakes@)[i as int].head() == a.coords);
                    }
                    return true;
                }
            },
            None => {},
        }
        i += 1;
    }
    false
}

/// The snake after one move of `step` points.
pub open spec fn moved(s: SnakeView, step: int) -> SnakeView {
    SnakeView { parts: moved_parts(s.parts, s.direction, step), ..s }
}

/// Every snake after one move of `step` points.
pub open spec fn moved_all(snakes: Seq<SnakeView>, step: int) -> Seq<SnakeView> {
    snakes.map_values(|s: SnakeView| moved(s, step))
}

/// Whether one of the snakes has no parts.
pub open spec fn has_empty(snakes: Seq<SnakeView>) -> bool {
    exists|i: int| 0 <= i < snakes.len() && #[trigger] snakes[i].parts.len() == 0
}

/// Whether `after` is what a tick makes of `before`: the sweep removes the
/// snakes that die, the others eat, eaten apples go and new ones fill the
/// pool, every snake moves, and the grid shows the result.
pub open spec fn ticked(before: WorldView, after: WorldView) -> bool {
    let alive = survivors(before.snakes, before.size);
    let inc = before.settings.snake_increment_size as nat;
    let step = before.settings.snake_step as int;
    &&& after.size == before.size
    &&& after.settings == before.settings
    &&& after.snakes == moved_all(fed_all(alive, before.apples, inc), step)
    &&& refilled(uneaten(before.apples, alive), after.apples, before.settings.apples_amount, before.size)
    &&& after.grid == world_points(after.apples, after.snakes)
}

/// The survivors of a sweep have parts and their heads lie in the grid.
proof fn lemma_survivors_alive(snakes: Seq<SnakeView>, size: (usize, usize))
    ensures
        forall|k: int|
            0 <= k < survivors(snakes, size).len() ==> (#[trigger] survivors(snakes, size)[k]).parts.len() > 0
                && in_grid(survivors(snakes, size)[k].head(), size),
{
    lemma_survivors_from(snakes, size, snakes.len() as int);
}

/// With a limit of N > 0 snakes (apples), adding one more to a world that
/// holds N fails for want of room, whatever its name (place); with no limit,
/// adding one never fails so.
pub proof fn lemma_capacity(w: WorldView, name: Seq<char>)
    ensures
        w.settings.snakes_amount > 0 && w.snakes.len() == w.settings.snakes_amount ==> spawn_fault(w, name)
            == Some(GameErrorView::TooMuchSnakes(name)),
        w.settings.snakes_amount == 0 ==> !(spawn_fault(w, name) matches Some(GameErrorView::TooMuchSnakes(_))),
        w.settings.apples_amount > 0 && w.apples.len() == w.settings.apples_amount ==> at_limit(
            w.apples.len() as int,
            w.settings.apples_amount,
        ),
        w.settings.apples_amount == 0 ==> !at_limit(w.apples.len() as int, w.settings.apples_amount),
{
}

/// Keeping what no snake eats keeps every apple when there are no snakes.
proof fn lemma_uneaten_without_snakes(apples: Seq<Apple>, snakes: Seq<SnakeView>)
    requires
        snakes.len() == 0,
    ensures
        uneaten(apples, snakes) == apples,
    decreases apples.len(),
{
    reveal(Seq::filter);
    if apples.len() > 0 {
        lemma_uneaten_without_snakes(apples.drop_last(), snakes);
        assert(!eaten(snakes, apples.last()));
        assert(apples.drop_last().push(apples.last()) =~= apples);
    }
}

/// A tick on a world with no snakes and a full pool of apples leaves the
/// apples as they were: nothing eats them and nothing is added.
pub proof fn lemma_static_world_tick(before: WorldView, after: WorldView)
    requires
        before.wf(),
        before.snakes.len() == 0,
        before.apples.len() == before.settings.apples_amount,
        ticked(before, after),
    ensures
        after.apples == before.apples,
{
    let alive = survivors(before.snakes, before.size);
    assert(alive =~= Seq::<SnakeView>::empty());
    lemma_uneaten_without_snakes(before.apples, alive);
    if before.settings.apples_amount > 0 {
        assert(after.apples =~= after.apples.take(before.apples.len() as int));
    }
}

/// A snake whose head lies on another of its parts is gone after the next
/// tick: no snake of the new world bears its name.
pub proof fn lemma_self_collision_removed(before: WorldView, after: WorldView, i: int)
    requires
        before.wf(),
        0 <= i < before.snakes.len(),
        before.snakes[i].body_has(before.snakes[i].head()),
        ticked(before, after),
    ensures
        !has_name(after.snakes, before.snakes[i].name),
{
    let alive = survivors(before.snakes, before.size);
    lemma_survivors_from(before.snakes, before.size, before.snakes.len() as int);
    assert(dies(before.snakes, i, before.size));
    if has_name(after.snakes, before.snakes[i].name) {
        let k = choose|k: int| 0 <= k < after.snakes.len() && #[trigger] after.snakes[k].name == before.snakes[i].name;
        assert(after.snakes[k].name == alive[k].name);
        let j = choose|j: int|
            0 <= j < before.snakes.len() && !dies(before.snakes, j, before.size) && #[trigger] alive[k] == before.snakes[j];
        assert(before.snakes[j].name == before.snakes[i].name);
    }
}

/// Removing eaten apples leaves no more apples than there were.
proof fn lemma_uneaten_len(apples: Seq<Apple>, snakes: Seq<SnakeView>)
    ensures
        uneaten(apples, snakes).len() <= apples.len(),
{
    apples.lemma_filter_len(|a: Apple| !eaten(snakes, a));
}

/// The views of snakes after one is removed are the views with its view
/// removed.
proof fn lemma_views_remove(s: Seq<Snake>, i: int)
    requires
        0 <= i < s.len(),
    ensures
        views(s.remove(i)) == views(s).remove(i),
{
    assert(views(s.remove(i)) =~= views(s).remove(i));
}

/// What a [`GameData`] is.
pub struct WorldView {
    pub size: (usize, usize),
    pub grid: Seq<GridPoint>,
    pub snakes: Seq<SnakeView>,
    pub apples: Seq<Apple>,
    pub settings: Settings,
}

impl WorldView {
    /// The world's invariant: its settings fit its grid, names are unique and
    /// the limits on snakes and apples hold.
    pub open spec fn wf(self) -> bool {
        &&& settings_fit(self.settings, self.size)
        &&& names_unique(self.snakes)
        &&& within(self.snakes.len() as int, self.settings.snakes_amount)
        &&& within(self.apples.len() as int, self.settings.apples_amount)
    }
}

/// The views of a sequence of snakes.
pub open spec fn views(s: Seq<Snake>) -> Seq<SnakeView> {
    s.map_values(|x: Snake| x@)
}

/// The views of snakes after one is replaced are the views with its view
/// replaced.
proof fn lemma_views_update(s: Seq<Snake>, i: int, x: Snake)
    requires
        0 <= i < s.len(),
    ensures
        views(s.update(i, x)) == views(s).update(i, x@),
{
    assert(views(s.update(i, x)) =~= views(s).update(i, x@));
}

/// The world: grid, snakes, apples and settings.
#[derive(Debug)]
pub struct GameData {
    grid: Grid,
    snakes: Vec<Snake>,
    apples: Vec<Apple>,
    settings: Settings,
}

impl View for GameData {
    type V = WorldView;

    closed spec fn view(&self) -> WorldView {
        WorldView {
            size: self.grid.size,
            grid: self.grid.data@,
            snakes: views(self.snakes@),
            apples: self.apples@,
            settings: self.settings,
        }
    }
}

impl GameData {
    /// Width of the grid when none is given.
    pub const GRID_WIDTH: usize = 50;

    /// Height of the grid when none is given.
    pub const GRID_HEIGHT: usize = 25;

    /// The world's invariant.
    pub open spec fn wf(&self) -> bool {
        self@.wf()
    }

    /// Return an empty world with a grid of `grid_size` (or the default size)
    /// and the given settings.
    pub fn new(grid_size: Option<(usize, usize)>, settings: Settings) -> (r: Self)
        requires
            settings_fit(
                settings,
                match grid_size {
                    Some(s) => s,
                    None => (50usize, 25usize),
                },
            ),
        ensures
            r.wf(),
            r@.size == match grid_size {
                Some(s) => s,
                None => (50usize, 25usize),
            },
            r@.grid.len() == 0,
            r@.snakes.len() == 0,
            r@.apples.len() == 0,
            r@.settings == settings,
    {
        let size = match grid_size {
            Some(s) => s,
            None => (Self::GRID_WIDTH, Self::GRID_HEIGHT),
        };
        let r = Self { grid: Grid::new(size), snakes: Vec::new(), apples: Vec::new(), settings };
        proof {
            assert(r@.snakes =~= Seq::<SnakeView>::empty());
        }
        r
    }

    /// Remove the snakes that die in a tick's sweep (see [`dies`]).
    pub fn kill_dead_snakes(&mut self)
        ensures
            final(self)@ == (WorldView { snakes: survivors(old(self)@.snakes, old(self)@.size), ..old(self)@ }),
            old(self).wf() ==> final(self).wf(),
    {
        let ghost before = self@;
        let n = self.snakes.len();
        let (w, h) = self.grid.size;
        let mut dead: Vec<bool> = Vec::new();
        let mut i: usize = 0;
        while i < n
            invariant
                self@ == before,
                n == before.snakes.len(),
                (w, h) == before.size,
                i <= n,
                dead@.len() == i,
                forall|k: int|
                    0 <= k < i ==> #[trigger] dead@[k] == (before.snakes[k].bumped() || out_of_bounds(
                        before.snakes[k],
                        before.size,
                    )),
            decreases n - i,
        {
            let s = &self.snakes[i];
            let gone = match s.lp() {
                None => true,
                Some(p) => {
                    let c = p.coords();
                    let bumped = match s.parts_bumped() {
                        Ok(b) => b,
                        Err(_) => true,
                    };
                    bumped || c.x < 1 || c.x as usize > w || c.y < 1 || c.y as usize > h
                },
            };
            dead.push(gone);
            i += 1;
        }
        let pairs = ordered_pairs(n);
        let mut k: usize = 0;
        while k < pairs.len()
            invariant
                self@ == before,
                n == before.snakes.len(),
                k <= pairs@.len(),
                dead@.len() == n,
                forall|p: int|
                    0 <= p < pairs@.len() ==> #[trigger] pairs@[p].0 < n && pairs@[p].1 < n && pairs@[p].0
                        != pairs@[p].1,
                forall|a: int|
                    0 <= a < n ==> #[trigger] dead@[a] == (before.snakes[a].bumped() || out_of_bounds(
                        before.snakes[a],
                        before.size,
                    ) || exists|q: int|
                        0 <= q < k && pairs@[q].0 == a && #[trigger] hits(
                            before.snakes[a],
                            before.snakes[pairs@[q].1 as int],
                        )),
            decreases pairs@.len() - k,
        {
            let (a, b) = pairs[k];
            if bites(&self.snakes[a], &self.snakes[b]) {
                dead.set(a, true);
            }
            proof {
                assert forall|x: int| 0 <= x < n implies #[trigger] dead@[x] == (before.snakes[x].bumped()
                    || out_of_bounds(before.snakes[x], before.size) || exists|q: int|
                    0 <= q < k + 1 && pairs@[q].0 == x && #[trigger] hits(
                        before.snakes[x],
                        before.snakes[pairs@[q].1 as int],
                    )) by {
                    if x == a && hits(before.snakes[x], before.snakes[b as int]) {
                        assert(pairs@[k as int].0 == x);
                    }
                }
            }
            k += 1;
        }
        proof {
            assert forall|a: int| 0 <= a < n implies #[trigger] dead@[a] == dies(before.snakes, a, before.size) by {
                if exists|j: int| 0 <= j < n && j != a && #[trigger] hits(before.snakes[a], before.snakes[j]) {
                    let j = choose|j: int| 0 <= j < n && j != a && #[trigger] hits(before.snakes[a], before.snakes[j]);
                    assert(lists_pair(pairs@, a as usize, j as usize));
                    let q = choose|q: int| 0 <= q < pairs@.len() && pairs@[q] == (a as usize, j as usize);
                    assert(pairs@[q].0 == a && hits(before.snakes[a], before.snakes[pairs@[q].1 as int]));
                }
                if exists|q: int|
                    0 <= q < pairs@.len() && pairs@[q].0 == a && #[trigger] hits(
                        before.snakes[a],
                        before.snakes[pairs@[q].1 as int],
                    ) {
                    let q = choose|q: int|
                        0 <= q < pairs@.len() && pairs@[q].0 == a && #[trigger] hits(
                            before.snakes[a],
                            before.snakes[pairs@[q].1 as int],
                        );
                    let j = pairs@[q].1 as int;
                    assert(0 <= j < n && j != a && hits(before.snakes[a], before.snakes[j]));
                }
            }
        }
        let mut at: usize = 0;
        let mut j: usize = 0;
        while j < n
            invariant
                n == before.snakes.len(),
                dead@.len() == n,
                forall|a: int| 0 <= a < n ==> #[trigger] dead@[a] == dies(before.snakes, a, before.size),
                j <= n,
                at <= j,
                at == survivors_upto(before.snakes, before.size, j as int).len(),
                views(self.snakes@) == survivors_upto(before.snakes, before.size, j as int) + before.snakes.skip(
                    j as int,
                ),
                self.grid == old(self).grid,
                self.apples == old(self).apples,
                self.settings == old(self).settings,
            decreases n - j,
        {
            let ghost cur = self.snakes@;
            let ghost sv = survivors_upto(before.snakes, before.size, j as int);
            proof {
                assert(views(cur).len() == cur.len());
                assert((sv + before.snakes.skip(j as int)).len() == sv.len() + n - j);
                assert(views(cur)[at as int] == before.snakes[j as int]);
                assert(at < cur.len());
            }
            if dead[j] {
                self.snakes.remove(at);
                proof {
                    lemma_views_remove(cur, at as int);
                    assert(views(self.snakes@) =~= sv + before.snakes.skip(j + 1));
                }
            } else {
                at += 1;
                proof {
                    assert(views(self.snakes@) =~= sv.push(before.snakes[j as int]) + before.snakes.skip(j + 1));
                }
            }
            j += 1;
        }
        proof {
            assert(views(self.snakes@) =~= survivors(before.snakes, before.size));
            lemma_survivors_from(before.snakes, before.size, n as int);
            let sv = survivors(before.snakes, before.size);
            if before.wf() {
                assert forall|a: int, b: int|
                    0 <= a < sv.len() && 0 <= b < sv.len() && a != b implies #[trigger] sv[a].name
                    != #[trigger] sv[b].name by {
                    lemma_survivors_order(before.snakes, before.size, n as int, a, b);
                }
            }
        }
    }

    /// Let every snake eat the apples under its head, growing by the
    /// configured increment for each, and remove the eaten apples; then add
    /// apples at random places of the grid until there are as many as the
    /// limit allows.
    pub fn check_apples(&mut self) -> (r: Result<(), GameError>)
        requires
            old(self).wf(),
        ensures
            r is Ok,
            final(self).wf(),
            final(self)@.snakes == fed_all(
                old(self)@.snakes,
                old(self)@.apples,
                old(self)@.settings.snake_increment_size as nat,
            ),
            refilled(
                uneaten(old(self)@.apples, old(self)@.snakes),
                final(self)@.apples,
                old(self)@.settings.apples_amount,
                old(self)@.size,
            ),
            final(self)@.size == old(self)@.size,
            final(self)@.grid == old(self)@.grid,
            final(self)@.settings == old(self)@.settings,
    {
        let ghost before = self@;
        let inc = self.settings.snake_increment_size;
        let mut kept: Vec<Apple> = Vec::new();
        let mut k: usize = 0;
        while k < self.apples.len()
            invariant
                self@ == before,
                k <= before.apples.len(),
                kept@ == before.apples.take(k as int).filter(|a: Apple| !eaten(before.snakes, a)),
            decreases before.apples.len() - k,
        {
            proof {
                assert(before.apples.take(k + 1).drop_last() =~= before.apples.take(k as int));
                reveal(Seq::filter);
            }
            let a = self.apples[k];
            if !is_eaten(&self.snakes, a) {
                kept.push(a);
            }
            k += 1;
        }
        proof {
            assert(before.apples.take(k as int) =~= before.apples);
        }
        let n = self.snakes.len();
        let mut i: usize = 0;
        while i < n
            invariant
                n == before.snakes.len(),
                i <= n,
                self.apples@ == before.apples,
                self.grid == old(self).grid,
                self.settings == old(self).settings,
                inc == before.settings.snake_increment_size,
                views(self.snakes@).len() == n,
                forall|j: int|
                    0 <= j < i ==> #[trigger] views(self.snakes@)[j] == fed(
                        before.snakes[j],
                        before.apples,
                        inc as nat,
                    ),
                forall|j: int| i <= j < n ==> #[trigger] views(self.snakes@)[j] == before.snakes[j],
            decreases n - i,
        {
            let count = match self.snakes[i].lp() {
                Some(p) => count_apples_at(&self.apples, p.coords()),
                None => 0,
            };
            let ghost cur = self.snakes@;
            proof {
                assert(views(cur)[i as int] == cur[i as int]@);
            }
            grow_snake(&mut self.snakes[i], count, inc);
            proof {
                assert forall|j: int| 0 <= j < n && j != i implies #[trigger] views(self.snakes@)[j] == views(
                    cur,
                )[j] by {
                    assert(self.snakes@[j] == cur[j]);
                }
                assert(views(self.snakes@)[i as int] == self.snakes@[i as int]@);
            }
            i += 1;
        }
        proof {
            assert(views(self.snakes@) =~= fed_all(before.snakes, before.apples, inc as nat));
        }
        self.apples = kept;
        let ghost kept_view = self.apples@;
        proof {
            lemma_uneaten_len(before.apples, before.snakes);
        }
        let limit = self.settings.apples_amount;
        while self.apples.len() < limit
            invariant
                self@.size == before.size,
                self@.grid == before.grid,
                self@.settings == before.settings,
                limit == before.settings.apples_amount,
                views(self.snakes@) == fed_all(before.snakes, before.apples, inc as nat),
                settings_fit(before.settings, before.size),
                kept_view.len() <= self.apples@.len(),
                self.apples@.len() <= if kept_view.len() < limit {
                    limit as int
                } else {
                    kept_view.len() as int
                },
                self.apples@.take(kept_view.len() as int) == kept_view,
                forall|k: int|
                    kept_view.len() <= k < self.apples@.len() ==> in_grid(#[trigger] self.apples@[k].coords, before.size)
                        && self.apples@[k].color == Color::spec_red(),
            decreases limit - self.apples@.len(),
        {
            let c = self.grid.random_coords(0);
            let ghost prev = self.apples@;
            let _ = self.spawn_apple(c, None);
            proof {
                assert(self.apples@.take(kept_view.len() as int) =~= prev.take(kept_view.len() as int));
            }
        }
        proof {
            let sv = views(self.snakes@);
            assert forall|a: int, b: int|
                0 <= a < sv.len() && 0 <= b < sv.len() && a != b implies #[trigger] sv[a].name
                != #[trigger] sv[b].name by {
                assert(sv[a].name == before.snakes[a].name);
                assert(sv[b].name == before.snakes[b].name);
            }
            if limit == 0 {
                assert(self.apples@.take(kept_view.len() as int) =~= self.apples@);
            }
        }
        Ok(())
    }

    /// Move every snake by the configured step and rebuild the grid from the
    /// apples and the moved snakes. Fails, changing nothing, when a snake has
    /// no parts.
    pub fn update_grid(&mut self) -> (r: Result<(), GameError>)
        requires
            forall|i: int|
                0 <= i < old(self)@.snakes.len() ==> can_step(
                    #[trigger] old(self)@.snakes[i].parts,
                    old(self)@.snakes[i].direction,
                    old(self)@.settings.snake_step as int,
                ),
        ensures
            r is Err <==> has_empty(old(self)@.snakes),
            r matches Err(e) ==> exists|i: int|
                0 <= i < old(self)@.snakes.len() && old(self)@.snakes[i].parts.len() == 0 && e@
                    == GameErrorView::EmptySnake(old(self)@.snakes[i].name),
            r is Err ==> final(self)@ == old(self)@,
            r is Ok ==> final(self)@ == (WorldView {
                snakes: moved_all(old(self)@.snakes, old(self)@.settings.snake_step as int),
                grid: world_points(
                    old(self)@.apples,
                    moved_all(old(self)@.snakes, old(self)@.settings.snake_step as int),
                ),
                ..old(self)@
            }),
            old(self).wf() ==> final(self).wf(),
    {
        let ghost before = self@;
        let n = self.snakes.len();
        let mut i: usize = 0;
        while i < n
            invariant
                self@ == before,
                n == before.snakes.len(),
                i <= n,
                forall|k: int| 0 <= k < i ==> before.snakes[k].parts.len() != 0,
            decreases n - i,
        {
            if self.snakes[i].is_empty() {
                proof {
                    assert(before.snakes[i as int] == self.snakes@[i as int]@);
                }
                return Err(GameError::EmptySnake(self.snakes[i].name()));
            }
            i += 1;
        }
        let step = self.settings.snake_step;
        let mut i: usize = 0;
        while i < n
            invariant
                n == before.snakes.len(),
                i <= n,
                step == before.settings.snake_step,
                self.grid == old(self).grid,
                self.apples == old(self).apples,
                self.settings == old(self).settings,
                forall|k: int|
                    0 <= k < n ==> can_step(
                        #[trigger] before.snakes[k].parts,
                        before.snakes[k].direction,
                        step as int,
                    ),
                views(self.snakes@).len() == n,
                forall|j: int| 0 <= j < i ==> #[trigger] views(self.snakes@)[j] == moved(before.snakes[j], step as int),
                forall|j: int| i <= j < n ==> #[trigger] views(self.snakes@)[j] == before.snakes[j],
            decreases n - i,
        {
            let ghost cur = self.snakes@;
            proof {
                assert(views(cur)[i as int] == cur[i as int]@);
            }
            let _ = Snake::move_parts(&mut self.snakes[i], step);
            proof {
                assert forall|j: int| 0 <= j < n && j != i implies #[trigger] views(self.snakes@)[j] == views(
                    cur,
                )[j] by {
                    assert(self.snakes@[j] == cur[j]);
                }
                assert(views(self.snakes@)[i as int] == self.snakes@[i as int]@);
            }
            i += 1;
        }
        let ghost after = views(self.snakes@);
        proof {
            assert(after =~= moved_all(before.snakes, step as int));
        }
        let mut grid = Grid::new(self.grid.size);
        let mut k: usize = 0;
        while k < self.apples.len()
            invariant
                self.apples@ == before.apples,
                k <= before.apples.len(),
                grid.size == before.size,
                grid.data@ == apple_points(before.apples.take(k as int)),
            decreases before.apples.len() - k,
        {
            let a = self.apples[k];
            grid.data.push(GridPoint::new(GameObject::Apple, a.coords(), Color::red()));
            proof {
                assert(apple_points(before.apples.take(k + 1)) =~= apple_points(before.apples.take(k as int)).push(
                    apple_point(a),
                ));
            }
            k += 1;
        }
        proof {
            assert(before.apples.take(k as int) =~= before.apples);
            assert(after.take(0) =~= Seq::<SnakeView>::empty());
            assert(grid.data@ =~= apple_points(before.apples) + snake_points(after.take(0)));
        }
        let mut i: usize = 0;
        while i < n
            invariant
                n == after.len(),
                views(self.snakes@) == after,
                i <= n,
                grid.size == before.size,
                grid.data@ == apple_points(before.apples) + snake_points(after.take(i as int)),
            decreases n - i,
        {
            let parts = self.snakes[i].parts();
            let mut m: usize = 0;
            let ghost base = grid.data@;
            proof {
                assert(parts@ == after[i as int].parts);
            }
            while m < parts.len()
                invariant
                    parts@ == after[i as int].parts,
                    m <= parts@.len(),
                    grid.size == before.size,
                    grid.data@ == base + parts@.take(m as int).map_values(|p: SnakePart| part_point(p)),
                decreases parts@.len() - m,
            {
                let p = parts[m];
                grid.data.push(GridPoint::new(GameObject::SnakePart, p.coords(), p.color()));
                proof {
                    assert(parts@.take(m + 1).map_values(|p: SnakePart| part_point(p)) =~= parts@.take(
                        m as int,
                    ).map_values(|p: SnakePart| part_point(p)).push(part_point(p)));
                }
                m += 1;
            }
            proof {
                assert(parts@.take(m as int) =~= parts@);
                assert(after.take(i + 1).drop_last() =~= after.take(i as int));
                assert(grid.data@ =~= apple_points(before.apples) + snake_points(after.take(i + 1)));
            }
            i += 1;
        }
        proof {
            assert(after.take(n as int) =~= after);
        }
        self.grid = grid;
        proof {
            if before.wf() {
                let sv = views(self.snakes@);
                assert forall|a: int, b: int|
                    0 <= a < sv.len() && 0 <= b < sv.len() && a != b implies #[trigger] sv[a].name
                    != #[trigger] sv[b].name by {
                    assert(sv[a].name == before.snakes[a].name);
                    assert(sv[b].name == before.snakes[b].name);
                }
            }
        }
        Ok(())
    }

    /// Advance the world by one tick: sweep the dead snakes away, feed the
    /// others and refill the apples, then move the snakes and rebuild the grid.
    pub fn advance_tick(&mut self) -> (r: Result<(), GameError>)
        requires
            old(self).wf(),
        ensures
            r is Ok,
            final(self).wf(),
            ticked(old(self)@, final(self)@),
    {
        let ghost before = self@;
        self.kill_dead_snakes();
        let ghost swept = self@;
        self.check_apples()?;
        let ghost fedw = self@;
        proof {
            let alive = survivors(before.snakes, before.size);
            lemma_survivors_alive(before.snakes, before.size);
            assert(swept.snakes == alive);
            let step = before.settings.snake_step as int;
            assert forall|i: int| 0 <= i < fedw.snakes.len() implies can_step(
                #[trigger] fedw.snakes[i].parts,
                fedw.snakes[i].direction,
                fedw.settings.snake_step as int,
            ) by {
                let s0 = alive[i];
                assert(s0.parts.len() > 0 && in_grid(s0.head(), before.size));
                let s1 = fedw.snakes[i];
                assert(s1 == fed(s0, before.apples, before.settings.snake_increment_size as nat));
                assert(s1.parts.last() == s0.parts.last());
            }
        }
        self.update_grid()
    }

    /// Return the number of snakes.
    pub fn snakes(&self) -> (r: usize)
        ensures
            r == self@.snakes.len(),
    {
        self.snakes.len()
    }

    /// Return a copy of the grid.
    pub fn grid(&self) -> (r: Grid)
        ensures
            r.data@ == self@.grid,
            r.size == self@.size,
    {
        self.grid.clone()
    }

    /// Return a copy of the settings.
    pub fn settings(&self) -> (r: Settings)
        ensures
            r == self@.settings,
    {
        self.settings.clone()
    }

    /// Return the index of the snake named `name`, if there is one.
    fn position(&self, name: &str) -> (r: Option<usize>)
        ensures
            r is None <==> !has_name(self@.snakes, name@),
            r matches Some(i) ==> i < self@.snakes.len() && self@.snakes[i as int].name == name@,
    {
        let mut i: usize = 0;
        while i < self.snakes.len()
            invariant
                i <= self.snakes@.len(),
                forall|k: int| 0 <= k < i ==> (#[trigger] self@.snakes[k]).name != name@,
            decreases self.snakes@.len() - i,
        {
            if self.snakes[i].is_named(name) {
                return Some(i);
            }
            i += 1;
        }
        None
    }

    /// Return whether a snake is named `name`.
    pub fn find_snake(&self, name: &str) -> (r: bool)
        ensures
            r == has_name(self@.snakes, name@),
    {
        self.position(name).is_some()
    }

    /// Return the snake named `name`.
    pub fn snake(&self, name: &str) -> (r: Result<&Snake, GameError>)
        ensures
            fault_of(r) == if has_name(self@.snakes, name@) {
                None
            } else {
                Some(GameErrorView::SnakeNotFound(name@))
            },
            r matches Ok(s) ==> s@.name == name@ && self@.snakes.contains(s@),
    {
        match self.position(name) {
            Some(i) => Ok(&self.snakes[i]),
            None => Err(GameError::SnakeNotFound(String::from_str(name))),
        }
    }

    /// Return the snake named `name`, to change it.
    pub fn snake_mut(&mut self, name: &str) -> (r: Result<&mut Snake, GameError>)
        ensures
            fault_of(r) == if has_name(old(self)@.snakes, name@) {
                None
            } else {
                Some(GameErrorView::SnakeNotFound(name@))
            },
            r is Err ==> final(self)@ == old(self)@,
            r is Ok ==> exists|i: int|
                0 <= i < old(self)@.snakes.len() && old(self)@.snakes[i].name == name@ && (*r->Ok_0)@
                    == old(self)@.snakes[i] && final(self)@ == (WorldView {
                    snakes: old(self)@.snakes.update(i, (*final(r->Ok_0))@),
                    ..old(self)@
                }),
    {
        match self.position(name) {
            Some(i) => {
                let ghost before = self.snakes@;
                let s = &mut self.snakes[i];
                proof {
                    lemma_views_update(before, i as int, *final(s));
                }
                Ok(s)
            },
            None => Err(GameError::SnakeNotFound(String::from_str(name))),
        }
    }

    /// Turn the snake named `name` to `direction`, under the snakes' rule on
    /// turning.
    pub fn change_direction(&mut self, name: &str, direction: Direction) -> (r: Result<(), GameError>)
        requires
            old(self).wf(),
        ensures
            fault_of(r) == turn_fault(old(self)@, name@, direction),
            final(self)@ == if r is Err {
                old(self)@
            } else {
                turned(old(self)@, name@, direction)
            },
            final(self).wf(),
    {
        let ghost before = self@;
        match self.position(name) {
            Some(i) => {
                proof {
                    let j = index_of(before.snakes, name@);
                    assert(before.snakes[i as int].name == name@);
                    assert(i == j);
                }
                let ghost old_snake = self.snakes@[i as int];
                let mut snake = self.snakes.remove(i);
                let r = snake.change_direction(direction);
                self.snakes.insert(i, snake);
                proof {
                    assert(self@.snakes =~= if r is Err {
                        before.snakes
                    } else {
                        before.snakes.update(i as int, SnakeView { direction, ..before.snakes[i as int] })
                    });
                    assert forall|a: int, b: int|
                        0 <= a < self@.snakes.len() && 0 <= b < self@.snakes.len() && a != b implies
                        #[trigger] self@.snakes[a].name != #[trigger] self@.snakes[b].name by {
                        assert(self@.snakes[a].name == before.snakes[a].name);
                        assert(self@.snakes[b].name == before.snakes[b].name);
                    }
                }
                r
            },
            None => Err(GameError::SnakeNotFound(String::from_str(name))),
        }
    }

    /// Remove the snake named `name` from the world and return it.
    pub fn kill_snake(&mut self, name: &str) -> (r: Result<Snake, GameError>)
        ensures
            fault_of(r) == if has_name(old(self)@.snakes, name@) {
                None
            } else {
                Some(GameErrorView::SnakeNotFound(name@))
            },
            r is Err ==> final(self)@ == old(self)@,
            r matches Ok(s) ==> exists|i: int|
                0 <= i < old(self)@.snakes.len() && old(self)@.snakes[i] == s@ && s@.name == name@
                    && final(self)@ == (WorldView { snakes: old(self)@.snakes.remove(i), ..old(self)@ }),
            old(self).wf() && r is Ok ==> final(self)@ == without(old(self)@, name@),
            old(self).wf() ==> final(self).wf(),
    {
        match self.position(name) {
            Some(i) => {
                let ghost before = self@;
                proof {
                    if before.wf() {
                        assert(before.snakes[index_of(before.snakes, name@)].name == name@);
                    }
                }
                let s = self.snakes.remove(i);
                proof {
                    assert(self@.snakes =~= before.snakes.remove(i as int));
                    assert forall|a: int, b: int|
                        0 <= a < self@.snakes.len() && 0 <= b < self@.snakes.len() && a != b
                            && before.wf() implies #[trigger] self@.snakes[a].name
                        != #[trigger] self@.snakes[b].name by {
                        let a0 = if a < i { a } else { a + 1 };
                        let b0 = if b < i { b } else { b + 1 };
                        assert(self@.snakes[a] == before.snakes[a0]);
                        assert(self@.snakes[b] == before.snakes[b0]);
                    }
                }
                Ok(s)
            },
            None => Err(GameError::SnakeNotFound(String::from_str(name))),
        }
    }

    /// Return the name, length pairs of the snakes, in order.
    pub fn scoreboard(&self) -> (r: Vec<(String, usize)>)
        ensures
            r@.len() == self@.snakes.len(),
            forall|i: int|
                0 <= i < r@.len() ==> (#[trigger] r@[i]).0@ == self@.snakes[i].name && r@[i].1
                    == self@.snakes[i].parts.len(),
    {
        let mut board: Vec<(String, usize)> = Vec::new();
        let mut i: usize = 0;
        while i < self.snakes.len()
            invariant
                i <= self.snakes@.len(),
                board@.len() == i,
                forall|k: int|
                    0 <= k < i ==> (#[trigger] board@[k]).0@ == self@.snakes[k].name && board@[k].1
                        == self@.snakes[k].parts.len(),
            decreases self.snakes@.len() - i,
        {
            board.push((self.snakes[i].name(), self.snakes[i].len()));
            i += 1;
        }
        board
    }

    /// Add an apple at `coords`, colored `color` or, when it is none, red.
    pub fn spawn_apple(&mut self, coords: Coordinates, color: Option<Color>) -> (r: Result<(), GameError>)
        ensures
            fault_of(r) == if at_limit(old(self)@.apples.len() as int, old(self)@.settings.apples_amount) {
                Some(GameErrorView::TooMuchApples(coords))
            } else {
                None
            },
            final(self)@ == if r is Err {
                old(self)@
            } else {
                WorldView { apples: old(self)@.apples.push(Apple::new_spec(coords, color)), ..old(self)@ }
            },
            old(self).wf() ==> final(self).wf(),
    {
        let limit = self.settings.apples_amount;
        if limit != 0 && self.apples.len() >= limit {
            Err(GameError::TooMuchApples(coords))
        } else {
            self.apples.push(Apple::new(coords, color));
            Ok(())
        }
    }

    /// Add a snake named `name`. Its head is at `coords` or, when it is none,
    /// at random inside the grid, away from the border by its length. Its
    /// direction is chosen by `direction`, and its length is `length` or,
    /// when it is none, the configured one.
    pub fn spawn_snake(
        &mut self,
        name: &str,
        coords: Option<Coordinates>,
        direction: DirectionChoice,
        length: Option<usize>,
    ) -> (r: Result<(), GameError>)
        requires
            old(self).wf(),
            coords matches Some(c) ==> forall|d: Direction, l: int|
                may_face(direction, old(self)@.settings.snake_direction, d) && may_have_length(
                    length,
                    old(self)@.settings.snake_length,
                    l,
                ) ==> #[trigger] spawn_fits(c, d, l),
            coords is None ==> (length matches Some(n) ==> old(self)@.size.0 + n <= i32::MAX + 1
                && old(self)@.size.1 + n <= i32::MAX + 1),
        ensures
            fault_of(r) == spawn_fault(old(self)@, name@),
            r is Err ==> final(self)@ == old(self)@,
            r is Ok ==> exists|head: Coordinates, d: Direction, l: nat|
                may_face(direction, old(self)@.settings.snake_direction, d) && may_have_length(
                    length,
                    old(self)@.settings.snake_length,
                    l as int,
                ) && (match coords {
                    Some(c) => head == c,
                    None => in_interior(head, old(self)@.size, l as int),
                }) && final(self)@ == (WorldView {
                    snakes: old(self)@.snakes.push(#[trigger] spawned(name@, head, d, l)),
                    ..old(self)@
                }),
            final(self).wf(),
    {
        let limit = self.settings.snakes_amount;
        if limit != 0 && self.snakes.len() >= limit {
            return Err(GameError::TooMuchSnakes(String::from_str(name)));
        }
        if self.find_snake(name) {
            return Err(GameError::NonUniqueName(String::from_str(name)));
        }
        let d = match direction {
            DirectionChoice::Fixed(d) => d,
            DirectionChoice::Random => random_direction(),
            DirectionChoice::Configured => match self.settings.snake_direction {
                Some(d) => d,
                None => random_direction(),
            },
        };
        let l = match length {
            Some(n) => n,
            None => self.settings.snake_length.clone().get(),
        };
        let head = match coords {
            Some(c) => c,
            None => {
                let (w, h) = self.grid.size;
                let side = if w <= h { w } else { h };
                let room = (side - 1) / 2;
                let off = if l <= room { l } else { room };
                self.grid.random_coords(off as i32)
            },
        };
        let ghost before = self@;
        proof {
            if coords is Some {
                assert(spawn_fits(head, d, l as int));
            }
            assert(may_face(direction, before.settings.snake_direction, d));
            assert(may_have_length(length, before.settings.snake_length, l as int));
            assert(match coords {
                Some(c) => head == c,
                None => in_interior(head, before.size, l as int),
            });
        }
        let r = self.spawn_snake_at(name, head, d, l);
        proof {
            assert(before == old(self)@);
            if r is Ok {
                let lv: nat = l as nat;
                assert(lv as int == l as int);
                assert(may_face(direction, old(self)@.settings.snake_direction, d) && may_have_length(
                    length,
                    old(self)@.settings.snake_length,
                    lv as int,
                ) && (match coords {
                    Some(c) => head == c,
                    None => in_interior(head, old(self)@.size, lv as int),
                }) && final(self)@ == (WorldView {
                    snakes: old(self)@.snakes.push(spawned(name@, head, d, lv)),
                    ..old(self)@
                }));
            }
        }
        r
    }

    /// Add a snake named `name` with `length` parts in a line whose head is at
    /// `head`, facing `direction`.
    pub fn spawn_snake_at(&mut self, name: &str, head: Coordinates, direction: Direction, length: usize) -> (r:
        Result<(), GameError>)
        requires
            spawn_fits(head, direction, length as int),
        ensures
            fault_of(r) == spawn_fault(old(self)@, name@),
            final(self)@ == if r is Err {
                old(self)@
            } else {
                WorldView {
                    snakes: old(self)@.snakes.push(spawned(name@, head, direction, length as nat)),
                    ..old(self)@
                }
            },
            old(self).wf() ==> final(self).wf(),
    {
        let limit = self.settings.snakes_amount;
        if limit != 0 && self.snakes.len() >= limit {
            return Err(GameError::TooMuchSnakes(String::from_str(name)));
        }
        if self.find_snake(name) {
            return Err(GameError::NonUniqueName(String::from_str(name)));
        }
        let tail = if length == 0 {
            head
        } else {
            let back = (length - 1) as i32;
            match direction {
                Direction::Right => Coordinates::new(head.x - back, head.y),
                Direction::Left => Coordinates::new(head.x + back, head.y),
                Direction::Up => Coordinates::new(head.x, head.y - back),
                Direction::Down => Coordinates::new(head.x, head.y + back),
            }
        };
        proof {
            assert(tail == tail_for(head, direction, length as nat));
            if length > 0 {
                assert(offset_fits(tail, direction, length - 1));
                assert(shifted(tail, direction, length - 1) == head);
            }
        }
        let ghost before = self@;
        let snake = Snake::new(name, tail, direction, length);
        self.snakes.push(snake);
        proof {
            assert(self@.snakes =~= before.snakes.push(spawned(name@, head, direction, length as nat)));
            assert forall|a: int, b: int|
                0 <= a < self@.snakes.len() && 0 <= b < self@.snakes.len() && a != b && before.wf()
                    implies #[trigger] self@.snakes[a].name != #[trigger] self@.snakes[b].name by {
                if a == before.snakes.len() {
                    assert(before.snakes[b].name == self@.snakes[b].name);
                } else if b == before.snakes.len() {
                    assert(before.snakes[a].name == self@.snakes[a].name);
                }
            }
        }
        Ok(())
    }
}

} // verus!
