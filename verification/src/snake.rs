use vstd::prelude::*;
use crate::palette;
use crate::random::{Rng, next_range, xorshift_iter};
use crate::keyboard::{Key, KeyCode};
use crate::menu::Application;
use crate::wc::{decimal_string, spec_decimal};
use vstd::string::StringExecFns;

verus! {

pub const GRID_WIDTH: usize = 32;
pub const GRID_HEIGHT: usize = 20;
pub const GRID_CELLS: usize = 640;
pub const TILE_SIZE: usize = 10;
pub const START_LENGTH: usize = 3;

/// The direction the snake travels in.
#[derive(Debug, Clone, Copy, PartialEq, Eq, Structural)]
pub enum Direction {
    Up,
    Down,
    Left,
    Right,
}

/// The offset of the tile one step ahead in direction `d`.
pub open spec fn delta(d: Direction) -> (int, int) {
    match d {
        Direction::Up => (0, -1),
        Direction::Down => (0, 1),
        Direction::Left => (-1, 0),
        Direction::Right => (1, 0),
    }
}

/// Whether two directions point opposite ways.
pub open spec fn spec_is_opposite(a: Direction, b: Direction) -> bool {
    (a == Direction::Up && b == Direction::Down) || (a == Direction::Down && b == Direction::Up)
        || (a == Direction::Left && b == Direction::Right) || (a == Direction::Right
        && b == Direction::Left)
}

impl Direction {
    /// The offset of the tile behind a snake that travels in this direction.
    pub fn get_previous_tile(&self) -> (r: (i8, i8))
        ensures
            r.0 == -delta(*self).0,
            r.1 == -delta(*self).1,
    {
        match self {
            Direction::Up => (0, 1),
            Direction::Down => (0, -1),
            Direction::Left => (1, 0),
            Direction::Right => (-1, 0),
        }
    }

    /// The offset of the tile ahead of a snake that travels in this direction.
    pub fn get_next_tile(&self) -> (r: (i8, i8))
        ensures
            r.0 == delta(*self).0,
            r.1 == delta(*self).1,
    {
        match self {
            Direction::Up => (0, -1),
            Direction::Down => (0, 1),
            Direction::Left => (-1, 0),
            Direction::Right => (1, 0),
        }
    }

    /// Whether `other` points the opposite way from this direction.
    pub fn is_opposite(&self, other: &Direction) -> (r: bool)
        ensures
            r == spec_is_opposite(*self, *other),
    {
        match (self, other) {
            (Direction::Up, Direction::Down) => true,
            (Direction::Down, Direction::Up) => true,
            (Direction::Left, Direction::Right) => true,
            (Direction::Right, Direction::Left) => true,
            _ => false,
        }
    }
}

/// What occupies a cell of the playing field.
#[derive(Debug, Clone, Copy, PartialEq, Eq, Structural)]
pub enum Tile {
    Snake,
    Border,
    Apple,
    Empty,
}

/// The palette colour each kind of tile is drawn in.
pub open spec fn tile_color(t: Tile) -> u8 {
    match t {
        Tile::Snake => palette::GREEN,
        Tile::Border => palette::CYAN,
        Tile::Apple => palette::RED,
        Tile::Empty => palette::BLACK,
    }
}

/// A filled rectangle on the 320x200 pixel screen.
#[derive(Debug, Clone, Copy, PartialEq, Eq, Structural)]
pub struct Rect {
    pub x: usize,
    pub y: usize,
    pub width: usize,
    pub height: usize,
    pub color: u8,
}

impl Tile {
    /// The square on screen that shows the cell at column `x`, row `y`.
    pub fn draw(&self, x: usize, y: usize) -> (r: Rect)
        requires
            x * 10 <= usize::MAX,
            y * 10 <= usize::MAX,
        ensures
            r == (Rect { x: (x * 10) as usize, y: (y * 10) as usize, width: 10, height: 10, color: tile_color(*self) }),
    {
        Rect { x: x * TILE_SIZE, y: y * TILE_SIZE, width: TILE_SIZE, height: TILE_SIZE, color: self.get_color() }
    }

    /// The palette colour this tile is drawn in.
    pub fn get_color(&self) -> (r: u8)
        ensures
            r == tile_color(*self),
    {
        match self {
            Tile::Snake => palette::GREEN,
            Tile::Border => palette::CYAN,
            Tile::Apple => palette::RED,
            Tile::Empty => palette::BLACK,
        }
    }
}

/// A turn point: the cell where the head turned and the direction it travelled before.
pub type TurnPoint = (i8, i8, Direction);

/// A cell given by its column and row.
pub open spec fn pt(p: (i8, i8)) -> (int, int) {
    (p.0 as int, p.1 as int)
}

pub open spec fn turn_at(tp: TurnPoint, p: (int, int)) -> bool {
    tp.0 as int == p.0 && tp.1 as int == p.1
}

/// The direction recorded by the first turn point at cell `p`, if any.
pub open spec fn first_turn(tps: Seq<TurnPoint>, p: (int, int)) -> Option<Direction>
    decreases tps.len(),
{
    if tps.len() == 0 {
        None
    } else {
        let r = first_turn(tps.drop_last(), p);
        if r is Some {
            r
        } else if turn_at(tps.last(), p) {
            Some(tps.last().2)
        } else {
            None
        }
    }
}

/// The direction the body travels at cell `p`, given that it travelled `trav` before it.
pub open spec fn turn_dir(tps: Seq<TurnPoint>, p: (int, int), trav: Direction) -> Direction {
    match first_turn(tps, p) {
        Some(d) => d,
        None => trav,
    }
}

/// One step back along the body from cell `p`, which the body reaches travelling `trav`.
pub open spec fn step_back(tps: Seq<TurnPoint>, p: (int, int), trav: Direction) -> ((int, int), Direction) {
    let t = turn_dir(tps, p, trav);
    ((p.0 - delta(t).0, p.1 - delta(t).1), t)
}

/// The cell and travel direction `k` steps back along the body from `head`.
pub open spec fn walk(head: (int, int), dir: Direction, tps: Seq<TurnPoint>, k: nat) -> ((int, int), Direction)
    decreases k,
{
    if k == 0 {
        (head, dir)
    } else {
        let prev = walk(head, dir, tps, (k - 1) as nat);
        step_back(tps, prev.0, prev.1)
    }
}

/// The number of body segments behind the head of a snake of length `len`.
pub open spec fn body_count(len: usize) -> nat {
    if len == 0 {
        0
    } else {
        (len - 1) as nat
    }
}

/// The cells the snake covers, head first.
pub open spec fn snake_cells(head: (int, int), dir: Direction, tps: Seq<TurnPoint>, len: usize) -> Seq<(int, int)> {
    Seq::new(body_count(len) + 1, |k: int| walk(head, dir, tps, k as nat).0)
}

/// Whether a cell lies on the playing field.
pub open spec fn in_grid(p: (int, int)) -> bool {
    0 <= p.0 < 32 && 0 <= p.1 < 20
}

/// Whether both coordinates of a cell fit in `i8`.
pub open spec fn fits_i8(p: (int, int)) -> bool {
    -128 <= p.0 <= 127 && -128 <= p.1 <= 127
}

/// Whether a cell lies inside the border.
pub open spec fn interior(p: (int, int)) -> bool {
    1 <= p.0 <= 30 && 1 <= p.1 <= 18
}

/// Whether a cell lies on the border.
pub open spec fn on_border(p: (int, int)) -> bool {
    p.0 == 0 || p.0 == 31 || p.1 == 0 || p.1 == 19
}

/// Whether a cell is one of the four corners of the field.
pub open spec fn is_corner(p: (int, int)) -> bool {
    (p.0 == 0 || p.0 == 31) && (p.1 == 0 || p.1 == 19)
}

/// The position of cell `p` in the flat, column-major grid.
pub open spec fn cell_index(p: (int, int)) -> int {
    p.0 * 20 + p.1
}

/// The tile a frame shows at cell `p`: border first, then the apple, then the snake on top.
pub open spec fn render(cells: Seq<(int, int)>, apple: (int, int), p: (int, int)) -> Tile {
    if cells.contains(p) {
        Tile::Snake
    } else if apple == p {
        Tile::Apple
    } else if on_border(p) {
        Tile::Border
    } else {
        Tile::Empty
    }
}

/// The tile stored for cell `p` in a flat, column-major grid.
pub open spec fn tile_at(tiles: Seq<Tile>, p: (int, int)) -> Tile {
    tiles[cell_index(p)]
}

/// Whether a grid shows `cells` and `apple` the way a frame draws them.
pub open spec fn shows(tiles: Seq<Tile>, cells: Seq<(int, int)>, apple: (int, int)) -> bool {
    &&& tiles.len() == 640
    &&& forall|p: (int, int)| in_grid(p) ==> #[trigger] tile_at(tiles, p) == render(cells, apple, p)
}

/// Whether turn point `tp` sits on one of `cells[lo..hi]`.
pub open spec fn turn_on(tp: TurnPoint, cells: Seq<(int, int)>, lo: int, hi: int) -> bool {
    exists|k: int| lo <= k < hi && #[trigger] turn_at(tp, cells[k])
}

/// Every turn point sits on one of `cells[lo..hi]`.
pub open spec fn turns_on(tps: Seq<TurnPoint>, cells: Seq<(int, int)>, lo: int, hi: int) -> bool {
    forall|t: int| 0 <= t < tps.len() ==> #[trigger] turn_on(tps[t], cells, lo, hi)
}

/// A place the apple may lie: inside the border, or in a corner, which no head reaches.
pub open spec fn apple_ok(a: (int, int)) -> bool {
    interior(a) || is_corner(a)
}

/// The turn points that remain after those at cell `p` are dropped, in order.
pub open spec fn without_turns_at(tps: Seq<TurnPoint>, p: (int, int)) -> Seq<TurnPoint>
    decreases tps.len(),
{
    if tps.len() == 0 {
        tps
    } else {
        let r = without_turns_at(tps.drop_last(), p);
        if turn_at(tps.last(), p) {
            r
        } else {
            r.push(tps.last())
        }
    }
}

/// The state of one game of snake.
pub struct GameState {
    grid: Vec<Tile>,
    head_location: (i8, i8),
    apple_location: (i8, i8),
    turn_points: Vec<TurnPoint>,
    current_length: usize,
    current_direction: Direction,
    game_over: bool,
}

impl GameState {
    pub closed spec fn head(&self) -> (int, int) {
        pt(self.head_location)
    }

    pub closed spec fn apple(&self) -> (int, int) {
        pt(self.apple_location)
    }

    pub closed spec fn turns(&self) -> Seq<TurnPoint> {
        self.turn_points@
    }

    pub closed spec fn length(&self) -> usize {
        self.current_length
    }

    pub closed spec fn direction(&self) -> Direction {
        self.current_direction
    }

    pub closed spec fn is_over(&self) -> bool {
        self.game_over
    }

    pub closed spec fn tiles(&self) -> Seq<Tile> {
        self.grid@
    }

    /// The cells the snake covers, head first.
    pub closed spec fn cells(&self) -> Seq<(int, int)> {
        snake_cells(self.head(), self.current_direction, self.turn_points@, self.current_length)
    }

    /// The invariant of a running game: the snake's cells lie inside the border and
    /// are distinct, it has a head and a body, every turn point lies on the body
    /// behind the head, and the apple lies in a place the head can reach only from inside.
    pub closed spec fn wf(&self) -> bool {
        let cells = self.cells();
        &&& self.grid@.len() == 640
        &&& self.current_length >= 2
        &&& forall|k: int| 0 <= k < cells.len() ==> #[trigger] interior(cells[k])
        &&& cells.no_duplicates()
        &&& turns_on(self.turn_points@, cells, 1, cells.len() as int)
        &&& apple_ok(self.apple())
    }

    /// The grid covers the field, and either the game is over or it is a well-formed
    /// running game.
    pub closed spec fn valid(&self) -> bool {
        &&& self.grid@.len() == 640
        &&& (self.game_over || self.wf())
    }

    /// All fields but the grid equal those of `other`.
    pub closed spec fn same_but_grid(&self, other: &GameState) -> bool {
        &&& self.head_location == other.head_location
        &&& self.apple_location == other.apple_location
        &&& self.turn_points@ == other.turn_points@
        &&& self.current_length == other.current_length
        &&& self.current_direction == other.current_direction
        &&& self.game_over == other.game_over
    }

    /// The turn point a turn made now would record: the head's cell and the current direction.
    pub closed spec fn turn_record(&self) -> TurnPoint {
        (self.head_location.0, self.head_location.1, self.current_direction)
    }

    /// Every cell the body reconstruction passes lies on the field.
    pub closed spec fn cells_in_grid(&self) -> bool {
        forall|k: int| 0 <= k < self.cells().len() ==> #[trigger] in_grid(self.cells()[k])
    }

    /// Every cell the body reconstruction passes has coordinates that fit in `i8`.
    pub closed spec fn cells_fit_i8(&self) -> bool {
        forall|k: int| 0 <= k < self.cells().len() ==> #[trigger] fits_i8(self.cells()[k])
    }

    /// Cells on the field have coordinates that fit in `i8`.
    proof fn lemma_grid_cells_fit(&self)
        requires
            self.cells_in_grid(),
        ensures
            self.cells_fit_i8(),
    {
        assert forall|k: int| 0 <= k < self.cells().len() implies #[trigger] fits_i8(self.cells()[k]) by {
            assert(in_grid(self.cells()[k]));
        }
    }
}


/// A turn point found in a prefix is the first one of every longer prefix.
proof fn lemma_first_turn_prefix(s: Seq<TurnPoint>, p: (int, int), j: int, m: int)
    requires
        0 <= j <= m <= s.len(),
        first_turn(s.take(j), p) is Some,
    ensures
        first_turn(s.take(m), p) == first_turn(s.take(j), p),
    decreases m - j,
{
    if m > j {
        lemma_first_turn_prefix(s, p, j, m - 1);
        assert(s.take(m).drop_last() =~= s.take(m - 1));
    }
}

/// The cells of the snake, head first, found by walking back from the head and
/// following the recorded turn points.
fn get_snake_segments(game_state: &GameState) -> (segments: Vec<(i8, i8)>)
    requires
        game_state.cells_fit_i8(),
    ensures
        segments@.len() == game_state.cells().len(),
        forall|k: int| 0 <= k < segments@.len() ==> #[trigger] pt(segments@[k]) == game_state.cells()[k],
{
    let ghost cells = game_state.cells();
    let ghost tps = game_state.turn_points@;
    let ghost head = game_state.head();
    let ghost dir = game_state.current_direction;
    let mut segments: Vec<(i8, i8)> = Vec::new();
    segments.push(game_state.head_location);
    let mut last_segment = game_state.head_location;
    let mut current_traversal_direction = game_state.current_direction;

    let body_segments = if game_state.current_length == 0 { 0 } else { game_state.current_length - 1 };
    assert(cells.len() == body_segments + 1);
    assert(fits_i8(cells[0]));

    let mut n: usize = 0;
    while n < body_segments
        invariant
            n <= body_segments,
            body_segments + 1 == cells.len(),
            cells == game_state.cells(),
            tps == game_state.turn_points@,
            head == game_state.head(),
            dir == game_state.current_direction,
            game_state.cells_fit_i8(),
            cells == snake_cells(head, dir, tps, game_state.current_length),
            segments@.len() == n + 1,
            forall|k: int| 0 <= k <= n ==> #[trigger] pt(segments@[k]) == cells[k],
            walk(head, dir, tps, n as nat) == (pt(last_segment), current_traversal_direction),
        decreases body_segments - n,
    {
        let mut j: usize = 0;
        let mut found = false;
        while j < game_state.turn_points.len()
            invariant_except_break
                !found,
                first_turn(tps.take(j as int), pt(last_segment)) is None,
                current_traversal_direction == walk(head, dir, tps, n as nat).1,
            invariant
                j <= game_state.turn_points@.len(),
                tps == game_state.turn_points@,
            ensures
                found ==> current_traversal_direction == turn_dir(tps, pt(last_segment), walk(head, dir, tps, n as nat).1),
                !found ==> j == tps.len() && first_turn(tps.take(j as int), pt(last_segment)) is None
                    && current_traversal_direction == walk(head, dir, tps, n as nat).1,
            decreases game_state.turn_points@.len() - j,
        {
            let tp = game_state.turn_points[j];
            if tp.0 == last_segment.0 && tp.1 == last_segment.1 {
                proof {
                    assert(tps.take(j + 1).drop_last() =~= tps.take(j as int));
                    assert(tps.take(j + 1).last() == tp);
                    assert(first_turn(tps.take(j + 1), pt(last_segment)) == Some(tp.2));
                    lemma_first_turn_prefix(tps, pt(last_segment), j + 1, tps.len() as int);
                    assert(tps.take(tps.len() as int) =~= tps);
                    assert(first_turn(tps, pt(last_segment)) == Some(tp.2));
                }
                current_traversal_direction = tp.2;
                found = true;
                break;
            }
            proof {
                assert(tps.take(j + 1).drop_last() =~= tps.take(j as int));
            }
            j = j + 1;
        }
        proof {
            if !found {
                assert(tps.take(tps.len() as int) =~= tps);
            }
            assert(fits_i8(cells[n + 1]));
            assert(current_traversal_direction == turn_dir(tps, pt(last_segment), walk(head, dir, tps, n as nat).1));
            assert(walk(head, dir, tps, (n + 1) as nat) == step_back(tps, pt(last_segment), walk(head, dir, tps, n as nat).1));
        }
        let previous = current_traversal_direction.get_previous_tile();
        let proposed_location = (last_segment.0 + previous.0, last_segment.1 + previous.1);
        segments.push(proposed_location);
        last_segment = proposed_location;
        n = n + 1;
    }
    segments
}


/// Distinct cells of the field have distinct grid positions, all below 640.
proof fn lemma_cell_index(p: (int, int), q: (int, int))
    requires
        in_grid(p),
        in_grid(q),
    ensures
        0 <= cell_index(p) < 640,
        (cell_index(p) == cell_index(q)) == (p == q),
{
}

/// Marks the border cells of the field.
fn position_border(game_state: &mut GameState)
    requires
        old(game_state).grid@.len() == 640,
    ensures
        final(game_state).grid@.len() == 640,
        final(game_state).same_but_grid(old(game_state)),
        forall|p: (int, int)| in_grid(p) ==> #[trigger] tile_at(final(game_state).grid@, p) == (if on_border(p) {
            Tile::Border
        } else {
            tile_at(old(game_state).grid@, p)
        }),
{
    let ghost g0 = game_state.grid@;
    let mut i: usize = 0;
    while i < GRID_WIDTH
        invariant
            i <= 32,
            game_state.grid@.len() == 640,
            game_state.same_but_grid(old(game_state)),
            g0 == old(game_state).grid@,
            forall|p: (int, int)| in_grid(p) ==> #[trigger] tile_at(game_state.grid@, p) == (if on_border(p) && p.0 < i {
                Tile::Border
            } else {
                tile_at(g0, p)
            }),
        decreases 32 - i,
    {
        let mut j: usize = 0;
        while j < GRID_HEIGHT
            invariant
                i < 32,
                j <= 20,
                game_state.grid@.len() == 640,
                game_state.same_but_grid(old(game_state)),
                g0 == old(game_state).grid@,
                forall|p: (int, int)| in_grid(p) ==> #[trigger] tile_at(game_state.grid@, p) == (if on_border(p) && (p.0 < i || (p.0 == i && p.1 < j)) {
                    Tile::Border
                } else {
                    tile_at(g0, p)
                }),
            decreases 20 - j,
        {
            if i == 0 || i == 31 || j == 0 || j == 19 {
                let ghost before = game_state.grid@;
                proof {
                    lemma_cell_index((i as int, j as int), (i as int, j as int));
                }
                game_state.grid.set(i * 20 + j, Tile::Border);
                proof {
                    assert forall|p: (int, int)| in_grid(p) implies #[trigger] tile_at(game_state.grid@, p) == (if p == (i as int, j as int) {
                        Tile::Border
                    } else {
                        tile_at(before, p)
                    }) by {
                        lemma_cell_index(p, (i as int, j as int));
                    }
                }
            }
            j = j + 1;
        }
        i = i + 1;
    }
}

/// Marks the apple's cell.
fn position_apple(game_state: &mut GameState)
    requires
        old(game_state).grid@.len() == 640,
        in_grid(old(game_state).apple()),
    ensures
        final(game_state).grid@.len() == 640,
        final(game_state).same_but_grid(old(game_state)),
        forall|p: (int, int)| in_grid(p) ==> #[trigger] tile_at(final(game_state).grid@, p) == (if p == old(game_state).apple() {
            Tile::Apple
        } else {
            tile_at(old(game_state).grid@, p)
        }),
{
    let apple = game_state.apple_location;
    proof {
        lemma_cell_index(pt(apple), pt(apple));
    }
    game_state.grid.set(apple.0 as usize * 20 + apple.1 as usize, Tile::Apple);
    proof {
        assert forall|p: (int, int)| in_grid(p) implies #[trigger] tile_at(game_state.grid@, p) == (if p == pt(apple) {
            Tile::Apple
        } else {
            tile_at(old(game_state).grid@, p)
        }) by {
            lemma_cell_index(p, pt(apple));
        }
    }
}

/// The turn points left after dropping those at cell `p`, in order; what `retain` keeps.
fn remove_turns_at(turn_points: &Vec<TurnPoint>, x: i8, y: i8) -> (r: Vec<TurnPoint>)
    ensures
        r@ == without_turns_at(turn_points@, (x as int, y as int)),
{
    let ghost tps = turn_points@;
    let mut kept: Vec<TurnPoint> = Vec::new();
    let mut i: usize = 0;
    while i < turn_points.len()
        invariant
            i <= tps.len(),
            tps == turn_points@,
            kept@ == without_turns_at(tps.take(i as int), (x as int, y as int)),
        decreases tps.len() - i,
    {
        let tp = turn_points[i];
        proof {
            assert(tps.take(i + 1).drop_last() =~= tps.take(i as int));
            assert(tps.take(i + 1).last() == tp);
        }
        if tp.0 != x || tp.1 != y {
            kept.push(tp);
        }
        i = i + 1;
    }
    proof {
        assert(tps.take(tps.len() as int) =~= tps);
    }
    kept
}

/// Marks the snake's cells, and drops the turn points at its last cell, which the
/// tail leaves this frame.
fn position_snake(game_state: &mut GameState)
    requires
        old(game_state).grid@.len() == 640,
        old(game_state).cells_in_grid(),
    ensures
        final(game_state).grid@.len() == 640,
        final(game_state).head_location == old(game_state).head_location,
        final(game_state).apple_location == old(game_state).apple_location,
        final(game_state).current_length == old(game_state).current_length,
        final(game_state).current_direction == old(game_state).current_direction,
        final(game_state).game_over == old(game_state).game_over,
        final(game_state).turn_points@ == without_turns_at(old(game_state).turn_points@, old(game_state).cells().last()),
        forall|p: (int, int)| in_grid(p) ==> #[trigger] tile_at(final(game_state).grid@, p) == (if old(game_state).cells().contains(p) {
            Tile::Snake
        } else {
            tile_at(old(game_state).grid@, p)
        }),
{
    let ghost cells = game_state.cells();
    let ghost g0 = game_state.grid@;
    let ghost tps0 = game_state.turn_points@;
    proof {
        game_state.lemma_grid_cells_fit();
    }
    let segments = get_snake_segments(game_state);
    let mut i: usize = 0;
    while i < segments.len()
        invariant
            i <= segments@.len(),
            segments@.len() == cells.len(),
            cells.len() >= 1,
            forall|k: int| 0 <= k < segments@.len() ==> #[trigger] pt(segments@[k]) == cells[k],
            forall|k: int| 0 <= k < cells.len() ==> #[trigger] in_grid(cells[k]),
            game_state.grid@.len() == 640,
            game_state.head_location == old(game_state).head_location,
            game_state.apple_location == old(game_state).apple_location,
            game_state.current_length == old(game_state).current_length,
            game_state.current_direction == old(game_state).current_direction,
            game_state.game_over == old(game_state).game_over,
            i < segments@.len() ==> game_state.turn_points@ == tps0,
            i == segments@.len() ==> game_state.turn_points@ == without_turns_at(tps0, cells.last()),
            forall|p: (int, int)| in_grid(p) ==> #[trigger] tile_at(game_state.grid@, p) == (if cells.take(i as int).contains(p) {
                Tile::Snake
            } else {
                tile_at(g0, p)
            }),
        decreases segments@.len() - i,
    {
        let segment = segments[i];
        let ghost before = game_state.grid@;
        proof {
            assert(in_grid(cells[i as int]));
            lemma_cell_index(pt(segment), pt(segment));
        }
        game_state.grid.set(segment.0 as usize * 20 + segment.1 as usize, Tile::Snake);
        proof {
            assert forall|p: (int, int)| in_grid(p) implies #[trigger] tile_at(game_state.grid@, p) == (if cells.take(i + 1).contains(p) {
                Tile::Snake
            } else {
                tile_at(g0, p)
            }) by {
                lemma_cell_index(p, pt(segment));
                assert(tile_at(before, p) == (if cells.take(i as int).contains(p) {
                    Tile::Snake
                } else {
                    tile_at(g0, p)
                }));
                assert(pt(segment) == cells[i as int]);
                assert(tile_at(game_state.grid@, p) == (if p == pt(segment) { Tile::Snake } else { tile_at(before, p) }));
                assert(cells.take(i + 1) =~= cells.take(i as int).push(cells[i as int]));
                if p == pt(segment) {
                    assert(cells.take(i + 1)[i as int] == p);
                }
                if cells.take(i as int).contains(p) {
                    let w = choose|w: int| 0 <= w < i && #[trigger] cells.take(i as int)[w] == p;
                    assert(cells.take(i + 1)[w] == p);
                }
                if cells.take(i + 1).contains(p) && p != pt(segment) {
                    let w = choose|w: int| 0 <= w < i + 1 && #[trigger] cells.take(i + 1)[w] == p;
                    assert(cells.take(i as int)[w] == p);
                }
            }
        }
        if i == segments.len() - 1 {
            let kept = remove_turns_at(&game_state.turn_points, segment.0, segment.1);
            game_state.turn_points = kept;
        }
        i = i + 1;
    }
    proof {
        assert(cells.take(cells.len() as int) =~= cells);
    }
}

/// Turns the snake toward the latest input, unless it already travels that way or
/// the input points straight back; a turn records the head's cell and the direction
/// travelled before.
fn hande_input(game_state: &mut GameState, input: Direction)
    ensures
        final(game_state).grid@ == old(game_state).grid@,
        final(game_state).head_location == old(game_state).head_location,
        final(game_state).apple_location == old(game_state).apple_location,
        final(game_state).current_length == old(game_state).current_length,
        final(game_state).game_over == old(game_state).game_over,
        ({
            let d = old(game_state).current_direction;
            let h = old(game_state).head_location;
            if input != d && !spec_is_opposite(d, input) {
                &&& final(game_state).current_direction == input
                &&& final(game_state).turn_points@ == old(game_state).turn_points@.push((h.0, h.1, d))
            } else {
                &&& final(game_state).current_direction == d
                &&& final(game_state).turn_points@ == old(game_state).turn_points@
            }
        }),
{
    let input_direction = input;
    if input_direction != game_state.current_direction && !game_state.current_direction.is_opposite(&input_direction) {
        let old_direction = game_state.current_direction;
        game_state.current_direction = input_direction;
        let head = game_state.head_location;
        game_state.turn_points.push((head.0, head.1, old_direction));
    }
}


/// The `k`-th cell that apple placement proposes, from generator state `s`: a column
/// in 1..=30 from one draw, then a row in 1..=18 from the next.
pub open spec fn apple_candidate(s: u64, k: nat) -> (int, int) {
    (1 + xorshift_iter(s, 2 * k + 1) % 30, 1 + xorshift_iter(s, 2 * k + 2) % 18)
}

/// Candidate `k` is the first proposed cell that the snake does not cover.
pub open spec fn first_free_candidate(s: u64, cells: Seq<(int, int)>, k: nat) -> bool {
    &&& !cells.contains(apple_candidate(s, k))
    &&& forall|j: nat| j < k ==> cells.contains(#[trigger] apple_candidate(s, j))
}

/// How apple placement from generator state `s0` ends: on the first proposed cell
/// that `cells` leaves free, with the generator `2k + 2` steps on; or, when the first
/// `u64::MAX` proposals are all covered, with the apple left at `old_apple`.
pub open spec fn apple_regenerated(
    s0: u64,
    s1: u64,
    cells: Seq<(int, int)>,
    old_apple: (int, int),
    new_apple: (int, int),
) -> bool {
    ||| exists|k: nat| #![trigger apple_candidate(s0, k)]
        k < u64::MAX && first_free_candidate(s0, cells, k) && new_apple == apple_candidate(s0, k)
            && s1 == xorshift_iter(s0, 2 * k + 2)
    ||| new_apple == old_apple && s1 == xorshift_iter(s0, 2 * (u64::MAX as nat))
        && forall|j: nat| j < u64::MAX ==> cells.contains(#[trigger] apple_candidate(s0, j))
}

/// Places the apple on the first proposed cell that the snake does not cover.
/// After `u64::MAX` covered proposals it gives up and leaves the apple where it was.
fn generate_apple(game_state: &mut GameState, rng: &mut Rng) -> (placed: bool)
    requires
        old(game_state).cells_fit_i8(),
    ensures
        final(game_state).grid@ == old(game_state).grid@,
        final(game_state).head_location == old(game_state).head_location,
        final(game_state).turn_points@ == old(game_state).turn_points@,
        final(game_state).current_length == old(game_state).current_length,
        final(game_state).current_direction == old(game_state).current_direction,
        final(game_state).game_over == old(game_state).game_over,
        placed ==> exists|k: nat| #![trigger apple_candidate(old(rng).state, k)]
            k < u64::MAX
            && first_free_candidate(old(rng).state, old(game_state).cells(), k)
            && final(game_state).apple() == apple_candidate(old(rng).state, k)
            && final(rng).state == xorshift_iter(old(rng).state, 2 * k + 2),
        placed ==> interior(final(game_state).apple()),
        apple_regenerated(old(rng).state, final(rng).state, old(game_state).cells(), old(game_state).apple(), final(game_state).apple()),
        !placed ==> final(game_state).apple_location == old(game_state).apple_location
            && final(rng).state == xorshift_iter(old(rng).state, 2 * (u64::MAX as nat))
            && forall|j: nat| j < u64::MAX ==> old(game_state).cells().contains(#[trigger] apple_candidate(old(rng).state, j)),
{
    let ghost s0 = rng.state;
    let ghost cells = game_state.cells();
    let segments = get_snake_segments(game_state);
    let mut attempts: u64 = 0;
    while attempts < u64::MAX
        invariant
            segments@.len() == cells.len(),
            forall|k: int| 0 <= k < segments@.len() ==> #[trigger] pt(segments@[k]) == cells[k],
            cells == old(game_state).cells(),
            s0 == old(rng).state,
            *game_state == *old(game_state),
            rng.state == xorshift_iter(s0, 2 * attempts as nat),
            forall|j: nat| j < attempts ==> cells.contains(#[trigger] apple_candidate(s0, j)),
        decreases u64::MAX - attempts,
    {
        let x = next_range(rng, 1, 31) as i8;
        let y = next_range(rng, 1, 19) as i8;
        let ghost cand = apple_candidate(s0, attempts as nat);
        assert((x as int, y as int) == cand);

        let mut occupied = false;
        let mut i: usize = 0;
        while i < segments.len()
            invariant
                i <= segments@.len(),
                segments@.len() == cells.len(),
                forall|k: int| 0 <= k < segments@.len() ==> #[trigger] pt(segments@[k]) == cells[k],
                occupied == exists|k: int| 0 <= k < i && #[trigger] cells[k] == (x as int, y as int),
            decreases segments@.len() - i,
        {
            let seg = segments[i];
            assert(pt(seg) == cells[i as int]);
            if seg.0 == x && seg.1 == y {
                occupied = true;
            }
            i = i + 1;
        }
        proof {
            if occupied {
                let k = choose|k: int| 0 <= k < i && #[trigger] cells[k] == (x as int, y as int);
                assert(cells.contains(cand));
            }
        }

        if !occupied {
            game_state.apple_location = (x, y);
            return true;
        }
        attempts = attempts + 1;
    }
    false
}


/// No turn point at `p` means no recorded turn there.
proof fn lemma_first_turn_none(tps: Seq<TurnPoint>, p: (int, int))
    requires
        forall|t: int| 0 <= t < tps.len() ==> !turn_at(#[trigger] tps[t], p),
    ensures
        first_turn(tps, p) is None,
    decreases tps.len(),
{
    if tps.len() > 0 {
        lemma_first_turn_none(tps.drop_last(), p);
        assert(tps.last() == tps[tps.len() - 1]);
    }
}

/// Appending a turn point changes the first turn only at its own cell, and only
/// where there was none before.
proof fn lemma_first_turn_push(tps: Seq<TurnPoint>, x: TurnPoint, p: (int, int))
    ensures
        first_turn(tps.push(x), p) == (if first_turn(tps, p) is Some {
            first_turn(tps, p)
        } else if turn_at(x, p) {
            Some(x.2)
        } else {
            None
        }),
{
    assert(tps.push(x).drop_last() =~= tps);
}

/// Dropping the turn points at `p` leaves the first turn at every other cell.
proof fn lemma_without_first_turn(tps: Seq<TurnPoint>, p: (int, int), q: (int, int))
    requires
        q != p,
    ensures
        first_turn(without_turns_at(tps, p), q) == first_turn(tps, q),
    decreases tps.len(),
{
    if tps.len() > 0 {
        lemma_without_first_turn(tps.drop_last(), p, q);
        let r = without_turns_at(tps.drop_last(), p);
        if !turn_at(tps.last(), p) {
            lemma_first_turn_push(r, tps.last(), q);
        }
    }
}

/// What remains after dropping the turn points at `p` is among the old ones and not at `p`.
proof fn lemma_without_members(tps: Seq<TurnPoint>, p: (int, int))
    ensures
        forall|t: int| 0 <= t < without_turns_at(tps, p).len() ==> {
            &&& !turn_at(#[trigger] without_turns_at(tps, p)[t], p)
            &&& tps.contains(without_turns_at(tps, p)[t])
        },
    decreases tps.len(),
{
    if tps.len() > 0 {
        lemma_without_members(tps.drop_last(), p);
        let r = without_turns_at(tps.drop_last(), p);
        assert forall|t: int| 0 <= t < without_turns_at(tps, p).len() implies {
            &&& !turn_at(#[trigger] without_turns_at(tps, p)[t], p)
            &&& tps.contains(without_turns_at(tps, p)[t])
        } by {
            if t < r.len() {
                assert(without_turns_at(tps, p)[t] == r[t]);
                let i = choose|i: int| 0 <= i < tps.drop_last().len() && tps.drop_last()[i] == r[t];
                assert(tps[i] == r[t]);
            } else {
                assert(without_turns_at(tps, p)[t] == tps[tps.len() - 1]);
            }
        }
    }
}

/// Walks that look up the same turns at every cell they pass stay together.
proof fn lemma_walk_agree(a: (int, int), ta: Direction, t0: Seq<TurnPoint>, t1: Seq<TurnPoint>, n: nat)
    requires
        forall|k: nat| k < n ==> first_turn(t0, #[trigger] walk(a, ta, t0, k).0) == first_turn(t1, walk(a, ta, t0, k).0),
    ensures
        forall|k: nat| k <= n ==> #[trigger] walk(a, ta, t1, k) == walk(a, ta, t0, k),
    decreases n,
{
    if n > 0 {
        lemma_walk_agree(a, ta, t0, t1, (n - 1) as nat);
        assert forall|k: nat| k <= n implies #[trigger] walk(a, ta, t1, k) == walk(a, ta, t0, k) by {
            if k == n {
                assert(walk(a, ta, t1, (n - 1) as nat) == walk(a, ta, t0, (n - 1) as nat));
            }
        }
    }
}

/// Walking `k + 1` steps is walking `k` steps from where the first step leads.
proof fn lemma_walk_shift(a: (int, int), ta: Direction, tps: Seq<TurnPoint>, k: nat)
    ensures
        walk(a, ta, tps, k + 1) == walk(walk(a, ta, tps, 1).0, walk(a, ta, tps, 1).1, tps, k),
    decreases k,
{
    if k > 0 {
        lemma_walk_shift(a, ta, tps, (k - 1) as nat);
    }
}

/// A snake whose cells are distinct and lie inside the border has at most 540 of them.
proof fn lemma_cells_bound(cells: Seq<(int, int)>)
    requires
        forall|k: int| 0 <= k < cells.len() ==> #[trigger] interior(cells[k]),
        cells.no_duplicates(),
    ensures
        cells.len() <= 540,
{
    let codes = Seq::new(cells.len(), |k: int| (cells[k].0 - 1) * 18 + (cells[k].1 - 1));
    assert forall|i: int, j: int| 0 <= i < codes.len() && 0 <= j < codes.len() && i != j implies codes[i] != codes[j] by {
        assert(interior(cells[i]));
        assert(interior(cells[j]));
        assert(cells[i] != cells[j]);
    }
    assert(codes.no_duplicates());
    codes.unique_seq_to_set();
    vstd::set_lib::lemma_int_range(0, 540);
    assert forall|c: int| codes.to_set().contains(c) implies vstd::set_lib::set_int_range(0, 540).contains(c) by {
        let k = choose|k: int| 0 <= k < codes.len() && codes[k] == c;
        assert(interior(cells[k]));
    }
    vstd::set_lib::lemma_len_subset(codes.to_set(), vstd::set_lib::set_int_range(0, 540));
}


/// What holds in a frame once the grid is drawn and the input is taken, just before
/// the head moves: the grid shows the snake and the apple, and no turn point lies on
/// the last cell, which the tail leaves.
spec fn ready_to_advance(g: &GameState) -> bool {
    let cells = g.cells();
    &&& !g.game_over
    &&& shows(g.grid@, cells, g.apple())
    &&& g.current_length >= 2
    &&& forall|k: int| 0 <= k < cells.len() ==> #[trigger] interior(cells[k])
    &&& cells.no_duplicates()
    &&& turns_on(g.turn_points@, cells, 0, cells.len() - 1)
    &&& apple_ok(g.apple())
}

/// The cell one step ahead of `p` in direction `d`.
pub open spec fn ahead(p: (int, int), d: Direction) -> (int, int) {
    (p.0 + delta(d).0, p.1 + delta(d).1)
}

/// The snake one cell longer with its head moved one cell ahead: the cells it covers
/// all have coordinates that fit in `i8`.
spec fn grown_cells_fit(g: &GameState) -> bool {
    let grown = snake_cells(
        ahead(g.head(), g.current_direction),
        g.current_direction,
        g.turn_points@,
        (g.current_length + 1) as usize,
    );
    forall|k: int| 0 <= k < grown.len() ==> #[trigger] fits_i8(grown[k])
}

/// With the head moved to `h2`, a cell that no turn point marks, the snake follows the
/// old one: the walk from `h2` is the walk from the old head one step later.
proof fn lemma_walk_from_free_cell(g: &GameState)
    requires
        ready_to_advance(g),
        !g.cells().contains(ahead(g.head(), g.current_direction)),
    ensures
        forall|k: nat| #[trigger] walk(ahead(g.head(), g.current_direction), g.current_direction, g.turn_points@, k + 1)
            == walk(g.head(), g.current_direction, g.turn_points@, k),
{
    let cells = g.cells();
    let tps = g.turn_points@;
    let h = g.head();
    let d = g.current_direction;
    let h2 = ahead(h, d);
    assert(cells[0] == h);
    assert forall|t: int| 0 <= t < tps.len() implies !turn_at(#[trigger] tps[t], h2) by {
        assert(turn_on(tps[t], cells, 0, cells.len() - 1));
        let k = choose|k: int| 0 <= k < cells.len() - 1 && #[trigger] turn_at(tps[t], cells[k]);
        assert(cells[k] != h2);
    }
    lemma_first_turn_none(tps, h2);
    assert(walk(h2, d, tps, 0) == (h2, d));
    assert(turn_dir(tps, h2, d) == d);
    assert(walk(h2, d, tps, 1) == (h, d));
    assert forall|k: nat| #[trigger] walk(h2, d, tps, k + 1) == walk(h, d, tps, k) by {
        lemma_walk_shift(h2, d, tps, k);
    }
}

/// A frame ready for the head to move moves it onto the field, and eating the apple
/// there leaves a longer snake whose cells all lie on the field.
proof fn lemma_ready_to_advance(g: &GameState)
    requires
        ready_to_advance(g),
    ensures
        in_grid(ahead(g.head(), g.current_direction)),
        tile_at(g.grid@, ahead(g.head(), g.current_direction)) == Tile::Apple
            ==> g.current_length < usize::MAX && grown_cells_fit(g),
{
    let cells = g.cells();
    let h = g.head();
    let d = g.current_direction;
    let h2 = ahead(h, d);
    assert(cells[0] == h);
    assert(interior(cells[0]));
    lemma_cells_bound(cells);
    if tile_at(g.grid@, h2) == Tile::Apple {
        assert(tile_at(g.grid@, h2) == render(cells, g.apple(), h2));
        lemma_walk_from_free_cell(g);
        let grown = snake_cells(h2, d, g.turn_points@, (g.current_length + 1) as usize);
        assert forall|k: int| 0 <= k < grown.len() implies #[trigger] fits_i8(grown[k]) by {
            if k > 0 {
                assert(walk(h2, d, g.turn_points@, ((k - 1) as nat + 1) as nat) == walk(h, d, g.turn_points@, (k - 1) as nat));
                assert(interior(cells[k - 1]));
            }
        }
    }
}

/// Moves the head one cell ahead and acts on the tile the grid shows there: the snake
/// or the border ends the game; the apple grows the snake by one and places a new
/// apple. In a frame ready for the move this is the step the game makes.
fn advance_head(game_state: &mut GameState, rng: &mut Rng)
    requires
        old(game_state).grid@.len() == 640,
        in_grid(ahead(old(game_state).head(), old(game_state).current_direction)),
        tile_at(old(game_state).grid@, ahead(old(game_state).head(), old(game_state).current_direction)) == Tile::Apple
            ==> old(game_state).current_length < usize::MAX && grown_cells_fit(old(game_state)),
    ensures
        ({
            let h2 = ahead(old(game_state).head(), old(game_state).current_direction);
            let tile = tile_at(old(game_state).grid@, h2);
            &&& final(game_state).grid@ == old(game_state).grid@
            &&& final(game_state).turn_points@ == old(game_state).turn_points@
            &&& final(game_state).current_direction == old(game_state).current_direction
            &&& final(game_state).head() == h2
            &&& final(game_state).game_over == (old(game_state).game_over || tile == Tile::Snake || tile == Tile::Border)
            &&& tile == Tile::Apple ==> final(game_state).current_length == old(game_state).current_length + 1
                && apple_regenerated(old(rng).state, final(rng).state, final(game_state).cells(), old(game_state).apple(), final(game_state).apple())
            &&& tile != Tile::Apple ==> final(game_state).current_length == old(game_state).current_length
                && final(game_state).apple_location == old(game_state).apple_location
                && final(rng).state == old(rng).state
        }),
        ready_to_advance(old(game_state)) ==> ({
            let cells = old(game_state).cells();
            let h2 = ahead(old(game_state).head(), old(game_state).current_direction);
            let ate = !cells.contains(h2) && h2 == old(game_state).apple();
            &&& final(game_state).game_over == (cells.contains(h2) || (on_border(h2) && h2 != old(game_state).apple()))
            &&& ate ==> final(game_state).current_length == old(game_state).current_length + 1
                && apple_regenerated(old(rng).state, final(rng).state, final(game_state).cells(), old(game_state).apple(), final(game_state).apple())
            &&& !ate ==> final(game_state).current_length == old(game_state).current_length
                && final(game_state).apple_location == old(game_state).apple_location
                && final(rng).state == old(rng).state
            &&& !final(game_state).game_over ==> final(game_state).wf()
                && final(game_state).cells() == seq![h2] + cells.take(final(game_state).current_length - 1)
        }),
{
    let ghost ready = ready_to_advance(&*game_state);
    let ghost g0 = *game_state;
    let ghost cells = game_state.cells();
    let ghost tps = game_state.turn_points@;
    let ghost h = game_state.head();
    let ghost d = game_state.current_direction;
    let ghost len0 = game_state.current_length;
    let ghost h2 = ahead(h, d);
    proof {
        lemma_cell_index(h2, h2);
        if ready {
            assert(cells[0] == h);
            assert(interior(cells[0]));
            lemma_cells_bound(cells);
        }
    }

    let direction = game_state.current_direction;
    let step = direction.get_next_tile();
    game_state.head_location.0 = game_state.head_location.0 + step.0;
    game_state.head_location.1 = game_state.head_location.1 + step.1;

    let head = game_state.head_location;
    let new_tile = game_state.grid[head.0 as usize * 20 + head.1 as usize];
    assert(new_tile == tile_at(game_state.grid@, h2));
    proof {
        if ready {
            assert(new_tile == render(cells, pt(game_state.apple_location), h2));
        }
    }

    proof {
        if ready && !cells.contains(h2) {
            lemma_walk_from_free_cell(&g0);
        }
    }

    match new_tile {
        Tile::Snake => game_state.game_over = true,
        Tile::Border => game_state.game_over = true,
        Tile::Apple => {
            game_state.current_length = game_state.current_length + 1;
            proof {
                let c2 = game_state.cells();
                assert(c2 == snake_cells(h2, d, tps, (len0 + 1) as usize));
                assert forall|k: int| 0 <= k < c2.len() implies #[trigger] fits_i8(c2[k]) by {}
            }
            generate_apple(game_state, rng);
        },
        _ => {},
    }

    proof {
        if ready && !game_state.game_over {
            let c2 = game_state.cells();
            let len2 = game_state.current_length;
            assert(len2 == len0 || len2 == len0 + 1);
            assert forall|k: int| 0 <= k < c2.len() implies #[trigger] c2[k] == (seq![h2] + cells.take(len2 - 1))[k] by {
                if k > 0 {
                    assert(walk(h2, d, tps, ((k - 1) as nat + 1) as nat) == walk(h, d, tps, (k - 1) as nat));
                }
            }
            assert(c2 =~= seq![h2] + cells.take(len2 - 1));
            assert(interior(h2));
            assert forall|k: int| 0 <= k < c2.len() implies #[trigger] interior(c2[k]) by {
                if k > 0 {
                    assert(c2[k] == cells[k - 1]);
                }
            }
            assert forall|i: int, j: int| 0 <= i < c2.len() && 0 <= j < c2.len() && i != j implies c2[i] != c2[j] by {
                if i > 0 && j > 0 {
                    assert(c2[i] == cells[i - 1]);
                    assert(c2[j] == cells[j - 1]);
                } else if i == 0 {
                    assert(c2[j] == cells[j - 1]);
                } else {
                    assert(c2[i] == cells[i - 1]);
                }
            }
            assert forall|t: int| 0 <= t < tps.len() implies #[trigger] turn_on(tps[t], c2, 1, c2.len() as int) by {
                assert(turn_on(tps[t], cells, 0, cells.len() - 1));
                let k = choose|k: int| 0 <= k < cells.len() - 1 && #[trigger] turn_at(tps[t], cells[k]);
                assert(c2[k + 1] == cells[k]);
                assert(turn_at(tps[t], c2[k + 1]));
            }
        }
    }
}


/// A frame never turns the snake straight back: when the input points opposite to the
/// current direction (up against down, left against right), the snake keeps its
/// direction, records no turn, and its head moves one cell on in the old direction.
/// Whatever the input, the direction after a frame is never the opposite of the one
/// before it.
pub proof fn lemma_frame_never_reverses(g0: GameState, g1: GameState, input: Direction, s0: u64, s1: u64)
    requires
        frame_step(g0, g1, input, s0, s1),
    ensures
        !((g0.direction() == Direction::Up && g1.direction() == Direction::Down)
            || (g0.direction() == Direction::Down && g1.direction() == Direction::Up)
            || (g0.direction() == Direction::Left && g1.direction() == Direction::Right)
            || (g0.direction() == Direction::Right && g1.direction() == Direction::Left)),
        ((g0.direction() == Direction::Up && input == Direction::Down)
            || (g0.direction() == Direction::Down && input == Direction::Up)
            || (g0.direction() == Direction::Left && input == Direction::Right)
            || (g0.direction() == Direction::Right && input == Direction::Left)) ==> {
            &&& g1.direction() == g0.direction()
            &&& g1.turns() == without_turns_at(g0.turns(), g0.cells().last())
            &&& g1.head() == (match g0.direction() {
                Direction::Up => (g0.head().0, g0.head().1 - 1),
                Direction::Down => (g0.head().0, g0.head().1 + 1),
                Direction::Left => (g0.head().0 - 1, g0.head().1),
                Direction::Right => (g0.head().0 + 1, g0.head().1),
            })
        },
{
}

/// Where apple placement puts the apple, in terms of the generator alone: on the first
/// proposal `k` whose cell the snake leaves free, the column being 1 plus the state
/// after `2k + 1` steps modulo 30 (a draw from 1..31) and the row 1 plus the state
/// after `2k + 2` steps modulo 18 (a draw from 1..19), a cell inside the border; or,
/// when the first `u64::MAX` proposals are all covered, the apple stays.
pub proof fn lemma_apple_placement(s0: u64, s1: u64, cells: Seq<(int, int)>, old_apple: (int, int), new_apple: (int, int))
    requires
        apple_regenerated(s0, s1, cells, old_apple, new_apple),
    ensures
        (exists|k: nat| #![trigger xorshift_iter(s0, 2 * k + 2)] {
            &&& k < u64::MAX
            &&& new_apple == (1 + xorshift_iter(s0, 2 * k + 1) % 30, 1 + xorshift_iter(s0, 2 * k + 2) % 18)
            &&& 1 <= new_apple.0 <= 30 && 1 <= new_apple.1 <= 18
            &&& !cells.contains(new_apple)
            &&& s1 == xorshift_iter(s0, 2 * k + 2)
            &&& forall|j: nat| j < k ==> cells.contains(
                (1 + #[trigger] xorshift_iter(s0, 2 * j + 1) % 30, 1 + xorshift_iter(s0, 2 * j + 2) % 18),
            )
        }) || {
            &&& new_apple == old_apple
            &&& s1 == xorshift_iter(s0, 2 * (u64::MAX as nat))
            &&& forall|j: nat| j < u64::MAX ==> cells.contains(
                (1 + #[trigger] xorshift_iter(s0, 2 * j + 1) % 30, 1 + xorshift_iter(s0, 2 * j + 2) % 18),
            )
        },
{
    if exists|k: nat| #![trigger apple_candidate(s0, k)]
        k < u64::MAX && first_free_candidate(s0, cells, k) && new_apple == apple_candidate(s0, k)
            && s1 == xorshift_iter(s0, 2 * k + 2) {
        let k = choose|k: nat| #![trigger apple_candidate(s0, k)]
            k < u64::MAX && first_free_candidate(s0, cells, k) && new_apple == apple_candidate(s0, k)
                && s1 == xorshift_iter(s0, 2 * k + 2);
        assert forall|j: nat| j < k implies cells.contains(
            (1 + #[trigger] xorshift_iter(s0, 2 * j + 1) % 30, 1 + xorshift_iter(s0, 2 * j + 2) % 18),
        ) by {
            assert(cells.contains(apple_candidate(s0, j)));
        }
    } else {
        assert forall|j: nat| j < u64::MAX implies cells.contains(
            (1 + #[trigger] xorshift_iter(s0, 2 * j + 1) % 30, 1 + xorshift_iter(s0, 2 * j + 2) % 18),
        ) by {
            assert(cells.contains(apple_candidate(s0, j)));
        }
    }
}

/// The direction after taking `input`: it replaces `d` unless it equals `d` or points
/// straight back.
pub open spec fn steer(d: Direction, input: Direction) -> Direction {
    if input != d && !spec_is_opposite(d, input) {
        input
    } else {
        d
    }
}

/// One frame of the game, from `g0` with generator state `s0` to `g1` with `s1`, given
/// the latest input: the grid shows the snake and apple as they stood, the snake turns
/// toward the input, the tail's turn points are dropped, the head moves one cell, the
/// game ends on running into the snake or the border, and eating the apple grows the
/// snake and places a new apple. A game that goes on is still well formed, and its
/// snake is the new head followed by the old cells, the last one dropped unless it grew.
pub open spec fn frame_step(g0: GameState, g1: GameState, input: Direction, s0: u64, s1: u64) -> bool {
    let cells = g0.cells();
    let d1 = steer(g0.direction(), input);
    let h2 = ahead(g0.head(), d1);
    let ate = !cells.contains(h2) && h2 == g0.apple();
    let kept = without_turns_at(g0.turns(), cells.last());
    &&& shows(g1.tiles(), cells, g0.apple())
    &&& g1.direction() == d1
    &&& g1.turns() == (if d1 != g0.direction() { kept.push(g0.turn_record()) } else { kept })
    &&& g1.head() == h2
    &&& g1.is_over() == (cells.contains(h2) || (on_border(h2) && h2 != g0.apple()))
    &&& ate ==> g1.length() == g0.length() + 1 && apple_regenerated(s0, s1, g1.cells(), g0.apple(), g1.apple())
    &&& !ate ==> g1.length() == g0.length() && g1.apple() == g0.apple() && s1 == s0
    &&& g1.valid()
    &&& !g1.is_over() ==> g1.cells() == seq![h2] + cells.take(g1.length() - 1)
}

/// Computes one frame of a running game: clears the grid, draws the border, the apple
/// and the snake into it, takes the latest input and moves the head.
pub fn draw_frame(game_state: &mut GameState, input: Direction, rng: &mut Rng)
    requires
        old(game_state).wf(),
        !old(game_state).is_over(),
    ensures
        frame_step(*old(game_state), *final(game_state), input, old(rng).state, final(rng).state),
{
    let ghost g0 = *game_state;
    let ghost cells = game_state.cells();
    let ghost tps = game_state.turn_points@;
    let ghost h = game_state.head();
    let ghost d0 = game_state.current_direction;
    let ghost len = cells.len();

    let mut grid: Vec<Tile> = Vec::new();
    let mut n: usize = 0;
    while n < GRID_CELLS
        invariant
            n <= 640,
            grid@.len() == n,
            forall|k: int| 0 <= k < n ==> grid@[k] == Tile::Empty,
        decreases 640 - n,
    {
        grid.push(Tile::Empty);
        n = n + 1;
    }
    game_state.grid = grid;
    assert(game_state.cells() == cells);
    assert(cells[0] == h);

    position_border(game_state);
    position_apple(game_state);
    proof {
        assert(game_state.cells() == cells);
        assert forall|k: int| 0 <= k < game_state.cells().len() implies #[trigger] in_grid(game_state.cells()[k]) by {
            assert(interior(cells[k]));
        }
    }
    position_snake(game_state);
    proof {
        assert forall|p: (int, int)| in_grid(p) implies #[trigger] tile_at(game_state.grid@, p) == render(cells, g0.apple(), p) by {
            lemma_cell_index(p, p);
        }
    }

    let ghost t1 = game_state.turn_points@;
    proof {
        // Dropping the tail's turn points leaves the snake's cells as they were.
        assert forall|k: nat| k < (len - 1) as nat implies first_turn(tps, #[trigger] walk(h, d0, tps, k).0) == first_turn(t1, walk(h, d0, tps, k).0) by {
            assert(walk(h, d0, tps, k).0 == cells[k as int]);
            assert(cells[k as int] != cells[len - 1]);
            lemma_without_first_turn(tps, cells.last(), cells[k as int]);
        }
        lemma_walk_agree(h, d0, tps, t1, (len - 1) as nat);
        assert(game_state.cells() =~= cells);
        lemma_without_members(tps, cells.last());
        assert forall|t: int| 0 <= t < t1.len() implies #[trigger] turn_on(t1[t], cells, 1, len - 1) by {
            let i = choose|i: int| 0 <= i < tps.len() && tps[i] == t1[t];
            assert(turn_on(tps[i], cells, 1, len as int));
            let k = choose|k: int| 1 <= k < len && #[trigger] turn_at(tps[i], cells[k]);
            assert(turn_at(t1[t], cells[k]));
            assert(k != len - 1);
        }
        assert forall|t: int| 0 <= t < t1.len() implies !turn_at(#[trigger] t1[t], h) by {
            assert(turn_on(t1[t], cells, 1, len - 1));
            let k = choose|k: int| 1 <= k < len - 1 && #[trigger] turn_at(t1[t], cells[k]);
            assert(cells[k] != cells[0]);
        }
        lemma_first_turn_none(t1, h);
    }

    hande_input(game_state, input);

    proof {
        let t2 = game_state.turn_points@;
        let d1 = game_state.current_direction;
        if d1 != d0 {
            let b = walk(h, d0, t1, 1);
            lemma_first_turn_push(t1, (game_state.head_location.0, game_state.head_location.1, d0), h);
            assert(walk(h, d1, t2, 0) == (h, d1));
            assert(walk(h, d0, t1, 0) == (h, d0));
            assert(walk(h, d1, t2, 1) == b);
            assert forall|k: nat| k < (len - 2) as nat implies first_turn(t1, #[trigger] walk(b.0, b.1, t1, k).0) == first_turn(t2, walk(b.0, b.1, t1, k).0) by {
                lemma_walk_shift(h, d0, t1, k);
                assert(walk(h, d0, t1, k + 1).0 == cells[k + 1 as int]);
                assert(cells[k + 1 as int] != cells[0]);
                lemma_first_turn_push(t1, (game_state.head_location.0, game_state.head_location.1, d0), walk(b.0, b.1, t1, k).0);
            }
            lemma_walk_agree(b.0, b.1, t1, t2, (len - 2) as nat);
            assert forall|k: int| 0 <= k < len implies #[trigger] game_state.cells()[k] == cells[k] by {
                if k > 0 {
                    lemma_walk_shift(h, d0, t1, (k - 1) as nat);
                    lemma_walk_shift(h, d1, t2, (k - 1) as nat);
                    assert(walk(h, d0, t1, k as nat).0 == cells[k]);
                }
            }
            assert(game_state.cells() =~= cells);
            assert forall|t: int| 0 <= t < t2.len() implies #[trigger] turn_on(t2[t], cells, 0, len - 1) by {
                if t < t1.len() {
                    assert(t2[t] == t1[t]);
                    assert(turn_on(t1[t], cells, 1, len - 1));
                    let k = choose|k: int| 1 <= k < len - 1 && #[trigger] turn_at(t1[t], cells[k]);
                    assert(turn_at(t2[t], cells[k]));
                } else {
                    assert(turn_at(t2[t], cells[0]));
                }
            }
        } else {
            assert(game_state.cells() =~= cells);
            assert forall|t: int| 0 <= t < t2.len() implies #[trigger] turn_on(t2[t], cells, 0, len - 1) by {
                assert(turn_on(t1[t], cells, 1, len - 1));
                let k = choose|k: int| 1 <= k < len - 1 && #[trigger] turn_at(t1[t], cells[k]);
                assert(turn_at(t2[t], cells[k]));
            }
        }
    }

    proof {
        lemma_ready_to_advance(&*game_state);
    }
    advance_head(game_state, rng);
}


/// The timer handler of a game: every third tick it computes a frame of a running game.
/// Returns whether it did, that is, whether the grid is to be drawn.
pub fn game_tick(state: &mut Option<GameState>, ticks: u64, input: Direction, rng: &mut Rng) -> (drew: bool)
    requires
        *old(state) matches Some(g) ==> g.valid(),
    ensures
        drew == (*old(state) is Some && ticks % 3 == 0 && !(*old(state))->0.is_over()),
        !drew ==> *final(state) == *old(state) && final(rng).state == old(rng).state,
        drew ==> (*final(state) matches Some(g1) && frame_step((*old(state))->0, g1, input, old(rng).state, final(rng).state)),
        *final(state) matches Some(g) ==> g.valid(),
{
    match state {
        None => false,
        Some(game_state) => {
            if ticks % 3 == 0 && !game_state.game_over {
                draw_frame(game_state, input, rng);
                true
            } else {
                false
            }
        },
    }
}

impl GameState {
    /// A new game: an empty grid, a snake of three cells with its head at (16, 10)
    /// travelling right, and an apple placed on a free cell.
    pub fn new(rng: &mut Rng) -> (g: GameState)
        ensures
            g.wf(),
            g.valid(),
            !g.is_over(),
            g.head() == (16int, 10int),
            g.direction() == Direction::Right,
            g.length() == 3,
            g.turns() == Seq::<TurnPoint>::empty(),
            g.cells() == seq![(16int, 10int), (15int, 10int), (14int, 10int)],
            forall|p: (int, int)| in_grid(p) ==> #[trigger] tile_at(g.tiles(), p) == Tile::Empty,
            apple_regenerated(old(rng).state, final(rng).state, g.cells(), (0int, 0int), g.apple()),
    {
        let mut grid: Vec<Tile> = Vec::new();
        let mut n: usize = 0;
        while n < GRID_CELLS
            invariant
                n <= 640,
                grid@.len() == n,
                forall|k: int| 0 <= k < n ==> grid@[k] == Tile::Empty,
            decreases 640 - n,
        {
            grid.push(Tile::Empty);
            n = n + 1;
        }
        let mut g = GameState {
            grid,
            head_location: (16, 10),
            apple_location: (0, 0),
            turn_points: Vec::new(),
            current_length: START_LENGTH,
            current_direction: Direction::Right,
            game_over: false,
        };
        proof {
            let tps = g.turn_points@;
            lemma_first_turn_none(tps, (16, 10));
            lemma_first_turn_none(tps, (15, 10));
            assert(walk((16, 10), Direction::Right, tps, 0) == ((16int, 10int), Direction::Right));
            assert(walk((16, 10), Direction::Right, tps, 1) == ((15int, 10int), Direction::Right));
            assert(walk((16, 10), Direction::Right, tps, 2) == ((14int, 10int), Direction::Right));
            assert(g.cells() =~= seq![(16int, 10int), (15int, 10int), (14int, 10int)]);
            assert forall|p: (int, int)| in_grid(p) implies #[trigger] tile_at(g.grid@, p) == Tile::Empty by {
                lemma_cell_index(p, p);
            }
        }
        generate_apple(&mut g, rng);
        g
    }

    /// The head's cell.
    pub fn head_location(&self) -> (r: (i8, i8))
        ensures
            pt(r) == self.head(),
    {
        self.head_location
    }

    /// The apple's cell.
    pub fn apple_location(&self) -> (r: (i8, i8))
        ensures
            pt(r) == self.apple(),
    {
        self.apple_location
    }

    /// The number of cells the snake covers.
    pub fn current_length(&self) -> (r: usize)
        ensures
            r == self.length(),
    {
        self.current_length
    }

    /// The direction the snake travels in.
    pub fn current_direction(&self) -> (r: Direction)
        ensures
            r == self.direction(),
    {
        self.current_direction
    }

    /// Whether the game has ended.
    pub fn is_game_over(&self) -> (r: bool)
        ensures
            r == self.is_over(),
    {
        self.game_over
    }

    /// The number of turn points recorded.
    pub fn turn_count(&self) -> (r: usize)
        ensures
            r == self.turns().len(),
    {
        self.turn_points.len()
    }

    /// The tile the grid holds for column `x`, row `y`.
    pub fn tile(&self, x: usize, y: usize) -> (r: Tile)
        requires
            self.valid(),
            x < 32,
            y < 20,
        ensures
            r == tile_at(self.tiles(), (x as int, y as int)),
    {
        self.grid[x * 20 + y]
    }

    /// The score of a game: the cells the snake has grown by.
    pub fn score(&self) -> (r: usize)
        ensures
            r == (if self.length() >= 3 { self.length() - 3 } else { 0 }),
    {
        if self.current_length >= 3 { self.current_length - 3 } else { 0 }
    }

    /// The cells the snake covers, head first; none once the game is over.
    pub fn segments(&self) -> (r: Vec<(i8, i8)>)
        requires
            self.valid(),
        ensures
            self.is_over() ==> r@.len() == 0,
            !self.is_over() ==> r@.len() == self.cells().len()
                && forall|k: int| 0 <= k < r@.len() ==> #[trigger] pt(r@[k]) == self.cells()[k],
    {
        if self.game_over {
            return Vec::new();
        }
        proof {
            assert forall|k: int| 0 <= k < self.cells().len() implies #[trigger] in_grid(self.cells()[k]) by {
                assert(interior(self.cells()[k]));
            }
        }
        proof {
            self.lemma_grid_cells_fit();
        }
        get_snake_segments(self)
    }
}

/// A running game's snake never covers more than the 540 cells inside the border.
pub proof fn lemma_snake_fits(g: GameState)
    requires
        g.wf(),
    ensures
        g.length() <= 540,
        g.cells().len() == g.length(),
{
    lemma_cells_bound(g.cells());
}


/// The snake game, as the menu lists it.
pub struct SnakeGame;

impl Application for SnakeGame {
    fn name(&self) -> (r: &'static str)
        ensures
            r@ == "Snake"@,
    {
        "Snake"
    }
}

/// What the player picks once a game has ended.
#[derive(Debug, Clone, Copy, PartialEq, Eq, Structural)]
pub enum GameOverChoice {
    PlayAgain,
    ReturnToMenu,
}

/// The key handler during a game: Escape asks to leave; w, s, a and d steer up, down,
/// left and right; other keys do nothing.
pub fn snake_key_handler(key: Key, latest_input: &mut Direction, exit: &mut bool)
    ensures
        *final(exit) == (*old(exit) || key == Key::RawKey(KeyCode::Escape)),
        *final(latest_input) == (match key {
            Key::Unicode(c) => if c == 'w' {
                Direction::Up
            } else if c == 's' {
                Direction::Down
            } else if c == 'a' {
                Direction::Left
            } else if c == 'd' {
                Direction::Right
            } else {
                *old(latest_input)
            },
            _ => *old(latest_input),
        }),
{
    match key {
        Key::RawKey(KeyCode::Escape) => {
            *exit = true;
        },
        Key::Unicode(c) => {
            if c == 'w' {
                *latest_input = Direction::Up;
            } else if c == 's' {
                *latest_input = Direction::Down;
            } else if c == 'a' {
                *latest_input = Direction::Left;
            } else if c == 'd' {
                *latest_input = Direction::Right;
            }
        },
        _ => {},
    }
}

/// The key handler once a game has ended: r or R plays again; m, M or Escape returns
/// to the menu; other keys leave the choice as it was.
pub fn game_over_key_handler(key: Key, choice: &mut Option<GameOverChoice>)
    ensures
        *final(choice) == (match key {
            Key::Unicode(c) => if c == 'r' || c == 'R' {
                Some(GameOverChoice::PlayAgain)
            } else if c == 'm' || c == 'M' {
                Some(GameOverChoice::ReturnToMenu)
            } else {
                *old(choice)
            },
            Key::RawKey(KeyCode::Escape) => Some(GameOverChoice::ReturnToMenu),
            _ => *old(choice),
        }),
{
    match key {
        Key::Unicode(c) => {
            if c == 'r' || c == 'R' {
                *choice = Some(GameOverChoice::PlayAgain);
            } else if c == 'm' || c == 'M' {
                *choice = Some(GameOverChoice::ReturnToMenu);
            }
        },
        Key::RawKey(KeyCode::Escape) => {
            *choice = Some(GameOverChoice::ReturnToMenu);
        },
        _ => {},
    }
}

/// What the game loop does next while a game runs.
#[derive(Debug, Clone, Copy, PartialEq, Eq, Structural)]
pub enum SessionStep {
    /// The game has ended with this score: show the game over screen.
    GameOver(usize),
    /// The player asked to leave: return to the menu.
    Leave,
    /// Wait for the next interrupt.
    Continue,
}

/// The game loop's decision: an ended game shows its score, a request to leave returns
/// to the menu, and otherwise the loop waits.
pub fn session_step(state: &Option<GameState>, exit: bool) -> (r: SessionStep)
    ensures
        r == (match *state {
            Some(g) => if g.is_over() {
                SessionStep::GameOver(if g.length() >= 3 { (g.length() - 3) as usize } else { 0 })
            } else if exit {
                SessionStep::Leave
            } else {
                SessionStep::Continue
            },
            None => if exit { SessionStep::Leave } else { SessionStep::Continue },
        }),
{
    match state {
        Some(game_state) => {
            if game_state.is_game_over() {
                SessionStep::GameOver(game_state.score())
            } else if exit {
                SessionStep::Leave
            } else {
                SessionStep::Continue
            }
        },
        None => if exit { SessionStep::Leave } else { SessionStep::Continue },
    }
}

/// Whether the game starts over after the player's choice: only on "play again".
pub fn plays_again(choice: Option<GameOverChoice>) -> (r: bool)
    ensures
        r == (choice == Some(GameOverChoice::PlayAgain)),
{
    match choice {
        Some(GameOverChoice::PlayAgain) => true,
        _ => false,
    }
}


/// Whether bit `col` of a glyph row is set; bit 0 is the leftmost pixel.
pub open spec fn glyph_bit(bits: u8, col: u8) -> bool {
    (bits >> col) & 1u8 == 1u8
}

/// The pixels of the first `k` of the 64 places of an 8x8 glyph drawn with its top
/// left corner at (`x`, `y`), row by row, left to right.
pub open spec fn glyph_pixels(glyph: [u8; 8], x: int, y: int, k: nat) -> Seq<(int, int)>
    decreases k,
{
    if k == 0 {
        Seq::empty()
    } else {
        let prev = glyph_pixels(glyph, x, y, (k - 1) as nat);
        let row = (k - 1) / 8;
        let col = (k - 1) % 8;
        if glyph_bit(glyph[row as int], col as u8) {
            prev.push((x + col, y + row))
        } else {
            prev
        }
    }
}

/// The pixels of the first `n` characters of `text` drawn from (`x`, `y`) in `font`:
/// each character takes 9 pixels of width, and characters outside ASCII draw nothing.
pub open spec fn text_pixels(font: Seq<[u8; 8]>, text: Seq<char>, x: int, y: int, n: nat) -> Seq<(int, int)>
    decreases n,
{
    if n == 0 {
        Seq::empty()
    } else {
        let prev = text_pixels(font, text, x, y, (n - 1) as nat);
        let code = text[n - 1] as int;
        if 0 <= code < 128 {
            prev + glyph_pixels(font[code], x + 9 * (n - 1), y, 64)
        } else {
            prev
        }
    }
}

/// The pixels that show `text` in `font` from (`x`, `y`), in drawing order.
pub fn draw_pixel_text(font: &[[u8; 8]], text: &str, x: usize, y: usize) -> (pixels: Vec<(usize, usize)>)
    requires
        font@.len() == 128,
        x + 9 * text@.len() + 8 <= usize::MAX,
        y + 8 <= usize::MAX,
    ensures
        pixels@.len() == text_pixels(font@, text@, x as int, y as int, text@.len()).len(),
        forall|k: int| 0 <= k < pixels@.len() ==> (#[trigger] pixels@[k].0 as int, pixels@[k].1 as int)
            == text_pixels(font@, text@, x as int, y as int, text@.len())[k],
{
    let mut pixels: Vec<(usize, usize)> = Vec::new();
    let ghost spec_font = font@;
    let mut offset: usize = 0;
    let mut n: usize = 0;
    for ch in iter: text.chars()
        invariant
            iter.seq() == text@,
            font@.len() == 128,
            spec_font == font@,
            x + 9 * text@.len() + 8 <= usize::MAX,
            y + 8 <= usize::MAX,
            n == iter.index(),
            offset == 9 * n,
            pixels@.len() == text_pixels(spec_font, text@, x as int, y as int, n as nat).len(),
            forall|k: int| 0 <= k < pixels@.len() ==> (#[trigger] pixels@[k].0 as int, pixels@[k].1 as int)
                == text_pixels(spec_font, text@, x as int, y as int, n as nat)[k],
    {
        let ghost before = pixels@;
        if '\x00' <= ch && ch <= '\x7f' {
            let ch_code = ch as u32;
            assert(ch_code as int == ch as int);
            let glyph = font[ch_code as usize];
            let mut row: usize = 0;
            while row < 8
                invariant
                    row <= 8,
                    n < text@.len(),
                    offset == 9 * n,
                    x + 9 * text@.len() + 8 <= usize::MAX,
                    y + 8 <= usize::MAX,
                    pixels@.len() == before.len() + glyph_pixels(glyph, x + offset, y as int, (8 * row) as nat).len(),
                    forall|k: int| 0 <= k < before.len() ==> #[trigger] pixels@[k] == before[k],
                    forall|k: int| 0 <= k < pixels@.len() - before.len() ==> (#[trigger] pixels@[before.len() + k].0 as int, pixels@[before.len() + k].1 as int)
                        == glyph_pixels(glyph, x + offset, y as int, (8 * row) as nat)[k],
                decreases 8 - row,
            {
                let bits = glyph[row];
                let mut col: usize = 0;
                while col < 8
                    invariant
                        row < 8,
                        col <= 8,
                        bits == glyph[row as int],
                        n < text@.len(),
                        offset == 9 * n,
                        x + 9 * text@.len() + 8 <= usize::MAX,
                        y + 8 <= usize::MAX,
                        pixels@.len() == before.len() + glyph_pixels(glyph, x + offset, y as int, (8 * row + col) as nat).len(),
                        forall|k: int| 0 <= k < before.len() ==> #[trigger] pixels@[k] == before[k],
                        forall|k: int| 0 <= k < pixels@.len() - before.len() ==> (#[trigger] pixels@[before.len() + k].0 as int, pixels@[before.len() + k].1 as int)
                            == glyph_pixels(glyph, x + offset, y as int, (8 * row + col) as nat)[k],
                    decreases 8 - col,
                {
                    proof {
                        let k = (8 * row + col) as nat;
                        assert((k + 1 - 1) / 8 == row as int);
                        assert((k + 1 - 1) % 8 == col as int);
                    }
                    if (bits >> (col as u8)) & 1 == 1 {
                        pixels.push((x + offset + col, y + row));
                    }
                    col = col + 1;
                }
                row = row + 1;
            }
        }
        proof {
            assert(text@[n as int] == ch);
            let tp = text_pixels(spec_font, text@, x as int, y as int, n as nat);
            let tp1 = text_pixels(spec_font, text@, x as int, y as int, (n + 1) as nat);
            if 0 <= (ch as int) < 128 {
                let gp = glyph_pixels(spec_font[ch as int], x + 9 * n, y as int, 64);
                assert(tp1 == tp + gp);
                assert(pixels@.len() == tp1.len());
                assert forall|k: int| 0 <= k < pixels@.len() implies (#[trigger] pixels@[k].0 as int, pixels@[k].1 as int) == tp1[k] by {
                    if k < before.len() {
                        assert(pixels@[k] == before[k]);
                    } else {
                        assert(pixels@[before.len() + (k - before.len())] == pixels@[k]);
                    }
                }
            } else {
                assert(tp1 == tp);
            }
        }
        offset = offset + 9;
        n = n + 1;
    }
    pixels
}


/// The score line of the game over screen: "Score: " and the score in decimal.
pub fn score_text(score: usize) -> (r: String)
    ensures
        r@ == "Score: "@ + spec_decimal(score as nat),
{
    let mut text = String::from_str("Score: ");
    let digits = decimal_string(score);
    text.append(digits.as_str());
    text
}

} // verus!
