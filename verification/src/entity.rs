//! Value types of the game: coordinates, directions, players and carrots.

use vstd::prelude::*;
use crate::paint::{is_painted, paint_truecolor};

verus! {

/// Largest value either axis of a coordinate may take.
pub const BOARD_MAX: u8 = 15;

/// Number of squares on the board.
pub const BOARD_AREA: u16 = 256;

/// Points a carrot is worth when picked up.
pub const CARROT_VALUE: u32 = 1;

/// The value `v` constrained to the board's axis range without signalling failure.
pub open spec fn clamp_axis(v: int) -> int {
    if v < 0 {
        0
    } else if v > BOARD_MAX as int {
        BOARD_MAX as int
    } else {
        v
    }
}

/// A square of the board.
#[derive(Clone, Copy, Debug, PartialEq, Eq, Structural)]
pub struct Coordinate {
    pub x: u8,
    pub y: u8,
}

/// One of the four unit moves a player can make.
#[derive(Clone, Copy, Debug, PartialEq, Eq, Structural)]
pub enum Direction {
    Up,
    Down,
    Left,
    Right,
}

impl Direction {
    /// Horizontal component of the unit move.
    pub open spec fn dx(self) -> int {
        match self {
            Direction::Left => -1,
            Direction::Right => 1,
            _ => 0,
        }
    }

    /// Vertical component of the unit move; `Up` decreases `y`.
    pub open spec fn dy(self) -> int {
        match self {
            Direction::Up => -1,
            Direction::Down => 1,
            _ => 0,
        }
    }

    /// The unit move as a pair `(delta_x, delta_y)`.
    pub fn delta(self) -> (d: (i32, i32))
        ensures
            d.0 == self.dx(),
            d.1 == self.dy(),
    {
        match self {
            Direction::Up => (0, -1),
            Direction::Down => (0, 1),
            Direction::Left => (-1, 0),
            Direction::Right => (1, 0),
        }
    }
}

impl Coordinate {
    /// Both axes lie in `[0, BOARD_MAX]`.
    pub open spec fn in_bounds(self) -> bool {
        self.x <= BOARD_MAX && self.y <= BOARD_MAX
    }

    /// The coordinate shifted by `(dx, dy)` with each axis clamped to the board.
    pub open spec fn shifted(self, dx: int, dy: int) -> Coordinate {
        Coordinate { x: clamp_axis(self.x + dx) as u8, y: clamp_axis(self.y + dy) as u8 }
    }

    /// The coordinate one step in `direction`, sticking to the edge of the board.
    pub open spec fn stepped(self, direction: Direction) -> Coordinate {
        self.shifted(direction.dx(), direction.dy())
    }

    /// `self` comes before `other` when the board is read row by row from
    /// the top, each row from the left.
    pub open spec fn reads_before(self, other: Coordinate) -> bool {
        self.y < other.y || (self.y == other.y && self.x < other.x)
    }

    /// Chebyshev distance: the larger of the two axis distances.
    pub open spec fn spec_distance(self, other: Coordinate) -> int {
        let dx = if self.x >= other.x { self.x - other.x } else { other.x - self.x };
        let dy = if self.y >= other.y { self.y - other.y } else { other.y - self.y };
        if dx >= dy { dx } else { dy }
    }

    /// Tells whether both axes lie on the board.
    pub fn is_in_bounds(self) -> (b: bool)
        ensures
            b == self.in_bounds(),
    {
        self.x <= BOARD_MAX && self.y <= BOARD_MAX
    }

    /// Shifts each axis by its delta and clamps it to `[0, BOARD_MAX]`.
    ///
    /// The result is on the board whatever the deltas and whatever `self` was:
    /// moving off an edge leaves the coordinate on that edge.
    pub fn clamp_move(self, delta_x: i32, delta_y: i32) -> (moved: Coordinate)
        ensures
            moved == self.shifted(delta_x as int, delta_y as int),
            moved.in_bounds(),
    {
        Coordinate { x: clamp_shift(self.x, delta_x), y: clamp_shift(self.y, delta_y) }
    }

    /// Chebyshev distance between two squares.
    pub fn distance(self, other: Coordinate) -> (d: u8)
        ensures
            d == self.spec_distance(other),
    {
        let dx: u8 = if self.x >= other.x { self.x - other.x } else { other.x - self.x };
        let dy: u8 = if self.y >= other.y { self.y - other.y } else { other.y - self.y };
        if dx >= dy { dx } else { dy }
    }
}

/// One axis value shifted by `delta` and clamped to the board.
fn clamp_shift(value: u8, delta: i32) -> (clamped: u8)
    ensures
        clamped == clamp_axis(value + delta),
        clamped <= BOARD_MAX,
{
    let target: i64 = value as i64 + delta as i64;
    if target < 0 {
        0
    } else if target > BOARD_MAX as i64 {
        BOARD_MAX
    } else {
        target as u8
    }
}

/// A participant of the game.
///
/// A player is identified by its index in the board's player sequence; `name`
/// is a display label only.
#[derive(Clone, Debug, PartialEq, Eq)]
pub struct Player {
    pub name: String,
    pub position: Coordinate,
    pub score: u32,
}

/// What a player is, as a mathematical value.
pub struct PlayerModel {
    pub name: Seq<char>,
    pub position: Coordinate,
    pub score: nat,
}

impl PlayerModel {
    /// The same player one step further in `direction`.
    pub open spec fn moved(self, direction: Direction) -> PlayerModel {
        PlayerModel { position: self.position.stepped(direction), ..self }
    }

    /// The same player with `points` more on the score.
    pub open spec fn gaining(self, points: nat) -> PlayerModel {
        PlayerModel { score: self.score + points, ..self }
    }

    /// The same player with `points` fewer on the score.
    pub open spec fn losing(self, points: nat) -> PlayerModel
        recommends
            points <= self.score,
    {
        PlayerModel { score: (self.score - points) as nat, ..self }
    }
}

impl View for Player {
    type V = PlayerModel;

    open spec fn view(&self) -> PlayerModel {
        PlayerModel { name: self.name@, position: self.position, score: self.score as nat }
    }
}

impl Player {
    /// A player with no points yet.
    pub fn new(name: String, position: Coordinate) -> (player: Player)
        ensures
            player@ == (PlayerModel { name: name@, position, score: 0 }),
    {
        Player { name, position, score: 0 }
    }

    /// Moves the player one step in `direction`, clamped to the board.
    ///
    /// Never fails: a move across an edge leaves the player on the edge.
    pub fn walk(&mut self, direction: Direction)
        ensures
            final(self)@ == old(self)@.moved(direction),
            final(self).position.in_bounds(),
    {
        let (delta_x, delta_y) = direction.delta();
        self.position = self.position.clamp_move(delta_x, delta_y);
    }
}

/// A collectible item lying on one square of the board.
#[derive(Clone, Copy, Debug, PartialEq, Eq, Structural)]
pub struct Carrot {
    pub position: Coordinate,
}

/// The letter that stands for a carrot on the board.
pub open spec fn carrot_glyph() -> Seq<char> {
    seq!['V']
}

impl Carrot {
    /// The text that shows a carrot: the letter `V`, painted gold where the
    /// terminal takes colours.
    pub fn get_icon(&self) -> (icon: String)
        ensures
            is_painted(icon@, carrot_glyph()),
    {
        proof {
            reveal_strlit("V");
            assert("V"@ =~= carrot_glyph());
        }
        paint_truecolor("V", 255, 215, 0)
    }
}

} // verus!
