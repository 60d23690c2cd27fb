//! Positions on a grid and the six directions that join neighbouring cells.

use vstd::prelude::*;

verus! {

/// A cell of a grid: `x` picks the column of the grid, `y` the place in it.
#[derive(Copy, Clone, PartialEq, Eq, Debug, Structural)]
pub struct Coordinates {
    pub x: usize,
    pub y: usize,
}

/// The six directions of the hexagonal adjacency, in the order in which
/// neighbours are listed.
#[derive(Copy, Clone, PartialEq, Eq, Debug, Structural)]
pub enum Direction {
    Right,
    DownRight,
    Down,
    Left,
    UpLeft,
    Up,
}

impl Direction {
    /// The change of `x` that one step makes.
    pub open spec fn dx(self) -> int {
        match self {
            Direction::Right | Direction::DownRight => 1,
            Direction::Down | Direction::Up => 0,
            Direction::Left | Direction::UpLeft => -1,
        }
    }

    /// The change of `y` that one step makes.
    pub open spec fn dy(self) -> int {
        match self {
            Direction::DownRight | Direction::Down => 1,
            Direction::Right | Direction::Left => 0,
            Direction::UpLeft | Direction::Up => -1,
        }
    }
}

impl Coordinates {
    /// Both coordinates lie below `width`.
    pub open spec fn within(self, width: int) -> bool {
        self.x < width && self.y < width
    }

    /// A step in direction `d` stays on a grid `width` cells wide.
    pub open spec fn can_step(self, d: Direction, width: int) -> bool {
        &&& 0 <= self.x + d.dx() < width
        &&& 0 <= self.y + d.dy() < width
    }

    /// A walk of `count` steps in direction `d` stays on a grid `width` cells
    /// wide.
    pub open spec fn can_move(self, d: Direction, count: int, width: int) -> bool {
        match d {
            Direction::Right => self.x + count < width,
            Direction::DownRight => self.x + count < width && self.y + count < width,
            Direction::Down => self.y + count < width,
            Direction::Left => count <= self.x,
            Direction::UpLeft => count <= self.x && count <= self.y,
            Direction::Up => count <= self.y,
        }
    }

    /// The cell `count` steps away in direction `d`.
    pub open spec fn moved(self, d: Direction, count: int) -> Coordinates {
        match d {
            Direction::Right => Coordinates { x: (self.x + count) as usize, y: self.y },
            Direction::DownRight => Coordinates {
                x: (self.x + count) as usize,
                y: (self.y + count) as usize,
            },
            Direction::Down => Coordinates { x: self.x, y: (self.y + count) as usize },
            Direction::Left => Coordinates { x: (self.x - count) as usize, y: self.y },
            Direction::UpLeft => Coordinates {
                x: (self.x - count) as usize,
                y: (self.y - count) as usize,
            },
            Direction::Up => Coordinates { x: self.x, y: (self.y - count) as usize },
        }
    }

    /// How many steps in direction `d` a walk from this cell would need to
    /// reach `to`, where it reaches it at all.
    pub open spec fn steps_to(self, d: Direction, to: Coordinates) -> int {
        match d {
            Direction::Right | Direction::DownRight => to.x - self.x,
            Direction::Down => to.y - self.y,
            Direction::Left | Direction::UpLeft => self.x - to.x,
            Direction::Up => self.y - to.y,
        }
    }

    /// `to` is one of the first `count` cells of a walk from this cell in
    /// direction `d`; the cell itself is not.
    pub open spec fn reaches(self, d: Direction, count: int, to: Coordinates) -> bool {
        1 <= self.steps_to(d, to) <= count && to == self.moved(d, self.steps_to(d, to))
    }

    /// The cell one step away in direction `d`.
    pub open spec fn stepped(self, d: Direction) -> Coordinates {
        self.moved(d, 1)
    }

    /// This cell comes before `other` when cells are scanned column by
    /// column, each column from its first place to its last.
    pub open spec fn scanned_before(self, other: Coordinates) -> bool {
        self.x < other.x || (self.x == other.x && self.y < other.y)
    }

    /// Along a walk that stays on the grid, every cell lies on the grid, the
    /// cell after `t` steps is `t` steps away, and one more step from it
    /// leads to the cell after `t + 1` steps.
    pub proof fn lemma_walk(self, d: Direction, count: int, width: int, t: int)
        requires
            self.within(width),
            width <= usize::MAX,
            self.can_move(d, count, width),
            0 <= t <= count,
        ensures
            self.moved(d, t).within(width),
            self.moved(d, t).x == self.x + t * d.dx(),
            self.moved(d, t).y == self.y + t * d.dy(),
            self.moved(d, 0) == self,
            t >= 1 ==> self.steps_to(d, self.moved(d, t)) == t,
            t < count ==> self.moved(d, t).can_step(d, width) && self.moved(d, t).stepped(d)
                == self.moved(d, t + 1),
    {
    }

    /// Whether a step in direction `d` stays on a grid `width` cells wide.
    pub fn has_step(self, d: Direction, width: usize) -> (res: bool)
        requires
            self.within(width as int),
        ensures
            res == self.can_step(d, width as int),
    {
        match d {
            Direction::Right => self.x < width - 1,
            Direction::DownRight => self.x < width - 1 && self.y < width - 1,
            Direction::Down => self.y < width - 1,
            Direction::Left => self.x > 0,
            Direction::UpLeft => self.x > 0 && self.y > 0,
            Direction::Up => self.y > 0,
        }
    }

    /// Takes one step in direction `d`.
    pub fn step(self, d: Direction) -> (res: Coordinates)
        requires
            0 <= self.x + d.dx() <= usize::MAX,
            0 <= self.y + d.dy() <= usize::MAX,
        ensures
            res == self.stepped(d),
            res.x == self.x + d.dx(),
            res.y == self.y + d.dy(),
    {
        match d {
            Direction::Right => Coordinates { x: self.x + 1, y: self.y },
            Direction::DownRight => Coordinates { x: self.x + 1, y: self.y + 1 },
            Direction::Down => Coordinates { x: self.x, y: self.y + 1 },
            Direction::Left => Coordinates { x: self.x - 1, y: self.y },
            Direction::UpLeft => Coordinates { x: self.x - 1, y: self.y - 1 },
            Direction::Up => Coordinates { x: self.x, y: self.y - 1 },
        }
    }
}

} // verus!
