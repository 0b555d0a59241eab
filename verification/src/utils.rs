//! Grid cells, directions and the playing field.

use vstd::prelude::*;

verus! {

/// A grid cell: one integer coordinate per axis.
#[derive(Clone, Copy, Debug, PartialEq, Eq, Structural)]
pub struct Position {
    pub x: i32,
    pub y: i32,
}

/// The four ways a snake can head.
#[derive(Clone, Copy, Debug, PartialEq, Eq, Structural)]
pub enum Direction {
    Left,
    Up,
    Right,
    Down,
}

impl Direction {
    /// The reverse of a direction.
    pub open spec fn spec_opposite(self) -> Direction {
        match self {
            Direction::Left => Direction::Right,
            Direction::Right => Direction::Left,
            Direction::Up => Direction::Down,
            Direction::Down => Direction::Up,
        }
    }

    /// The change of `x` that one step in this direction makes.
    pub open spec fn dx(self) -> int {
        match self {
            Direction::Left => -1,
            Direction::Right => 1,
            Direction::Up => 0,
            Direction::Down => 0,
        }
    }

    /// The change of `y` that one step in this direction makes.
    pub open spec fn dy(self) -> int {
        match self {
            Direction::Left => 0,
            Direction::Right => 0,
            Direction::Up => 1,
            Direction::Down => -1,
        }
    }

    /// The reverse of this direction.
    #[verifier::when_used_as_spec(spec_opposite)]
    pub fn opposite(self) -> (r: Direction)
        ensures
            r == self.spec_opposite(),
    {
        match self {
            Direction::Left => Direction::Right,
            Direction::Right => Direction::Left,
            Direction::Up => Direction::Down,
            Direction::Down => Direction::Up,
        }
    }

    /// Reversing twice gives the direction back, reversing once never does,
    /// and a direction and its reverse lie on one axis.
    pub proof fn lemma_opposite(self)
        ensures
            self.spec_opposite().spec_opposite() == self,
            self.spec_opposite() != self,
            self.spec_opposite().dx() == -self.dx(),
            self.spec_opposite().dy() == -self.dy(),
    {
    }
}

impl Position {
    /// Whether the neighbour in direction `d` has coordinates that fit the
    /// coordinate type.
    pub open spec fn can_step(self, d: Direction) -> bool {
        &&& i32::MIN <= self.x + d.dx() <= i32::MAX
        &&& i32::MIN <= self.y + d.dy() <= i32::MAX
    }

    /// The neighbour in direction `d`: one coordinate changes by one.
    pub open spec fn spec_step(self, d: Direction) -> Position {
        Position { x: (self.x + d.dx()) as i32, y: (self.y + d.dy()) as i32 }
    }

    /// The neighbour in direction `d`.
    #[verifier::when_used_as_spec(spec_step)]
    pub fn step(self, d: Direction) -> (r: Position)
        requires
            self.can_step(d),
        ensures
            r == self.spec_step(d),
            r.x == self.x + d.dx(),
            r.y == self.y + d.dy(),
    {
        match d {
            Direction::Left => Position { x: self.x - 1, y: self.y },
            Direction::Right => Position { x: self.x + 1, y: self.y },
            Direction::Up => Position { x: self.x, y: self.y + 1 },
            Direction::Down => Position { x: self.x, y: self.y - 1 },
        }
    }
}

/// The playing field: the cells `(x, y)` with `0 <= x < width` and
/// `0 <= y < height`.
#[derive(Clone, Copy, Debug, PartialEq, Eq, Structural)]
pub struct Grid {
    pub width: u32,
    pub height: u32,
}

impl Grid {
    /// Every cell of a well-formed grid has coordinates that fit `i32`, with
    /// room for one step beyond the border.
    pub open spec fn wf(&self) -> bool {
        self.width <= i32::MAX && self.height <= i32::MAX
    }

    /// Whether `p` is a cell of the grid.
    pub open spec fn spec_contains(&self, p: Position) -> bool {
        0 <= p.x < self.width && 0 <= p.y < self.height
    }

    /// The number of cells.
    pub open spec fn cell_count(&self) -> nat {
        (self.width * self.height) as nat
    }

    /// The `i`-th cell in row-major order: rows by ascending `y`, each by
    /// ascending `x`.
    pub open spec fn cell_at(&self, i: int) -> Position {
        Position { x: (i % (self.width as int)) as i32, y: (i / (self.width as int)) as i32 }
    }

    /// All cells in row-major order.
    pub open spec fn cells(&self) -> Seq<Position> {
        Seq::new(self.cell_count(), |i: int| self.cell_at(i))
    }

    /// A grid of the given size, if its coordinates fit.
    pub fn new(width: u32, height: u32) -> (r: Option<Grid>)
        ensures
            r is Some <==> width <= i32::MAX && height <= i32::MAX,
            r matches Some(g) ==> g.width == width && g.height == height && g.wf(),
    {
        if width <= 0x7fff_ffff && height <= 0x7fff_ffff {
            Some(Grid { width, height })
        } else {
            None
        }
    }

    /// Whether `p` is a cell of the grid.
    #[verifier::when_used_as_spec(spec_contains)]
    pub fn contains(&self, p: Position) -> (r: bool)
        ensures
            r == self.spec_contains(p),
    {
        p.x >= 0 && p.y >= 0 && (p.x as u32) < self.width && (p.y as u32) < self.height
    }
}

/// Whether `cell` is among `cells`.
pub fn occupies(cells: &Vec<Position>, cell: Position) -> (r: bool)
    ensures
        r == cells@.contains(cell),
{
    let mut i: usize = 0;
    while i < cells.len()
        invariant
            i <= cells@.len(),
            forall|k: int| 0 <= k < i ==> cells@[k] != cell,
        decreases cells@.len() - i,
    {
        if cells[i] == cell {
            return true;
        }
        i += 1;
    }
    false
}

} // verus!
