//! The wall grid of one level and its level-indexed generator.
//!
//! A grid has `MAZE_WIDTH` by `MAZE_HEIGHT` square cells of side `CELL_SIZE`.
//! Its outer ring is always wall, and anything off the grid counts as wall.

use vstd::prelude::*;

verus! {

/// Cells across.
pub const MAZE_WIDTH: usize = 16;

/// Cells down.
pub const MAZE_HEIGHT: usize = 16;

/// Side of one cell, in thousandths of a world unit.
pub const CELL_SIZE: i64 = 64_000;

/// The last level that has a layout of its own.
pub const MAX_LEVEL: u32 = 3;

/// Column and row of the cell the player starts in.
pub const SPAWN_CELL: (usize, usize) = (3, 3);

/// Column and row of the cell that ends a level.
pub const EXIT_CELL: (usize, usize) = (13, 13);

/// `(col, row)` names a cell of the grid.
pub open spec fn in_grid(col: int, row: int) -> bool {
    0 <= col < MAZE_WIDTH && 0 <= row < MAZE_HEIGHT
}

/// `(col, row)` lies on the outer ring of the grid.
pub open spec fn on_border(col: int, row: int) -> bool {
    in_grid(col, row) && (col == 0 || row == 0 || col == MAZE_WIDTH - 1 || row == MAZE_HEIGHT - 1)
}

/// The index of the cell that holds coordinate `c` along one axis.
pub open spec fn cell_of(c: int) -> int {
    c / (CELL_SIZE as int)
}

/// The inner walls that the first level adds to the border.
pub open spec fn first_layout(col: int, row: int) -> bool {
    ||| row == 2 && 2 <= col <= 4
    ||| 4 <= row <= 6 && (col == 6 || col == 12)
    ||| row == 8 && 2 <= col <= 5
    ||| 6 <= row <= 8 && col == 10
    ||| 10 <= row <= 12 && col == 8
}

/// The inner walls of the second level: short stubs with dead ends.
pub open spec fn second_layout(col: int, row: int) -> bool {
    ||| row == 2 && 2 <= col <= 5
    ||| row == 4 && 2 <= col <= 8 && col % 2 == 0
    ||| row == 6 && (col == 2 || (3 <= col <= 9 && col % 2 == 1))
    ||| row == 8 && 4 <= col <= 10 && col % 2 == 0
    ||| row == 10 && 2 <= col <= 10 && col % 2 == 0
    ||| row == 12 && 3 <= col <= 9 && col % 2 == 1
}

/// The inner walls of the third level: a staggered lattice of pillars.
pub open spec fn third_layout(col: int, row: int) -> bool {
    ||| row % 2 == 0 && 2 <= row <= 12 && (col == 2 || (3 <= col <= 9 && col % 2 == 1))
    ||| row % 2 == 0 && 4 <= row <= 10 && col == 11
    ||| row % 2 == 1 && 3 <= row <= 11 && 4 <= col <= 10 && col % 2 == 0
    ||| (row == 5 || row == 9) && col == 12
}

/// The inner walls of `level`; levels without a layout have none.
pub open spec fn layout_wall(level: int, col: int, row: int) -> bool {
    if level == 1 {
        first_layout(col, row)
    } else if level == 2 {
        second_layout(col, row)
    } else if level == 3 {
        third_layout(col, row)
    } else {
        false
    }
}

/// Whether cell `(col, row)` of the maze for `level` is a wall.
pub open spec fn level_wall(level: int, col: int, row: int) -> bool {
    on_border(col, row) || layout_wall(level, col, row)
}

/// The cells of the maze of `level`, row by row.
pub open spec fn level_cells(level: int) -> Seq<bool> {
    Seq::new(
        (MAZE_WIDTH * MAZE_HEIGHT) as nat,
        |i: int| level_wall(level, i % (MAZE_WIDTH as int), i / (MAZE_WIDTH as int)),
    )
}

/// `cells` holds one flag for each cell of the grid, and the outer ring is
/// wall.
pub open spec fn grid_wf(cells: Seq<bool>) -> bool {
    &&& cells.len() == MAZE_WIDTH * MAZE_HEIGHT
    &&& forall|col: int, row: int| #[trigger]
        on_border(col, row) ==> cells[row * MAZE_WIDTH + col]
}

/// Whether `(col, row)` blocks movement: off the grid, or flagged.
pub open spec fn is_wall_cell(cells: Seq<bool>, col: int, row: int) -> bool {
    !in_grid(col, row) || cells[row * MAZE_WIDTH + col]
}

/// Whether the point `(x, y)` lies in a blocking cell.
pub open spec fn is_wall_at(cells: Seq<bool>, x: int, y: int) -> bool {
    is_wall_cell(cells, cell_of(x), cell_of(y))
}

/// Two cells share an edge.
pub open spec fn adjacent(a: (int, int), b: (int, int)) -> bool {
    ||| a.0 == b.0 && (a.1 == b.1 + 1 || b.1 == a.1 + 1)
    ||| a.1 == b.1 && (a.0 == b.0 + 1 || b.0 == a.0 + 1)
}

/// `walk` is a chain of open cells, each sharing an edge with the next.
pub open spec fn is_walk(cells: Seq<bool>, walk: Seq<(int, int)>) -> bool {
    &&& walk.len() > 0
    &&& forall|i: int| 0 <= i < walk.len() ==> !is_wall_cell(cells, #[trigger] walk[i].0, walk[i].1)
    &&& forall|i: int| 0 <= i < walk.len() - 1 ==> adjacent(#[trigger] walk[i], walk[i + 1])
}

/// Some chain of open cells leads from `from` to `to`.
pub open spec fn connected(cells: Seq<bool>, from: (int, int), to: (int, int)) -> bool {
    exists|walk: Seq<(int, int)>| #[trigger]
        is_walk(cells, walk) && walk[0] == from && walk[walk.len() - 1] == to
}

/// The walk from the spawn cell to the exit cell that every generated maze
/// leaves open: west along the spawn row, south along the first inner
/// column, east along the exit row.
pub open spec fn spawn_exit_walk() -> Seq<(int, int)> {
    Seq::new(
        25,
        |i: int|
            if i <= 2 {
                (3 - i, 3)
            } else if i <= 12 {
                (1, i + 1)
            } else {
                (i - 11, 13)
            },
    )
}

/// Every point outside the grid is wall, whatever the grid holds.
pub proof fn lemma_outside_is_wall(cells: Seq<bool>, x: int, y: int)
    requires
        x < 0 || y < 0 || x >= MAZE_WIDTH * CELL_SIZE || y >= MAZE_HEIGHT * CELL_SIZE,
    ensures
        is_wall_at(cells, x, y),
{
}

/// A point that is not wall lies strictly inside the outer ring.
pub proof fn lemma_open_point_is_inside(cells: Seq<bool>, x: int, y: int)
    requires
        grid_wf(cells),
        !is_wall_at(cells, x, y),
    ensures
        CELL_SIZE <= x < (MAZE_WIDTH - 1) * CELL_SIZE,
        CELL_SIZE <= y < (MAZE_HEIGHT - 1) * CELL_SIZE,
{
    let col: int = cell_of(x);
    let row: int = cell_of(y);
    assert(in_grid(col, row));
    assert(on_border(col, row) ==> cells[row * MAZE_WIDTH + col]);
}

/// A walk can be taken backwards: being connected works both ways.
pub proof fn lemma_connected_is_symmetric(cells: Seq<bool>, a: (int, int), b: (int, int))
    requires
        connected(cells, a, b),
    ensures
        connected(cells, b, a),
{
    let walk = choose|walk: Seq<(int, int)>| #[trigger]
        is_walk(cells, walk) && walk[0] == a && walk[walk.len() - 1] == b;
    let back = walk.reverse();
    assert forall|i: int| 0 <= i < back.len() - 1 implies adjacent(#[trigger] back[i], back[i + 1]) by {
        assert(adjacent(walk[walk.len() - 2 - i], walk[walk.len() - 2 - i + 1]));
    }
    assert forall|i: int| 0 <= i < back.len() implies !is_wall_cell(
        cells,
        #[trigger] back[i].0,
        back[i].1,
    ) by {
        assert(!is_wall_cell(cells, walk[walk.len() - 1 - i].0, walk[walk.len() - 1 - i].1));
    }
    assert(is_walk(cells, back));
    assert(back[0] == b && back[back.len() - 1] == a);
}

/// The maze of any level is a well-formed grid: its whole border is wall. Its
/// spawn and exit cells are open, and the exit can be walked to from the
/// spawn.
pub proof fn lemma_level_is_playable(level: int)
    ensures
        grid_wf(level_cells(level)),
        forall|col: int, row: int|
            on_border(col, row) ==> #[trigger] is_wall_cell(level_cells(level), col, row),
        !is_wall_cell(level_cells(level), SPAWN_CELL.0 as int, SPAWN_CELL.1 as int),
        !is_wall_cell(level_cells(level), EXIT_CELL.0 as int, EXIT_CELL.1 as int),
        connected(
            level_cells(level),
            (SPAWN_CELL.0 as int, SPAWN_CELL.1 as int),
            (EXIT_CELL.0 as int, EXIT_CELL.1 as int),
        ),
        connected(
            level_cells(level),
            (EXIT_CELL.0 as int, EXIT_CELL.1 as int),
            (SPAWN_CELL.0 as int, SPAWN_CELL.1 as int),
        ),
{
    let cells = level_cells(level);
    assert forall|col: int, row: int| in_grid(col, row) implies cells[row * MAZE_WIDTH + col]
        == level_wall(level, col, row) by {
        let i: int = row * MAZE_WIDTH + col;
        assert(i % 16 == col && i / 16 == row);
    }
    let walk = spawn_exit_walk();
    assert forall|i: int| 0 <= i < walk.len() implies !is_wall_cell(
        cells,
        #[trigger] walk[i].0,
        walk[i].1,
    ) by {
        let c: (int, int) = walk[i];
        assert(in_grid(c.0, c.1));
        assert(!level_wall(level, c.0, c.1));
    }
    assert(is_walk(cells, walk));
    assert(walk[0] == (3int, 3int));
    assert(walk[walk.len() - 1] == (13int, 13int));
    assert(in_grid(3, 3) && in_grid(13, 13));
    lemma_connected_is_symmetric(cells, (3int, 3int), (13int, 13int));
}

/// A grid of wall flags, stored row by row.
pub struct MazeGrid {
    cells: Vec<bool>,
}

impl View for MazeGrid {
    type V = Seq<bool>;

    closed spec fn view(&self) -> Seq<bool> {
        self.cells@
    }
}

impl MazeGrid {
    /// Every grid that executable code can hold is well formed.
    #[verifier::type_invariant]
    pub open spec fn wf(&self) -> bool {
        grid_wf(self@)
    }

    /// Whether the cell at `(col, row)` blocks movement.
    pub fn wall_cell(&self, col: usize, row: usize) -> (b: bool)
        ensures
            b == is_wall_cell(self@, col as int, row as int),
    {
        proof {
            use_type_invariant(self);
        }
        if col >= MAZE_WIDTH || row >= MAZE_HEIGHT {
            return true;
        }
        self.cells[row * MAZE_WIDTH + col]
    }

    /// Whether the point `(x, y)` lies in a wall. Points off the grid do.
    pub fn wall_at(&self, x: i64, y: i64) -> (b: bool)
        ensures
            b == is_wall_at(self@, x as int, y as int),
    {
        proof {
            use_type_invariant(self);
        }
        if x < 0 || y < 0 {
            return true;
        }
        let col: i64 = x / CELL_SIZE;
        let row: i64 = y / CELL_SIZE;
        if col >= 16 || row >= 16 {
            return true;
        }
        self.cells[(row * 16 + col) as usize]
    }

    /// The maze of `level`: the border plus the level's inner walls. A level
    /// past `MAX_LEVEL` gets the border alone. In every such maze the exit
    /// cell can be walked to from the spawn cell.
    pub fn generate(level: u32) -> (grid: MazeGrid)
        ensures
            grid@ == level_cells(level as int),
            grid_wf(grid@),
            forall|col: int, row: int| on_border(col, row) ==> #[trigger] is_wall_cell(grid@, col, row),
            connected(
                grid@,
                (SPAWN_CELL.0 as int, SPAWN_CELL.1 as int),
                (EXIT_CELL.0 as int, EXIT_CELL.1 as int),
            ),
            connected(
                grid@,
                (EXIT_CELL.0 as int, EXIT_CELL.1 as int),
                (SPAWN_CELL.0 as int, SPAWN_CELL.1 as int),
            ),
    {
        let mut cells: Vec<bool> = Vec::new();
        let mut i: usize = 0;
        while i < MAZE_WIDTH * MAZE_HEIGHT
            invariant
                i <= MAZE_WIDTH * MAZE_HEIGHT,
                cells@.len() == i,
                forall|k: int| 0 <= k < i ==> #[trigger] cells@[k] == level_wall(level as int, k % 16, k / 16),
            decreases MAZE_WIDTH * MAZE_HEIGHT - i,
        {
            cells.push(wall_in_level(level, i % MAZE_WIDTH, i / MAZE_WIDTH));
            i += 1;
        }
        proof {
            assert(cells@ =~= level_cells(level as int));
            lemma_level_is_playable(level as int);
        }
        MazeGrid { cells }
    }
}

/// Whether cell `(col, row)` of the maze for `level` is a wall.
pub fn wall_in_level(level: u32, col: usize, row: usize) -> (b: bool)
    requires
        col < MAZE_WIDTH,
        row < MAZE_HEIGHT,
    ensures
        b == level_wall(level as int, col as int, row as int),
{
    if col == 0 || row == 0 || col == MAZE_WIDTH - 1 || row == MAZE_HEIGHT - 1 {
        return true;
    }
    if level == 1 {
        (row == 2 && 2 <= col && col <= 4) || (4 <= row && row <= 6 && (col == 6 || col == 12))
            || (row == 8 && 2 <= col && col <= 5) || (6 <= row && row <= 8 && col == 10) || (10
            <= row && row <= 12 && col == 8)
    } else if level == 2 {
        (row == 2 && 2 <= col && col <= 5) || (row == 4 && 2 <= col && col <= 8 && col % 2 == 0)
            || (row == 6 && (col == 2 || (3 <= col && col <= 9 && col % 2 == 1))) || (row == 8
            && 4 <= col && col <= 10 && col % 2 == 0) || (row == 10 && 2 <= col && col <= 10
            && col % 2 == 0) || (row == 12 && 3 <= col && col <= 9 && col % 2 == 1)
    } else if level == 3 {
        (row % 2 == 0 && 2 <= row && row <= 12 && (col == 2 || (3 <= col && col <= 9 && col % 2
            == 1))) || (row % 2 == 0 && 4 <= row && row <= 10 && col == 11) || (row % 2 == 1
            && 3 <= row && row <= 11 && 4 <= col && col <= 10 && col % 2 == 0) || ((row == 5
            || row == 9) && col == 12)
    } else {
        false
    }
}

} // verus!
