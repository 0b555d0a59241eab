//! Food: what it is, and where a new one may be placed.

use vstd::prelude::*;
use vstd::arithmetic::div_mod::{
    lemma_fundamental_div_mod, lemma_fundamental_div_mod_converse, lemma_mod_bound,
};
use crate::game::snake::SnakeSegments;
use crate::timer::Timer;
use crate::utils::{occupies, Grid, Position};

verus! {

/// What eating a food does to the snake.
#[derive(Clone, Copy, Debug, PartialEq, Eq, Structural)]
pub enum Food {
    Grow,
    Shrink,
}

/// A food on the grid.
#[derive(Clone, Copy, Debug, PartialEq, Eq, Structural)]
pub struct FoodItem {
    pub position: Position,
    pub kind: Food,
}

/// The timer that paces the growing food.
#[derive(Clone, Copy, Debug, PartialEq, Eq, Structural)]
pub struct FoodSpawnTimer(pub Timer);

/// The timer that paces the shrinking food.
#[derive(Clone, Copy, Debug, PartialEq, Eq, Structural)]
pub struct ShrinkFoodSpawnTimer(pub Timer);

/// No cell of the grid is free.
#[derive(Clone, Copy, Debug, PartialEq, Eq, Structural)]
pub struct BoardFull;

/// The cells that the foods lie on, in their order.
pub open spec fn food_cells(foods: Seq<FoodItem>) -> Seq<Position> {
    Seq::new(foods.len(), |i: int| foods[i].position)
}

/// The test that a cell is not among `occupied`.
pub open spec fn is_free(occupied: Seq<Position>) -> spec_fn(Position) -> bool {
    |cell: Position| !occupied.contains(cell)
}

/// The cells of the grid that are not among `occupied`, in row-major order.
pub open spec fn free_cells_of(grid: Grid, occupied: Seq<Position>) -> Seq<Position> {
    grid.cells().filter(is_free(occupied))
}

/// Whether every cell of the grid is among `occupied`.
pub open spec fn board_full(grid: Grid, occupied: Seq<Position>) -> bool {
    forall|cell: Position| grid.spec_contains(cell) ==> occupied.contains(cell)
}

/// The cell in column `x` of row `y` is cell number `y * width + x`.
pub proof fn lemma_cell_index(grid: Grid, x: int, y: int)
    requires
        grid.wf(),
        0 <= x < grid.width,
        0 <= y < grid.height,
    ensures
        0 <= y * grid.width + x < grid.cell_count(),
        grid.cell_at(y * grid.width + x) == (Position { x: x as i32, y: y as i32 }),
        grid.cells()[y * grid.width + x] == (Position { x: x as i32, y: y as i32 }),
{
    let w = grid.width as int;
    let h = grid.height as int;
    lemma_fundamental_div_mod_converse(y * w + x, w, y, x);
    assert(0 <= y * w && y * w + w <= h * w) by (nonlinear_arith)
        requires
            0 <= y < h,
            0 < w,
    ;
    assert(h * w == w * h) by (nonlinear_arith);
}

/// The row-major list holds exactly the cells of the grid.
pub proof fn lemma_cells_cover(grid: Grid, cell: Position)
    requires
        grid.wf(),
    ensures
        grid.cells().contains(cell) <==> grid.spec_contains(cell),
{
    let w = grid.width as int;
    let h = grid.height as int;
    if grid.spec_contains(cell) {
        lemma_cell_index(grid, cell.x as int, cell.y as int);
        assert(grid.cells()[cell.y * w + cell.x] == cell);
    }
    if grid.cells().contains(cell) {
        let i = choose|i: int| 0 <= i < grid.cells().len() && grid.cells()[i] == cell;
        assert(w > 0) by (nonlinear_arith)
            requires
                0 <= i < w * h,
                0 <= w,
        ;
        lemma_fundamental_div_mod(i, w);
        lemma_mod_bound(i, w);
        assert(0 <= i / w < h) by (nonlinear_arith)
            requires
                0 <= i < w * h,
                0 < w,
                i == w * (i / w) + i % w,
                0 <= i % w < w,
        ;
    }
}

/// No cell is free exactly when the board is full.
pub proof fn lemma_board_full(grid: Grid, occupied: Seq<Position>)
    requires
        grid.wf(),
    ensures
        free_cells_of(grid, occupied).len() == 0 <==> board_full(grid, occupied),
{
    let free = free_cells_of(grid, occupied);
    let cells = grid.cells();
    let pred = is_free(occupied);
    if free.len() == 0 {
        assert forall|cell: Position| grid.spec_contains(cell) implies occupied.contains(cell) by {
            lemma_cells_cover(grid, cell);
            if !occupied.contains(cell) {
                assert(pred(cell));
                let i = choose|i: int| 0 <= i < cells.len() && cells[i] == cell;
                cells.lemma_filter_contains(pred, i);
                assert(free.contains(cell));
            }
        }
    }
    if board_full(grid, occupied) && free.len() > 0 {
        let cell = free[0];
        cells.lemma_filter_pred(pred, 0);
        assert(pred(cell));
        cells.lemma_filter_contains_rev(pred, cell);
        lemma_cells_cover(grid, cell);
    }
}

/// A free cell lies in the grid and is not occupied.
pub proof fn lemma_free_cell(grid: Grid, occupied: Seq<Position>, i: int)
    requires
        grid.wf(),
        0 <= i < free_cells_of(grid, occupied).len(),
    ensures
        grid.spec_contains(free_cells_of(grid, occupied)[i]),
        !occupied.contains(free_cells_of(grid, occupied)[i]),
{
    let free = free_cells_of(grid, occupied);
    let pred = is_free(occupied);
    grid.cells().lemma_filter_pred(pred, i);
    assert(pred(free[i]));
    assert(free.contains(free[i]));
    grid.cells().lemma_filter_contains_rev(pred, free[i]);
    lemma_cells_cover(grid, free[i]);
}

/// Lists the cells of the grid that are not among `occupied`, row by row.
pub fn free_cells(grid: &Grid, occupied: &Vec<Position>) -> (free: Vec<Position>)
    requires
        grid.wf(),
    ensures
        free@ == free_cells_of(*grid, occupied@),
{
    let mut free: Vec<Position> = Vec::new();
    let ghost cells = grid.cells();
    let ghost pred = is_free(occupied@);
    let mut y: u32 = 0;
    while y < grid.height
        invariant
            grid.wf(),
            y <= grid.height,
            cells == grid.cells(),
            pred == is_free(occupied@),
            free@ == cells.take(y * grid.width).filter(pred),
        decreases grid.height - y,
    {
        let mut x: u32 = 0;
        while x < grid.width
            invariant
                grid.wf(),
                y < grid.height,
                x <= grid.width,
                cells == grid.cells(),
                pred == is_free(occupied@),
                free@ == cells.take(y * grid.width + x).filter(pred),
            decreases grid.width - x,
        {
            let cell = Position { x: x as i32, y: y as i32 };
            proof {
                let i = y * grid.width + x;
                lemma_cell_index(*grid, x as int, y as int);
                cells.lemma_take_succ_push(i);
                cells.take(i).lemma_filter_push(cell, pred);
            }
            if !occupies(occupied, cell) {
                free.push(cell);
            }
            x += 1;
        }
        proof {
            assert(y * grid.width + grid.width == (y + 1) * grid.width) by (nonlinear_arith);
        }
        y += 1;
    }
    proof {
        assert(grid.height * grid.width == grid.width * grid.height) by (nonlinear_arith);
        assert(cells.take(cells.len() as int) == cells);
    }
    free
}

/// The free cell that the number `draw` selects: the cells are counted round
/// and round until `draw` is reached.
pub fn pick_free_cell(free: &Vec<Position>, draw: u32) -> (r: Result<Position, BoardFull>)
    ensures
        free@.len() == 0 ==> r == Err::<Position, BoardFull>(BoardFull),
        free@.len() > 0 ==> r == Ok::<Position, BoardFull>(free@[draw as int % free@.len() as int]),
{
    if free.len() == 0 {
        Err(BoardFull)
    } else {
        Ok(free[draw as usize % free.len()])
    }
}

/// The cell that two drawn numbers select: each is reduced modulo the size
/// of the grid along its axis. An empty grid has no cell to select.
pub fn cell_of_draws(grid: &Grid, draw_x: u32, draw_y: u32) -> (r: Option<Position>)
    requires
        grid.wf(),
    ensures
        grid.cell_count() == 0 ==> r is None,
        grid.cell_count() > 0 ==> r == Some(
            Position {
                x: (draw_x as int % grid.width as int) as i32,
                y: (draw_y as int % grid.height as int) as i32,
            },
        ),
        r matches Some(cell) ==> grid.spec_contains(cell),
{
    proof {
        assert(grid.width * grid.height == 0 <==> grid.width == 0 || grid.height == 0)
            by (nonlinear_arith);
    }
    if grid.width == 0 || grid.height == 0 {
        None
    } else {
        Some(Position { x: (draw_x % grid.width) as i32, y: (draw_y % grid.height) as i32 })
    }
}

/// One number from `rand::random::<u32>()`, which asks the generator of the
/// current thread. Nothing is claimed of the number.
#[verifier::external_body]
fn random_draw() -> (draw: u32) {
    rand::random::<u32>()
}

/// A cell of the grid, drawn at random; none where the grid has no cell.
pub fn generate_random_position(grid: &Grid) -> (r: Option<Position>)
    requires
        grid.wf(),
    ensures
        r is Some <==> grid.cell_count() > 0,
        r matches Some(cell) ==> grid.spec_contains(cell),
{
    let draw_x: u32 = random_draw();
    let draw_y: u32 = random_draw();
    cell_of_draws(grid, draw_x, draw_y)
}

/// Where a new food goes once a cell and a number have been drawn: on the
/// drawn cell, if it is a free cell of the grid; else on the free cell that
/// the number selects; nowhere if no cell is free.
pub open spec fn placement(
    grid: Grid,
    occupied: Seq<Position>,
    candidate: Option<Position>,
    draw: u32,
) -> Result<Position, BoardFull> {
    let free = free_cells_of(grid, occupied);
    if candidate matches Some(cell) && grid.spec_contains(cell) && !occupied.contains(cell) {
        Ok(candidate->0)
    } else if free.len() == 0 {
        Err(BoardFull)
    } else {
        Ok(free[draw as int % free.len() as int])
    }
}

/// Whatever was drawn, a food is placed on a cell of the grid that is not
/// occupied, and none is placed exactly when the board is full.
pub proof fn lemma_placement_is_free(
    grid: Grid,
    occupied: Seq<Position>,
    candidate: Option<Position>,
    draw: u32,
)
    requires
        grid.wf(),
    ensures
        placement(grid, occupied, candidate, draw) is Err <==> board_full(grid, occupied),
        placement(grid, occupied, candidate, draw) matches Ok(cell) ==> grid.spec_contains(cell)
            && !occupied.contains(cell),
{
    let free = free_cells_of(grid, occupied);
    lemma_board_full(grid, occupied);
    if free.len() > 0 {
        lemma_mod_bound(draw as int, free.len() as int);
        lemma_free_cell(grid, occupied, draw as int % free.len() as int);
    }
}

/// Places a new food for the cell and the number drawn.
pub fn choose_position(
    positions: &Vec<Position>,
    grid: &Grid,
    candidate: Option<Position>,
    draw: u32,
) -> (r: Result<Position, BoardFull>)
    requires
        grid.wf(),
    ensures
        r == placement(*grid, positions@, candidate, draw),
{
    if let Some(cell) = candidate {
        if grid.contains(cell) && !occupies(positions, cell) {
            return Ok(cell);
        }
    }
    let free = free_cells(grid, positions);
    pick_free_cell(&free, draw)
}

/// A cell of the grid that is not among `positions`, drawn at random. Fails
/// exactly when no cell is free.
pub fn get_available_position(positions: &Vec<Position>, grid: &Grid) -> (r: Result<
    Position,
    BoardFull,
>)
    requires
        grid.wf(),
    ensures
        r is Err <==> board_full(*grid, positions@),
        r matches Ok(cell) ==> grid.spec_contains(cell) && !positions@.contains(cell),
{
    let candidate = generate_random_position(grid);
    let draw: u32 = random_draw();
    proof {
        lemma_placement_is_free(*grid, positions@, candidate, draw);
    }
    choose_position(positions, grid, candidate, draw)
}

/// The cells that the snake or a food holds: the snake's first.
pub open spec fn occupied_by(chain: Seq<Position>, foods: Seq<FoodItem>) -> Seq<Position> {
    chain + food_cells(foods)
}

/// Gathers the cells that the snake or a food holds.
pub fn occupied_cells(segments: &SnakeSegments, foods: &Vec<FoodItem>) -> (cells: Vec<Position>)
    ensures
        cells@ == occupied_by(segments@, foods@),
{
    let mut cells: Vec<Position> = Vec::new();
    let mut i: usize = 0;
    while i < segments.0.len()
        invariant
            i <= segments@.len(),
            cells@ == segments@.take(i as int),
        decreases segments@.len() - i,
    {
        cells.push(segments.0[i]);
        assert(segments@.take(i + 1) == segments@.take(i as int).push(segments@[i as int]));
        i += 1;
    }
    assert(segments@.take(segments@.len() as int) == segments@);
    let mut j: usize = 0;
    while j < foods.len()
        invariant
            j <= foods@.len(),
            cells@ == segments@ + food_cells(foods@).take(j as int),
        decreases foods@.len() - j,
    {
        cells.push(foods[j].position);
        assert(food_cells(foods@).take(j + 1) == food_cells(foods@).take(j as int).push(
            foods@[j as int].position,
        ));
        j += 1;
    }
    assert(food_cells(foods@).take(foods@.len() as int) == food_cells(foods@));
    cells
}

/// What a spawner does with the foods `before` once its timer has been
/// ticked: nothing unless the timer fired; a failure, and nothing else, where
/// the snake and the foods hold every cell; else one more food of the given
/// kind, last in the list, on a cell of the grid that neither snake nor food
/// held.
pub open spec fn spawns(
    kind: Food,
    grid: Grid,
    chain: Seq<Position>,
    before: Seq<FoodItem>,
    fired: bool,
    after: Seq<FoodItem>,
    r: Result<Option<Position>, BoardFull>,
) -> bool {
    if !fired {
        r == Ok::<Option<Position>, BoardFull>(None) && after == before
    } else if board_full(grid, occupied_by(chain, before)) {
        r == Err::<Option<Position>, BoardFull>(BoardFull) && after == before
    } else {
        &&& r matches Ok(Some(cell))
        &&& grid.spec_contains(cell)
        &&& !occupied_by(chain, before).contains(cell)
        &&& after == before.push(FoodItem { position: cell, kind })
    }
}

/// Places one food of the given kind on a free cell.
fn spawn_food(
    kind: Food,
    foods: &mut Vec<FoodItem>,
    segments: &SnakeSegments,
    grid: &Grid,
) -> (r: Result<Option<Position>, BoardFull>)
    requires
        grid.wf(),
    ensures
        spawns(kind, *grid, segments@, old(foods)@, true, final(foods)@, r),
{
    let positions = occupied_cells(segments, foods);
    match get_available_position(&positions, grid) {
        Ok(cell) => {
            foods.push(FoodItem { position: cell, kind });
            Ok(Some(cell))
        },
        Err(full) => Err(full),
    }
}

/// Ticks the timer of the growing food by `delta`, and places one where the
/// timer fires.
pub fn grow_food_spawner(
    foods: &mut Vec<FoodItem>,
    segments: &SnakeSegments,
    grid: &Grid,
    delta: u64,
    timer: &mut FoodSpawnTimer,
) -> (r: Result<Option<Position>, BoardFull>)
    requires
        grid.wf(),
    ensures
        final(timer).0 == old(timer).0.spec_tick(delta),
        spawns(
            Food::Grow,
            *grid,
            segments@,
            old(foods)@,
            final(timer).0.spec_just_finished(),
            final(foods)@,
            r,
        ),
{
    timer.0.tick(delta);
    if timer.0.just_finished() {
        spawn_food(Food::Grow, foods, segments, grid)
    } else {
        Ok(None)
    }
}

/// Ticks the timer of the shrinking food by `delta`, and places one where
/// the timer fires.
pub fn shrink_food_spawner(
    foods: &mut Vec<FoodItem>,
    segments: &SnakeSegments,
    grid: &Grid,
    delta: u64,
    timer: &mut ShrinkFoodSpawnTimer,
) -> (r: Result<Option<Position>, BoardFull>)
    requires
        grid.wf(),
    ensures
        final(timer).0 == old(timer).0.spec_tick(delta),
        spawns(
            Food::Shrink,
            *grid,
            segments@,
            old(foods)@,
            final(timer).0.spec_just_finished(),
            final(foods)@,
            r,
        ),
{
    timer.0.tick(delta);
    if timer.0.just_finished() {
        spawn_food(Food::Shrink, foods, segments, grid)
    } else {
        Ok(None)
    }
}

/// The foods once a spawner has run: with the food that it reports, if any.
pub open spec fn with_food(
    foods: Seq<FoodItem>,
    kind: Food,
    placed: Result<Option<Position>, BoardFull>,
) -> Seq<FoodItem> {
    match placed {
        Ok(Some(cell)) => foods.push(FoodItem { position: cell, kind }),
        _ => foods,
    }
}

/// The food step of a frame: the spawner of the growing food runs, then
/// that of the shrinking food, which sees what the first has placed.
pub fn food_spawner(
    foods: &mut Vec<FoodItem>,
    segments: &SnakeSegments,
    grid: &Grid,
    delta: u64,
    timer: &mut FoodSpawnTimer,
    shrink_timer: &mut ShrinkFoodSpawnTimer,
) -> (r: (Result<Option<Position>, BoardFull>, Result<Option<Position>, BoardFull>))
    requires
        grid.wf(),
    ensures
        final(timer).0 == old(timer).0.spec_tick(delta),
        final(shrink_timer).0 == old(shrink_timer).0.spec_tick(delta),
        spawns(
            Food::Grow,
            *grid,
            segments@,
            old(foods)@,
            final(timer).0.spec_just_finished(),
            with_food(old(foods)@, Food::Grow, r.0),
            r.0,
        ),
        spawns(
            Food::Shrink,
            *grid,
            segments@,
            with_food(old(foods)@, Food::Grow, r.0),
            final(shrink_timer).0.spec_just_finished(),
            final(foods)@,
            r.1,
        ),
        final(foods)@ == with_food(with_food(old(foods)@, Food::Grow, r.0), Food::Shrink, r.1),
{
    let grow = grow_food_spawner(foods, segments, grid, delta, timer);
    let shrink = shrink_food_spawner(foods, segments, grid, delta, shrink_timer);
    (grow, shrink)
}

/// A spawner places food only on a cell of the grid that neither the snake
/// nor a food holds, whatever was drawn.
pub proof fn lemma_spawns_on_free_cell(
    kind: Food,
    grid: Grid,
    chain: Seq<Position>,
    before: Seq<FoodItem>,
    fired: bool,
    after: Seq<FoodItem>,
    r: Result<Option<Position>, BoardFull>,
    cell: Position,
)
    requires
        spawns(kind, grid, chain, before, fired, after, r),
        r == Ok::<Option<Position>, BoardFull>(Some(cell)),
    ensures
        fired,
        grid.spec_contains(cell),
        !chain.contains(cell),
        forall|i: int| 0 <= i < before.len() ==> (#[trigger] before[i]).position != cell,
        after == before.push(FoodItem { position: cell, kind }),
{
    let occupied = occupied_by(chain, before);
    assert forall|i: int| 0 <= i < before.len() implies (#[trigger] before[i]).position
        != cell by {
        assert(occupied[chain.len() + i] == before[i].position);
    }
    if chain.contains(cell) {
        let i = choose|i: int| 0 <= i < chain.len() && chain[i] == cell;
        assert(occupied[i] == cell);
    }
}

} // verus!
