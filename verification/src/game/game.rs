//! The state of a whole game and the frame loop.

use vstd::prelude::*;
use crate::game::food::{
    food_cells, food_spawner, lemma_spawns_on_free_cell, spawns, with_food, BoardFull, Food,
    FoodItem, FoodSpawnTimer, ShrinkFoodSpawnTimer,
};
use crate::game::snake::{
    applied, collides, drained, eaten_by, event_of, events_of, growths, is_growing, latched,
    left_by, lemma_eats_at_most_one, lemma_filter_keeps_cells_distinct,
    lemma_step_keeps_distinct, lies_off, lies_on, moved_chain, snake_eating,
    snake_events, snake_movement, snake_movement_input, spawn_snake, spawned_chain, speed_after,
    turned, ArrowKeys, LastTailPosition, SnakeDirectionTimer, SnakeEvent, SnakeHead, SnakeSegments,
    UserInput, GROWTH_AWARD,
};
use crate::game::sound::{play_food_eaten_pitch, pitch_of, FoodEatenPitchEvent, Pitch};
use crate::timer::Timer;
use crate::utils::{Direction, Grid, Position};

verus! {

/// Raised when the head has left the grid or run into the snake.
#[derive(Clone, Copy, Debug, PartialEq, Eq, Structural)]
pub struct GameOverEvent;

/// What the player is shown: the score.
#[derive(Clone, Copy, Debug, PartialEq, Eq, Structural)]
pub struct Hud {
    pub score: u32,
}

/// Where a game stands.
#[derive(Clone, Copy, Debug, PartialEq, Eq, Structural)]
pub enum InGameState {
    /// Set up, no frame played yet.
    Spawned,
    Running,
    Paused,
    /// The snake has collided; nothing moves until the game is set up anew.
    GameOver,
}

/// The state after the pause key has been looked at: pressed, it halts a
/// running game and lets a halted one run.
pub open spec fn toggled(pressed: bool, state: InGameState) -> InGameState {
    if pressed && state == InGameState::Running {
        InGameState::Paused
    } else if pressed && state == InGameState::Paused {
        InGameState::Running
    } else {
        state
    }
}

/// Looks at the pause key.
pub fn toggle_pause(pressed: bool, state: InGameState) -> (next: InGameState)
    ensures
        next == toggled(pressed, state),
{
    if pressed {
        match state {
            InGameState::Running => InGameState::Paused,
            InGameState::Paused => InGameState::Running,
            other => other,
        }
    } else {
        state
    }
}

/// The state after the frame's collision check: a collision ends the game.
pub open spec fn ended(event: Option<GameOverEvent>, state: InGameState) -> InGameState {
    if event is Some {
        InGameState::GameOver
    } else {
        state
    }
}

/// Ends the game if the snake has collided.
pub fn game_over(event: Option<GameOverEvent>, state: InGameState) -> (next: InGameState)
    ensures
        next == ended(event, state),
{
    if event.is_some() {
        InGameState::GameOver
    } else {
        state
    }
}

/// The interval at which growing food appears, in nanoseconds.
pub const FOOD_SPAWN_INTERVAL: u64 = 2_000_000_000;

/// The snake's step interval at the start of a game, in nanoseconds.
pub const SNAKE_STEP_INTERVAL: u64 = 200_000_000;

/// All that a game holds.
#[derive(Debug)]
pub struct Game {
    pub grid: Grid,
    pub state: InGameState,
    pub segments: SnakeSegments,
    pub head: SnakeHead,
    pub user_input: UserInput,
    pub last_tail_position: LastTailPosition,
    pub foods: Vec<FoodItem>,
    pub hud: Hud,
    pub snake_timer: SnakeDirectionTimer,
    pub food_timer: FoodSpawnTimer,
    pub shrink_food_timer: ShrinkFoodSpawnTimer,
}

/// A game as the contracts see it: the lists as sequences.
#[verifier::ext_equal]
pub struct GameView {
    pub grid: Grid,
    pub state: InGameState,
    pub segments: Seq<Position>,
    pub head: SnakeHead,
    pub user_input: UserInput,
    pub last_tail_position: LastTailPosition,
    pub foods: Seq<FoodItem>,
    pub hud: Hud,
    pub snake_timer: SnakeDirectionTimer,
    pub food_timer: FoodSpawnTimer,
    pub shrink_food_timer: ShrinkFoodSpawnTimer,
}

impl View for Game {
    type V = GameView;

    open spec fn view(&self) -> GameView {
        GameView {
            grid: self.grid,
            state: self.state,
            segments: self.segments@,
            head: self.head,
            user_input: self.user_input,
            last_tail_position: self.last_tail_position,
            foods: self.foods@,
            hud: self.hud,
            snake_timer: self.snake_timer,
            food_timer: self.food_timer,
            shrink_food_timer: self.shrink_food_timer,
        }
    }
}

/// What one frame brings from outside: the time gone by since the frame
/// before, in nanoseconds, the arrow keys held down, and whether the pause
/// key has just been pressed.
#[derive(Clone, Copy, Debug, PartialEq, Eq, Structural)]
pub struct Frame {
    pub delta: u64,
    pub keys: ArrowKeys,
    pub toggle_pause: bool,
}

/// What one frame hands back for the outside to show and play.
#[derive(Debug)]
pub struct Outcome {
    /// Raised in the frame in which the snake collides.
    pub game_over: Option<GameOverEvent>,
    /// The tones to play, one for each growing food eaten.
    pub pitches: Vec<Pitch>,
    /// The cell of the growing food placed in this frame, or the failure to
    /// place it.
    pub grow_food: Result<Option<Position>, BoardFull>,
    /// The same for the shrinking food.
    pub shrink_food: Result<Option<Position>, BoardFull>,
}

/// A game as it is set up: a fresh snake heading up, no food, no score, all
/// timers at their start.
pub open spec fn initial(grid: Grid, shrink_food_interval: u64) -> GameView {
    GameView {
        grid,
        state: InGameState::Spawned,
        segments: spawned_chain(),
        head: SnakeHead { direction: Direction::Up },
        user_input: UserInput { direction: Direction::Up },
        last_tail_position: LastTailPosition(None),
        foods: Seq::empty(),
        hud: Hud { score: 0 },
        snake_timer: SnakeDirectionTimer(
            Timer { duration: SNAKE_STEP_INTERVAL, elapsed: 0, times_finished_this_tick: 0 },
        ),
        food_timer: FoodSpawnTimer(
            Timer { duration: FOOD_SPAWN_INTERVAL, elapsed: 0, times_finished_this_tick: 0 },
        ),
        shrink_food_timer: ShrinkFoodSpawnTimer(
            Timer { duration: shrink_food_interval, elapsed: 0, times_finished_this_tick: 0 },
        ),
    }
}

/// Whether the simulation runs in a frame that starts in `state`.
pub open spec fn simulates(state: InGameState) -> bool {
    state == InGameState::Spawned || state == InGameState::Running
}

/// Whether all the cells lie in the grid.
pub open spec fn all_within(grid: Grid, cells: Seq<Position>) -> bool {
    forall|i: int| 0 <= i < cells.len() ==> grid.spec_contains(#[trigger] cells[i])
}

/// The tones for `count` growing foods.
pub open spec fn growth_tones(count: nat) -> Seq<Pitch> {
    Seq::new(count, |i: int| pitch_of(FoodEatenPitchEvent(Food::Grow)))
}

/// What the rules make of a game in one frame of simulation, before new
/// food is placed and the pause key is looked at. In this order: the
/// player's wish is latched and the head turned; the snake eats what lies
/// under its head; it grows and shrinks for what it ate; the step timer is
/// ticked and, where it fires, the snake moves; a collision ends the game.
/// The food timers are ticked too.
pub open spec fn simulated(game: GameView, frame: Frame) -> GameView {
    let user_input = UserInput { direction: latched(frame.keys, game.user_input.direction) };
    let head = SnakeHead { direction: turned(game.head.direction, user_input.direction) };
    let eaten = eaten_by(game.segments, game.foods);
    let score = (game.hud.score + GROWTH_AWARD * growths(eaten)) as u32;
    let fed = drained(game.segments, game.last_tail_position, events_of(eaten));
    let snake_timer = SnakeDirectionTimer(
        speed_after(game.snake_timer, growths(eaten), score).0.spec_tick(frame.delta),
    );
    let moves = snake_timer.0.spec_just_finished() && fed.len() > 0;
    GameView {
        grid: game.grid,
        state: if moves && collides(fed, head.direction, game.grid) {
            InGameState::GameOver
        } else {
            InGameState::Running
        },
        segments: if moves {
            moved_chain(fed, head.direction)
        } else {
            fed
        },
        head,
        user_input,
        last_tail_position: if moves {
            LastTailPosition(Some(fed.last()))
        } else {
            game.last_tail_position
        },
        foods: left_by(game.segments, game.foods),
        hud: Hud { score },
        snake_timer,
        food_timer: FoodSpawnTimer(game.food_timer.0.spec_tick(frame.delta)),
        shrink_food_timer: ShrinkFoodSpawnTimer(game.shrink_food_timer.0.spec_tick(frame.delta)),
    }
}

/// What one frame makes of a game, and what it hands back. A game that is
/// over stays as it is, and a halted one changes only by the pause key.
/// Else the rules are applied; then the spawner of the growing food runs,
/// and that of the shrinking food after it; last the pause key is looked at.
pub open spec fn plays(before: GameView, frame: Frame, after: GameView, out: Outcome) -> bool {
    if simulates(before.state) {
        let mid = simulated(before, frame);
        let between = with_food(mid.foods, Food::Grow, out.grow_food);
        &&& after == GameView {
            state: toggled(frame.toggle_pause, mid.state),
            foods: with_food(between, Food::Shrink, out.shrink_food),
            ..mid
        }
        &&& out.game_over is Some <==> mid.state == InGameState::GameOver
        &&& out.pitches@ == growth_tones(growths(eaten_by(before.segments, before.foods)))
        &&& spawns(
            Food::Grow,
            mid.grid,
            mid.segments,
            mid.foods,
            mid.food_timer.0.spec_just_finished(),
            between,
            out.grow_food,
        )
        &&& spawns(
            Food::Shrink,
            mid.grid,
            mid.segments,
            between,
            mid.shrink_food_timer.0.spec_just_finished(),
            after.foods,
            out.shrink_food,
        )
    } else {
        &&& after == GameView { state: toggled(frame.toggle_pause, before.state), ..before }
        &&& out.game_over is None
        &&& out.pitches@.len() == 0
        &&& out.grow_food == Ok::<Option<Position>, BoardFull>(None)
        &&& out.shrink_food == Ok::<Option<Position>, BoardFull>(None)
    }
}

/// Growing and shrinking keep the snake in the grid, as long as the cell
/// that the tail left last lies in it.
pub proof fn lemma_drained_within(
    grid: Grid,
    chain: Seq<Position>,
    last_tail_position: LastTailPosition,
    events: Seq<SnakeEvent>,
)
    requires
        all_within(grid, chain),
        last_tail_position.0 matches Some(cell) ==> grid.spec_contains(cell),
    ensures
        all_within(grid, drained(chain, last_tail_position, events)),
    decreases events.len(),
{
    if events.len() > 0 {
        lemma_drained_within(grid, chain, last_tail_position, events.drop_last());
    }
}

impl Game {
    /// What holds of a game between frames: its grid has room for a fresh
    /// snake, and until the game is over the snake, and the cell that its
    /// tail left last, lie in the grid.
    pub open spec fn wf(&self) -> bool {
        &&& self.grid.wf()
        &&& all_within(self.grid, spawned_chain())
        &&& self.state != InGameState::GameOver ==> all_within(self.grid, self.segments@)
        &&& self.state != InGameState::GameOver ==> (self.last_tail_position.0 matches Some(cell)
            ==> self.grid.spec_contains(cell))
    }

    /// Whether the score has room for what the snake eats in the next frame.
    pub open spec fn can_score(&self) -> bool {
        simulates(self.state) ==> self.hud.score + GROWTH_AWARD * growths(
            eaten_by(self.segments@, self.foods@),
        ) <= u32::MAX
    }

    /// Tests what `update` asks of a game.
    pub fn is_ready(&self) -> (r: bool)
        ensures
            r == (self.wf() && self.can_score()),
    {
        let head_cell = Position { x: 3, y: 3 };
        let tail_cell = Position { x: 3, y: 2 };
        assert(spawned_chain()[0] == head_cell && spawned_chain()[1] == tail_cell);
        if self.grid.width > 0x7fff_ffff || self.grid.height > 0x7fff_ffff {
            return false;
        }
        if !self.grid.contains(head_cell) || !self.grid.contains(tail_cell) {
            return false;
        }
        if self.state == InGameState::GameOver {
            return true;
        }
        if !within(&self.grid, &self.segments.0) {
            return false;
        }
        if let Some(cell) = self.last_tail_position.0 {
            if !self.grid.contains(cell) {
                return false;
            }
        }
        if self.state == InGameState::Paused {
            return true;
        }
        let grown: usize = growths_under_head(&self.segments, &self.foods);
        self.hud.score as u128 + GROWTH_AWARD as u128 * (grown as u128) <= 0xffff_ffff
    }

    /// Plays one frame, as `update` does, where the game is fit for it, and
    /// else leaves it as it is.
    pub fn try_update(&mut self, frame: &Frame) -> (r: Option<Outcome>)
        ensures
            r is Some <==> old(self).wf() && old(self).can_score(),
            r is None ==> final(self)@ == old(self)@,
            r matches Some(out) ==> final(self).wf() && plays(
                old(self)@,
                *frame,
                final(self)@,
                out,
            ),
            orderly(old(self)@) && final(self).state != InGameState::GameOver ==> orderly(
                final(self)@,
            ),
    {
        if self.is_ready() {
            Some(self.update(frame))
        } else {
            None
        }
    }

    /// Sets a game up on `grid`, with shrinking food appearing every
    /// `shrink_food_interval` nanoseconds. There is none where the grid has
    /// no room for the fresh snake.
    pub fn new(grid: Grid, shrink_food_interval: u64) -> (r: Option<Game>)
        requires
            grid.wf(),
        ensures
            r is Some <==> all_within(grid, spawned_chain()),
            r matches Some(game) ==> game@ == initial(grid, shrink_food_interval) && game.wf()
                && orderly(game@),
    {
        let head_cell = Position { x: 3, y: 3 };
        let tail_cell = Position { x: 3, y: 2 };
        assert(spawned_chain()[0] == head_cell && spawned_chain()[1] == tail_cell);
        if grid.contains(head_cell) && grid.contains(tail_cell) {
            let mut game = init_game_resources(grid, shrink_food_interval);
            game.spawn();
            Some(game)
        } else {
            None
        }
    }

    /// Sets the game up anew on its grid.
    pub fn reset(&mut self)
        requires
            old(self).wf(),
        ensures
            final(self)@ == initial(old(self).grid, old(self).shrink_food_timer.0.duration),
            final(self).wf(),
            orderly(final(self)@),
    {
        *self = init_game_resources(self.grid, self.shrink_food_timer.0.duration);
        self.spawn();
    }

    /// Puts a fresh snake into the game, heading up.
    fn spawn(&mut self)
        ensures
            final(self)@ == (GameView {
                segments: spawned_chain(),
                head: SnakeHead { direction: Direction::Up },
                user_input: UserInput { direction: Direction::Up },
                ..old(self)@
            }),
    {
        let (head, user_input) = spawn_snake(&mut self.segments);
        self.head = head;
        self.user_input = user_input;
    }

    /// Plays one frame. A game that is over stays as it is; a halted one only
    /// looks at the pause key. Else the rules are applied, then a growing and
    /// a shrinking food are placed where their timers fire, and last the
    /// pause key is looked at.
    pub fn update(&mut self, frame: &Frame) -> (out: Outcome)
        requires
            old(self).wf(),
            old(self).can_score(),
        ensures
            final(self).wf(),
            plays(old(self)@, *frame, final(self)@, out),
            orderly(old(self)@) && final(self).state != InGameState::GameOver ==> orderly(
                final(self)@,
            ),
    {
        let mut out = Outcome {
            game_over: None,
            pitches: Vec::new(),
            grow_food: Ok(None),
            shrink_food: Ok(None),
        };
        if self.state == InGameState::Spawned {
            self.state = InGameState::Running;
        }
        if self.state == InGameState::Running {
            snake_movement_input(&frame.keys, &mut self.user_input, &mut self.head);
            let mut pitch_events: Vec<FoodEatenPitchEvent> = Vec::new();
            let events = snake_eating(
                &mut pitch_events,
                &mut self.foods,
                &self.segments,
                &mut self.snake_timer,
                &mut self.hud,
            );
            proof {
                lemma_drained_within(
                    self.grid,
                    self.segments@,
                    self.last_tail_position,
                    events@,
                );
            }
            snake_events(&events, &self.last_tail_position, &mut self.segments);
            out.game_over = snake_movement(
                &mut self.segments,
                &self.head,
                &self.grid,
                frame.delta,
                &mut self.snake_timer,
                &mut self.last_tail_position,
            );
            out.pitches = play_food_eaten_pitch(&pitch_events);
            self.state = game_over(out.game_over, self.state);
            let placed = food_spawner(
                &mut self.foods,
                &self.segments,
                &self.grid,
                frame.delta,
                &mut self.food_timer,
                &mut self.shrink_food_timer,
            );
            out.grow_food = placed.0;
            out.shrink_food = placed.1;
            proof {
                assert(out.pitches@ =~= growth_tones(
                    growths(eaten_by(old(self).segments@, old(self).foods@)),
                ));
            }
        }
        self.state = toggle_pause(frame.toggle_pause, self.state);
        proof {
            if orderly(old(self)@) {
                lemma_frame_keeps_order(old(self)@, *frame, self@, out);
            }
        }
        out
    }
}

/// Sets up what a game holds before its snake is spawned: no segment and no
/// food, no score, no cell that a tail has left, head and wish pointing up,
/// and all timers at their start. `spawn_snake` puts the snake in.
pub fn init_game_resources(grid: Grid, shrink_food_interval: u64) -> (game: Game)
    ensures
        game@ == (GameView { segments: Seq::empty(), ..initial(grid, shrink_food_interval) }),
{
    Game {
        grid,
        state: InGameState::Spawned,
        segments: SnakeSegments::default(),
        head: SnakeHead { direction: Direction::Up },
        user_input: UserInput { direction: Direction::Up },
        last_tail_position: LastTailPosition::default(),
        foods: Vec::new(),
        hud: Hud { score: 0 },
        snake_timer: SnakeDirectionTimer(Timer::new(SNAKE_STEP_INTERVAL)),
        food_timer: FoodSpawnTimer(Timer::new(FOOD_SPAWN_INTERVAL)),
        shrink_food_timer: ShrinkFoodSpawnTimer(Timer::new(shrink_food_interval)),
    }
}

/// In a frame of simulation whose step timer fires, a wish for any
/// direction but the reverse of the head's is followed: the head moves to
/// the neighbouring cell in that direction, every other segment takes the
/// cell of the one ahead of it, and the cell that the tail held is recorded.
/// The chain that moves is the one that eating has left. The head's new
/// coordinates are the old ones changed by one wherever they fit the
/// coordinate type.
pub proof fn lemma_frame_moves_snake(game: GameView, frame: Frame)
    requires
        latched(frame.keys, game.user_input.direction) != game.head.direction.spec_opposite(),
        simulated(game, frame).snake_timer.0.spec_just_finished(),
        drained(
            game.segments,
            game.last_tail_position,
            events_of(eaten_by(game.segments, game.foods)),
        ).len() > 0,
    ensures
        ({
            let wanted = latched(frame.keys, game.user_input.direction);
            let fed = drained(
                game.segments,
                game.last_tail_position,
                events_of(eaten_by(game.segments, game.foods)),
            );
            let after = simulated(game, frame);
            &&& after.head.direction == wanted
            &&& after.segments.len() == fed.len()
            &&& after.segments[0] == fed[0].spec_step(wanted)
            &&& fed[0].can_step(wanted) ==> after.segments[0].x == fed[0].x + wanted.dx()
                && after.segments[0].y == fed[0].y + wanted.dy()
            &&& forall|i: int| 1 <= i < fed.len() ==> after.segments[i] == fed[i - 1]
            &&& after.last_tail_position == LastTailPosition(Some(fed.last()))
            &&& after.state == InGameState::GameOver <==> collides(fed, wanted, game.grid)
        }),
{
}

/// A frame of simulation never lowers the score.
pub proof fn lemma_score_never_falls(game: GameView, frame: Frame)
    requires
        game.hud.score + GROWTH_AWARD * growths(eaten_by(game.segments, game.foods)) <= u32::MAX,
    ensures
        simulated(game, frame).hud.score >= game.hud.score,
{
}

/// Tests whether all the cells lie in the grid.
pub fn within(grid: &Grid, cells: &Vec<Position>) -> (r: bool)
    ensures
        r == all_within(*grid, cells@),
{
    let mut i: usize = 0;
    while i < cells.len()
        invariant
            i <= cells@.len(),
            forall|k: int| 0 <= k < i ==> grid.spec_contains(#[trigger] cells@[k]),
        decreases cells@.len() - i,
    {
        if !grid.contains(cells[i]) {
            return false;
        }
        i += 1;
    }
    true
}

/// Counts the growing foods that lie under the snake's head.
pub fn growths_under_head(segments: &SnakeSegments, foods: &Vec<FoodItem>) -> (count: usize)
    ensures
        count == growths(eaten_by(segments@, foods@)),
{
    if segments.0.len() == 0 {
        assert(Seq::<FoodItem>::empty().filter(is_growing()).len() == 0) by {
            Seq::<FoodItem>::empty().lemma_filter_len(is_growing());
        }
        return 0;
    }
    let head = segments.0[0];
    let ghost mut eaten: Seq<FoodItem> = Seq::empty();
    let mut count: usize = 0;
    let mut i: usize = 0;
    proof {
        assert(foods@.take(0) =~= Seq::empty());
        Seq::<FoodItem>::empty().lemma_filter_len(lies_on(head));
        Seq::<FoodItem>::empty().lemma_filter_len(is_growing());
    }
    while i < foods.len()
        invariant
            i <= foods@.len(),
            eaten == foods@.take(i as int).filter(lies_on(head)),
            count == growths(eaten),
            count <= i,
        decreases foods@.len() - i,
    {
        let food = foods[i];
        proof {
            foods@.lemma_take_succ_push(i as int);
            foods@.take(i as int).lemma_filter_push(food, lies_on(head));
        }
        if food.position == head {
            proof {
                eaten.lemma_filter_push(food, is_growing());
                eaten = eaten.push(food);
            }
            if food.kind == Food::Grow {
                count += 1;
            }
        }
        i += 1;
    }
    proof {
        assert(foods@.take(foods@.len() as int) == foods@);
    }
    count
}

/// A frame moves a game only along these lines: a game that is over stays
/// as it is; a halted one stays halted, or runs again if the pause key was
/// pressed, and nothing else of it changes; a game set up or running is
/// over after the frame exactly if the snake collided in it, and else runs
/// on, or is halted if the pause key was pressed. No frame leads back to the
/// state of a game just set up.
pub proof fn lemma_frame_follows_states(
    before: GameView,
    frame: Frame,
    after: GameView,
    out: Outcome,
)
    requires
        plays(before, frame, after, out),
    ensures
        before.state == InGameState::GameOver ==> after == before,
        before.state == InGameState::Paused ==> after == (GameView {
            state: if frame.toggle_pause {
                InGameState::Running
            } else {
                InGameState::Paused
            },
            ..before
        }),
        simulates(before.state) ==> after.state == if out.game_over is Some {
            InGameState::GameOver
        } else if frame.toggle_pause {
            InGameState::Paused
        } else {
            InGameState::Running
        },
        after.state != InGameState::Spawned,
{
}

/// A game in good order: no two segments of the snake share a cell, no two
/// foods do, and where a food lies under the head, the cell that the tail
/// left last is free of the snake, so that growing on it keeps the segments
/// apart.
pub open spec fn orderly(game: GameView) -> bool {
    &&& game.segments.no_duplicates()
    &&& food_cells(game.foods).no_duplicates()
    &&& game.segments.len() > 0 && food_cells(game.foods).contains(game.segments[0]) ==> (
        game.last_tail_position.0 matches Some(cell) ==> !game.segments.contains(cell))
}

/// A game as it is set up is in good order.
pub proof fn lemma_initial_is_orderly(grid: Grid, shrink_food_interval: u64)
    ensures
        orderly(initial(grid, shrink_food_interval)),
{
}

/// In a game in good order the snake eats at most one food in a frame, and
/// is in good order once it has grown or shrunk for it: its segments lie
/// apart, its head is where it was, and the foods left lie apart and off the
/// head.
proof fn lemma_fed_is_orderly(game: GameView)
    requires
        orderly(game),
    ensures
        ({
            let eaten = eaten_by(game.segments, game.foods);
            let left = left_by(game.segments, game.foods);
            let fed = drained(game.segments, game.last_tail_position, events_of(eaten));
            &&& fed.no_duplicates()
            &&& fed.len() > 0 ==> game.segments.len() > 0 && fed[0] == game.segments[0]
            &&& food_cells(left).no_duplicates()
            &&& game.segments.len() > 0 ==> !food_cells(left).contains(game.segments[0])
        }),
{
    let chain = game.segments;
    let eaten = eaten_by(chain, game.foods);
    let left = left_by(chain, game.foods);
    let events = events_of(eaten);
    if chain.len() == 0 {
        assert(events.len() == 0);
    } else {
        let head = chain[0];
        lemma_eats_at_most_one(game.foods, head);
        lemma_filter_keeps_cells_distinct(game.foods, lies_off(head));
        if food_cells(left).contains(head) {
            let i = choose|i: int| 0 <= i < left.len() && food_cells(left)[i] == head;
            game.foods.lemma_filter_pred(lies_off(head), i);
        }
        if eaten.len() == 1 {
            let food = eaten[0];
            assert(events.drop_last().len() == 0);
            assert(drained(chain, game.last_tail_position, events.drop_last()) == chain);
            assert(events.last() == event_of(food));
            game.foods.lemma_filter_pred(lies_on(head), 0);
            assert(eaten.contains(food));
            game.foods.lemma_filter_contains_rev(lies_on(head), food);
            let k = choose|k: int| 0 <= k < game.foods.len() && game.foods[k] == food;
            assert(food_cells(game.foods)[k] == head);
            let fed = drained(chain, game.last_tail_position, events);
            assert(fed == applied(chain, game.last_tail_position, event_of(food)));
            match food.kind {
                Food::Grow => {
                    if let Some(cell) = game.last_tail_position.0 {
                        assert(!chain.contains(cell));
                        assert forall|i: int, j: int|
                            0 <= i < fed.len() && 0 <= j < fed.len() && i != j implies fed[i]
                            != fed[j] by {
                            if i < chain.len() {
                                assert(chain.contains(chain[i]));
                            }
                            if j < chain.len() {
                                assert(chain.contains(chain[j]));
                            }
                        }
                    }
                },
                Food::Shrink => {},
            }
        } else {
            assert(events.len() == 0);
        }
    }
}

/// Good order lasts: a frame played on a game in good order leaves it in
/// good order, unless the snake collides in it. So the segments of a snake
/// never share a cell while the game goes on, and neither do the foods,
/// whatever is drawn when food is placed.
pub proof fn lemma_frame_keeps_order(before: GameView, frame: Frame, after: GameView, out: Outcome)
    requires
        orderly(before),
        plays(before, frame, after, out),
    ensures
        after.state != InGameState::GameOver ==> orderly(after),
{
    if simulates(before.state) {
        let mid = simulated(before, frame);
        let fed = drained(
            before.segments,
            before.last_tail_position,
            events_of(eaten_by(before.segments, before.foods)),
        );
        let left = left_by(before.segments, before.foods);
        let between = with_food(left, Food::Grow, out.grow_food);
        lemma_fed_is_orderly(before);
        if after.state != InGameState::GameOver {
            let moves = mid.snake_timer.0.spec_just_finished() && fed.len() > 0;
            if moves {
                lemma_step_keeps_distinct(fed, mid.head.direction, before.grid);
            }
            assert(mid.segments.no_duplicates());
            assert(!moves && mid.segments.len() > 0 ==> !food_cells(left).contains(mid.segments[0]));
            lemma_placing_keeps_order(
                Food::Grow,
                mid.grid,
                mid.segments,
                left,
                mid.food_timer.0.spec_just_finished(),
                between,
                out.grow_food,
            );
            lemma_placing_keeps_order(
                Food::Shrink,
                mid.grid,
                mid.segments,
                between,
                mid.shrink_food_timer.0.spec_just_finished(),
                after.foods,
                out.shrink_food,
            );
            if after.segments.len() > 0 && food_cells(after.foods).contains(after.segments[0]) {
                let head = after.segments[0];
                assert(mid.segments.contains(head));
                if !moves {
                    assert(food_cells(between).contains(head));
                    assert(food_cells(left).contains(head));
                }
            }
        }
    }
}

/// A spawner keeps the foods apart, and puts none on the snake.
proof fn lemma_placing_keeps_order(
    kind: Food,
    grid: Grid,
    chain: Seq<Position>,
    before: Seq<FoodItem>,
    fired: bool,
    after: Seq<FoodItem>,
    r: Result<Option<Position>, BoardFull>,
)
    requires
        spawns(kind, grid, chain, before, fired, after, r),
        food_cells(before).no_duplicates(),
    ensures
        food_cells(after).no_duplicates(),
        forall|cell: Position|
            chain.contains(cell) && food_cells(after).contains(cell) ==> food_cells(
                before,
            ).contains(cell),
{
    if let Ok(Some(placed)) = r {
        lemma_spawns_on_free_cell(kind, grid, chain, before, fired, after, r, placed);
        assert forall|i: int, j: int|
            0 <= i < after.len() && 0 <= j < after.len() && i != j implies food_cells(after)[i]
            != food_cells(after)[j] by {
            if i < before.len() {
                assert(food_cells(before)[i] == before[i].position);
            }
            if j < before.len() {
                assert(food_cells(before)[j] == before[j].position);
            }
        }
        assert forall|cell: Position|
            chain.contains(cell) && food_cells(after).contains(cell) implies food_cells(
            before,
        ).contains(cell) by {
            let i = choose|i: int| 0 <= i < after.len() && food_cells(after)[i] == cell;
            if i < before.len() {
                assert(food_cells(before)[i] == cell);
            }
        }
    }
}

} // verus!
