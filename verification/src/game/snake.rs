//! The snake: a chain of cells, head first, that advances one cell per tick.

use vstd::prelude::*;
use crate::game::food::{food_cells, Food, FoodItem};
use crate::game::game::{GameOverEvent, Hud};
use crate::game::sound::FoodEatenPitchEvent;
use crate::timer::Timer;
use crate::utils::{occupies, Direction, Grid, Position};

verus! {

/// The cells of the snake, head first.
#[derive(Debug)]
pub struct SnakeSegments(pub Vec<Position>);

impl Default for SnakeSegments {
    /// A snake without segments.
    fn default() -> (r: SnakeSegments)
        ensures
            r@ == Seq::<Position>::empty(),
    {
        SnakeSegments(Vec::new())
    }
}

impl View for SnakeSegments {
    type V = Seq<Position>;

    open spec fn view(&self) -> Seq<Position> {
        self.0@
    }
}

/// The cell that the tail left when the snake last moved.
#[derive(Clone, Copy, Debug, PartialEq, Eq, Structural)]
pub struct LastTailPosition(pub Option<Position>);

impl Default for LastTailPosition {
    /// No cell: the snake has not moved yet.
    fn default() -> (r: LastTailPosition)
        ensures
            r == LastTailPosition(None),
    {
        LastTailPosition(None)
    }
}

/// The timer whose interval is one step of the snake.
#[derive(Clone, Copy, Debug, PartialEq, Eq, Structural)]
pub struct SnakeDirectionTimer(pub Timer);

/// The direction in which the head moves at the next step.
#[derive(Clone, Copy, Debug, PartialEq, Eq, Structural)]
pub struct SnakeHead {
    pub direction: Direction,
}

/// The direction that the player asked for last.
#[derive(Clone, Copy, Debug, PartialEq, Eq, Structural)]
pub struct UserInput {
    pub direction: Direction,
}

/// The chain after one step in direction `d`: the head on the neighbouring
/// cell, every other segment on the cell that the one ahead of it held.
pub open spec fn moved_chain(chain: Seq<Position>, d: Direction) -> Seq<Position>
    recommends
        chain.len() > 0,
{
    seq![chain[0].spec_step(d)] + chain.drop_last()
}

/// Whether a step in direction `d` ends the game: the head leaves the grid,
/// or lands on a cell that the snake held before the step.
pub open spec fn collides(chain: Seq<Position>, d: Direction, grid: Grid) -> bool
    recommends
        chain.len() > 0,
{
    !grid.spec_contains(chain[0].spec_step(d)) || chain.contains(chain[0].spec_step(d))
}

/// Moves the snake one step in `direction` and records the cell that the tail
/// left. An empty snake has no head and stays as it is.
pub fn advance(
    segments: &mut SnakeSegments,
    direction: Direction,
    grid: &Grid,
    last_tail_position: &mut LastTailPosition,
) -> (game_over: Option<GameOverEvent>)
    requires
        old(segments)@.len() > 0 ==> old(segments)@[0].can_step(direction),
    ensures
        old(segments)@.len() == 0 ==> final(segments)@ == old(segments)@
            && *final(last_tail_position) == *old(last_tail_position) && game_over is None,
        old(segments)@.len() > 0 ==> final(segments)@ == moved_chain(old(segments)@, direction)
            && *final(last_tail_position) == LastTailPosition(Some(old(segments)@.last()))
            && (game_over is Some <==> collides(old(segments)@, direction, *grid)),
{
    let n: usize = segments.0.len();
    if n == 0 {
        return None;
    }
    let ghost before = segments.0@;
    let new_head = segments.0[0].step(direction);
    *last_tail_position = LastTailPosition(Some(segments.0[n - 1]));
    let collided = !grid.contains(new_head) || occupies(&segments.0, new_head);
    let mut i: usize = n - 1;
    while i > 0
        invariant
            i < n,
            segments.0@.len() == n,
            before.len() == n,
            forall|k: int| 0 <= k <= i ==> segments.0@[k] == before[k],
            forall|k: int| i < k < n ==> segments.0@[k] == before[k - 1],
        decreases i,
    {
        let ahead = segments.0[i - 1];
        segments.0.set(i, ahead);
        i -= 1;
    }
    segments.0.set(0, new_head);
    assert(segments.0@ =~= moved_chain(before, direction));
    if collided {
        Some(GameOverEvent)
    } else {
        None
    }
}

/// Ticks the snake's timer by `delta` and, where it fires, moves the snake
/// one step the way the head points.
pub fn snake_movement(
    segments: &mut SnakeSegments,
    head: &SnakeHead,
    grid: &Grid,
    delta: u64,
    timer: &mut SnakeDirectionTimer,
    last_tail_position: &mut LastTailPosition,
) -> (game_over: Option<GameOverEvent>)
    requires
        old(timer).0.spec_tick(delta).spec_just_finished() && old(segments)@.len() > 0 ==> old(
            segments,
        )@[0].can_step(head.direction),
    ensures
        final(timer).0 == old(timer).0.spec_tick(delta),
        !final(timer).0.spec_just_finished() || old(segments)@.len() == 0 ==> final(segments)@
            == old(segments)@ && *final(last_tail_position) == *old(last_tail_position)
            && game_over is None,
        final(timer).0.spec_just_finished() && old(segments)@.len() > 0 ==> final(segments)@
            == moved_chain(old(segments)@, head.direction) && *final(last_tail_position)
            == LastTailPosition(Some(old(segments)@.last())) && (game_over is Some <==> collides(
            old(segments)@,
            head.direction,
            *grid,
        )),
{
    timer.0.tick(delta);
    if timer.0.just_finished() {
        advance(segments, head.direction, grid, last_tail_position)
    } else {
        None
    }
}

/// Which arrow keys are held down.
#[derive(Clone, Copy, Debug, PartialEq, Eq, Structural)]
pub struct ArrowKeys {
    pub left: bool,
    pub right: bool,
    pub down: bool,
    pub up: bool,
}

/// The direction asked for once the keys have been read: that of the key
/// held down, left before right before down before up, and else the one
/// asked for before.
pub open spec fn latched(keys: ArrowKeys, held: Direction) -> Direction {
    if keys.left {
        Direction::Left
    } else if keys.right {
        Direction::Right
    } else if keys.down {
        Direction::Down
    } else if keys.up {
        Direction::Up
    } else {
        held
    }
}

/// The direction of a head that points to `current` and is asked to point to
/// `wanted`: a turn back on itself is refused.
pub open spec fn turned(current: Direction, wanted: Direction) -> Direction {
    if wanted != current.spec_opposite() {
        wanted
    } else {
        current
    }
}

/// Latches the player's latest wish and turns the head to it, unless that
/// is the reverse of where the head points.
pub fn snake_movement_input(keys: &ArrowKeys, user_input: &mut UserInput, head: &mut SnakeHead)
    ensures
        final(user_input).direction == latched(*keys, old(user_input).direction),
        final(head).direction == turned(old(head).direction, final(user_input).direction),
{
    if keys.left {
        user_input.direction = Direction::Left;
    } else if keys.right {
        user_input.direction = Direction::Right;
    } else if keys.down {
        user_input.direction = Direction::Down;
    } else if keys.up {
        user_input.direction = Direction::Up;
    }
    if user_input.direction != head.direction.opposite() {
        head.direction = user_input.direction;
    }
}

/// The snake as it enters the game: two segments, the head above the tail.
pub open spec fn spawned_chain() -> Seq<Position> {
    seq![Position { x: 3, y: 3 }, Position { x: 3, y: 2 }]
}

/// Puts a fresh snake in place of the old one, heading up.
pub fn spawn_snake(segments: &mut SnakeSegments) -> (r: (SnakeHead, UserInput))
    ensures
        final(segments)@ == spawned_chain(),
        r.0.direction == Direction::Up,
        r.1.direction == Direction::Up,
{
    let mut chain: Vec<Position> = Vec::new();
    chain.push(Position { x: 3, y: 3 });
    segments.0 = chain;
    spawn_segment(segments, Position { x: 3, y: 2 });
    assert(segments@ =~= spawned_chain());
    (SnakeHead { direction: Direction::Up }, UserInput { direction: Direction::Up })
}

/// Adds a segment on `position` behind the tail.
pub fn spawn_segment(segments: &mut SnakeSegments, position: Position)
    ensures
        final(segments)@ == old(segments)@.push(position),
{
    segments.0.push(position);
}

/// Raised for each growing food eaten.
#[derive(Clone, Copy, Debug, PartialEq, Eq, Structural)]
pub struct GrowthEvent;

/// Raised for each shrinking food eaten.
#[derive(Clone, Copy, Debug, PartialEq, Eq, Structural)]
pub struct ShrinkEvent;

/// What eating one food asks of the snake.
#[derive(Clone, Copy, Debug, PartialEq, Eq, Structural)]
pub enum SnakeEvent {
    Growth(GrowthEvent),
    Shrink(ShrinkEvent),
}

/// The chain after one growth: a segment more, on the cell that the tail
/// left last; the same chain where the snake has not moved yet.
pub open spec fn grown(chain: Seq<Position>, last_tail_position: LastTailPosition) -> Seq<
    Position,
> {
    match last_tail_position.0 {
        Some(cell) => chain.push(cell),
        None => chain,
    }
}

/// The chain after one shrinking: without its last segment, if it has one.
pub open spec fn shrunk(chain: Seq<Position>) -> Seq<Position> {
    if chain.len() > 0 {
        chain.drop_last()
    } else {
        chain
    }
}

/// The chain after one event.
pub open spec fn applied(
    chain: Seq<Position>,
    last_tail_position: LastTailPosition,
    event: SnakeEvent,
) -> Seq<Position> {
    match event {
        SnakeEvent::Growth(_) => grown(chain, last_tail_position),
        SnakeEvent::Shrink(_) => shrunk(chain),
    }
}

/// The chain after all the events, each applied once, the first one first.
pub open spec fn drained(
    chain: Seq<Position>,
    last_tail_position: LastTailPosition,
    events: Seq<SnakeEvent>,
) -> Seq<Position>
    decreases events.len(),
{
    if events.len() == 0 {
        chain
    } else {
        applied(
            drained(chain, last_tail_position, events.drop_last()),
            last_tail_position,
            events.last(),
        )
    }
}

/// Lets the snake grow by one segment for the event.
pub fn snake_growth(
    last_tail_position: &LastTailPosition,
    segments: &mut SnakeSegments,
    growth: GrowthEvent,
)
    ensures
        final(segments)@ == grown(old(segments)@, *last_tail_position),
{
    if let Some(cell) = last_tail_position.0 {
        spawn_segment(segments, cell);
    }
}

/// Takes the last segment off the snake for the event.
pub fn snake_shrink(segments: &mut SnakeSegments, shrink: ShrinkEvent)
    ensures
        final(segments)@ == shrunk(old(segments)@),
{
    if segments.0.len() > 0 {
        segments.0.pop();
    }
}

/// Applies the events that eating has left, each once, in their order.
pub fn snake_events(
    events: &Vec<SnakeEvent>,
    last_tail_position: &LastTailPosition,
    segments: &mut SnakeSegments,
)
    ensures
        final(segments)@ == drained(old(segments)@, *last_tail_position, events@),
{
    let mut i: usize = 0;
    while i < events.len()
        invariant
            i <= events@.len(),
            segments@ == drained(old(segments)@, *last_tail_position, events@.take(i as int)),
        decreases events@.len() - i,
    {
        proof {
            assert(events@.take(i + 1).drop_last() == events@.take(i as int));
        }
        match events[i] {
            SnakeEvent::Growth(growth) => snake_growth(last_tail_position, segments, growth),
            SnakeEvent::Shrink(shrink) => snake_shrink(segments, shrink),
        }
        i += 1;
    }
    assert(events@.take(events@.len() as int) == events@);
}

/// What one growing food adds to the score.
pub const GROWTH_AWARD: u32 = 100;

/// The snake's step interval in milliseconds at a given score.
pub open spec fn speed_millis(score: u32) -> u32 {
    if score <= 400 {
        200
    } else if 500 <= score <= 900 {
        180
    } else if 1000 <= score <= 1300 {
        160
    } else if 1400 <= score <= 1600 {
        140
    } else {
        120
    }
}

/// The snake's step interval in milliseconds at a given score.
#[verifier::when_used_as_spec(speed_millis)]
pub fn speed_duration(score: u32) -> (millis: u32)
    ensures
        millis == speed_millis(score),
{
    if score <= 400 {
        200
    } else if 500 <= score && score <= 900 {
        180
    } else if 1000 <= score && score <= 1300 {
        160
    } else if 1400 <= score && score <= 1600 {
        140
    } else {
        120
    }
}

/// The test that a food lies on `cell`.
pub open spec fn lies_on(cell: Position) -> spec_fn(FoodItem) -> bool {
    |food: FoodItem| food.position == cell
}

/// The test that a food lies elsewhere than on `cell`.
pub open spec fn lies_off(cell: Position) -> spec_fn(FoodItem) -> bool {
    |food: FoodItem| food.position != cell
}

/// The test that a food lets the snake grow.
pub open spec fn is_growing() -> spec_fn(FoodItem) -> bool {
    |food: FoodItem| food.kind == Food::Grow
}

/// The foods that the snake eats: those under its head, in their order.
pub open spec fn eaten_by(chain: Seq<Position>, foods: Seq<FoodItem>) -> Seq<FoodItem> {
    if chain.len() > 0 {
        foods.filter(lies_on(chain[0]))
    } else {
        Seq::empty()
    }
}

/// The foods that the snake leaves: all but those under its head.
pub open spec fn left_by(chain: Seq<Position>, foods: Seq<FoodItem>) -> Seq<FoodItem> {
    if chain.len() > 0 {
        foods.filter(lies_off(chain[0]))
    } else {
        foods
    }
}

/// How many of the foods let the snake grow.
pub open spec fn growths(foods: Seq<FoodItem>) -> nat {
    foods.filter(is_growing()).len()
}

/// What eating the food asks of the snake.
pub open spec fn event_of(food: FoodItem) -> SnakeEvent {
    match food.kind {
        Food::Grow => SnakeEvent::Growth(GrowthEvent),
        Food::Shrink => SnakeEvent::Shrink(ShrinkEvent),
    }
}

/// The events that eating the foods leaves: one for each, in their order.
pub open spec fn events_of(foods: Seq<FoodItem>) -> Seq<SnakeEvent> {
    Seq::new(foods.len(), |i: int| event_of(foods[i]))
}

/// The events to be heard for `count` growing foods.
pub open spec fn growth_pitches(count: nat) -> Seq<FoodEatenPitchEvent> {
    Seq::new(count, |i: int| FoodEatenPitchEvent(Food::Grow))
}

/// The snake's timer once `grown` growing foods have brought the score to
/// `score`: a fresh one with the interval for that score where the score has
/// changed, the same one where it has not.
pub open spec fn speed_after(timer: SnakeDirectionTimer, grown: nat, score: u32) -> SnakeDirectionTimer {
    if grown > 0 {
        SnakeDirectionTimer(
            Timer {
                duration: (speed_millis(score) * 1_000_000) as u64,
                elapsed: 0,
                times_finished_this_tick: 0,
            },
        )
    } else {
        timer
    }
}

/// Lets the snake eat what lies under its head. Each such food leaves the
/// grid and leaves an event for the snake; each growing one also adds to the
/// score and is to be heard, and the step interval follows the new score.
pub fn snake_eating(
    pitch_writer: &mut Vec<FoodEatenPitchEvent>,
    foods: &mut Vec<FoodItem>,
    segments: &SnakeSegments,
    game_speed: &mut SnakeDirectionTimer,
    hud: &mut Hud,
) -> (events: Vec<SnakeEvent>)
    requires
        old(hud).score + GROWTH_AWARD * growths(eaten_by(segments@, old(foods)@)) <= u32::MAX,
    ensures
        final(foods)@ == left_by(segments@, old(foods)@),
        events@ == events_of(eaten_by(segments@, old(foods)@)),
        final(hud).score == old(hud).score + GROWTH_AWARD * growths(
            eaten_by(segments@, old(foods)@),
        ),
        final(pitch_writer)@ == old(pitch_writer)@ + growth_pitches(
            growths(eaten_by(segments@, old(foods)@)),
        ),
        *final(game_speed) == speed_after(
            *old(game_speed),
            growths(eaten_by(segments@, old(foods)@)),
            final(hud).score,
        ),
{
    let mut events: Vec<SnakeEvent> = Vec::new();
    if segments.0.len() == 0 {
        assert(events@ =~= events_of(Seq::empty()));
        assert(Seq::<FoodItem>::empty().filter(is_growing()).len() == 0) by {
            Seq::<FoodItem>::empty().lemma_filter_len(is_growing());
        }
        assert(pitch_writer@ =~= pitch_writer@ + growth_pitches(0));
        return events;
    }
    let head = segments.0[0];
    let ghost before = foods@;
    let ghost heard = pitch_writer@;
    let ghost mut eaten: Seq<FoodItem> = Seq::empty();
    let mut kept: Vec<FoodItem> = Vec::new();
    let mut grown: usize = 0;
    let mut i: usize = 0;
    proof {
        assert(before.take(0) =~= Seq::empty());
        assert(Seq::<FoodItem>::empty().filter(lies_on(head)) =~= Seq::empty()) by {
            Seq::<FoodItem>::empty().lemma_filter_len(lies_on(head));
        }
        assert(Seq::<FoodItem>::empty().filter(lies_off(head)) =~= Seq::empty()) by {
            Seq::<FoodItem>::empty().lemma_filter_len(lies_off(head));
        }
        assert(Seq::<FoodItem>::empty().filter(is_growing()) =~= Seq::empty()) by {
            Seq::<FoodItem>::empty().lemma_filter_len(is_growing());
        }
        assert(events@ =~= events_of(eaten));
        assert(pitch_writer@ =~= heard + growth_pitches(0));
    }
    while i < foods.len()
        invariant
            i <= before.len(),
            foods@ == before,
            eaten == before.take(i as int).filter(lies_on(head)),
            kept@ == before.take(i as int).filter(lies_off(head)),
            events@ == events_of(eaten),
            grown == growths(eaten),
            grown <= i,
            pitch_writer@ == heard + growth_pitches(grown as nat),
        decreases before.len() - i,
    {
        let food = foods[i];
        proof {
            before.lemma_take_succ_push(i as int);
            before.take(i as int).lemma_filter_push(food, lies_on(head));
            before.take(i as int).lemma_filter_push(food, lies_off(head));
        }
        if food.position == head {
            proof {
                eaten.lemma_filter_push(food, is_growing());
                eaten = eaten.push(food);
            }
            match food.kind {
                Food::Grow => {
                    events.push(SnakeEvent::Growth(GrowthEvent));
                    pitch_writer.push(FoodEatenPitchEvent(Food::Grow));
                    grown += 1;
                },
                Food::Shrink => {
                    events.push(SnakeEvent::Shrink(ShrinkEvent));
                },
            }
            assert(events@ =~= events_of(eaten));
            assert(pitch_writer@ =~= heard + growth_pitches(grown as nat));
        } else {
            kept.push(food);
        }
        i += 1;
    }
    proof {
        assert(before.take(before.len() as int) == before);
    }
    *foods = kept;
    if grown > 0 {
        hud.score = hud.score + GROWTH_AWARD * (grown as u32);
        *game_speed = SnakeDirectionTimer(Timer::from_millis(speed_duration(hud.score)));
    }
    events
}

/// A step in any direction but the reverse of the head's puts the head on
/// the neighbouring cell in that direction and every other segment on the
/// cell that the one ahead of it held. The head's new coordinates are the
/// old ones changed by one wherever they fit the coordinate type.
pub proof fn lemma_step_shifts_chain(chain: Seq<Position>, current: Direction, wanted: Direction)
    requires
        chain.len() > 0,
        wanted != current.spec_opposite(),
    ensures
        turned(current, wanted) == wanted,
        moved_chain(chain, wanted).len() == chain.len(),
        moved_chain(chain, wanted)[0] == chain[0].spec_step(wanted),
        chain[0].can_step(wanted) ==> moved_chain(chain, wanted)[0].x == chain[0].x + wanted.dx()
            && moved_chain(chain, wanted)[0].y == chain[0].y + wanted.dy(),
        forall|i: int| 1 <= i < chain.len() ==> moved_chain(chain, wanted)[i] == chain[i - 1],
{
}

/// A step that takes the head off the grid ends the game.
pub proof fn lemma_leaving_grid_collides(chain: Seq<Position>, d: Direction, grid: Grid)
    requires
        chain.len() > 0,
        !grid.spec_contains(chain[0].spec_step(d)),
    ensures
        collides(chain, d, grid),
{
}

/// A step that takes the head onto a cell that some segment held before the
/// step ends the game.
pub proof fn lemma_biting_collides(chain: Seq<Position>, d: Direction, grid: Grid, i: int)
    requires
        0 <= i < chain.len(),
        chain[i] == chain[0].spec_step(d),
    ensures
        collides(chain, d, grid),
{
}

/// A snake whose segments lie on cells of their own keeps them so through
/// every step that does not end the game, and the cell that its tail leaves
/// is then free for a segment to grow on.
pub proof fn lemma_step_keeps_distinct(chain: Seq<Position>, d: Direction, grid: Grid)
    requires
        chain.len() > 0,
        chain.no_duplicates(),
        !collides(chain, d, grid),
    ensures
        moved_chain(chain, d).no_duplicates(),
        !moved_chain(chain, d).contains(chain.last()),
        grown(moved_chain(chain, d), LastTailPosition(Some(chain.last()))).no_duplicates(),
{
    let after = moved_chain(chain, d);
    assert forall|i: int, j: int| 0 <= i < after.len() && 0 <= j < after.len() && i != j implies after[i] != after[j] by {
        if i == 0 {
            assert(after[j] == chain[j - 1]);
        } else if j == 0 {
            assert(after[i] == chain[i - 1]);
        } else {
            assert(after[i] == chain[i - 1] && after[j] == chain[j - 1]);
        }
    }
    assert forall|i: int| 0 <= i < after.len() implies after[i] != chain.last() by {
        if i > 0 {
            assert(after[i] == chain[i - 1]);
        }
    }
    let longer = after.push(chain.last());
    assert forall|i: int, j: int| 0 <= i < longer.len() && 0 <= j < longer.len() && i != j implies longer[i] != longer[j] by {
        if i < after.len() && j < after.len() {
            assert(longer[i] == after[i] && longer[j] == after[j]);
        }
    }
}

/// What a test keeps and what its reverse keeps make up the whole list.
proof fn lemma_split_len(foods: Seq<FoodItem>, cell: Position)
    ensures
        foods.filter(lies_on(cell)).len() + foods.filter(lies_off(cell)).len() == foods.len(),
    decreases foods.len(),
{
    if foods.len() == 0 {
        foods.lemma_filter_len(lies_on(cell));
        foods.lemma_filter_len(lies_off(cell));
    } else {
        lemma_split_len(foods.drop_last(), cell);
        assert(foods.drop_last().push(foods.last()) == foods);
        foods.drop_last().lemma_filter_push(foods.last(), lies_on(cell));
        foods.drop_last().lemma_filter_push(foods.last(), lies_off(cell));
    }
}

/// Eating, whatever lies on the grid: every food under the head is eaten
/// and no other; the foods left are the others, none lost; and each food
/// eaten leaves one event, in the order of the foods, a growth for a growing
/// food and a shrinking for a shrinking one.
pub proof fn lemma_eating_takes_what_lies_under_head(chain: Seq<Position>, foods: Seq<FoodItem>)
    requires
        chain.len() > 0,
    ensures
        eaten_by(chain, foods).len() + left_by(chain, foods).len() == foods.len(),
        forall|i: int|
            0 <= i < eaten_by(chain, foods).len() ==> (#[trigger] eaten_by(chain, foods)[i]).position
                == chain[0] && foods.contains(eaten_by(chain, foods)[i]),
        forall|i: int|
            0 <= i < left_by(chain, foods).len() ==> (#[trigger] left_by(chain, foods)[i]).position
                != chain[0] && foods.contains(left_by(chain, foods)[i]),
        forall|i: int|
            0 <= i < foods.len() ==> if (#[trigger] foods[i]).position == chain[0] {
                eaten_by(chain, foods).contains(foods[i])
            } else {
                left_by(chain, foods).contains(foods[i])
            },
        events_of(eaten_by(chain, foods)).len() == eaten_by(chain, foods).len(),
        forall|i: int|
            0 <= i < eaten_by(chain, foods).len() ==> (#[trigger] events_of(
                eaten_by(chain, foods),
            )[i]) == match eaten_by(chain, foods)[i].kind {
                Food::Grow => SnakeEvent::Growth(GrowthEvent),
                Food::Shrink => SnakeEvent::Shrink(ShrinkEvent),
            },
        growths(eaten_by(chain, foods)) <= eaten_by(chain, foods).len(),
{
    let head = chain[0];
    let eaten = foods.filter(lies_on(head));
    let left = foods.filter(lies_off(head));
    lemma_split_len(foods, head);
    eaten.lemma_filter_len(is_growing());
    assert forall|i: int| 0 <= i < eaten.len() implies (#[trigger] eaten[i]).position == head
        && foods.contains(eaten[i]) by {
        foods.lemma_filter_pred(lies_on(head), i);
        assert(eaten.contains(eaten[i]));
        foods.lemma_filter_contains_rev(lies_on(head), eaten[i]);
    }
    assert forall|i: int| 0 <= i < left.len() implies (#[trigger] left[i]).position != head
        && foods.contains(left[i]) by {
        foods.lemma_filter_pred(lies_off(head), i);
        assert(left.contains(left[i]));
        foods.lemma_filter_contains_rev(lies_off(head), left[i]);
    }
    assert forall|i: int| 0 <= i < foods.len() implies if (#[trigger] foods[i]).position == head {
        eaten.contains(foods[i])
    } else {
        left.contains(foods[i])
    } by {
        if foods[i].position == head {
            foods.lemma_filter_contains(lies_on(head), i);
        } else {
            foods.lemma_filter_contains(lies_off(head), i);
        }
    }
}

/// Where the snake eats one food and no other in a frame: that food is
/// gone from the grid and every other food is still there.
pub proof fn lemma_eaten_food_leaves(chain: Seq<Position>, foods: Seq<FoodItem>, food: FoodItem)
    requires
        eaten_by(chain, foods) == seq![food],
    ensures
        chain.len() > 0,
        food.position == chain[0],
        !left_by(chain, foods).contains(food),
        left_by(chain, foods).len() == foods.len() - 1,
        forall|other: FoodItem|
            foods.contains(other) && other.position != chain[0] ==> left_by(chain, foods).contains(
                other,
            ),
{
    assert(seq![food].len() == 1);
    let head = chain[0];
    let eaten = foods.filter(lies_on(head));
    let left = foods.filter(lies_off(head));
    lemma_split_len(foods, head);
    assert(eaten[0] == food);
    foods.lemma_filter_pred(lies_on(head), 0);
    if left.contains(food) {
        let i = choose|i: int| 0 <= i < left.len() && left[i] == food;
        foods.lemma_filter_pred(lies_off(head), i);
    }
    assert forall|other: FoodItem| foods.contains(other) && other.position != head implies left.contains(other) by {
        let i = choose|i: int| 0 <= i < foods.len() && foods[i] == other;
        foods.lemma_filter_contains(lies_off(head), i);
    }
}

/// Eating one growing food, and no other in that frame: the food leaves
/// the grid, the score rises by the award, the step timer is a fresh one
/// with the interval of the new score, whatever that score is, and the snake
/// is one segment longer once it has grown, the new segment on the cell that
/// the tail left last.
pub proof fn lemma_eating_grow_food(
    chain: Seq<Position>,
    foods: Seq<FoodItem>,
    food: FoodItem,
    last_tail_position: LastTailPosition,
    score: u32,
    timer: SnakeDirectionTimer,
)
    requires
        eaten_by(chain, foods) == seq![food],
        food.kind == Food::Grow,
    ensures
        !left_by(chain, foods).contains(food),
        left_by(chain, foods).len() == foods.len() - 1,
        score + GROWTH_AWARD * growths(eaten_by(chain, foods)) == score + 100,
        forall|after: u32|
            #![trigger speed_millis(after)]
            speed_after(timer, growths(eaten_by(chain, foods)), after).0 == (Timer {
                duration: (speed_millis(after) * 1_000_000) as u64,
                elapsed: 0,
                times_finished_this_tick: 0,
            }),
        drained(chain, last_tail_position, events_of(eaten_by(chain, foods))) == grown(
            chain,
            last_tail_position,
        ),
        last_tail_position.0 matches Some(cell) ==> drained(
            chain,
            last_tail_position,
            events_of(eaten_by(chain, foods)),
        ) == chain.push(cell),
{
    lemma_eaten_food_leaves(chain, foods, food);
    lemma_single_event(chain, last_tail_position, food);
}

/// Eating one shrinking food, and no other in that frame: the food leaves
/// the grid, the snake loses its last segment, and the score and the step
/// timer stay as they are.
pub proof fn lemma_eating_shrink_food(
    chain: Seq<Position>,
    foods: Seq<FoodItem>,
    food: FoodItem,
    last_tail_position: LastTailPosition,
    score: u32,
    timer: SnakeDirectionTimer,
)
    requires
        eaten_by(chain, foods) == seq![food],
        food.kind == Food::Shrink,
    ensures
        !left_by(chain, foods).contains(food),
        left_by(chain, foods).len() == foods.len() - 1,
        score + GROWTH_AWARD * growths(eaten_by(chain, foods)) == score,
        speed_after(timer, growths(eaten_by(chain, foods)), score) == timer,
        drained(chain, last_tail_position, events_of(eaten_by(chain, foods))) == chain.drop_last(),
        drained(chain, last_tail_position, events_of(eaten_by(chain, foods))).len() == chain.len()
            - 1,
{
    lemma_eaten_food_leaves(chain, foods, food);
    lemma_single_event(chain, last_tail_position, food);
}

/// One food eaten leaves one event, and counts as a growth exactly if it is
/// a growing one.
proof fn lemma_single_event(
    chain: Seq<Position>,
    last_tail_position: LastTailPosition,
    food: FoodItem,
)
    ensures
        growths(seq![food]) == if food.kind == Food::Grow {
            1nat
        } else {
            0nat
        },
        drained(chain, last_tail_position, events_of(seq![food])) == applied(
            chain,
            last_tail_position,
            event_of(food),
        ),
{
    let none = Seq::<FoodItem>::empty();
    assert(none.push(food) == seq![food]);
    none.lemma_filter_len(is_growing());
    none.lemma_filter_push(food, is_growing());
    let events = events_of(seq![food]);
    assert(events.len() == 1 && events.last() == event_of(food));
    assert(events.drop_last().len() == 0);
    assert(drained(chain, last_tail_position, events.drop_last()) == chain);
}

/// Where no two foods share a cell, at most one lies under the head.
pub proof fn lemma_eats_at_most_one(foods: Seq<FoodItem>, cell: Position)
    requires
        food_cells(foods).no_duplicates(),
    ensures
        foods.filter(lies_on(cell)).len() <= 1,
    decreases foods.len(),
{
    if foods.len() == 0 {
        foods.lemma_filter_len(lies_on(cell));
    } else {
        let rest = foods.drop_last();
        let last = foods.last();
        assert(rest.push(last) == foods);
        rest.lemma_filter_push(last, lies_on(cell));
        assert forall|i: int, j: int| 0 <= i < j < rest.len() implies food_cells(rest)[i]
            != food_cells(rest)[j] by {
            assert(food_cells(foods)[i] == rest[i].position);
            assert(food_cells(foods)[j] == rest[j].position);
        }
        lemma_eats_at_most_one(rest, cell);
        if last.position == cell && rest.filter(lies_on(cell)).len() > 0 {
            let other = rest.filter(lies_on(cell))[0];
            rest.lemma_filter_pred(lies_on(cell), 0);
            assert(rest.filter(lies_on(cell)).contains(other));
            rest.lemma_filter_contains_rev(lies_on(cell), other);
            let j = choose|j: int| 0 <= j < rest.len() && rest[j] == other;
            assert(food_cells(foods)[j] == cell);
            assert(food_cells(foods)[foods.len() - 1] == cell);
        }
    }
}

/// Where no two foods share a cell, no two of those that pass a test do.
pub proof fn lemma_filter_keeps_cells_distinct(foods: Seq<FoodItem>, test: spec_fn(FoodItem) -> bool)
    requires
        food_cells(foods).no_duplicates(),
    ensures
        food_cells(foods.filter(test)).no_duplicates(),
    decreases foods.len(),
{
    if foods.len() == 0 {
        foods.lemma_filter_len(test);
    } else {
        let rest = foods.drop_last();
        let last = foods.last();
        assert(rest.push(last) == foods);
        rest.lemma_filter_push(last, test);
        assert forall|i: int, j: int| 0 <= i < j < rest.len() implies food_cells(rest)[i]
            != food_cells(rest)[j] by {
            assert(food_cells(foods)[i] == rest[i].position);
            assert(food_cells(foods)[j] == rest[j].position);
        }
        lemma_filter_keeps_cells_distinct(rest, test);
        let kept = rest.filter(test);
        if test(last) {
            let all = kept.push(last);
            assert forall|i: int, j: int| 0 <= i < j < all.len() implies food_cells(all)[i]
                != food_cells(all)[j] by {
                if j < kept.len() {
                    assert(food_cells(kept)[i] == kept[i].position);
                    assert(food_cells(kept)[j] == kept[j].position);
                } else {
                    assert(kept.contains(kept[i]));
                    rest.lemma_filter_contains_rev(test, kept[i]);
                    let k = choose|k: int| 0 <= k < rest.len() && rest[k] == kept[i];
                    assert(food_cells(foods)[k] == kept[i].position);
                    assert(food_cells(foods)[foods.len() - 1] == last.position);
                }
            }
        }
    }
}

} // verus!
