//! A turn-based grid snake game: the movement, collision, eating and food
//! placement rules, each stated as a contract and proved.
//!
//! The snake is a chain of grid cells, head first. A game is played frame by
//! frame: each frame brings the time gone by and the keys held down, and
//! [`game::game::Game::update`] applies the rules in a fixed order: the
//! player's wish is latched, the snake eats, grows and shrinks, then moves
//! if its step timer fires, a collision ends the game, and new food is
//! placed on free cells.
//!
//! - [`utils`]: cells, directions and the grid.
//! - [`timer`]: the repeating timer that paces steps and food.
//! - [`game::snake`]: the snake and what a step, a meal and a key do to it.
//! - [`game::food`]: food, and where a new one may go.
//! - [`game::sound`]: the tones for what was eaten.
//! - [`game::game`]: the whole game, its states and its frame.
//!
//! All times are in nanoseconds unless a name says otherwise.

pub mod game;
pub mod timer;
pub mod utils;
