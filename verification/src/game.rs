//! The game proper: the snake, the food, and the frame loop that ties them.

pub mod food;
pub mod game;
pub mod snake;
pub mod sound;
