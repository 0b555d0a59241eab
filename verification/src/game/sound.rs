//! The tones that tell the player what was eaten.

use vstd::prelude::*;
use crate::game::food::Food;

verus! {

/// Raised when a food has been eaten that is to be heard.
#[derive(Clone, Copy, Debug, PartialEq, Eq, Structural)]
pub struct FoodEatenPitchEvent(pub Food);

/// A tone: its frequency in hertz and its length in milliseconds.
#[derive(Clone, Copy, Debug, PartialEq, Eq, Structural)]
pub struct Pitch {
    pub frequency: u32,
    pub millis: u32,
}

/// The tone for a food: a low one for growing, a high one for shrinking.
pub open spec fn pitch_of(event: FoodEatenPitchEvent) -> Pitch {
    match event.0 {
        Food::Grow => Pitch { frequency: 120, millis: 150 },
        Food::Shrink => Pitch { frequency: 500, millis: 150 },
    }
}

/// The tones to play for the events of a frame, one for each, in order.
pub fn play_food_eaten_pitch(events: &Vec<FoodEatenPitchEvent>) -> (pitches: Vec<Pitch>)
    ensures
        pitches@ == Seq::new(events@.len(), |i: int| pitch_of(events@[i])),
{
    let mut pitches: Vec<Pitch> = Vec::new();
    let mut i: usize = 0;
    while i < events.len()
        invariant
            i <= events@.len(),
            pitches@ == Seq::new(i as nat, |k: int| pitch_of(events@[k])),
        decreases events@.len() - i,
    {
        let pitch = match events[i].0 {
            Food::Grow => Pitch { frequency: 120, millis: 150 },
            Food::Shrink => Pitch { frequency: 500, millis: 150 },
        };
        pitches.push(pitch);
        i += 1;
        assert(pitches@ =~= Seq::new(i as nat, |k: int| pitch_of(events@[k])));
    }
    pitches
}

} // verus!
