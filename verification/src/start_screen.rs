use vstd::prelude::*;
use crate::game::SCR_WIDTH;

verus! {

/// The start screen: two title textures `T`, the instructions, and how far
/// the maker's title has scrolled to the right.
pub struct StartScreen<T> {
    pub bernie_soft_title: T,
    pub car_maze_title: T,
    pub instructions: Vec<&'static str>,
    pub bernie_x: i32,
}

impl<T> StartScreen<T> {
    /// The start screen with its two titles, the game's instructions and the
    /// scrolling title at the left edge.
    pub fn new(bernie_soft_title: T, car_maze_title: T) -> (s: StartScreen<T>)
        ensures
            s.bernie_soft_title == bernie_soft_title,
            s.car_maze_title == car_maze_title,
            s.bernie_x == 0,
            s.instructions@.len() == 4,
            s.instructions@[0]@
                == "Fly your bi-plane and shoot as many aliens as possible. If more than 30 aliens remain"@,
            s.instructions@[1]@ == "on land game over."@,
            s.instructions@[2]@ == "You will need to refuel by landing on the grey landing strip"@,
            s.instructions@[3]@ == "Arrow keys to fly, left shift faster Z slower"@,
    {
        let instructions = vec![
            "Fly your bi-plane and shoot as many aliens as possible. If more than 30 aliens remain",
            "on land game over.",
            "You will need to refuel by landing on the grey landing strip",
            "Arrow keys to fly, left shift faster Z slower",
        ];
        StartScreen { bernie_soft_title, car_maze_title, instructions, bernie_x: 0 }
    }

    /// Scrolls the maker's title one pixel to the right.
    pub fn update(&mut self)
        requires
            old(self).bernie_x < i32::MAX,
        ensures
            final(self).bernie_x == old(self).bernie_x + 1,
            final(self).instructions@ == old(self).instructions@,
            final(self).bernie_soft_title == old(self).bernie_soft_title,
            final(self).car_maze_title == old(self).car_maze_title,
    {
        self.bernie_x = self.bernie_x + 1;
    }

    /// The start screen is over once the title has scrolled off the right of
    /// the window or the player fires.
    pub fn finished(&self, fire: bool) -> (done: bool)
        ensures
            done == (self.bernie_x > SCR_WIDTH || fire),
    {
        self.bernie_x > SCR_WIDTH as i32 || fire
    }
}

} // verus!
