use vstd::prelude::*;

verus! {

/// Window width in pixels.
pub const SCR_WIDTH: u32 = 1600;

/// Window height in pixels.
pub const SCR_HEIGHT: u32 = 800;

/// The game is over once more than this many aliens have landed.
pub const MAX_LANDED: i32 = 30;

/// Frames between two volleys of bullets, counted from the volley.
pub const FIRE_COOLDOWN: i32 = 30;

/// The screens of the game.
#[derive(Clone, Copy, Debug, PartialEq, Eq, Structural)]
pub enum Screen {
    Start,
    Playing,
    GameOver,
}

/// What a frame decides about the screens: the screen of the next frame,
/// whether the fire button still counts as held, and whether a new game
/// starts (the player and the aliens are then reset).
#[derive(Clone, Copy, Debug, PartialEq, Eq, Structural)]
pub struct ScreenChange {
    pub screen: Screen,
    pub fire: bool,
    pub new_game: bool,
}

/// The screen that follows `screen`: the start screen gives way to play once
/// it is finished (`start_done`); the game over screen gives way to a new
/// game when fire is pressed; play gives way to the game over screen when
/// the game is over (`over`). Otherwise the screen stays.
pub open spec fn next_screen(screen: Screen, start_done: bool, fire: bool, over: bool) -> Screen {
    match screen {
        Screen::Start => if start_done {
            Screen::Playing
        } else {
            Screen::Start
        },
        Screen::GameOver => if fire {
            Screen::Playing
        } else {
            Screen::GameOver
        },
        Screen::Playing => if over {
            Screen::GameOver
        } else {
            Screen::Playing
        },
    }
}

impl Screen {
    /// One frame's decision on the screens (see `next_screen`). A change of
    /// screen releases the fire button, and going from the game over screen
    /// back to play starts a new game.
    pub fn advance(self, start_done: bool, fire: bool, over: bool) -> (c: ScreenChange)
        ensures
            c.screen == next_screen(self, start_done, fire, over),
            c.fire == (fire && c.screen == self),
            c.new_game == (self == Screen::GameOver && c.screen == Screen::Playing),
    {
        let screen = match self {
            Screen::Start => if start_done {
                Screen::Playing
            } else {
                Screen::Start
            },
            Screen::GameOver => if fire {
                Screen::Playing
            } else {
                Screen::GameOver
            },
            Screen::Playing => if over {
                Screen::GameOver
            } else {
                Screen::Playing
            },
        };
        let changed = screen != self;
        ScreenChange {
            screen,
            fire: fire && !changed,
            new_game: changed && screen == Screen::Playing && self == Screen::GameOver,
        }
    }

    /// Where a request to quit leads: from a game in play to the game over
    /// screen; from any other screen out of the game (`None`).
    pub fn after_quit(self) -> (next: Option<Screen>)
        ensures
            next == if self == Screen::Playing {
                Some(Screen::GameOver)
            } else {
                None::<Screen>
            },
    {
        match self {
            Screen::Playing => Some(Screen::GameOver),
            _ => None,
        }
    }
}

/// The game ends when more than `MAX_LANDED` aliens remain on land or the
/// player has no lives left.
pub fn game_over(landed: i32, lives: i32) -> (over: bool)
    ensures
        over == (landed > MAX_LANDED || lives <= 0),
{
    landed > MAX_LANDED || lives <= 0
}

/// The fire counter after one frame and whether a volley goes off.
pub open spec fn fire_step(fire_every: int, fire: bool) -> (int, bool) {
    let n = fire_every + 1;
    if fire && n > 0 {
        (-FIRE_COOLDOWN as int, true)
    } else {
        (n, false)
    }
}

/// One frame of the gun: the counter goes up by one, and a volley goes off
/// when fire is held and the counter is above zero; a volley sets the
/// counter back to `-FIRE_COOLDOWN`.
pub fn fire_ready(fire_every: &mut i32, fire: bool) -> (volley: bool)
    requires
        *old(fire_every) < i32::MAX,
    ensures
        (*final(fire_every) as int, volley) == fire_step(*old(fire_every) as int, fire),
{
    *fire_every = *fire_every + 1;
    if fire && *fire_every > 0 {
        *fire_every = -FIRE_COOLDOWN;
        true
    } else {
        false
    }
}

/// The fire counter after `n` frames with fire held throughout.
pub open spec fn fire_after(fire_every: int, n: nat) -> int
    decreases n,
{
    if n == 0 {
        fire_every
    } else {
        fire_step(fire_after(fire_every, (n - 1) as nat), true).0
    }
}

/// Law: with fire held, volleys go off every `FIRE_COOLDOWN + 1` frames: in
/// the `FIRE_COOLDOWN` frames after a volley none goes off, and in the next
/// frame one does.
pub proof fn lemma_volley_spacing(n: nat)
    requires
        n <= FIRE_COOLDOWN,
    ensures
        fire_after(-FIRE_COOLDOWN as int, n) == -FIRE_COOLDOWN + n,
        n >= 1 ==> !fire_step(fire_after(-FIRE_COOLDOWN as int, (n - 1) as nat), true).1,
        fire_step(fire_after(-FIRE_COOLDOWN as int, FIRE_COOLDOWN as nat), true).1,
{
    lemma_fire_held_climbs(-FIRE_COOLDOWN as int, n);
    if n >= 1 {
        lemma_fire_held_climbs(-FIRE_COOLDOWN as int, (n - 1) as nat);
    }
    lemma_fire_held_climbs(-FIRE_COOLDOWN as int, FIRE_COOLDOWN as nat);
}

/// Law: one frame of the gun fires exactly when fire is held and the
/// counter, once moved on by one, is above zero, whatever the counter was:
/// a volley puts the counter at `-FIRE_COOLDOWN`, and a frame without one
/// just moves the counter on by one.
pub proof fn lemma_volley_when_ready(fire_every: int, fire: bool)
    ensures
        fire_step(fire_every, fire).1 == (fire && fire_every + 1 > 0),
        fire && fire_every + 1 > 0 ==> fire_step(fire_every, fire) == (-FIRE_COOLDOWN as int, true),
        !fire ==> fire_step(fire_every, fire) == (fire_every + 1, false),
        fire_every + 1 <= 0 ==> fire_step(fire_every, fire) == (fire_every + 1, false),
{
}

/// Law: with fire held, the gun never stays silent for good. From a counter
/// at or below zero, the counter climbs by one a frame without a volley
/// until it reaches zero, `-fire_every` frames later, and the frame after
/// that fires.
pub proof fn lemma_fire_held_fires(fire_every: int, n: nat)
    requires
        fire_every <= 0,
        n <= -fire_every,
    ensures
        fire_after(fire_every, n) == fire_every + n,
        n < -fire_every ==> !fire_step(fire_after(fire_every, n), true).1,
        fire_step(fire_after(fire_every, (-fire_every) as nat), true).1,
{
    lemma_fire_held_climbs(fire_every, n);
    lemma_fire_held_climbs(fire_every, (-fire_every) as nat);
}

proof fn lemma_fire_held_climbs(fire_every: int, n: nat)
    requires
        fire_every <= 0,
        n <= -fire_every,
    ensures
        fire_after(fire_every, n) == fire_every + n,
    decreases n,
{
    if n > 0 {
        lemma_fire_held_climbs(fire_every, (n - 1) as nat);
    }
}

/// Whether two strings hold the same characters.
fn same_text(a: &str, b: &str) -> (same: bool)
    ensures
        same == (a@ == b@),
{
    let n = a.unicode_len();
    if n != b.unicode_len() {
        return false;
    }
    let mut i: usize = 0;
    while i < n
        invariant
            n == a@.len(),
            n == b@.len(),
            i <= n,
            forall|j: int| 0 <= j < i ==> a@[j] == b@[j],
        decreases n - i,
    {
        if a.get_char(i) != b.get_char(i) {
            return false;
        }
        i = i + 1;
    }
    assert(a@ =~= b@);
    true
}

/// The index of the first renderer driver named `opengl`, if there is one.
pub fn find_sdl_gl_driver(names: &Vec<&str>) -> (found: Option<u32>)
    ensures
        found is Some ==> exists|i: int|
            0 <= i < names@.len() && names@[i]@ == "opengl"@ && found == Some(i as u32) && (forall|
                j: int,
            |
                0 <= j < i ==> names@[j]@ != "opengl"@),
        found is None ==> forall|j: int| 0 <= j < names@.len() ==> names@[j]@ != "opengl"@,
{
    let mut index: usize = 0;
    while index < names.len()
        invariant
            index <= names@.len(),
            forall|j: int| 0 <= j < index ==> names@[j]@ != "opengl"@,
        decreases names@.len() - index,
    {
        if same_text(names[index], "opengl") {
            return Some(index as u32);
        }
        index = index + 1;
    }
    None
}

} // verus!
