use vstd::prelude::*;

verus! {

/// The keys the game listens to.
#[derive(Clone, Copy, Debug, PartialEq, Eq, Structural)]
pub enum Key {
    Escape,
    Left,
    Right,
    LShift,
    Z,
    Up,
    Down,
    Space,
    Other,
}

/// A window event, reduced to what the game reacts to.
#[derive(Clone, Copy, Debug, PartialEq, Eq, Structural)]
pub enum KeyEvent {
    Quit,
    KeyDown(Key),
    KeyUp(Key),
    Other,
}

/// Which controls are held down.
#[derive(Clone, Copy, Debug, PartialEq, Eq, Structural)]
pub struct Controls {
    /// Roll left (left arrow).
    pub left: bool,
    /// Roll right (right arrow).
    pub right: bool,
    /// Speed up (left shift).
    pub faster: bool,
    /// Slow down (Z).
    pub slower: bool,
    /// Fire (space).
    pub fire: bool,
    /// Nose down (up arrow).
    pub pitch_down: bool,
    /// Nose up (down arrow).
    pub pitch_up: bool,
}

impl Controls {
    /// Nothing held.
    pub fn new() -> (c: Controls)
        ensures
            !c.left && !c.right && !c.faster && !c.slower && !c.fire && !c.pitch_down && !c.pitch_up,
    {
        Controls {
            left: false,
            right: false,
            faster: false,
            slower: false,
            fire: false,
            pitch_down: false,
            pitch_up: false,
        }
    }

    /// No two opposite controls are held at once.
    pub open spec fn exclusive(self) -> bool {
        &&& !(self.left && self.right)
        &&& !(self.faster && self.slower)
        &&& !(self.pitch_down && self.pitch_up)
    }
}

/// The controls after one event: pressing a key holds its control and
/// releases the opposite one; releasing a key releases its control.
pub open spec fn apply_event(c: Controls, e: KeyEvent) -> Controls {
    match e {
        KeyEvent::KeyDown(Key::Left) => Controls { left: true, right: false, ..c },
        KeyEvent::KeyDown(Key::Right) => Controls { right: true, left: false, ..c },
        KeyEvent::KeyDown(Key::LShift) => Controls { faster: true, slower: false, ..c },
        KeyEvent::KeyDown(Key::Z) => Controls { slower: true, faster: false, ..c },
        KeyEvent::KeyDown(Key::Up) => Controls { pitch_down: true, pitch_up: false, ..c },
        KeyEvent::KeyDown(Key::Down) => Controls { pitch_down: false, pitch_up: true, ..c },
        KeyEvent::KeyDown(Key::Space) => Controls { fire: true, ..c },
        KeyEvent::KeyUp(Key::Left) => Controls { left: false, ..c },
        KeyEvent::KeyUp(Key::Right) => Controls { right: false, ..c },
        KeyEvent::KeyUp(Key::LShift) => Controls { faster: false, ..c },
        KeyEvent::KeyUp(Key::Z) => Controls { slower: false, ..c },
        KeyEvent::KeyUp(Key::Space) => Controls { fire: false, ..c },
        KeyEvent::KeyUp(Key::Up) => Controls { pitch_down: false, ..c },
        KeyEvent::KeyUp(Key::Down) => Controls { pitch_up: false, ..c },
        _ => c,
    }
}

/// The controls after a run of events, applied in order.
pub open spec fn apply_events(c: Controls, events: Seq<KeyEvent>) -> Controls
    decreases events.len(),
{
    if events.len() == 0 {
        c
    } else {
        apply_event(apply_events(c, events.drop_last()), events.last())
    }
}

/// The event asks to leave: the window is closed or Escape is pressed.
pub open spec fn is_quit(e: KeyEvent) -> bool {
    e == KeyEvent::Quit || e == KeyEvent::KeyDown(Key::Escape)
}

/// Applies one event to the controls.
fn process_event(controls: &mut Controls, event: KeyEvent)
    ensures
        *final(controls) == apply_event(*old(controls), event),
{
    match event {
        KeyEvent::KeyDown(Key::Left) => {
            controls.left = true;
            controls.right = false;
        },
        KeyEvent::KeyDown(Key::Right) => {
            controls.right = true;
            controls.left = false;
        },
        KeyEvent::KeyDown(Key::LShift) => {
            controls.faster = true;
            controls.slower = false;
        },
        KeyEvent::KeyDown(Key::Z) => {
            controls.slower = true;
            controls.faster = false;
        },
        KeyEvent::KeyDown(Key::Up) => {
            controls.pitch_down = true;
            controls.pitch_up = false;
        },
        KeyEvent::KeyDown(Key::Down) => {
            controls.pitch_down = false;
            controls.pitch_up = true;
        },
        KeyEvent::KeyDown(Key::Space) => {
            controls.fire = true;
        },
        KeyEvent::KeyUp(Key::Left) => {
            controls.left = false;
        },
        KeyEvent::KeyUp(Key::Right) => {
            controls.right = false;
        },
        KeyEvent::KeyUp(Key::LShift) => {
            controls.faster = false;
        },
        KeyEvent::KeyUp(Key::Z) => {
            controls.slower = false;
        },
        KeyEvent::KeyUp(Key::Space) => {
            controls.fire = false;
        },
        KeyEvent::KeyUp(Key::Up) => {
            controls.pitch_down = false;
        },
        KeyEvent::KeyUp(Key::Down) => {
            controls.pitch_up = false;
        },
        _ => {},
    }
}

/// Applies the events of one frame, in order, to the held controls, and says
/// whether any of them asked to quit.
pub fn process_keyboard(events: &Vec<KeyEvent>, controls: &mut Controls) -> (quit: bool)
    ensures
        *final(controls) == apply_events(*old(controls), events@),
        quit == exists|i: int| 0 <= i < events@.len() && #[trigger] is_quit(events@[i]),
        old(controls).exclusive() ==> final(controls).exclusive(),
{
    let mut quit = false;
    let mut i: usize = 0;
    while i < events.len()
        invariant
            i <= events@.len(),
            *controls == apply_events(*old(controls), events@.take(i as int)),
            quit == exists|j: int| 0 <= j < i && #[trigger] is_quit(events@[j]),
        decreases events@.len() - i,
    {
        let event = events[i];
        let leaving = event == KeyEvent::Quit || event == KeyEvent::KeyDown(Key::Escape);
        assert(leaving == is_quit(events@[i as int]));
        if leaving {
            quit = true;
        }
        process_event(controls, event);
        assert(events@.take(i + 1).drop_last() =~= events@.take(i as int));
        i = i + 1;
    }
    assert(events@.take(events@.len() as int) =~= events@);
    proof {
        if old(controls).exclusive() {
            lemma_controls_stay_exclusive(*old(controls), events@);
        }
    }
    quit
}

/// Law: opposite controls are never held together. If they were not held
/// together before a run of events, they are not held together after it.
pub proof fn lemma_controls_stay_exclusive(c: Controls, events: Seq<KeyEvent>)
    requires
        c.exclusive(),
    ensures
        apply_events(c, events).exclusive(),
    decreases events.len(),
{
    if events.len() > 0 {
        lemma_controls_stay_exclusive(c, events.drop_last());
    }
}

/// The control that a key holds while it is pressed, as the fields of
/// `Controls` document them; keys that hold no control answer false.
pub open spec fn held_by(c: Controls, k: Key) -> bool {
    match k {
        Key::Left => c.left,
        Key::Right => c.right,
        Key::LShift => c.faster,
        Key::Z => c.slower,
        Key::Up => c.pitch_down,
        Key::Down => c.pitch_up,
        Key::Space => c.fire,
        _ => false,
    }
}

/// The key whose control is the opposite of `k`'s, if there is one.
pub open spec fn opposite(k: Key) -> Option<Key> {
    match k {
        Key::Left => Some(Key::Right),
        Key::Right => Some(Key::Left),
        Key::LShift => Some(Key::Z),
        Key::Z => Some(Key::LShift),
        Key::Up => Some(Key::Down),
        Key::Down => Some(Key::Up),
        _ => None,
    }
}

/// Law: after any run of events that ends with a key going down, that
/// key's control is held and the opposite control is released; after any
/// run that ends with a key coming up, that key's control is released. The
/// other controls are left as they were before that last event, and events
/// that name no control change nothing.
pub proof fn lemma_keys_hold_and_release(c: Controls, events: Seq<KeyEvent>, k: Key)
    requires
        events.len() > 0,
    ensures
        events.last() == KeyEvent::KeyDown(k) && k != Key::Escape && k != Key::Other
            ==> held_by(apply_events(c, events), k),
        events.last() == KeyEvent::KeyDown(k) && opposite(k) is Some ==> !held_by(
            apply_events(c, events),
            opposite(k)->0,
        ),
        events.last() == KeyEvent::KeyUp(k) ==> !held_by(apply_events(c, events), k),
        forall|j: Key|
            (events.last() == KeyEvent::KeyDown(k) || events.last() == KeyEvent::KeyUp(k)) && j
                != k && opposite(k) != Some(j) ==> #[trigger] held_by(apply_events(c, events), j)
                == held_by(apply_events(c, events.drop_last()), j),
        events.last() == KeyEvent::Quit || events.last() == KeyEvent::Other || ((events.last()
            == KeyEvent::KeyDown(k) || events.last() == KeyEvent::KeyUp(k)) && (k == Key::Escape
            || k == Key::Other)) ==> apply_events(c, events) == apply_events(c, events.drop_last()),
{
}

/// Law: pressing a key and then letting it go leaves its control released,
/// whatever was held before.
pub proof fn lemma_press_then_release(c: Controls, k: Key)
    ensures
        !held_by(apply_events(c, seq![KeyEvent::KeyDown(k), KeyEvent::KeyUp(k)]), k),
        k != Key::Escape && k != Key::Other ==> held_by(
            apply_events(c, seq![KeyEvent::KeyDown(k)]),
            k,
        ),
{
    let s = seq![KeyEvent::KeyDown(k), KeyEvent::KeyUp(k)];
    assert(s.drop_last() =~= seq![KeyEvent::KeyDown(k)]);
    assert(seq![KeyEvent::KeyDown(k)].drop_last() =~= Seq::<KeyEvent>::empty());
    lemma_keys_hold_and_release(c, s, k);
    lemma_keys_hold_and_release(c, seq![KeyEvent::KeyDown(k)], k);
}

} // verus!
