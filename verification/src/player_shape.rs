use std::collections::VecDeque;
use vstd::prelude::*;
use crate::landscape::AIR_STRIP;

verus! {

/// Lives at the start of a game.
pub const LIVES: i32 = 5;

/// Ticks a crashed player stays grounded before flying again.
pub const CRASH_TICKS: i32 = 80;

/// The plane's flight state: position, attitude, camera, speed and fuel.
/// Its arithmetic is floating point and lives outside this library.
pub trait Flight {
    /// Fills the tank.
    fn refuel(&mut self);
}

/// The player: the plane's flight state `F` and the state it starts each
/// flight from, lives, score and how many ticks remain of a crash.
pub struct PlayerShape<F> {
    pub flight: F,
    pub start: F,
    pub lives: i32,
    pub score: i32,
    pub player_crashed: i32,
}

/// The crash countdown after one tick.
pub open spec fn countdown_step(crashed: int) -> int {
    if crashed == 0 {
        0
    } else {
        crashed - 1
    }
}

/// What one call of `PlayerShape::player_ok` does, from the player
/// `before` to the player `after`, answering `ok`: the answer is whether the
/// player was flying; the countdown goes down by one unless it is zero; the
/// plane is put back at the start when the countdown runs out, and stays
/// where it was otherwise; lives, score and the starting state are kept.
pub open spec fn ok_step<F: Clone>(before: PlayerShape<F>, after: PlayerShape<F>, ok: bool) -> bool {
    &&& ok == (before.player_crashed == 0)
    &&& after.player_crashed == countdown_step(before.player_crashed as int)
    &&& before.player_crashed != 1 ==> after.flight == before.flight
    &&& before.player_crashed == 1 ==> cloned(before.start, after.flight)
    &&& after.start == before.start
    &&& after.lives == before.lives
    &&& after.score == before.score
}

impl<F: Flight + Clone> PlayerShape<F> {
    /// A player with all lives, no score and not crashed, flying from
    /// `flight`, which is also kept as the state every later flight starts
    /// from.
    pub fn new(flight: F) -> (p: PlayerShape<F>)
        ensures
            p.flight == flight,
            cloned(flight, p.start),
            p.lives == LIVES,
            p.score == 0,
            p.player_crashed == 0,
    {
        let start = flight.clone();
        PlayerShape { flight, start, lives: LIVES, score: 0, player_crashed: 0 }
    }

    /// Puts the plane back at the start: the flight state becomes a copy of
    /// the starting state. Lives, score and the crash countdown are kept.
    pub fn reset_player(&mut self)
        ensures
            cloned(old(self).start, final(self).flight),
            final(self).start == old(self).start,
            final(self).lives == old(self).lives,
            final(self).score == old(self).score,
            final(self).player_crashed == old(self).player_crashed,
    {
        self.flight = self.start.clone();
    }

    /// Starts a new game: all lives back, score cleared, plane at the start.
    pub fn game_reset_player(&mut self)
        ensures
            cloned(old(self).start, final(self).flight),
            final(self).start == old(self).start,
            final(self).lives == LIVES,
            final(self).score == 0,
            final(self).player_crashed == old(self).player_crashed,
    {
        self.lives = LIVES;
        self.score = 0;
        self.reset_player();
    }

    /// The plane touched the ground on a cell of kind `what`. Touching an
    /// air strip at the slowest speed (`slow`) with the wings level (`level`)
    /// is a landing: the tank is filled and the result is true. Anything else
    /// is a crash: a life is lost, the player is grounded, and the result is
    /// false.
    pub fn hit(&mut self, what: u8, slow: bool, level: bool) -> (landed: bool)
        requires
            old(self).lives > i32::MIN,
        ensures
            landed == (what == AIR_STRIP && slow && level),
            landed ==> final(self).lives == old(self).lives && final(self).player_crashed == old(
                self,
            ).player_crashed,
            !landed ==> final(self).lives == old(self).lives - 1 && final(self).player_crashed
                == CRASH_TICKS,
            final(self).score == old(self).score,
            final(self).start == old(self).start,
            !landed ==> final(self).flight == old(self).flight,
    {
        if what == AIR_STRIP && slow {
            if level {
                self.flight.refuel();
                return true;
            }
        }
        self.start_being_dead();
        false
    }

    /// One more alien shot down: the score goes up by one.
    pub fn add_point(&mut self)
        requires
            old(self).score < i32::MAX,
        ensures
            final(self).score == old(self).score + 1,
            final(self).lives == old(self).lives,
            final(self).player_crashed == old(self).player_crashed,
            final(self).flight == old(self).flight,
            final(self).start == old(self).start,
    {
        self.score = self.score + 1;
    }

    /// A crash: one life is lost and the player is grounded for
    /// `CRASH_TICKS` ticks.
    pub fn start_being_dead(&mut self)
        requires
            old(self).lives > i32::MIN,
        ensures
            final(self).lives == old(self).lives - 1,
            final(self).player_crashed == CRASH_TICKS,
            final(self).score == old(self).score,
            final(self).flight == old(self).flight,
            final(self).start == old(self).start,
    {
        self.lives = self.lives - 1;
        self.player_crashed = CRASH_TICKS;
    }

    /// One tick of the crash countdown. True when the player is flying.
    /// Otherwise the countdown goes down by one, and when it reaches zero the
    /// plane is put back at the start.
    pub fn player_ok(&mut self) -> (ok: bool)
        requires
            old(self).player_crashed > i32::MIN,
        ensures
            ok_step(*old(self), *final(self), ok),
    {
        if self.player_crashed == 0 {
            return true;
        }
        self.player_crashed = self.player_crashed - 1;
        if self.player_crashed == 0 {
            self.reset_player();
        }
        false
    }
}

/// Most directions kept waiting for the camera.
pub const CAMERA_QUEUE_LIMIT: usize = 40;

/// The direction the camera looks along, and the plane's directions that
/// the camera will follow later, oldest first. The camera lags behind the
/// plane while it pitches. `V` is the vector type.
pub struct CameraQueue<V> {
    pub camera_dir: V,
    pub camera_queue: VecDeque<V>,
}

/// The waiting directions after the camera has taken the oldest one (if
/// any) and the oldest have been dropped down to `CAMERA_QUEUE_LIMIT`.
pub open spec fn camera_queue_after<V>(q: Seq<V>) -> Seq<V> {
    let rest = if q.len() > 0 {
        q.drop_first()
    } else {
        q
    };
    if rest.len() > CAMERA_QUEUE_LIMIT {
        rest.skip(rest.len() - CAMERA_QUEUE_LIMIT)
    } else {
        rest
    }
}

impl<V: Copy> CameraQueue<V> {
    /// A camera looking along `camera_dir`, with nothing waiting.
    pub fn new(camera_dir: V) -> (c: CameraQueue<V>)
        ensures
            c.camera_dir == camera_dir,
            c.camera_queue@.len() == 0,
    {
        CameraQueue { camera_dir, camera_queue: VecDeque::new() }
    }

    /// Moves the camera on: it takes the oldest waiting direction, or, when
    /// none waits, the plane's current direction `plane_dir`. Then the
    /// oldest waiting directions are dropped until at most
    /// `CAMERA_QUEUE_LIMIT` remain.
    pub fn update_camera(&mut self, plane_dir: V)
        ensures
            final(self).camera_dir == if old(self).camera_queue@.len() > 0 {
                old(self).camera_queue@[0]
            } else {
                plane_dir
            },
            final(self).camera_queue@ == camera_queue_after(old(self).camera_queue@),
    {
        let ghost start = self.camera_queue@;
        if self.camera_queue.len() > 0 {
            self.camera_dir = self.camera_queue.pop_front().unwrap();
        } else {
            self.camera_dir = plane_dir;
        }
        let ghost rest = self.camera_queue@;
        let ghost dir = self.camera_dir;
        if self.camera_queue.len() > CAMERA_QUEUE_LIMIT {
            while self.camera_queue.len() > CAMERA_QUEUE_LIMIT
                invariant
                    self.camera_dir == dir,
                    rest.len() > CAMERA_QUEUE_LIMIT,
                    CAMERA_QUEUE_LIMIT <= self.camera_queue@.len() <= rest.len(),
                    self.camera_queue@ == rest.skip(rest.len() - self.camera_queue@.len()),
                decreases self.camera_queue@.len(),
            {
                let ghost before = self.camera_queue@;
                let dropped = self.camera_queue.pop_front();
                assert(dropped is Some);
                assert(self.camera_queue@ =~= before.subrange(1, before.len() as int));
                let ghost now = self.camera_queue@;
                assert(now.len() == before.len() - 1);
                assert forall|j: int| 0 <= j < now.len() implies #[trigger] now[j] == rest.skip(
                    rest.len() - now.len(),
                )[j] by {
                    assert(now[j] == before[j + 1]);
                    assert(before[j + 1] == rest.skip(rest.len() - before.len())[j + 1]);
                }
                assert(now =~= rest.skip(rest.len() - now.len()));
            }
        } else {
            assert(rest.skip(0) =~= rest);
        }
    }

    /// Keeps the plane's current direction `dir` for the camera to follow
    /// later.
    pub fn queue_camera_for_later(&mut self, dir: V)
        ensures
            final(self).camera_queue@ == old(self).camera_queue@.push(dir),
            final(self).camera_dir == old(self).camera_dir,
    {
        self.camera_queue.push_back(dir);
    }

    /// The direction the camera looks along.
    pub fn get_for_camera(&self) -> (dir: V)
        ensures
            dir == self.camera_dir,
    {
        self.camera_dir
    }
}

/// Law: after every camera update at most `CAMERA_QUEUE_LIMIT` directions
/// wait, and those that remain are the newest ones, in the order they were
/// queued.
pub proof fn lemma_camera_queue_bounded<V>(q: Seq<V>)
    ensures
        camera_queue_after(q).len() <= CAMERA_QUEUE_LIMIT,
        q.len() > 0 ==> camera_queue_after(q) == q.skip(q.len() - camera_queue_after(q).len()),
{
    if q.len() > 0 {
        let rest = q.drop_first();
        if rest.len() > CAMERA_QUEUE_LIMIT {
            assert(camera_queue_after(q) =~= q.skip(q.len() - camera_queue_after(q).len()));
        } else {
            assert(camera_queue_after(q) =~= q.skip(q.len() - camera_queue_after(q).len()));
        }
    }
}

/// The player `k` ticks after a crash, while each tick is one call of
/// `player_ok`: the countdown, lives, score, starting state and, while
/// grounded, the plane's flight state.
proof fn lemma_ticks_after_crash<F: Clone>(
    states: Seq<PlayerShape<F>>,
    answers: Seq<bool>,
    k: nat,
)
    requires
        states.len() == answers.len() + 1,
        states[0].player_crashed == CRASH_TICKS,
        forall|i: int|
            #![trigger answers[i]]
            0 <= i < answers.len() ==> ok_step(states[i], states[i + 1], answers[i]),
        k < states.len(),
    ensures
        states[k as int].player_crashed == if k < CRASH_TICKS {
            CRASH_TICKS - k
        } else {
            0
        },
        states[k as int].lives == states[0].lives,
        states[k as int].score == states[0].score,
        states[k as int].start == states[0].start,
        k < CRASH_TICKS ==> states[k as int].flight == states[0].flight,
        k >= CRASH_TICKS ==> states[k as int].flight == states[CRASH_TICKS as int].flight,
    decreases k,
{
    if k > 0 {
        lemma_ticks_after_crash(states, answers, (k - 1) as nat);
        assert(ok_step(states[k - 1], states[k as int], answers[k - 1]));
    }
}

/// Law: after a crash the player stays grounded for exactly `CRASH_TICKS`
/// ticks, is put back at the start on the last of them, and flies from then
/// on; lives and score do not change meanwhile.
///
/// `states[0]` is the player right after `start_being_dead`, whose contract
/// leaves one life fewer and `player_crashed == CRASH_TICKS`. Each later
/// state and each answer are what one call of `player_ok` gives, as its
/// contract `ok_step` states. Then calls `1..=CRASH_TICKS` answer false,
/// the call numbered `CRASH_TICKS` puts the plane back at the start, and
/// every later call answers true and leaves the plane where it is.
pub proof fn lemma_grounded_after_crash<F: Clone>(states: Seq<PlayerShape<F>>, answers: Seq<bool>)
    requires
        states.len() == answers.len() + 1,
        states[0].player_crashed == CRASH_TICKS,
        forall|i: int|
            #![trigger answers[i]]
            0 <= i < answers.len() ==> ok_step(states[i], states[i + 1], answers[i]),
    ensures
        forall|i: int| 0 <= i < answers.len() ==> answers[i] == (i >= CRASH_TICKS),
        forall|i: int|
            #![trigger states[i]]
            0 <= i < states.len() ==> states[i].lives == states[0].lives && states[i].score
                == states[0].score,
        forall|i: int|
            #![trigger states[i]]
            0 <= i < states.len() && i < CRASH_TICKS ==> states[i].flight == states[0].flight,
        answers.len() >= CRASH_TICKS ==> cloned(states[0].start, states[CRASH_TICKS as int].flight),
        forall|i: int|
            #![trigger states[i]]
            CRASH_TICKS <= i < states.len() ==> states[i].flight == states[CRASH_TICKS as int].flight,
{
    assert forall|i: int| 0 <= i < answers.len() implies answers[i] == (i >= CRASH_TICKS) by {
        lemma_ticks_after_crash(states, answers, i as nat);
    }
    assert forall|i: int| #![trigger states[i]] 0 <= i < states.len() implies states[i].lives == states[0].lives
        && states[i].score == states[0].score by {
        lemma_ticks_after_crash(states, answers, i as nat);
    }
    assert forall|i: int| #![trigger states[i]] 0 <= i < states.len() && i < CRASH_TICKS implies states[i].flight
        == states[0].flight by {
        lemma_ticks_after_crash(states, answers, i as nat);
    }
    assert forall|i: int| #![trigger states[i]] CRASH_TICKS <= i < states.len() implies states[i].flight
        == states[CRASH_TICKS as int].flight by {
        lemma_ticks_after_crash(states, answers, i as nat);
    }
    if answers.len() >= CRASH_TICKS {
        let last = CRASH_TICKS - 1;
        lemma_ticks_after_crash(states, answers, last as nat);
        assert(ok_step(states[last], states[last + 1], answers[last]));
    }
}

/// Law: a tick of `player_ok` while the player is flying answers true and
/// changes nothing: the plane keeps its flight state, and countdown, lives,
/// score and starting state stay. The only tick that moves the plane is the
/// one on which the countdown runs out, going from one to zero.
pub proof fn lemma_flying_tick_changes_nothing<F: Clone>(
    before: PlayerShape<F>,
    after: PlayerShape<F>,
    ok: bool,
)
    requires
        ok_step(before, after, ok),
    ensures
        before.player_crashed == 0 ==> ok && after == before,
        ok ==> after == before,
        after.flight != before.flight ==> before.player_crashed == 1 && after.player_crashed == 0,
{
}

} // verus!
