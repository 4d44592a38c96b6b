use rand::Rng;
use vstd::prelude::*;
use crate::bullet::{BulletInstance, DEAD_CLICKS};

verus! {

/// Ticks an alien flies before it is dropped.
pub const ENEMY_LIFETIME: i32 = 3000;

/// One alien ship. `V` is the vector type of positions and directions.
pub struct EnemyShipInstance<V> {
    pub position: V,
    pub direction: V,
    /// Ticks flown so far.
    pub clicks: i32,
    /// The ship has come down on land and stays there.
    pub landed: bool,
}

/// A newly arrived alien at `position`, heading along `direction`.
pub open spec fn fresh_enemy<V>(position: V, direction: V) -> EnemyShipInstance<V> {
    EnemyShipInstance { position, direction, clicks: 0, landed: false }
}

impl<V> EnemyShipInstance<V> {
    /// Marks the ship as destroyed, so that the next update drops it.
    pub fn dead(&mut self)
        ensures
            final(self).clicks == DEAD_CLICKS,
            final(self).landed == old(self).landed,
            final(self).position == old(self).position,
            final(self).direction == old(self).direction,
    {
        self.clicks = DEAD_CLICKS;
    }

    /// The ship has reached the ground. If it came down higher than the sea
    /// (`high_enough`) it stays there as landed; otherwise it is spent.
    pub fn landed(&mut self, high_enough: bool)
        ensures
            high_enough ==> final(self).landed && final(self).clicks == old(self).clicks,
            !high_enough ==> final(self).landed == old(self).landed && final(self).clicks
                == DEAD_CLICKS,
            final(self).position == old(self).position,
            final(self).direction == old(self).direction,
    {
        if high_enough {
            self.landed = true;
        } else {
            self.clicks = DEAD_CLICKS;
        }
    }

    /// A ship arriving at `position`, heading along `direction`.
    pub fn new(position: V, direction: V) -> (e: EnemyShipInstance<V>)
        ensures
            e == fresh_enemy(position, direction),
    {
        EnemyShipInstance { position, direction, clicks: 0, landed: false }
    }

    /// Settles a bullet against this ship. The bullet hits when it is within
    /// half a unit of the ship, or within one unit of a landed ship; then
    /// both the ship and the bullet are spent.
    pub fn hit_by_bullet(
        &mut self,
        bullet: &mut BulletInstance<V>,
        within_one: bool,
        within_half: bool,
    ) -> (hit: bool)
        ensures
            hit == ((old(self).landed && within_one) || within_half),
            hit ==> final(self).clicks == DEAD_CLICKS && final(bullet).clicks == DEAD_CLICKS,
            !hit ==> final(self).clicks == old(self).clicks && final(bullet).clicks == old(
                bullet,
            ).clicks,
            final(self).landed == old(self).landed,
            final(self).position == old(self).position,
            final(self).direction == old(self).direction,
            final(bullet).position == old(bullet).position,
            final(bullet).direction == old(bullet).direction,
    {
        if self.landed && within_one || within_half {
            self.dead();
            bullet.dead();
            true
        } else {
            false
        }
    }
}

/// A ship one tick later: ships in flight age, landed ships do not.
pub open spec fn ticked<V>(e: EnemyShipInstance<V>) -> EnemyShipInstance<V> {
    if e.landed {
        e
    } else {
        EnemyShipInstance { clicks: (e.clicks + 1) as i32, ..e }
    }
}

/// The ships that remain after a tick: a ship is dropped once it has flown
/// longer than `ENEMY_LIFETIME` or has sunk below the ground (`below[i]`).
pub open spec fn surviving_enemies<V>(s: Seq<EnemyShipInstance<V>>, below: Seq<bool>) -> Seq<
    EnemyShipInstance<V>,
>
    decreases s.len(),
{
    if s.len() == 0 {
        s
    } else {
        let rest = surviving_enemies(s.drop_first(), below.drop_first());
        if ticked(s[0]).clicks > ENEMY_LIFETIME || below[0] {
            rest
        } else {
            seq![ticked(s[0])] + rest
        }
    }
}

/// Number of landed ships.
pub open spec fn count_landed<V>(s: Seq<EnemyShipInstance<V>>) -> int
    decreases s.len(),
{
    if s.len() == 0 {
        0
    } else {
        count_landed(s.drop_last()) + if s.last().landed {
            1int
        } else {
            0
        }
    }
}

/// How many ships a refill adds from `n` candidate places to a fleet of
/// `len` ships: one at least, and enough to make three.
pub open spec fn spawn_count(n: int, len: int) -> int {
    if n == 0 {
        0
    } else if len >= 2 {
        1
    } else if n < 3 - len {
        n
    } else {
        3 - len
    }
}

/// The ships a refill adds: the last `k` candidate places, last first.
pub open spec fn spawned<V>(positions: Seq<V>, k: int, direction: V) -> Seq<EnemyShipInstance<V>> {
    Seq::new(k as nat, |j: int| fresh_enemy(positions[positions.len() - 1 - j], direction))
}

/// The tile places kept for new ships: those whose draw is at least 2.
pub open spec fn chosen_spots<V>(tiles: Seq<V>, draws: Seq<i32>) -> Seq<V>
    decreases tiles.len(),
{
    if tiles.len() == 0 {
        Seq::empty()
    } else {
        let rest = chosen_spots(tiles.drop_last(), draws.drop_last());
        if draws.last() >= 2 {
            rest.push(tiles.last())
        } else {
            rest
        }
    }
}

/// Law: a tick never lets a ship fly past its lifetime, never adds ships,
/// and never lifts a landed ship: every remaining ship is at most
/// `ENEMY_LIFETIME` ticks old, and landed ships stay landed with their tick
/// count unchanged.
pub proof fn lemma_enemies_expire<V>(s: Seq<EnemyShipInstance<V>>, below: Seq<bool>)
    ensures
        surviving_enemies(s, below).len() <= s.len(),
        forall|i: int|
            0 <= i < surviving_enemies(s, below).len() ==> #[trigger] surviving_enemies(
                s,
                below,
            )[i].clicks <= ENEMY_LIFETIME,
    decreases s.len(),
{
    if s.len() > 0 {
        lemma_enemies_expire(s.drop_first(), below.drop_first());
        let rest = surviving_enemies(s.drop_first(), below.drop_first());
        if !(ticked(s[0]).clicks > ENEMY_LIFETIME || below[0]) {
            assert forall|i: int|
                0 <= i < surviving_enemies(s, below).len() implies #[trigger] surviving_enemies(
                s,
                below,
            )[i].clicks <= ENEMY_LIFETIME by {
                if i > 0 {
                    assert(surviving_enemies(s, below)[i] == rest[i - 1]);
                }
            }
        }
    }
}

/// Law: a ship marked spent (shot down, or come down in the sea) is gone
/// after the next tick, landed or not: the tick gives the same ships as if it
/// had never been there.
pub proof fn lemma_spent_ship_dropped<V>(s: Seq<EnemyShipInstance<V>>, below: Seq<bool>, i: int)
    requires
        0 <= i < s.len(),
        below.len() == s.len(),
        s[i].clicks == DEAD_CLICKS,
    ensures
        surviving_enemies(s, below) == surviving_enemies(s.remove(i), below.remove(i)),
    decreases i,
{
    if i == 0 {
        assert(s.remove(0) =~= s.drop_first());
        assert(below.remove(0) =~= below.drop_first());
    } else {
        assert(s.remove(i).drop_first() =~= s.drop_first().remove(i - 1));
        assert(below.remove(i).drop_first() =~= below.drop_first().remove(i - 1));
        assert(s.remove(i)[0] == s[0]);
        assert(below.remove(i)[0] == below[0]);
        lemma_spent_ship_dropped(s.drop_first(), below.drop_first(), i - 1);
    }
}

/// Law: ticking keeps a landed ship landed and does not age it.
pub proof fn lemma_landed_ships_rest<V>(e: EnemyShipInstance<V>)
    ensures
        e.landed ==> ticked(e) == e,
        ticked(e).landed == e.landed,
{
}

/// Law: the counts of ships on the ground and in the air add up to the fleet.
pub proof fn lemma_landed_count_bounded<V>(s: Seq<EnemyShipInstance<V>>)
    ensures
        0 <= count_landed(s) <= s.len(),
    decreases s.len(),
{
    if s.len() > 0 {
        lemma_landed_count_bounded(s.drop_last());
    }
}

/// Whether a ship has landed.
pub open spec fn is_landed<V>(e: EnemyShipInstance<V>) -> bool {
    e.landed
}

/// Law: the landed count is the number of ships of the fleet that have
/// landed, each counted once, wherever it stands: it equals the length of
/// the fleet filtered down to its landed ships. So a fleet of landed ships
/// counts them all, a fleet in the air counts none, and adding a ship
/// raises the count by one exactly when that ship has landed.
pub proof fn lemma_landed_count_counts_landed<V>(s: Seq<EnemyShipInstance<V>>, e: EnemyShipInstance<V>)
    ensures
        count_landed(s) == s.filter(|x: EnemyShipInstance<V>| is_landed(x)).len(),
        (forall|i: int| 0 <= i < s.len() ==> #[trigger] s[i].landed) ==> count_landed(s) == s.len(),
        (forall|i: int| 0 <= i < s.len() ==> !#[trigger] s[i].landed) ==> count_landed(s) == 0,
        count_landed(s.push(e)) == count_landed(s) + if e.landed {
            1int
        } else {
            0
        },
    decreases s.len(),
{
    reveal(Seq::filter);
    let f = |x: EnemyShipInstance<V>| is_landed(x);
    assert(s.push(e).drop_last() =~= s);
    if s.len() > 0 {
        lemma_landed_count_counts_landed(s.drop_last(), s.last());
        assert(s.drop_last().push(s.last()) =~= s);
        if forall|i: int| 0 <= i < s.len() ==> #[trigger] s[i].landed {
            assert(forall|i: int|
                0 <= i < s.drop_last().len() ==> #[trigger] s.drop_last()[i].landed == s[i].landed);
            assert(s.last().landed == s[s.len() - 1].landed);
        }
        if forall|i: int| 0 <= i < s.len() ==> !#[trigger] s[i].landed {
            assert(forall|i: int|
                0 <= i < s.drop_last().len() ==> #[trigger] s.drop_last()[i].landed == s[i].landed);
            assert(s.last().landed == s[s.len() - 1].landed);
        }
    }
}

/// Law: a refill with candidate places adds at least one ship, and tops a
/// fleet of fewer than three up to at most three.
pub proof fn lemma_spawn_tops_up(n: int, len: int)
    requires
        n >= 0,
        len >= 0,
    ensures
        0 <= spawn_count(n, len) <= n,
        n > 0 ==> spawn_count(n, len) >= 1,
        len < 3 ==> len + spawn_count(n, len) <= 3,
        len < 3 && n >= 3 - len ==> len + spawn_count(n, len) == 3,
{
}

/// All alien ships, with the resources `R` that draw them, and how many are
/// in the air and on the ground.
pub struct EnemyShip<V, R> {
    pub resources: R,
    pub instances: Vec<EnemyShipInstance<V>>,
    pub alive: i32,
    pub landed: i32,
}

impl<V: Copy, R> EnemyShip<V, R> {
    /// No ships yet.
    pub fn new(resources: R) -> (s: EnemyShip<V, R>)
        ensures
            s.resources == resources,
            s.instances@.len() == 0,
            s.alive == 0,
            s.landed == 0,
    {
        EnemyShip { resources, instances: Vec::new(), alive: 0, landed: 0 }
    }

    /// Removes every ship and clears the counts.
    pub fn reset(&mut self)
        ensures
            final(self).instances@.len() == 0,
            final(self).alive == 0,
            final(self).landed == 0,
            final(self).resources == old(self).resources,
    {
        self.instances.clear();
        self.alive = 0;
        self.landed = 0;
    }

    /// Recounts the ships on the ground and in the air, and returns the
    /// number in the air.
    pub fn enemy_update(&mut self) -> (alive: i32)
        requires
            old(self).instances@.len() <= i32::MAX,
        ensures
            final(self).landed == count_landed(old(self).instances@),
            final(self).landed == old(self).instances@.filter(
                |x: EnemyShipInstance<V>| is_landed(x),
            ).len(),
            final(self).alive == old(self).instances@.len() - count_landed(old(self).instances@),
            alive == final(self).alive,
            final(self).instances@ == old(self).instances@,
            final(self).resources == old(self).resources,
    {
        self.alive = 0;
        self.landed = 0;
        let mut i: usize = 0;
        while i < self.instances.len()
            invariant
                i <= self.instances@.len() <= i32::MAX,
                self.instances@ == old(self).instances@,
                self.resources == old(self).resources,
                self.landed == count_landed(self.instances@.take(i as int)),
                self.alive == i - count_landed(self.instances@.take(i as int)),
                0 <= count_landed(self.instances@.take(i as int)) <= i,
            decreases self.instances@.len() - i,
        {
            assert(self.instances@.take(i + 1).drop_last() =~= self.instances@.take(i as int));
            if self.instances[i].landed {
                self.landed = self.landed + 1;
            } else {
                self.alive = self.alive + 1;
            }
            i = i + 1;
        }
        assert(self.instances@.take(i as int) =~= self.instances@);
        proof {
            lemma_landed_count_counts_landed(self.instances@, self.instances@[0]);
        }
        self.alive
    }

    /// Adds a ship at `position` heading along `direction`, and returns how
    /// many ships there are now.
    pub fn new_instance(&mut self, position: V, direction: V) -> (count: usize)
        ensures
            final(self).instances@ == old(self).instances@.push(fresh_enemy(position, direction)),
            count == final(self).instances@.len(),
            final(self).alive == old(self).alive,
            final(self).landed == old(self).landed,
            final(self).resources == old(self).resources,
    {
        let instance = EnemyShipInstance::new(position, direction);
        self.instances.push(instance);
        self.instances.len()
    }

    /// Ages the ships in the air by one tick and drops those that have flown
    /// longer than `ENEMY_LIFETIME` or have sunk below the ground
    /// (`below_ground[i]` for ship `i`); the others keep their order.
    /// (Moving the ships is floating-point work done by the caller, before
    /// `below_ground` is measured.)
    pub fn update_enemy(&mut self, below_ground: &Vec<bool>)
        requires
            below_ground@.len() == old(self).instances@.len(),
            forall|i: int|
                0 <= i < old(self).instances@.len() && !old(self).instances@[i].landed
                    ==> #[trigger] old(self).instances@[i].clicks < i32::MAX,
        ensures
            final(self).instances@ == surviving_enemies(old(self).instances@, below_ground@),
            final(self).alive == old(self).alive,
            final(self).landed == old(self).landed,
            final(self).resources == old(self).resources,
    {
        let ghost start = self.instances@;
        let ghost below = below_ground@;
        let mut i = self.instances.len();
        assert(start.skip(i as int) =~= Seq::<EnemyShipInstance<V>>::empty());
        while i >= 1
            invariant
                i <= start.len(),
                below.len() == start.len(),
                below == below_ground@,
                forall|k: int|
                    0 <= k < start.len() && !start[k].landed ==> #[trigger] start[k].clicks
                        < i32::MAX,
                self.instances@ == start.take(i as int) + surviving_enemies(
                    start.skip(i as int),
                    below.skip(i as int),
                ),
                self.alive == old(self).alive,
                self.landed == old(self).landed,
                self.resources == old(self).resources,
            decreases i,
        {
            i = i - 1;
            assert(start.skip(i as int).drop_first() =~= start.skip(i + 1));
            assert(below.skip(i as int).drop_first() =~= below.skip(i + 1));
            assert(start.skip(i as int)[0] == start[i as int]);
            assert(below.skip(i as int)[0] == below[i as int]);
            assert(self.instances@[i as int] == start[i as int]);
            let b = &mut self.instances[i];
            if !b.landed {
                b.clicks = b.clicks + 1;
            }
            if b.clicks > ENEMY_LIFETIME || below_ground[i] {
                self.instances.remove(i);
                assert(self.instances@ =~= start.take(i as int) + surviving_enemies(
                    start.skip(i as int),
                    below.skip(i as int),
                ));
            } else {
                assert(self.instances@ =~= start.take(i as int) + surviving_enemies(
                    start.skip(i as int),
                    below.skip(i as int),
                ));
            }
        }
        assert(start.skip(0) =~= start);
        assert(below.skip(0) =~= below);
        assert(start.take(0) + surviving_enemies(start.skip(0), below.skip(0)) =~= surviving_enemies(
            start,
            below,
        ));
    }

    /// Tops the fleet up from candidate places, taken from the back of
    /// `positions`: a ship is added at the last place, and more are added
    /// while there are places left and fewer than three ships.
    pub fn spawn_from(&mut self, positions: Vec<V>, direction: V)
        ensures
            final(self).instances@ == old(self).instances@ + spawned(
                positions@,
                spawn_count(positions@.len() as int, old(self).instances@.len() as int),
                direction,
            ),
            final(self).alive == old(self).alive,
            final(self).landed == old(self).landed,
            final(self).resources == old(self).resources,
    {
        let ghost start = self.instances@;
        let ghost all = positions@;
        let ghost k = spawn_count(all.len() as int, start.len() as int);
        let mut positions = positions;
        loop
            invariant_except_break
                all.len() - positions@.len() == 0 || start.len() + (all.len() - positions@.len())
                    <= 2,
            invariant
                positions@ == all.take(positions@.len() as int),
                positions@.len() <= all.len(),
                k == spawn_count(all.len() as int, start.len() as int),
                self.instances@ == start + spawned(all, all.len() - positions@.len(), direction),
                self.alive == old(self).alive,
                self.landed == old(self).landed,
                self.resources == old(self).resources,
            ensures
                self.instances@ == start + spawned(all, k, direction),
                self.alive == old(self).alive,
                self.landed == old(self).landed,
                self.resources == old(self).resources,
            decreases positions@.len(),
        {
            if positions.len() == 0 {
                assert(all.len() - positions@.len() == k);
                break;
            }
            let p = positions.pop().unwrap();
            let count = self.new_instance(p, direction);
            assert(positions@ =~= all.take(positions@.len() as int));
            assert(self.instances@ =~= start + spawned(all, all.len() - positions@.len(), direction));
            if count > 2 {
                assert(all.len() - positions@.len() == k);
                break;
            }
        }
    }
}

/// Draws a number from `low..high` with `rand::Rng::gen_range` on
/// `rand::thread_rng()`. The contract claims only what rand documents and
/// its source shows: the result lies in `low..high` (low included, high
/// excluded), and `gen_range` does not panic when `low < high`. Which
/// number comes out is left unsaid: it is random. Also left unsaid: the
/// first use of the thread's generator panics if the operating system's
/// random source cannot seed it.
#[verifier::external_body]
fn random_in_range(low: i32, high: i32) -> (r: i32)
    requires
        low < high,
    ensures
        low <= r < high,
{
    rand::thread_rng().gen_range(low, high)
}

/// The places where new ships may appear: first `player_spot`, then, in
/// order, the tile places whose draw is at least 2.
pub fn select_spawn_positions<V: Copy>(player_spot: V, tile_spots: &Vec<V>, draws: &Vec<i32>) -> (r:
    Vec<V>)
    requires
        draws@.len() == tile_spots@.len(),
    ensures
        r@ == seq![player_spot] + chosen_spots(tile_spots@, draws@),
{
    let mut r: Vec<V> = Vec::new();
    r.push(player_spot);
    let mut i: usize = 0;
    while i < tile_spots.len()
        invariant
            draws@.len() == tile_spots@.len(),
            i <= tile_spots@.len(),
            r@ == seq![player_spot] + chosen_spots(
                tile_spots@.take(i as int),
                draws@.take(i as int),
            ),
        decreases tile_spots@.len() - i,
    {
        assert(tile_spots@.take(i + 1).drop_last() =~= tile_spots@.take(i as int));
        assert(draws@.take(i + 1).drop_last() =~= draws@.take(i as int));
        if draws[i] >= 2 {
            r.push(tile_spots[i]);
        }
        assert(r@ =~= seq![player_spot] + chosen_spots(
            tile_spots@.take(i + 1),
            draws@.take(i + 1),
        ));
        i = i + 1;
    }
    assert(tile_spots@.take(i as int) =~= tile_spots@);
    assert(draws@.take(i as int) =~= draws@);
    r
}

/// Picks the places where new ships may appear: `player_spot` first, then
/// each tile place with a chance of two in three (a draw from `0..6` that
/// is at least 2), in order.
pub fn possible_locations_for_enemy<V: Copy>(player_spot: V, tile_spots: &Vec<V>) -> (r: Vec<V>)
    ensures
        exists|draws: Seq<i32>|
            draws.len() == tile_spots@.len() && (forall|i: int|
                0 <= i < draws.len() ==> 0 <= #[trigger] draws[i] < 6) && r@ == seq![player_spot]
                + chosen_spots(tile_spots@, draws),
{
    let mut draws: Vec<i32> = Vec::new();
    let mut i: usize = 0;
    while i < tile_spots.len()
        invariant
            i <= tile_spots@.len(),
            draws@.len() == i,
            forall|j: int| 0 <= j < draws@.len() ==> 0 <= #[trigger] draws@[j] < 6,
        decreases tile_spots@.len() - i,
    {
        let n = random_in_range(0, 6);
        draws.push(n);
        i = i + 1;
    }
    select_spawn_positions(player_spot, tile_spots, &draws)
}

} // verus!
