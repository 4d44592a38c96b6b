use vstd::prelude::*;

verus! {

/// Ticks a bullet lives before it is dropped.
pub const BULLET_LIFETIME: i32 = 200;

/// Tick count that marks a bullet or an alien as spent.
pub const DEAD_CLICKS: i32 = 99999999;

/// One bullet in flight. `V` is the vector type of positions and directions.
pub struct BulletInstance<V> {
    pub position: V,
    pub direction: V,
    /// Ticks since the bullet was fired.
    pub clicks: i32,
}

impl<V> BulletInstance<V> {
    /// Marks the bullet as spent, so that the next update drops it.
    pub fn dead(&mut self)
        ensures
            final(self).clicks == DEAD_CLICKS,
            final(self).position == old(self).position,
            final(self).direction == old(self).direction,
    {
        self.clicks = DEAD_CLICKS;
    }
}

/// All bullets in flight, with the resources `R` that draw them and the
/// colour they are drawn in.
pub struct Bullet<V, R> {
    pub resources: R,
    pub colour: V,
    pub instances: Vec<BulletInstance<V>>,
}

/// A bullet one tick older.
pub open spec fn aged<V>(b: BulletInstance<V>) -> BulletInstance<V> {
    BulletInstance { position: b.position, direction: b.direction, clicks: (b.clicks + 1) as i32 }
}

/// The bullets that remain after every bullet grows one tick older and those
/// past their lifetime are dropped, keeping their order.
pub open spec fn surviving_bullets<V>(s: Seq<BulletInstance<V>>) -> Seq<BulletInstance<V>>
    decreases s.len(),
{
    if s.len() == 0 {
        s
    } else {
        let rest = surviving_bullets(s.drop_first());
        if s[0].clicks + 1 > BULLET_LIFETIME {
            rest
        } else {
            seq![aged(s[0])] + rest
        }
    }
}

/// Law: an update never lets a bullet outlive its lifetime, and never adds
/// bullets: every remaining bullet is at most `BULLET_LIFETIME` ticks old,
/// and a bullet marked spent by `dead` is always dropped.
pub proof fn lemma_bullets_expire<V>(s: Seq<BulletInstance<V>>)
    ensures
        surviving_bullets(s).len() <= s.len(),
        forall|i: int|
            0 <= i < surviving_bullets(s).len() ==> #[trigger] surviving_bullets(s)[i].clicks
                <= BULLET_LIFETIME,
    decreases s.len(),
{
    if s.len() > 0 {
        lemma_bullets_expire(s.drop_first());
        let rest = surviving_bullets(s.drop_first());
        if s[0].clicks + 1 <= BULLET_LIFETIME {
            assert forall|i: int|
                0 <= i < surviving_bullets(s).len() implies #[trigger] surviving_bullets(s)[i].clicks
                <= BULLET_LIFETIME by {
                if i > 0 {
                    assert(surviving_bullets(s)[i] == rest[i - 1]);
                }
            }
        }
    }
}

/// Law: a bullet marked spent is gone after the next update, whatever the
/// other bullets are: the update gives the same bullets as if it had never
/// been there.
pub proof fn lemma_spent_bullet_dropped<V>(s: Seq<BulletInstance<V>>, i: int)
    requires
        0 <= i < s.len(),
        s[i].clicks == DEAD_CLICKS,
    ensures
        surviving_bullets(s) == surviving_bullets(s.remove(i)),
    decreases i,
{
    if i == 0 {
        assert(s.remove(0) =~= s.drop_first());
    } else {
        assert(s.remove(i).drop_first() =~= s.drop_first().remove(i - 1));
        assert(s.remove(i)[0] == s[0]);
        lemma_spent_bullet_dropped(s.drop_first(), i - 1);
    }
}

impl<V, R> Bullet<V, R> {
    /// No bullets in flight yet.
    pub fn new(resources: R, colour: V) -> (b: Bullet<V, R>)
        ensures
            b.resources == resources,
            b.colour == colour,
            b.instances@.len() == 0,
    {
        Bullet { resources, colour, instances: Vec::new() }
    }

    /// Fires a new bullet from `position` along `direction`.
    pub fn new_instance(&mut self, direction: V, position: V)
        ensures
            final(self).instances@ == old(self).instances@.push(
                BulletInstance { position, direction, clicks: 0 },
            ),
            final(self).resources == old(self).resources,
            final(self).colour == old(self).colour,
    {
        let instance = BulletInstance { position, direction, clicks: 0 };
        self.instances.push(instance);
    }

    /// Ages every bullet by one tick and drops those older than
    /// `BULLET_LIFETIME`; the others keep their order. (Moving the bullets
    /// along their directions is floating-point work done by the caller.)
    pub fn update_bullets(&mut self)
        requires
            forall|i: int|
                0 <= i < old(self).instances@.len() ==> #[trigger] old(self).instances@[i].clicks
                    < i32::MAX,
        ensures
            final(self).instances@ == surviving_bullets(old(self).instances@),
            final(self).resources == old(self).resources,
            final(self).colour == old(self).colour,
    {
        let ghost start = self.instances@;
        let mut i = self.instances.len();
        assert(start.skip(i as int) =~= Seq::<BulletInstance<V>>::empty());
        while i >= 1
            invariant
                i <= start.len(),
                forall|k: int| 0 <= k < start.len() ==> #[trigger] start[k].clicks < i32::MAX,
                self.instances@ == start.take(i as int) + surviving_bullets(start.skip(i as int)),
                self.resources == old(self).resources,
                self.colour == old(self).colour,
            decreases i,
        {
            i = i - 1;
            assert(start.skip(i as int).drop_first() =~= start.skip(i + 1));
            assert(start.skip(i as int)[0] == start[i as int]);
            assert(self.instances@[i as int] == start[i as int]);
            let b = &mut self.instances[i];
            b.clicks = b.clicks + 1;
            if b.clicks > BULLET_LIFETIME {
                self.instances.remove(i);
                assert(self.instances@ =~= start.take(i as int) + surviving_bullets(
                    start.skip(i as int),
                ));
            } else {
                assert(self.instances@ =~= start.take(i as int) + surviving_bullets(
                    start.skip(i as int),
                ));
            }
        }
        assert(start.skip(0) =~= start);
        assert(start.take(0) + surviving_bullets(start.skip(0)) =~= surviving_bullets(start));
    }
}

} // verus!
