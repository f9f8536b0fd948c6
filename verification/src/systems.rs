//! The five per-tick systems and the tick entry point.
//!
//! Per tick the host calls `advance(world, dt)`; it clears the previous
//! tick's events and runs, in this fixed order: tower targeting and firing,
//! target kinematics, bullet kinematics, lifetime expiry, collision
//! resolution, death handling, the economy listener, and the end-of-tick
//! commit.  Every system is specified as a pure function on `WorldModel`;
//! the executable systems are proved equal to those functions.

use vstd::prelude::*;

verus! {

use crate::components::Bullet;
use crate::components::Health;
use crate::components::Lifetime;
use crate::components::Player;
use crate::components::Timer;
use crate::components::Tower;
use crate::components::TowerKind;
use crate::components::BULLET_LIFETIME_MS;
use crate::components::HIT_RADIUS_SQ;
use crate::components::KILL_REWARD;
use crate::components::START_MONEY;
use crate::components::TOWER_COOLDOWN_MS;
use crate::components::spec_bullet_speed;
use crate::math::add_clamped;
use crate::math::add_clamped_spec;
use crate::math::bullet_step;
use crate::math::bullet_step_spec;
use crate::math::clamp_coord;
use crate::math::clamp_spec;
use crate::math::dist_sq;
use crate::math::dist_sq_spec;
use crate::math::normalize;
use crate::math::normalize_spec;
use crate::math::scale_trunc;
use crate::math::target_step;
use crate::math::Vec3Fix;
use crate::math::COORD_LIMIT;
use crate::math::DT_LIMIT;
use crate::math::SCALE;
use crate::world::Components;
use crate::world::EntityRec;
use crate::world::World;
use crate::world::WorldModel;
use crate::world::despawn_filter;
use crate::world::lemma_wf_entities_replaced;

/// The entity is a tower able to fire: it has a tower and a position.
pub open spec fn is_tower(e: EntityRec) -> bool {
    e.comps.tower is Some && e.comps.position is Some
}

/// The entity can be targeted: it has a target marker and a position.
pub open spec fn is_target(e: EntityRec) -> bool {
    e.comps.target is Some && e.comps.position is Some
}

/// The entity is a bullet in flight: it has a bullet and a position.
pub open spec fn is_bullet(e: EntityRec) -> bool {
    e.comps.bullet is Some && e.comps.position is Some
}

/// The entity can absorb a hit: a target with health and position.
pub open spec fn is_hittable(e: EntityRec) -> bool {
    e.comps.target is Some && e.comps.health is Some && e.comps.position is Some
}

pub open spec fn has_lifetime(e: EntityRec) -> bool {
    e.comps.lifetime is Some
}

pub open spec fn has_health(e: EntityRec) -> bool {
    e.comps.health is Some
}

pub open spec fn is_player(e: EntityRec) -> bool {
    e.comps.player is Some
}

// ---------------------------------------------------------------------
// Target kinematics: every target advances along the x axis by
// speed * dt, clamped to the arena.
// ---------------------------------------------------------------------

pub open spec fn move_target_rec(e: EntityRec, dt: u64) -> EntityRec {
    if is_target(e) {
        let p = e.comps.position->0;
        let step = scale_trunc(e.comps.target->0.speed as int, dt as int, SCALE as int);
        EntityRec {
            comps: Components {
                position: Some(Vec3Fix { x: clamp_spec(p.x + step) as i64, ..p }),
                ..e.comps
            },
            ..e
        }
    } else {
        e
    }
}

pub open spec fn move_targets_spec(s: Seq<EntityRec>, dt: u64) -> Seq<EntityRec> {
    s.map_values(|e: EntityRec| move_target_rec(e, dt))
}

pub open spec fn move_targets_stage(m: WorldModel, dt: u64) -> WorldModel {
    WorldModel { entities: move_targets_spec(m.entities, dt), ..m }
}

/// Advances every target's position by its speed times the delta-time.
pub fn move_targets(w: &mut World, dt: u64)
    requires
        old(w).wf(),
        dt <= DT_LIMIT,
    ensures
        final(w).model() == move_targets_stage(old(w).model(), dt),
        final(w).wf(),
{
    let n = w.entities.len();
    let mut i: usize = 0;
    while i < n
        invariant
            i <= n,
            n == w.entities@.len(),
            n == old(w).entities@.len(),
            old(w).wf(),
            dt <= DT_LIMIT,
            forall|j: int| i <= j < n ==> w.entities@[j] == old(w).entities@[j],
            forall|j: int|
                0 <= j < i ==> w.entities@[j] == move_target_rec(#[trigger] old(w).entities@[j], dt),
            w.spawns@ == old(w).spawns@,
            w.despawns@ == old(w).despawns@,
            w.death_events@ == old(w).death_events@,
            w.next_id == old(w).next_id,
        decreases n - i,
    {
        let rec = w.entities[i];
        proof {
            assert(old(w).entities@[i as int].wf());
        }
        if rec.comps.target.is_some() && rec.comps.position.is_some() {
            let t = rec.comps.target.unwrap();
            let p = rec.comps.position.unwrap();
            let step = target_step(t.speed, dt);
            let np = Vec3Fix { x: clamp_coord(p.x + step), y: p.y, z: p.z };
            let mut c = rec.comps;
            c.position = Some(np);
            w.entities[i] = EntityRec { id: rec.id, comps: c };
        }
        i = i + 1;
    }
    proof {
        assert(w.entities@ =~= move_targets_spec(old(w).entities@, dt));
        assert forall|j: int| 0 <= j < w.entities@.len() implies #[trigger] w.entities@[j].wf() by {
            assert(old(w).entities@[j].wf());
        }
        assert forall|j: int| 0 <= j < w.entities@.len() implies #[trigger] w.entities@[j].id
            == old(w).entities@[j].id by {
        }
        lemma_wf_entities_replaced(*old(w), *w);
        assert(w.model() =~= move_targets_stage(old(w).model(), dt));
    }
}

// ---------------------------------------------------------------------
// Bullet kinematics: every bullet advances by its re-normalized direction
// times speed times delta-time, clamped to the arena.
// ---------------------------------------------------------------------

pub open spec fn move_bullet_rec(e: EntityRec, dt: u64) -> EntityRec {
    if is_bullet(e) {
        let b = e.comps.bullet->0;
        let p = e.comps.position->0;
        let np = add_clamped_spec(p, bullet_step_spec(b.direction, b.speed, dt));
        EntityRec { comps: Components { position: Some(np), ..e.comps }, ..e }
    } else {
        e
    }
}

pub open spec fn move_bullets_spec(s: Seq<EntityRec>, dt: u64) -> Seq<EntityRec> {
    s.map_values(|e: EntityRec| move_bullet_rec(e, dt))
}

pub open spec fn move_bullets_stage(m: WorldModel, dt: u64) -> WorldModel {
    WorldModel { entities: move_bullets_spec(m.entities, dt), ..m }
}

/// Advances every bullet along its direction, normalized defensively each
/// tick before use; the stored direction itself is not modified.
pub fn move_bullets(w: &mut World, dt: u64)
    requires
        old(w).wf(),
        dt <= DT_LIMIT,
    ensures
        final(w).model() == move_bullets_stage(old(w).model(), dt),
        final(w).wf(),
{
    let n = w.entities.len();
    let mut i: usize = 0;
    while i < n
        invariant
            i <= n,
            n == w.entities@.len(),
            n == old(w).entities@.len(),
            old(w).wf(),
            dt <= DT_LIMIT,
            forall|j: int| i <= j < n ==> w.entities@[j] == old(w).entities@[j],
            forall|j: int|
                0 <= j < i ==> w.entities@[j] == move_bullet_rec(#[trigger] old(w).entities@[j], dt),
            w.spawns@ == old(w).spawns@,
            w.despawns@ == old(w).despawns@,
            w.death_events@ == old(w).death_events@,
            w.next_id == old(w).next_id,
        decreases n - i,
    {
        let rec = w.entities[i];
        proof {
            assert(old(w).entities@[i as int].wf());
        }
        if rec.comps.bullet.is_some() && rec.comps.position.is_some() {
            let b = rec.comps.bullet.unwrap();
            let p = rec.comps.position.unwrap();
            let step = bullet_step(&b.direction, b.speed, dt);
            let np = add_clamped(&p, &step);
            let mut c = rec.comps;
            c.position = Some(np);
            w.entities[i] = EntityRec { id: rec.id, comps: c };
        }
        i = i + 1;
    }
    proof {
        assert(w.entities@ =~= move_bullets_spec(old(w).entities@, dt));
        assert forall|j: int| 0 <= j < w.entities@.len() implies #[trigger] w.entities@[j].wf() by {
            assert(old(w).entities@[j].wf());
        }
        lemma_wf_entities_replaced(*old(w), *w);
        assert(w.model() =~= move_bullets_stage(old(w).model(), dt));
    }
}

// ---------------------------------------------------------------------
// Tower targeting and firing: each tower's cooldown timer advances; when
// it fires, the tower picks the target nearest to its firing point —
// first one encountered in iteration order among equal-minimum distances
// — and spawns a bullet toward it.  With no target present the tower
// does not fire, though the cooldown is still consumed.
// ---------------------------------------------------------------------

/// The firing point of a tower: its position plus its offset, clamped to
/// the arena.
pub open spec fn fire_point(e: EntityRec) -> Vec3Fix {
    add_clamped_spec(e.comps.position->0, e.comps.tower->0.bullet_offset)
}

/// Index of the target nearest to `from`; among equal-minimum distances
/// the first in iteration order wins.
pub open spec fn nearest_target(s: Seq<EntityRec>, from: Vec3Fix) -> Option<int>
    decreases s.len(),
{
    if s.len() == 0 {
        None
    } else {
        let rest = nearest_target(s.drop_last(), from);
        if is_target(s.last()) {
            match rest {
                None => Some(s.len() - 1),
                Some(i) => if dist_sq_spec(s.last().comps.position->0, from) < dist_sq_spec(
                    s[i].comps.position->0,
                    from,
                ) {
                    Some(s.len() - 1)
                } else {
                    Some(i)
                },
            }
        } else {
            rest
        }
    }
}

/// A found nearest target is in range and really is a target.
pub proof fn lemma_nearest_in_range(s: Seq<EntityRec>, from: Vec3Fix)
    ensures
        nearest_target(s, from) matches Some(i) ==> 0 <= i < s.len() && is_target(s[i]),
    decreases s.len(),
{
    if s.len() > 0 {
        lemma_nearest_in_range(s.drop_last(), from);
    }
}

/// Nearest-target selection reads only target markers and positions, so
/// it is unaffected by timer updates made while iterating.
pub proof fn lemma_nearest_same(s1: Seq<EntityRec>, s2: Seq<EntityRec>, from: Vec3Fix)
    requires
        s1.len() == s2.len(),
        forall|j: int|
            0 <= j < s1.len() ==> #[trigger] s2[j].comps.target == s1[j].comps.target
                && s2[j].comps.position == s1[j].comps.position,
    ensures
        nearest_target(s2, from) == nearest_target(s1, from),
    decreases s1.len(),
{
    if s1.len() > 0 {
        assert(forall|j: int|
            0 <= j < s1.drop_last().len() ==> s1.drop_last()[j] == #[trigger] s1[j]);
        assert(forall|j: int|
            0 <= j < s2.drop_last().len() ==> s2.drop_last()[j] == #[trigger] s2[j]);
        lemma_nearest_same(s1.drop_last(), s2.drop_last(), from);
        let l = s1.len() - 1;
        assert(s1[l] == s1.last());
        assert(s2[l] == s2.last());
        assert(s2[l].comps.target == s1[l].comps.target);
        assert(s2[l].comps.position == s1[l].comps.position);
        lemma_nearest_in_range(s1.drop_last(), from);
        match nearest_target(s1.drop_last(), from) {
            Some(i) => {
                assert(s2[i].comps.target == s1[i].comps.target);
                assert(s2[i].comps.position == s1[i].comps.position);
            },
            None => {},
        }
    }
}

pub open spec fn tower_ticked_rec(e: EntityRec, dt: u64) -> EntityRec {
    if is_tower(e) {
        EntityRec {
            comps: Components {
                tower: Some(
                    Tower {
                        shooting_timer: e.comps.tower->0.shooting_timer.after_tick(dt),
                        ..e.comps.tower->0
                    },
                ),
                ..e.comps
            },
            ..e
        }
    } else {
        e
    }
}

pub open spec fn tick_towers_spec(s: Seq<EntityRec>, dt: u64) -> Seq<EntityRec> {
    s.map_values(|e: EntityRec| tower_ticked_rec(e, dt))
}

/// The tower at this record fires this tick and has a target to shoot at.
pub open spec fn fires_with_target(e: EntityRec, s: Seq<EntityRec>, dt: u64) -> bool {
    &&& is_tower(e)
    &&& e.comps.tower->0.shooting_timer.just_fires(dt)
    &&& nearest_target(s, fire_point(e)) is Some
}

/// The components of the bullet a tower spawns: positioned at the firing
/// point, its direction the unit-length normalization of target position
/// minus firing point, with the kind's ballistic profile and the fixed
/// one-shot lifetime.
pub open spec fn shot_comps(e: EntityRec, s: Seq<EntityRec>) -> Components {
    let fp = fire_point(e);
    let ti = nearest_target(s, fp)->0;
    let tp = s[ti].comps.position->0;
    Components {
        position: Some(fp),
        bullet: Some(
            Bullet {
                direction: normalize_spec(
                    Vec3Fix {
                        x: (tp.x - fp.x) as i64,
                        y: (tp.y - fp.y) as i64,
                        z: (tp.z - fp.z) as i64,
                    },
                ),
                speed: spec_bullet_speed(e.comps.tower->0.kind),
            },
        ),
        lifetime: Some(
            Lifetime {
                timer: Timer { elapsed: 0, duration: BULLET_LIFETIME_MS, repeating: false },
            },
        ),
        tower: None,
        target: None,
        health: None,
        player: None,
    }
}

/// The bullets spawned by the first `k` entities, in iteration order;
/// targeting always reads the tick-start world `s`.
pub open spec fn shots(s: Seq<EntityRec>, k: int, dt: u64) -> Seq<Components>
    decreases k,
{
    if k <= 0 {
        Seq::empty()
    } else {
        let rest = shots(s, k - 1, dt);
        if fires_with_target(s[k - 1], s, dt) {
            rest.push(shot_comps(s[k - 1], s))
        } else {
            rest
        }
    }
}

pub proof fn lemma_shots_len_le(s: Seq<EntityRec>, k: int, dt: u64)
    ensures
        shots(s, k, dt).len() <= if k <= 0 {
            0
        } else {
            k
        },
    decreases k,
{
    if k > 0 {
        lemma_shots_len_le(s, k - 1, dt);
    }
}

/// Pending spawn records for a run of bullet components, with ids
/// allocated in order starting at `base`.
pub open spec fn spawn_recs(cs: Seq<Components>, base: int) -> Seq<EntityRec> {
    cs.map(|k: int, c: Components| EntityRec { id: (base + k) as u64, comps: c })
}

pub open spec fn fire_stage(m: WorldModel, dt: u64) -> WorldModel {
    let cs = shots(m.entities, m.entities.len() as int, dt);
    WorldModel {
        entities: tick_towers_spec(m.entities, dt),
        spawns: m.spawns + spawn_recs(cs, m.next_id),
        next_id: m.next_id + cs.len(),
        ..m
    }
}

/// Linear scan for the target nearest to `from`; first match wins ties.
fn nearest_target_exec(v: &Vec<EntityRec>, from: Vec3Fix) -> (r: Option<usize>)
    requires
        forall|j: int| 0 <= j < v@.len() ==> #[trigger] v@[j].wf(),
        from.bounded(COORD_LIMIT as int),
    ensures
        match r {
            None => nearest_target(v@, from) is None,
            Some(u) => u < v@.len() && nearest_target(v@, from) == Some(u as int),
        },
{
    let n = v.len();
    let mut best: Option<usize> = None;
    let mut best_dist: u64 = 0;
    let mut i: usize = 0;
    while i < n
        invariant
            i <= n,
            n == v@.len(),
            forall|j: int| 0 <= j < v@.len() ==> #[trigger] v@[j].wf(),
            from.bounded(COORD_LIMIT as int),
            match best {
                None => nearest_target(v@.take(i as int), from) is None,
                Some(b) => {
                    &&& b < i
                    &&& nearest_target(v@.take(i as int), from) == Some(b as int)
                    &&& is_target(v@[b as int])
                    &&& best_dist as int == dist_sq_spec(v@[b as int].comps.position->0, from)
                },
            },
        decreases n - i,
    {
        let rec = &v[i];
        proof {
            assert(v@.take(i as int + 1).drop_last() == v@.take(i as int));
            assert(v@.take(i as int + 1).last() == v@[i as int]);
            assert(v@[i as int].wf());
        }
        if rec.comps.target.is_some() && rec.comps.position.is_some() {
            let p = rec.comps.position.unwrap();
            let d = dist_sq(&p, &from);
            match best {
                None => {
                    best = Some(i);
                    best_dist = d;
                },
                Some(_) => {
                    if d < best_dist {
                        best = Some(i);
                        best_dist = d;
                    }
                },
            }
        }
        i = i + 1;
    }
    proof {
        assert(v@.take(n as int) == v@);
    }
    best
}

/// Advances every tower's cooldown; towers whose cooldown fires select
/// the nearest target and spawn one bullet toward it.  The cooldown is
/// consumed whether or not a target exists.
pub fn tower_shooting(w: &mut World, dt: u64)
    requires
        old(w).wf(),
        dt <= DT_LIMIT,
        old(w).next_id + old(w).entities@.len() <= u64::MAX,
    ensures
        final(w).model() == fire_stage(old(w).model(), dt),
        final(w).wf(),
{
    let n = w.entities.len();
    let mut i: usize = 0;
    while i < n
        invariant
            i <= n,
            n == w.entities@.len(),
            n == old(w).entities@.len(),
            old(w).wf(),
            w.wf(),
            dt <= DT_LIMIT,
            old(w).next_id + n <= u64::MAX,
            forall|j: int| i <= j < n ==> w.entities@[j] == old(w).entities@[j],
            forall|j: int|
                0 <= j < i ==> w.entities@[j] == tower_ticked_rec(
                    #[trigger] old(w).entities@[j],
                    dt,
                ),
            forall|j: int|
                0 <= j < n ==> #[trigger] w.entities@[j].comps.target == old(
                    w,
                ).entities@[j].comps.target && w.entities@[j].comps.position == old(
                    w,
                ).entities@[j].comps.position,
            w.spawns@ == old(w).spawns@ + spawn_recs(
                shots(old(w).entities@, i as int, dt),
                old(w).next_id as int,
            ),
            w.next_id as int == old(w).next_id + shots(old(w).entities@, i as int, dt).len(),
            w.despawns@ == old(w).despawns@,
            w.death_events@ == old(w).death_events@,
        decreases n - i,
    {
        let rec = w.entities[i];
        proof {
            assert(old(w).entities@[i as int].wf());
            lemma_shots_len_le(old(w).entities@, i as int, dt);
        }
        if rec.comps.tower.is_some() && rec.comps.position.is_some() {
            let mut tw = rec.comps.tower.unwrap();
            let fired = tw.shooting_timer.tick(dt);
            let mut c = rec.comps;
            c.tower = Some(tw);
            let ghost wpre = *w;
            w.entities[i] = EntityRec { id: rec.id, comps: c };
            proof {
                assert forall|j: int| 0 <= j < w.entities@.len() implies #[trigger] w.entities@[
                    j
                ].wf() by {
                    assert(wpre.entities@[j].wf());
                }
                lemma_wf_entities_replaced(wpre, *w);
                assert(w.entities@[i as int] == tower_ticked_rec(old(w).entities@[i as int], dt));
            }
            if fired {
                let p = rec.comps.position.unwrap();
                let fp = add_clamped(&p, &tw.bullet_offset);
                proof {
                    assert(fp == fire_point(old(w).entities@[i as int]));
                }
                let found = nearest_target_exec(&w.entities, fp);
                proof {
                    lemma_nearest_same(old(w).entities@, w.entities@, fp);
                    lemma_nearest_in_range(w.entities@, fp);
                }
                match found {
                    None => {
                        proof {
                            assert(!fires_with_target(old(w).entities@[i as int],
                                old(w).entities@, dt));
                            assert(shots(old(w).entities@, i as int + 1, dt)
                                == shots(old(w).entities@, i as int, dt));
                        }
                    },
                    Some(ti) => {
                        proof {
                            assert(is_target(w.entities@[ti as int]));
                            assert(w.entities@[ti as int].wf());
                        }
                        let te = w.entities[ti];
                        let tp = te.comps.position.unwrap();
                        let diff = Vec3Fix { x: tp.x - fp.x, y: tp.y - fp.y, z: tp.z - fp.z };
                        let dir = normalize(&diff);
                        let speed = tw.kind.bullet_speed();
                        let bc = Components {
                            position: Some(fp),
                            bullet: Some(Bullet { direction: dir, speed }),
                            lifetime: Some(
                                Lifetime {
                                    timer: Timer {
                                        elapsed: 0,
                                        duration: BULLET_LIFETIME_MS,
                                        repeating: false,
                                    },
                                },
                            ),
                            tower: None,
                            target: None,
                            health: None,
                            player: None,
                        };
                        proof {
                            assert(te.wf());
                            assert(bc == shot_comps(old(w).entities@[i as int],
                                old(w).entities@));
                            assert(fires_with_target(old(w).entities@[i as int],
                                old(w).entities@, dt));
                        }
                        let ghost wmid = *w;
                        let _id = w.spawn(bc);
                        proof {
                            let ghost cs0 = shots(old(w).entities@, i as int, dt);
                            let ghost cs1 = shots(old(w).entities@, i as int + 1, dt);
                            assert(cs1 == cs0.push(bc));
                            assert(spawn_recs(cs1, old(w).next_id as int) =~= spawn_recs(
                                cs0,
                                old(w).next_id as int,
                            ).push(
                                EntityRec {
                                    id: (old(w).next_id + cs0.len()) as u64,
                                    comps: bc,
                                },
                            ));
                            assert(w.spawns@ =~= old(w).spawns@ + spawn_recs(
                                cs1,
                                old(w).next_id as int,
                            ));
                        }
                    },
                }
            } else {
                proof {
                    assert(!fires_with_target(old(w).entities@[i as int], old(w).entities@, dt));
                    assert(shots(old(w).entities@, i as int + 1, dt) == shots(
                        old(w).entities@,
                        i as int,
                        dt,
                    ));
                }
            }
        } else {
            proof {
                assert(!fires_with_target(old(w).entities@[i as int], old(w).entities@, dt));
                assert(shots(old(w).entities@, i as int + 1, dt) == shots(
                    old(w).entities@,
                    i as int,
                    dt,
                ));
            }
        }
        i = i + 1;
    }
    proof {
        assert(w.entities@ =~= tick_towers_spec(old(w).entities@, dt));
        assert(w.model() =~= fire_stage(old(w).model(), dt));
    }
}

// ---------------------------------------------------------------------
// Lifetime expiry: every lifetime timer advances; entities whose timer
// fires this tick are queued for despawn (a failsafe TTL independent of
// collision; the despawn queue is idempotent).
// ---------------------------------------------------------------------

pub open spec fn tick_lifetime_rec(e: EntityRec, dt: u64) -> EntityRec {
    if has_lifetime(e) {
        EntityRec {
            comps: Components {
                lifetime: Some(Lifetime { timer: e.comps.lifetime->0.timer.after_tick(dt) }),
                ..e.comps
            },
            ..e
        }
    } else {
        e
    }
}

pub open spec fn tick_lifetimes_spec(s: Seq<EntityRec>, dt: u64) -> Seq<EntityRec> {
    s.map_values(|e: EntityRec| tick_lifetime_rec(e, dt))
}

/// Identifiers whose lifetime fires on this tick, in iteration order.
pub open spec fn expired_ids(s: Seq<EntityRec>, dt: u64) -> Seq<u64>
    decreases s.len(),
{
    if s.len() == 0 {
        Seq::empty()
    } else {
        let rest = expired_ids(s.drop_last(), dt);
        if has_lifetime(s.last()) && s.last().comps.lifetime->0.timer.just_fires(dt) {
            rest.push(s.last().id)
        } else {
            rest
        }
    }
}

pub open spec fn lifetime_stage(m: WorldModel, dt: u64) -> WorldModel {
    WorldModel {
        entities: tick_lifetimes_spec(m.entities, dt),
        despawns: m.despawns + expired_ids(m.entities, dt),
        ..m
    }
}

/// Advances every lifetime timer and queues entities whose time-to-live
/// ran out for despawn.
pub fn bullet_despawn(w: &mut World, dt: u64)
    requires
        old(w).wf(),
        dt <= DT_LIMIT,
    ensures
        final(w).model() == lifetime_stage(old(w).model(), dt),
        final(w).wf(),
{
    let n = w.entities.len();
    let mut i: usize = 0;
    while i < n
        invariant
            i <= n,
            n == w.entities@.len(),
            n == old(w).entities@.len(),
            old(w).wf(),
            w.wf(),
            dt <= DT_LIMIT,
            forall|j: int| i <= j < n ==> w.entities@[j] == old(w).entities@[j],
            forall|j: int|
                0 <= j < i ==> w.entities@[j] == tick_lifetime_rec(
                    #[trigger] old(w).entities@[j],
                    dt,
                ),
            w.despawns@ == old(w).despawns@ + expired_ids(old(w).entities@.take(i as int), dt),
            w.spawns@ == old(w).spawns@,
            w.death_events@ == old(w).death_events@,
            w.next_id == old(w).next_id,
        decreases n - i,
    {
        let rec = w.entities[i];
        proof {
            assert(old(w).entities@[i as int].wf());
            assert(old(w).entities@.take(i as int + 1).drop_last() == old(w).entities@.take(
                i as int,
            ));
            assert(old(w).entities@.take(i as int + 1).last() == old(w).entities@[i as int]);
        }
        if rec.comps.lifetime.is_some() {
            let mut tm = rec.comps.lifetime.unwrap().timer;
            let fired = tm.tick(dt);
            let mut c = rec.comps;
            c.lifetime = Some(Lifetime { timer: tm });
            let ghost wpre = *w;
            w.entities[i] = EntityRec { id: rec.id, comps: c };
            proof {
                assert forall|j: int| 0 <= j < w.entities@.len() implies #[trigger] w.entities@[
                    j
                ].wf() by {
                    assert(wpre.entities@[j].wf());
                }
                lemma_wf_entities_replaced(wpre, *w);
            }
            if fired {
                proof {
                    assert(w.entities@[i as int].id == rec.id);
                }
                w.despawn(rec.id);
            }
        }
        i = i + 1;
    }
    proof {
        assert(old(w).entities@.take(n as int) == old(w).entities@);
        assert(w.entities@ =~= tick_lifetimes_spec(old(w).entities@, dt));
        assert(w.model() =~= lifetime_stage(old(w).model(), dt));
    }
}

// ---------------------------------------------------------------------
// Collision resolution: each bullet is tested against each target in
// iteration order; on the first target within the hit radius the bullet
// applies one point of damage, is queued for despawn, and stops checking
// further targets this tick.
// ---------------------------------------------------------------------

/// The first hittable target at distance below the hit radius from `bp`,
/// scanning from index `k` on.
pub open spec fn first_hit_from(s: Seq<EntityRec>, bp: Vec3Fix, k: int) -> Option<int>
    decreases s.len() - k,
{
    if k < 0 || k >= s.len() {
        None
    } else if is_hittable(s[k]) && dist_sq_spec(s[k].comps.position->0, bp) < HIT_RADIUS_SQ {
        Some(k)
    } else {
        first_hit_from(s, bp, k + 1)
    }
}

/// The target the bullet at index `b` hits this tick, if any; first match
/// in iteration order wins.
pub open spec fn hit_of(s: Seq<EntityRec>, b: int) -> Option<int> {
    if 0 <= b < s.len() && is_bullet(s[b]) {
        first_hit_from(s, s[b].comps.position->0, 0)
    } else {
        None
    }
}

pub proof fn lemma_first_hit_in_range(s: Seq<EntityRec>, bp: Vec3Fix, k: int)
    requires
        k >= 0,
    ensures
        first_hit_from(s, bp, k) matches Some(t) ==> k <= t < s.len() && is_hittable(s[t])
            && dist_sq_spec(s[t].comps.position->0, bp) < HIT_RADIUS_SQ,
    decreases s.len() - k,
{
    if k < s.len() {
        lemma_first_hit_in_range(s, bp, k + 1);
    }
}

/// The collision scan reads only positions, target markers and health
/// presence, so it is unaffected by damage applied while iterating.
pub proof fn lemma_first_hit_same(s1: Seq<EntityRec>, s2: Seq<EntityRec>, bp: Vec3Fix, k: int)
    requires
        s1.len() == s2.len(),
        forall|j: int|
            0 <= j < s1.len() ==> #[trigger] s2[j].comps.target == s1[j].comps.target
                && s2[j].comps.position == s1[j].comps.position && (s2[j].comps.health is Some
                <==> s1[j].comps.health is Some),
    ensures
        first_hit_from(s2, bp, k) == first_hit_from(s1, bp, k),
    decreases s1.len() - k,
{
    if 0 <= k < s1.len() {
        assert(s2[k].comps.target == s1[k].comps.target);
        lemma_first_hit_same(s1, s2, bp, k + 1);
    }
}

/// One point of damage, saturating at the machine's lower bound.
pub open spec fn damaged_rec(e: EntityRec) -> EntityRec {
    let v = e.comps.health->0.value;
    EntityRec {
        comps: Components {
            health: Some(
                Health {
                    value: if v > i64::MIN {
                        (v - 1) as i64
                    } else {
                        v
                    },
                },
            ),
            ..e.comps
        },
        ..e
    }
}

/// The world after the first `k` bullets resolved their collisions, in
/// iteration order.  Despawns being deferred, every bullet takes part in
/// the scan even if already queued for despawn, and damaged or dead
/// targets keep absorbing hits until end of tick.
pub open spec fn collide_upto(s: Seq<EntityRec>, k: int) -> Seq<EntityRec>
    decreases k,
{
    if k <= 0 {
        s
    } else {
        let prev = collide_upto(s, k - 1);
        match hit_of(s, k - 1) {
            None => prev,
            Some(t) => prev.update(t, damaged_rec(prev[t])),
        }
    }
}

/// Identifiers of the bullets that hit something, in iteration order.
pub open spec fn hit_bullet_ids(s: Seq<EntityRec>, k: int) -> Seq<u64>
    decreases k,
{
    if k <= 0 {
        Seq::empty()
    } else {
        let rest = hit_bullet_ids(s, k - 1);
        if hit_of(s, k - 1) is Some {
            rest.push(s[k - 1].id)
        } else {
            rest
        }
    }
}

pub open spec fn collision_stage(m: WorldModel) -> WorldModel {
    WorldModel {
        entities: collide_upto(m.entities, m.entities.len() as int),
        despawns: m.despawns + hit_bullet_ids(m.entities, m.entities.len() as int),
        ..m
    }
}

/// Collision resolution changes health values and nothing else.
pub proof fn lemma_collide_preserves(s: Seq<EntityRec>, k: int)
    ensures
        collide_upto(s, k).len() == s.len(),
        forall|j: int|
            0 <= j < s.len() ==> {
                let c = #[trigger] collide_upto(s, k)[j];
                &&& c.id == s[j].id
                &&& c.comps.position == s[j].comps.position
                &&& c.comps.tower == s[j].comps.tower
                &&& c.comps.target == s[j].comps.target
                &&& c.comps.bullet == s[j].comps.bullet
                &&& c.comps.lifetime == s[j].comps.lifetime
                &&& c.comps.player == s[j].comps.player
                &&& (c.comps.health is Some <==> s[j].comps.health is Some)
            },
    decreases k,
{
    if k > 0 {
        lemma_collide_preserves(s, k - 1);
        match hit_of(s, k - 1) {
            Some(t) => {
                lemma_first_hit_in_range(s, s[k - 1].comps.position->0, 0);
            },
            None => {},
        }
    }
}

/// Resolves all bullet/target collisions of this tick.
pub fn bullet_collison(w: &mut World)
    requires
        old(w).wf(),
    ensures
        final(w).model() == collision_stage(old(w).model()),
        final(w).wf(),
{
    let n = w.entities.len();
    let mut b: usize = 0;
    while b < n
        invariant
            b <= n,
            n == w.entities@.len(),
            n == old(w).entities@.len(),
            old(w).wf(),
            w.wf(),
            w.entities@ == collide_upto(old(w).entities@, b as int),
            w.despawns@ == old(w).despawns@ + hit_bullet_ids(old(w).entities@, b as int),
            w.spawns@ == old(w).spawns@,
            w.death_events@ == old(w).death_events@,
            w.next_id == old(w).next_id,
        decreases n - b,
    {
        proof {
            lemma_collide_preserves(old(w).entities@, b as int);
        }
        let rec = w.entities[b];
        if rec.comps.bullet.is_some() && rec.comps.position.is_some() {
            let bp = rec.comps.position.unwrap();
            proof {
                assert(old(w).entities@[b as int].wf());
                assert(bp == old(w).entities@[b as int].comps.position->0);
                assert forall|j: int| 0 <= j < w.entities@.len() implies #[trigger] w.entities@[
                    j
                ].wf() by {
                }
            }
            let found = first_hit_exec(&w.entities, bp);
            proof {
                lemma_first_hit_same(old(w).entities@, w.entities@, bp, 0);
                assert(first_hit_from(old(w).entities@, bp, 0) == first_hit_from(
                    w.entities@,
                    bp,
                    0,
                ));
            }
            match found {
                None => {
                    proof {
                        assert(hit_of(old(w).entities@, b as int) is None);
                    }
                },
                Some(t) => {
                    proof {
                        lemma_first_hit_in_range(w.entities@, bp, 0);
                        assert(is_hittable(w.entities@[t as int]));
                        assert(hit_of(old(w).entities@, b as int) == Some(t as int));
                    }
                    let te = w.entities[t];
                    let h = te.comps.health.unwrap();
                    let nh: i64 = if h.value > i64::MIN {
                        h.value - 1
                    } else {
                        h.value
                    };
                    let mut c = te.comps;
                    c.health = Some(Health { value: nh });
                    let ghost wpre = *w;
                    w.entities[t] = EntityRec { id: te.id, comps: c };
                    proof {
                        assert(w.entities@[t as int] == damaged_rec(wpre.entities@[t as int]));
                        assert(w.entities@ =~= collide_upto(old(w).entities@, b as int + 1));
                        assert forall|j: int| 0 <= j < w.entities@.len() implies #[trigger]
                            w.entities@[j].wf() by {
                            assert(wpre.entities@[j].wf());
                        }
                        lemma_wf_entities_replaced(wpre, *w);
                        assert(w.entities@[b as int].id == rec.id);
                    }
                    w.despawn(rec.id);
                    proof {
                        assert(hit_bullet_ids(old(w).entities@, b as int + 1)
                            == hit_bullet_ids(old(w).entities@, b as int).push(
                            old(w).entities@[b as int].id,
                        ));
                        assert(w.despawns@ =~= old(w).despawns@ + hit_bullet_ids(
                            old(w).entities@,
                            b as int + 1,
                        ));
                    }
                },
            }
        } else {
            proof {
                assert(hit_of(old(w).entities@, b as int) is None);
            }
        }
        b = b + 1;
    }
    proof {
        assert(w.model() =~= collision_stage(old(w).model()));
    }
}

/// Linear scan for the first target within the hit radius of `bp`.
fn first_hit_exec(v: &Vec<EntityRec>, bp: Vec3Fix) -> (r: Option<usize>)
    requires
        forall|j: int| 0 <= j < v@.len() ==> #[trigger] v@[j].wf(),
        bp.bounded(COORD_LIMIT as int),
    ensures
        match r {
            None => first_hit_from(v@, bp, 0) is None,
            Some(t) => t < v@.len() && first_hit_from(v@, bp, 0) == Some(t as int),
        },
{
    let n = v.len();
    let mut t: usize = 0;
    while t < n
        invariant
            t <= n,
            n == v@.len(),
            forall|j: int| 0 <= j < v@.len() ==> #[trigger] v@[j].wf(),
            bp.bounded(COORD_LIMIT as int),
            first_hit_from(v@, bp, 0) == first_hit_from(v@, bp, t as int),
        decreases n - t,
    {
        let rec = &v[t];
        proof {
            assert(v@[t as int].wf());
        }
        if rec.comps.target.is_some() && rec.comps.health.is_some() && rec.comps.position.is_some()
        {
            let p = rec.comps.position.unwrap();
            let d = dist_sq(&p, &bp);
            if d < HIT_RADIUS_SQ {
                return Some(t);
            }
        }
        t = t + 1;
    }
    None
}

// ---------------------------------------------------------------------
// Death handling: every entity with health at or below zero is queued
// for despawn, and one death event is emitted per death.
// ---------------------------------------------------------------------

/// Identifiers of entities dead at this point of the tick, in iteration
/// order.
pub open spec fn dead_ids(s: Seq<EntityRec>) -> Seq<u64>
    decreases s.len(),
{
    if s.len() == 0 {
        Seq::empty()
    } else {
        let rest = dead_ids(s.drop_last());
        if has_health(s.last()) && s.last().comps.health->0.value <= 0 {
            rest.push(s.last().id)
        } else {
            rest
        }
    }
}

pub open spec fn death_stage(m: WorldModel) -> WorldModel {
    WorldModel {
        despawns: m.despawns + dead_ids(m.entities),
        events: m.events + dead_ids(m.entities).len(),
        ..m
    }
}

/// Queues every entity whose health reached zero for despawn and emits
/// exactly one death event per death.
pub fn target_death(w: &mut World)
    requires
        old(w).wf(),
    ensures
        final(w).model() == death_stage(old(w).model()),
        final(w).wf(),
{
    let n = w.entities.len();
    let mut i: usize = 0;
    while i < n
        invariant
            i <= n,
            n == w.entities@.len(),
            old(w).wf(),
            w.wf(),
            w.entities@ == old(w).entities@,
            w.despawns@ == old(w).despawns@ + dead_ids(old(w).entities@.take(i as int)),
            w.death_events@.len() == old(w).death_events@.len() + dead_ids(
                old(w).entities@.take(i as int),
            ).len(),
            w.spawns@ == old(w).spawns@,
            w.next_id == old(w).next_id,
        decreases n - i,
    {
        let rec = w.entities[i];
        proof {
            assert(old(w).entities@.take(i as int + 1).drop_last() == old(w).entities@.take(
                i as int,
            ));
            assert(old(w).entities@.take(i as int + 1).last() == old(w).entities@[i as int]);
        }
        if rec.comps.health.is_some() {
            let h = rec.comps.health.unwrap();
            if h.value <= 0 {
                w.death_events.push(crate::components::TargetDeathEvent {});
                proof {
                    assert(w.entities@[i as int].id == rec.id);
                }
                w.despawn(rec.id);
            }
        }
        i = i + 1;
    }
    proof {
        assert(old(w).entities@.take(n as int) == old(w).entities@);
        assert(w.model() =~= death_stage(old(w).model()));
    }
}

// ---------------------------------------------------------------------
// Economy: the death-event listener credits the player a fixed reward
// per death event of the current tick.
// ---------------------------------------------------------------------

/// Number of entities holding a player component.
pub open spec fn count_players(s: Seq<EntityRec>) -> int
    decreases s.len(),
{
    if s.len() == 0 {
        0
    } else {
        count_players(s.drop_last()) + if is_player(s.last()) {
            1int
        } else {
            0int
        }
    }
}

/// Index of the first entity holding a player component.
pub open spec fn player_index_from(s: Seq<EntityRec>, k: int) -> Option<int>
    decreases s.len() - k,
{
    if k < 0 || k >= s.len() {
        None
    } else if is_player(s[k]) {
        Some(k)
    } else {
        player_index_from(s, k + 1)
    }
}

pub open spec fn player_index(s: Seq<EntityRec>) -> Option<int> {
    player_index_from(s, 0)
}

/// A found player index is in range and names a player.
pub proof fn lemma_player_index_range(s: Seq<EntityRec>, k: int)
    requires
        k >= 0,
    ensures
        player_index_from(s, k) matches Some(i) ==> k <= i < s.len() && is_player(s[i]),
    decreases s.len() - k,
{
    if k < s.len() {
        lemma_player_index_range(s, k + 1);
    }
}

/// Money after crediting `k` rewards, saturating at the machine limit.
pub open spec fn credited_money(money: int, k: int) -> int {
    if money + KILL_REWARD * k > u64::MAX {
        u64::MAX as int
    } else {
        money + KILL_REWARD * k
    }
}

pub open spec fn credited_rec(e: EntityRec, k: int) -> EntityRec {
    EntityRec {
        comps: Components {
            player: Some(
                Player { money: credited_money(e.comps.player->0.money as int, k) as u64 },
            ),
            ..e.comps
        },
        ..e
    }
}

pub open spec fn economy_stage(m: WorldModel) -> WorldModel {
    match player_index(m.entities) {
        None => m,
        Some(pi) => WorldModel {
            entities: m.entities.update(pi, credited_rec(m.entities[pi], m.events as int)),
            ..m
        },
    }
}

/// Credits the player the fixed reward once per death event of this tick.
/// The world holds at most one player entity: with none present there is
/// no purse to credit and nothing changes.
pub fn give_money_on_kill(w: &mut World)
    requires
        old(w).wf(),
        count_players(old(w).entities@) <= 1,
    ensures
        final(w).model() == economy_stage(old(w).model()),
        final(w).wf(),
{
    let n = w.entities.len();
    let mut i: usize = 0;
    while i < n
        invariant
            i <= n,
            n == w.entities@.len(),
            w == old(w),
            old(w).wf(),
            player_index_from(w.entities@, 0) == player_index_from(w.entities@, i as int),
            forall|j: int| 0 <= j < i ==> !is_player(#[trigger] w.entities@[j]),
        decreases n - i,
    {
        let rec = w.entities[i];
        if rec.comps.player.is_some() {
            let p = rec.comps.player.unwrap();
            let events = w.death_events.len();
            let mut money = p.money;
            let mut k: usize = 0;
            while k < events
                invariant
                    k <= events,
                    money as int == credited_money(p.money as int, k as int),
                decreases events - k,
            {
                if money <= u64::MAX - KILL_REWARD {
                    money = money + KILL_REWARD;
                } else {
                    money = u64::MAX;
                }
                k = k + 1;
            }
            let mut c = rec.comps;
            c.player = Some(Player { money });
            let ghost wpre = *w;
            w.entities[i] = EntityRec { id: rec.id, comps: c };
            proof {
                assert(player_index(old(w).entities@) == Some(i as int));
                assert(w.entities@[i as int] == credited_rec(
                    old(w).entities@[i as int],
                    old(w).death_events@.len() as int,
                ));
                assert forall|j: int| 0 <= j < w.entities@.len() implies #[trigger] w.entities@[
                    j
                ].wf() by {
                    assert(wpre.entities@[j].wf());
                }
                lemma_wf_entities_replaced(wpre, *w);
                assert(w.entities@ =~= old(w).entities@.update(
                    i as int,
                    credited_rec(old(w).entities@[i as int], old(w).death_events@.len() as int),
                ));
                assert(w.model() =~= economy_stage(old(w).model()));
            }
            return ;
        }
        i = i + 1;
    }
    proof {
        assert(player_index(old(w).entities@) is None);
    }
}

// ---------------------------------------------------------------------
// The tick entry point and the spawn operations offered to the host.
// ---------------------------------------------------------------------

pub open spec fn clear_events_stage(m: WorldModel) -> WorldModel {
    WorldModel { events: 0, ..m }
}

pub open spec fn commit_stage(m: WorldModel) -> WorldModel {
    WorldModel {
        entities: despawn_filter(m.entities + m.spawns, m.despawns),
        spawns: Seq::empty(),
        despawns: Seq::empty(),
        ..m
    }
}

/// One full tick: events of the previous tick are dropped, then firing,
/// target kinematics, bullet kinematics, lifetime expiry, collision,
/// death handling and the economy listener run in that order, and the
/// buffered structural commands are committed.
pub open spec fn advance_spec(m: WorldModel, dt: u64) -> WorldModel {
    commit_stage(
        economy_stage(
            death_stage(
                collision_stage(
                    lifetime_stage(
                        move_bullets_stage(
                            move_targets_stage(fire_stage(clear_events_stage(m), dt), dt),
                            dt,
                        ),
                        dt,
                    ),
                ),
            ),
        ),
    )
}

/// Counting players depends only on which records hold a player.
proof fn lemma_count_players_same(s1: Seq<EntityRec>, s2: Seq<EntityRec>)
    requires
        s1.len() == s2.len(),
        forall|j: int| 0 <= j < s1.len() ==> is_player(#[trigger] s2[j]) == is_player(s1[j]),
    ensures
        count_players(s2) == count_players(s1),
    decreases s1.len(),
{
    if s1.len() > 0 {
        assert(forall|j: int|
            0 <= j < s1.drop_last().len() ==> s1.drop_last()[j] == #[trigger] s1[j]);
        assert(forall|j: int|
            0 <= j < s2.drop_last().len() ==> s2.drop_last()[j] == #[trigger] s2[j]);
        lemma_count_players_same(s1.drop_last(), s2.drop_last());
        let l = s1.len() - 1;
        assert(is_player(s2[l]) == is_player(s1[l]));
    }
}

/// The tick entry point, called once per frame by the host with the
/// elapsed delta-time in milliseconds.  The host guarantees a single
/// player entity; identifiers must not run out.
pub fn advance(w: &mut World, dt: u64)
    requires
        old(w).wf(),
        dt <= DT_LIMIT,
        old(w).next_id + old(w).entities@.len() <= u64::MAX,
        count_players(old(w).entities@) == 1,
    ensures
        final(w).model() == advance_spec(old(w).model(), dt),
        final(w).wf(),
{
    w.clear_events();
    tower_shooting(w, dt);
    let ghost e1 = w.entities@;
    move_targets(w, dt);
    let ghost e2 = w.entities@;
    move_bullets(w, dt);
    let ghost e3 = w.entities@;
    bullet_despawn(w, dt);
    let ghost e4 = w.entities@;
    bullet_collison(w);
    let ghost e5 = w.entities@;
    target_death(w);
    proof {
        let e0 = old(w).entities@;
        assert forall|j: int| 0 <= j < e0.len() implies is_player(#[trigger] e1[j]) == is_player(
            e0[j],
        ) by {
            assert(e1[j] == tower_ticked_rec(e0[j], dt));
        }
        lemma_count_players_same(e0, e1);
        assert forall|j: int| 0 <= j < e1.len() implies is_player(#[trigger] e2[j]) == is_player(
            e1[j],
        ) by {
            assert(e2[j] == move_target_rec(e1[j], dt));
        }
        lemma_count_players_same(e1, e2);
        assert forall|j: int| 0 <= j < e2.len() implies is_player(#[trigger] e3[j]) == is_player(
            e2[j],
        ) by {
            assert(e3[j] == move_bullet_rec(e2[j], dt));
        }
        lemma_count_players_same(e2, e3);
        assert forall|j: int| 0 <= j < e3.len() implies is_player(#[trigger] e4[j]) == is_player(
            e3[j],
        ) by {
            assert(e4[j] == tick_lifetime_rec(e3[j], dt));
        }
        lemma_count_players_same(e3, e4);
        lemma_collide_preserves(e4, e4.len() as int);
        assert forall|j: int| 0 <= j < e4.len() implies is_player(#[trigger] e5[j]) == is_player(
            e4[j],
        ) by {
        }
        lemma_count_players_same(e4, e5);
        assert(count_players(w.entities@) == 1);
    }
    give_money_on_kill(w);
    w.commit();
    proof {
        assert(w.model() =~= advance_spec(old(w).model(), dt));
    }
}

/// The components of a freshly built tower: the given position and kind,
/// the default cooldown, and a zero firing offset.
pub open spec fn tower_comps(kind: TowerKind, position: Vec3Fix) -> Components {
    Components {
        position: Some(position),
        tower: Some(
            Tower {
                shooting_timer: Timer {
                    elapsed: 0,
                    duration: TOWER_COOLDOWN_MS,
                    repeating: true,
                },
                bullet_offset: Vec3Fix { x: 0, y: 0, z: 0 },
                kind,
            },
        ),
        target: None,
        bullet: None,
        health: None,
        lifetime: None,
        player: None,
    }
}

/// Input-collaborator entry: buffers a tower of the given kind at the
/// given position, with default cooldown and zero firing offset; it
/// becomes visible at the next tick boundary.
pub fn spawn_tower(w: &mut World, kind: TowerKind, position: Vec3Fix) -> (id: u64)
    requires
        old(w).wf(),
        position.bounded(COORD_LIMIT as int),
        old(w).next_id < u64::MAX,
    ensures
        id == old(w).next_id,
        final(w).entities@ == old(w).entities@,
        final(w).spawns@ == old(w).spawns@.push(
            EntityRec { id, comps: tower_comps(kind, position) },
        ),
        final(w).despawns@ == old(w).despawns@,
        final(w).death_events@ == old(w).death_events@,
        final(w).next_id == old(w).next_id + 1,
        final(w).wf(),
{
    let mut c = Components::empty();
    c.position = Some(position);
    c.tower = Some(
        Tower {
            shooting_timer: Timer { elapsed: 0, duration: TOWER_COOLDOWN_MS, repeating: true },
            bullet_offset: Vec3Fix { x: 0, y: 0, z: 0 },
            kind,
        },
    );
    w.spawn(c)
}

/// The components of a fresh player: the starting purse and nothing else.
pub open spec fn player_comps() -> Components {
    Components {
        player: Some(Player { money: START_MONEY }),
        position: None,
        tower: None,
        target: None,
        bullet: None,
        health: None,
        lifetime: None,
    }
}

/// Buffers the player entity with its starting money; it becomes visible
/// at the next tick boundary.
pub fn spawn_player(w: &mut World) -> (id: u64)
    requires
        old(w).wf(),
        old(w).next_id < u64::MAX,
    ensures
        id == old(w).next_id,
        final(w).entities@ == old(w).entities@,
        final(w).spawns@ == old(w).spawns@.push(EntityRec { id, comps: player_comps() }),
        final(w).despawns@ == old(w).despawns@,
        final(w).death_events@ == old(w).death_events@,
        final(w).next_id == old(w).next_id + 1,
        final(w).wf(),
{
    let mut c = Components::empty();
    c.player = Some(Player { money: START_MONEY });
    w.spawn(c)
}

} // verus!
