//! The guarantees the simulation gives, stated and proved once and for
//! all: cooldown cadence, firing into an empty world, lifetime expiry,
//! collision damage accounting, death events and rewards, idempotent
//! despawning, and the visibility of deferred spawns.

use vstd::prelude::*;

verus! {

use vstd::arithmetic::div_mod::lemma_div_multiples_vanish;
use crate::components::Timer;
use crate::math::is_isqrt;
use crate::math::lemma_isqrt_unique;
use crate::math::norm_sq;
use crate::math::normalize_spec;
use crate::math::scale_trunc;
use crate::math::sqrt_floor;
use crate::math::Vec3Fix;
use crate::math::SCALE;
use crate::systems::clear_events_stage;
use crate::systems::collision_stage;
use crate::systems::commit_stage;
use crate::systems::credited_money;
use crate::systems::dead_ids;
use crate::systems::death_stage;
use crate::systems::economy_stage;
use crate::systems::expired_ids;
use crate::systems::fire_stage;
use crate::systems::has_health;
use crate::systems::has_lifetime;
use crate::systems::hit_of;
use crate::systems::hit_bullet_ids;
use crate::systems::is_target;
use crate::systems::lifetime_stage;
use crate::systems::move_bullets_stage;
use crate::systems::move_targets_stage;
use crate::systems::nearest_target;
use crate::systems::player_index;
use crate::systems::shots;
use crate::systems::spawn_recs;
use crate::systems::collide_upto;
use crate::systems::advance_spec;
use crate::world::contains_id;
use crate::world::lemma_filter_excludes;
use crate::world::lemma_filter_keeps;
use crate::world::lemma_filter_same_membership;
use crate::world::EntityRec;
use crate::world::WorldModel;

// ---------------------------------------------------------------------
// Timers over a whole run of ticks.
// ---------------------------------------------------------------------

/// The sum of a run of delta-times.
pub open spec fn total_time(dts: Seq<u64>) -> int
    decreases dts.len(),
{
    if dts.len() == 0 {
        0
    } else {
        total_time(dts.drop_last()) + dts.last()
    }
}

/// The timer after a run of ticks.
pub open spec fn run_timer(t: Timer, dts: Seq<u64>) -> Timer
    decreases dts.len(),
{
    if dts.len() == 0 {
        t
    } else {
        run_timer(t, dts.drop_last()).after_tick(dts.last())
    }
}

pub proof fn lemma_total_time_nonneg(dts: Seq<u64>)
    ensures
        total_time(dts) >= 0,
    decreases dts.len(),
{
    if dts.len() > 0 {
        lemma_total_time_nonneg(dts.drop_last());
    }
}

/// While the accumulated delta-time stays below the duration, a timer
/// never fires and its elapsed time is the plain sum.
pub proof fn lemma_timer_accumulates(t: Timer, dts: Seq<u64>)
    requires
        t.wf(),
        t.elapsed + total_time(dts) < t.duration,
    ensures
        run_timer(t, dts) == (Timer { elapsed: (t.elapsed + total_time(dts)) as u64, ..t }),
        forall|k: int|
            0 <= k < dts.len() ==> !run_timer(t, #[trigger] dts.take(k)).just_fires(dts[k]),
    decreases dts.len(),
{
    if dts.len() == 0 {
        assert(run_timer(t, dts) == t);
        assert(t == (Timer { elapsed: (t.elapsed + 0) as u64, ..t }));
    } else {
        let pre = dts.drop_last();
        lemma_total_time_nonneg(pre);
        lemma_timer_accumulates(t, pre);
        assert(dts.take(dts.len() - 1) == pre);
        assert forall|k: int| 0 <= k < dts.len() implies !run_timer(
            t,
            #[trigger] dts.take(k),
        ).just_fires(dts[k]) by {
            if k < dts.len() - 1 {
                assert(dts.take(k) == pre.take(k));
                assert(pre[k] == dts[k]);
            } else {
                assert(dts.take(k) == pre);
            }
        }
    }
}

/// Between two consecutive shots of a repeating cooldown — freshly reset,
/// ticked without firing until it fires on the last tick — the elapsed
/// delta-times sum to the cooldown duration, up to one tick's delta-time.
/// A tower with a target available fires exactly when this timer does.
pub proof fn lemma_cooldown_cadence(t: Timer, dts: Seq<u64>)
    requires
        t.wf(),
        t.repeating,
        t.elapsed == 0,
        dts.len() > 0,
        forall|k: int|
            0 <= k < dts.len() - 1 ==> !run_timer(t, #[trigger] dts.take(k)).just_fires(dts[k]),
        run_timer(t, dts.take(dts.len() - 1)).just_fires(dts.last()),
    ensures
        t.duration <= total_time(dts) < t.duration + dts.last(),
{
    let pre = dts.take(dts.len() - 1);
    assert(pre == dts.drop_last());
    lemma_total_time_nonneg(pre);
    assert forall|k: int| 0 <= k < pre.len() implies !run_timer(
        t,
        #[trigger] pre.take(k),
    ).just_fires(pre[k]) by {
        assert(pre.take(k) == dts.take(k));
        assert(pre[k] == dts[k]);
    }
    lemma_no_fire_accumulates(t, pre);
    assert(run_timer(t, pre).elapsed == total_time(pre));
    assert(total_time(dts) == total_time(pre) + dts.last());
}

/// While a timer is observed never to fire, its elapsed time is the
/// plain sum of the delta-times, which stays below the duration.
pub proof fn lemma_no_fire_accumulates(t: Timer, dts: Seq<u64>)
    requires
        t.wf(),
        t.elapsed < t.duration,
        forall|k: int|
            0 <= k < dts.len() ==> !run_timer(t, #[trigger] dts.take(k)).just_fires(dts[k]),
    ensures
        run_timer(t, dts) == (Timer { elapsed: (t.elapsed + total_time(dts)) as u64, ..t }),
        t.elapsed + total_time(dts) < t.duration,
    decreases dts.len(),
{
    if dts.len() == 0 {
        assert(run_timer(t, dts) == t);
        assert(t == (Timer { elapsed: (t.elapsed + 0) as u64, ..t }));
    } else {
        let pre = dts.drop_last();
        lemma_total_time_nonneg(pre);
        assert forall|k: int| 0 <= k < pre.len() implies !run_timer(
            t,
            #[trigger] pre.take(k),
        ).just_fires(pre[k]) by {
            assert(pre.take(k) == dts.take(k));
            assert(pre[k] == dts[k]);
        }
        lemma_no_fire_accumulates(t, pre);
        assert(dts.take(dts.len() - 1) == pre);
        assert(!run_timer(t, pre).just_fires(dts.last()));
    }
}

/// A one-shot lifetime started at zero fires on the first tick at which
/// the accumulated delta-time reaches its duration — and on no earlier
/// one — however the run is cut into ticks.
pub proof fn lemma_lifetime_expiry(t: Timer, dts: Seq<u64>)
    requires
        t.wf(),
        !t.repeating,
        t.elapsed == 0,
        dts.len() > 0,
        total_time(dts.take(dts.len() - 1)) < t.duration,
        total_time(dts) >= t.duration,
    ensures
        run_timer(t, dts.take(dts.len() - 1)).just_fires(dts.last()),
        forall|k: int|
            0 <= k < dts.len() - 1 ==> !run_timer(t, #[trigger] dts.take(k)).just_fires(dts[k]),
{
    let pre = dts.take(dts.len() - 1);
    assert(pre == dts.drop_last());
    lemma_total_time_nonneg(pre);
    lemma_timer_accumulates(t, pre);
    assert(total_time(dts) == total_time(pre) + dts.last());
    assert forall|k: int| 0 <= k < dts.len() - 1 implies !run_timer(
        t,
        #[trigger] dts.take(k),
    ).just_fires(dts[k]) by {
        assert(dts.take(k) == pre.take(k));
        assert(pre[k] == dts[k]);
    }
}

/// A repeating tower cooldown that fires is reset to zero by the firing
/// stage, so `lemma_cooldown_cadence` applies afresh to every pair of
/// consecutive shots: with targets continuously available, successive
/// shots are one cooldown duration apart, up to one tick's delta-time.
pub proof fn lemma_fired_cooldown_resets(e: EntityRec, dt: u64)
    requires
        crate::systems::is_tower(e),
        e.comps.tower->0.shooting_timer.repeating,
        e.comps.tower->0.shooting_timer.just_fires(dt),
    ensures
        crate::systems::tower_ticked_rec(e, dt).comps.tower->0.shooting_timer.elapsed == 0,
{
}

/// An entity whose lifetime fires this tick is queued for despawn by the
/// lifetime system in the same tick.
pub proof fn lemma_expired_is_queued(m: WorldModel, dt: u64, j: int)
    requires
        0 <= j < m.entities.len(),
        has_lifetime(m.entities[j]),
        m.entities[j].comps.lifetime->0.timer.just_fires(dt),
    ensures
        lifetime_stage(m, dt).despawns.contains(m.entities[j].id),
{
    lemma_expired_ids_contains(m.entities, dt, j);
    let e = expired_ids(m.entities, dt);
    let i = choose|i: int| 0 <= i < e.len() && e[i] == m.entities[j].id;
    assert((m.despawns + e)[m.despawns.len() + i] == m.entities[j].id);
}

proof fn lemma_expired_ids_contains(s: Seq<EntityRec>, dt: u64, j: int)
    requires
        0 <= j < s.len(),
        has_lifetime(s[j]),
        s[j].comps.lifetime->0.timer.just_fires(dt),
    ensures
        expired_ids(s, dt).contains(s[j].id),
    decreases s.len(),
{
    if j == s.len() - 1 {
        let e = expired_ids(s, dt);
        assert(e[e.len() - 1] == s[j].id);
    } else {
        assert(s.drop_last()[j] == s[j]);
        lemma_expired_ids_contains(s.drop_last(), dt, j);
        let rest = expired_ids(s.drop_last(), dt);
        let i = choose|i: int| 0 <= i < rest.len() && rest[i] == s[j].id;
        assert(expired_ids(s, dt)[i] == s[j].id);
    }
}

// ---------------------------------------------------------------------
// Firing into a world without targets.
// ---------------------------------------------------------------------

proof fn lemma_nearest_none(s: Seq<EntityRec>, from: Vec3Fix)
    requires
        forall|j: int| 0 <= j < s.len() ==> !is_target(#[trigger] s[j]),
    ensures
        nearest_target(s, from) is None,
    decreases s.len(),
{
    if s.len() > 0 {
        assert(forall|j: int|
            0 <= j < s.drop_last().len() ==> s.drop_last()[j] == #[trigger] s[j]);
        lemma_nearest_none(s.drop_last(), from);
        assert(s[s.len() - 1] == s.last());
    }
}

proof fn lemma_shots_empty(s: Seq<EntityRec>, k: int, dt: u64)
    requires
        forall|j: int| 0 <= j < s.len() ==> !is_target(#[trigger] s[j]),
    ensures
        shots(s, k, dt).len() == 0,
    decreases k,
{
    if k > 0 {
        lemma_shots_empty(s, k - 1, dt);
        lemma_nearest_none(s, crate::systems::fire_point(s[k - 1]));
    }
}

/// With zero targets present no tower spawns a bullet: the firing stage
/// leaves the pending-spawn queue and the id counter unchanged; only the
/// cooldown timers advance.
pub proof fn lemma_no_targets_no_shots(m: WorldModel, dt: u64)
    requires
        forall|j: int| 0 <= j < m.entities.len() ==> !is_target(#[trigger] m.entities[j]),
    ensures
        fire_stage(m, dt).spawns == m.spawns,
        fire_stage(m, dt).next_id == m.next_id,
        fire_stage(m, dt).despawns == m.despawns,
{
    lemma_shots_empty(m.entities, m.entities.len() as int, dt);
    let cs = shots(m.entities, m.entities.len() as int, dt);
    assert(cs == Seq::<crate::world::Components>::empty());
    assert(m.spawns + spawn_recs(cs, m.next_id) =~= m.spawns);
}

// ---------------------------------------------------------------------
// Normalization of an already-unit direction is a no-op.
// ---------------------------------------------------------------------

/// A direction of exactly unit length is left unchanged by
/// re-normalization, so such a bullet moves by precisely its direction
/// times speed times delta-time.
pub proof fn lemma_normalize_unit_noop(v: Vec3Fix)
    requires
        norm_sq(v) == SCALE * SCALE,
    ensures
        normalize_spec(v) == v,
{
    assert(is_isqrt(SCALE * SCALE, SCALE as int)) by (nonlinear_arith);
    let n = sqrt_floor(norm_sq(v));
    assert(is_isqrt(norm_sq(v), n)) by {
        assert(exists|r: int| is_isqrt(norm_sq(v), r)) by {
            assert(is_isqrt(norm_sq(v), SCALE as int));
        }
    }
    lemma_isqrt_unique(norm_sq(v), n, SCALE as int);
    assert(n == SCALE as int);
    lemma_scale_trunc_identity(v.x as int);
    lemma_scale_trunc_identity(v.y as int);
    lemma_scale_trunc_identity(v.z as int);
}

proof fn lemma_scale_trunc_identity(a: int)
    ensures
        scale_trunc(a, SCALE as int, SCALE as int) == a,
{
    if a >= 0 {
        assert(a * SCALE == SCALE * a) by (nonlinear_arith);
        lemma_div_multiples_vanish(a, SCALE as int);
    } else {
        assert(-a * SCALE == SCALE * (-a)) by (nonlinear_arith);
        lemma_div_multiples_vanish(-a, SCALE as int);
    }
}

// ---------------------------------------------------------------------
// Collision damage accounting.
// ---------------------------------------------------------------------

/// How many of the first `k` bullets hit the target at index `t`.
pub open spec fn hits_on(s: Seq<EntityRec>, t: int, k: int) -> int
    decreases k,
{
    if k <= 0 {
        0
    } else {
        hits_on(s, t, k - 1) + if hit_of(s, k - 1) == Some(t) {
            1int
        } else {
            0int
        }
    }
}

pub proof fn lemma_hits_on_nonneg(s: Seq<EntityRec>, t: int, k: int)
    ensures
        0 <= hits_on(s, t, k),
        hits_on(s, t, k - 1) <= hits_on(s, t, k),
    decreases k,
{
    if k > 0 {
        lemma_hits_on_nonneg(s, t, k - 1);
    }
}

/// Each hitting bullet damages exactly the one target of its first match:
/// after the first `k` bullets resolved, a target's health has dropped by
/// exactly the number of bullets whose first in-range target it was
/// (barring saturation at the machine's lower bound).
pub proof fn lemma_collision_damage(s: Seq<EntityRec>, t: int, k: int)
    requires
        0 <= t < s.len(),
        has_health(s[t]),
        s[t].comps.health->0.value - hits_on(s, t, k) > i64::MIN,
    ensures
        collide_upto(s, k)[t].comps.health->0.value == s[t].comps.health->0.value - hits_on(
            s,
            t,
            k,
        ),
    decreases k,
{
    crate::systems::lemma_collide_preserves(s, k);
    if k > 0 {
        lemma_hits_on_nonneg(s, t, k - 1);
        lemma_collision_damage(s, t, k - 1);
        crate::systems::lemma_collide_preserves(s, k - 1);
        match hit_of(s, k - 1) {
            Some(ht) => {
                crate::systems::lemma_first_hit_in_range(
                    s,
                    s[k - 1].comps.position->0,
                    0,
                );
            },
            None => {},
        }
    }
}

/// A bullet that hit something this tick is queued for despawn in the
/// same tick.
pub proof fn lemma_hit_bullet_despawned(s: Seq<EntityRec>, b: int, k: int)
    requires
        0 <= b < k,
        hit_of(s, b) is Some,
    ensures
        hit_bullet_ids(s, k).contains(s[b].id),
    decreases k,
{
    if b == k - 1 {
        let h = hit_bullet_ids(s, k);
        assert(h[h.len() - 1] == s[b].id);
    } else {
        lemma_hit_bullet_despawned(s, b, k - 1);
        let rest = hit_bullet_ids(s, k - 1);
        let i = choose|i: int| 0 <= i < rest.len() && rest[i] == s[b].id;
        assert(hit_bullet_ids(s, k)[i] == s[b].id);
    }
}

// ---------------------------------------------------------------------
// Death events and the reward, within one tick.
// ---------------------------------------------------------------------

/// In a full tick, the number of death events seen by the economy
/// listener is exactly the number of entities dead after collision — one
/// event per death, independent of any event of an earlier tick — and
/// the player is credited the fixed reward exactly once per such event.
pub proof fn lemma_reward_per_death(m: WorldModel, dt: u64)
    ensures
        ({
            let pre = collision_stage(
                lifetime_stage(
                    move_bullets_stage(
                        move_targets_stage(fire_stage(clear_events_stage(m), dt), dt),
                        dt,
                    ),
                    dt,
                ),
            );
            let deaths = dead_ids(pre.entities).len();
            &&& death_stage(pre).events == deaths
            &&& (player_index(pre.entities) matches Some(pi)
                ==> economy_stage(death_stage(pre)).entities[pi].comps.player->0.money
                    as int == credited_money(
                    pre.entities[pi].comps.player->0.money as int,
                    deaths as int,
                ))
        }),
{
    let pre = collision_stage(
        lifetime_stage(
            move_bullets_stage(
                move_targets_stage(fire_stage(clear_events_stage(m), dt), dt),
                dt,
            ),
            dt,
        ),
    );
    let deaths = dead_ids(pre.entities).len();
    assert(pre.events == 0);
    let d = death_stage(pre);
    assert(d.events == deaths);
    match player_index(pre.entities) {
        Some(pi) => {
            crate::systems::lemma_player_index_range(pre.entities, 0);
            assert(d.entities == pre.entities);
            assert(economy_stage(d).entities[pi] == crate::systems::credited_rec(
                pre.entities[pi],
                deaths as int,
            ));
        },
        None => {},
    }
}

proof fn lemma_dead_ids_contains(s: Seq<EntityRec>, j: int)
    requires
        0 <= j < s.len(),
        has_health(s[j]),
        s[j].comps.health->0.value <= 0,
    ensures
        dead_ids(s).contains(s[j].id),
    decreases s.len(),
{
    if j == s.len() - 1 {
        let d = dead_ids(s);
        assert(d[d.len() - 1] == s[j].id);
    } else {
        assert(s.drop_last()[j] == s[j]);
        lemma_dead_ids_contains(s.drop_last(), j);
        let rest = dead_ids(s.drop_last());
        let i = choose|i: int| 0 <= i < rest.len() && rest[i] == s[j].id;
        assert(dead_ids(s)[i] == s[j].id);
    }
}

/// An entity dead after collision is removed from the world by the
/// end-of-tick commit.
pub proof fn lemma_dead_entity_removed(m: WorldModel, dt: u64, j: int)
    ensures
        ({
            let pre = collision_stage(
                lifetime_stage(
                    move_bullets_stage(
                        move_targets_stage(fire_stage(clear_events_stage(m), dt), dt),
                        dt,
                    ),
                    dt,
                ),
            );
            (0 <= j < pre.entities.len() && has_health(pre.entities[j])
                && pre.entities[j].comps.health->0.value <= 0) ==> !contains_id(
                advance_spec(m, dt).entities,
                pre.entities[j].id,
            )
        }),
{
    let pre = collision_stage(
        lifetime_stage(
            move_bullets_stage(
                move_targets_stage(fire_stage(clear_events_stage(m), dt), dt),
                dt,
            ),
            dt,
        ),
    );
    if 0 <= j < pre.entities.len() && has_health(pre.entities[j])
        && pre.entities[j].comps.health->0.value <= 0 {
        lemma_dead_ids_contains(pre.entities, j);
        let id = pre.entities[j].id;
        let fin = economy_stage(death_stage(pre));
        assert(fin.despawns == pre.despawns + dead_ids(pre.entities));
        let d = dead_ids(pre.entities);
        let i = choose|i: int| 0 <= i < d.len() && d[i] == id;
        assert(fin.despawns[pre.despawns.len() + i] == id);
        assert(fin.despawns.contains(id));
        lemma_filter_excludes(fin.entities + fin.spawns, fin.despawns, id);
    }
}

// ---------------------------------------------------------------------
// Idempotent despawning.
// ---------------------------------------------------------------------

/// Marking the same entity for despawn twice within one tick commits to
/// exactly the same world as marking it once.
pub proof fn lemma_despawn_idempotent(m: WorldModel, id: u64)
    ensures
        commit_stage(WorldModel { despawns: m.despawns.push(id).push(id), ..m })
            == commit_stage(WorldModel { despawns: m.despawns.push(id), ..m }),
{
    let d1 = m.despawns.push(id).push(id);
    let d2 = m.despawns.push(id);
    assert forall|x: u64| d1.contains(x) == d2.contains(x) by {
        if d1.contains(x) {
            let i = choose|i: int| 0 <= i < d1.len() && d1[i] == x;
            if i < m.despawns.len() {
                assert(d2[i] == x);
            } else {
                assert(d2[m.despawns.len() as int] == id);
                assert(x == id);
            }
        }
        if d2.contains(x) {
            let i = choose|i: int| 0 <= i < d2.len() && d2[i] == x;
            assert(d1[i] == x);
        }
    }
    lemma_filter_same_membership(m.entities + m.spawns, d1, d2);
    assert(commit_stage(WorldModel { despawns: d1, ..m }) =~= commit_stage(
        WorldModel { despawns: d2, ..m },
    ));
}

// ---------------------------------------------------------------------
// Visibility of deferred spawns.
// ---------------------------------------------------------------------

/// Entities spawned during a tick are absent from that tick's queries:
/// no system stage before the commit adds an entity — their committed
/// entity lists keep exactly the identifiers the tick started with.
pub proof fn lemma_spawns_invisible_this_tick(m: WorldModel, dt: u64)
    ensures
        ({
            let pre = economy_stage(
                death_stage(
                    collision_stage(
                        lifetime_stage(
                            move_bullets_stage(
                                move_targets_stage(
                                    fire_stage(clear_events_stage(m), dt),
                                    dt,
                                ),
                                dt,
                            ),
                            dt,
                        ),
                    ),
                ),
            );
            pre.entities.len() == m.entities.len() && forall|j: int|
                0 <= j < m.entities.len() ==> #[trigger] pre.entities[j].id == m.entities[j].id
        }),
{
    let e0 = m.entities;
    let e1 = fire_stage(clear_events_stage(m), dt).entities;
    let e2 = move_targets_stage(fire_stage(clear_events_stage(m), dt), dt).entities;
    let e3 = move_bullets_stage(
        move_targets_stage(fire_stage(clear_events_stage(m), dt), dt),
        dt,
    ).entities;
    let e4 = lifetime_stage(
        move_bullets_stage(move_targets_stage(fire_stage(clear_events_stage(m), dt), dt), dt),
        dt,
    ).entities;
    let e5 = collision_stage(
        lifetime_stage(
            move_bullets_stage(
                move_targets_stage(fire_stage(clear_events_stage(m), dt), dt),
                dt,
            ),
            dt,
        ),
    ).entities;
    crate::systems::lemma_collide_preserves(e4, e4.len() as int);
    assert forall|j: int| 0 <= j < e0.len() implies #[trigger] e1[j].id == e0[j].id by {
        assert(e1[j] == crate::systems::tower_ticked_rec(e0[j], dt));
    }
    assert forall|j: int| 0 <= j < e0.len() implies #[trigger] e2[j].id == e1[j].id by {
        assert(e2[j] == crate::systems::move_target_rec(e1[j], dt));
    }
    assert forall|j: int| 0 <= j < e0.len() implies #[trigger] e3[j].id == e2[j].id by {
        assert(e3[j] == crate::systems::move_bullet_rec(e2[j], dt));
    }
    assert forall|j: int| 0 <= j < e0.len() implies #[trigger] e4[j].id == e3[j].id by {
        assert(e4[j] == crate::systems::tick_lifetime_rec(e3[j], dt));
    }
    crate::systems::lemma_player_index_range(e5, 0);
    match player_index(e5) {
        Some(pi) => {
            assert(crate::systems::credited_rec(e5[pi], dead_ids(e5).len() as int).id
                == e5[pi].id);
        },
        None => {},
    }
}

/// A pending spawn not marked for despawn is present in the committed
/// world — visible from the next tick on.
pub proof fn lemma_pending_spawn_commits(m: WorldModel, j: int)
    requires
        0 <= j < m.spawns.len(),
        !m.despawns.contains(m.spawns[j].id),
    ensures
        contains_id(commit_stage(m).entities, m.spawns[j].id),
{
    let all = m.entities + m.spawns;
    assert(all[m.entities.len() + j] == m.spawns[j]);
    assert(contains_id(all, m.spawns[j].id));
    lemma_filter_keeps(all, m.despawns, m.spawns[j].id);
}

} // verus!
