//! Cooldown timers and tower targeting.

use tower_core::components::Target;
use tower_core::components::Timer;
use tower_core::components::Tower;
use tower_core::components::TowerKind;
use tower_core::components::BULLET_LIFETIME_MS;
use tower_core::components::BULLET_SPEED;
use tower_core::components::TOWER_COOLDOWN_MS;
use tower_core::math::Vec3Fix;
use tower_core::systems::spawn_tower;
use tower_core::systems::tower_shooting;
use tower_core::world::Components;
use tower_core::world::World;

fn v(x: i64, y: i64, z: i64) -> Vec3Fix {
    Vec3Fix { x, y, z }
}

fn tower_at(p: Vec3Fix) -> Components {
    let mut c = Components::empty();
    c.position = Some(p);
    c.tower = Some(Tower {
        shooting_timer: Timer::new(TOWER_COOLDOWN_MS, true),
        bullet_offset: v(0, 0, 0),
        kind: TowerKind::Basic,
    });
    c
}

fn target_at(p: Vec3Fix) -> Components {
    let mut c = Components::empty();
    c.position = Some(p);
    c.target = Some(Target { speed: 0 });
    c
}

#[test]
fn repeating_timer_fires_and_resets() {
    let mut t = Timer::new(1000, true);
    assert!(!t.tick(400));
    assert_eq!(t.elapsed, 400);
    assert!(!t.tick(400));
    assert_eq!(t.elapsed, 800);
    assert!(t.tick(400));
    assert_eq!(t.elapsed, 0);
}

#[test]
fn one_shot_timer_fires_once_and_sticks() {
    let mut t = Timer::new(1000, false);
    assert!(t.tick(1500));
    assert_eq!(t.elapsed, 1000);
    assert!(!t.tick(1500));
    assert_eq!(t.elapsed, 1000);
}

#[test]
fn nearest_target_is_selected() {
    // Targets at distances 5.0, 2.0 and 8.0 from the firing point: the
    // one at distance 2.0 is shot at.
    let mut w = World::new();
    w.spawn(tower_at(v(0, 0, 0)));
    w.spawn(target_at(v(5000, 0, 0)));
    w.spawn(target_at(v(0, 2000, 0)));
    w.spawn(target_at(v(0, 0, 8000)));
    w.commit();
    tower_shooting(&mut w, TOWER_COOLDOWN_MS);
    assert_eq!(w.spawns.len(), 1);
    let b = w.spawns[0].comps.bullet.unwrap();
    // The stored direction is unit length at creation: target minus
    // firing point, normalized.
    assert_eq!(b.direction, v(0, 1000, 0));
    assert_eq!(b.speed, BULLET_SPEED);
    let lt = w.spawns[0].comps.lifetime.unwrap();
    assert_eq!(lt.timer.duration, BULLET_LIFETIME_MS);
    assert!(!lt.timer.repeating);
    assert_eq!(w.spawns[0].comps.position.unwrap(), v(0, 0, 0));
}

#[test]
fn equal_distances_first_in_iteration_order_wins() {
    let mut w = World::new();
    w.spawn(tower_at(v(0, 0, 0)));
    w.spawn(target_at(v(2000, 0, 0)));
    w.spawn(target_at(v(-2000, 0, 0)));
    w.commit();
    tower_shooting(&mut w, TOWER_COOLDOWN_MS);
    assert_eq!(w.spawns.len(), 1);
    assert_eq!(w.spawns[0].comps.bullet.unwrap().direction, v(1000, 0, 0));
}

#[test]
fn firing_point_includes_offset() {
    let mut c = tower_at(v(0, 500, 0));
    c.tower = Some(Tower {
        shooting_timer: Timer::new(TOWER_COOLDOWN_MS, true),
        bullet_offset: v(0, 250, 0),
        kind: TowerKind::Basic,
    });
    let mut w = World::new();
    w.spawn(c);
    w.spawn(target_at(v(3000, 750, 0)));
    w.commit();
    tower_shooting(&mut w, TOWER_COOLDOWN_MS);
    assert_eq!(w.spawns[0].comps.position.unwrap(), v(0, 750, 0));
    assert_eq!(w.spawns[0].comps.bullet.unwrap().direction, v(1000, 0, 0));
}

#[test]
fn stored_direction_is_unit_length() {
    // A 3-4-5 offset: the stored direction has norm 1000 exactly.
    let mut w = World::new();
    w.spawn(tower_at(v(0, 0, 0)));
    w.spawn(target_at(v(3000, 4000, 0)));
    w.commit();
    tower_shooting(&mut w, TOWER_COOLDOWN_MS);
    assert_eq!(w.spawns[0].comps.bullet.unwrap().direction, v(600, 800, 0));
}

#[test]
fn no_targets_no_bullet() {
    // Firing with zero targets present spawns nothing and does not
    // error; the cooldown is still consumed.
    let mut w = World::new();
    w.spawn(tower_at(v(0, 0, 0)));
    w.commit();
    tower_shooting(&mut w, TOWER_COOLDOWN_MS);
    assert_eq!(w.spawns.len(), 0);
    let tw = w.entities[0].comps.tower.unwrap();
    assert_eq!(tw.shooting_timer.elapsed, 0);
}

#[test]
fn cooldown_not_reached_no_bullet() {
    let mut w = World::new();
    w.spawn(tower_at(v(0, 0, 0)));
    w.spawn(target_at(v(2000, 0, 0)));
    w.commit();
    tower_shooting(&mut w, TOWER_COOLDOWN_MS - 1);
    assert_eq!(w.spawns.len(), 0);
    assert_eq!(
        w.entities[0].comps.tower.unwrap().shooting_timer.elapsed,
        TOWER_COOLDOWN_MS - 1
    );
}

#[test]
fn shot_interval_equals_cooldown() {
    // With a target continuously available and a tick of 250 ms, shots
    // fall exactly one cooldown duration (four ticks) apart.
    let mut w = World::new();
    w.spawn(tower_at(v(0, 0, 0)));
    w.spawn(target_at(v(500_000, 0, 0)));
    w.commit();
    let mut shot_ticks: Vec<u64> = Vec::new();
    for tick in 1..=12u64 {
        let before = w.spawns.len();
        tower_shooting(&mut w, 250);
        if w.spawns.len() > before {
            shot_ticks.push(tick);
        }
    }
    assert_eq!(shot_ticks, vec![4, 8, 12]);
}

#[test]
fn spawn_tower_uses_defaults() {
    let mut w = World::new();
    let id = spawn_tower(&mut w, TowerKind::Potato, v(100, 500, -100));
    w.commit();
    assert_eq!(w.entities.len(), 1);
    assert_eq!(w.entities[0].id, id);
    let tw = w.entities[0].comps.tower.unwrap();
    assert_eq!(tw.shooting_timer.duration, TOWER_COOLDOWN_MS);
    assert_eq!(tw.shooting_timer.elapsed, 0);
    assert!(tw.shooting_timer.repeating);
    assert_eq!(tw.bullet_offset, v(0, 0, 0));
    assert_eq!(tw.kind, TowerKind::Potato);
    assert_eq!(w.entities[0].comps.position.unwrap(), v(100, 500, -100));
}

#[test]
fn tower_kinds_share_ballistics_distinct_payloads() {
    let kinds = [
        TowerKind::Basic,
        TowerKind::Tomato,
        TowerKind::Potato,
        TowerKind::Cabbage,
    ];
    for k in kinds.iter() {
        assert_eq!(k.bullet_speed(), BULLET_SPEED);
    }
    assert_eq!(TowerKind::Basic.payload_id(), 0);
    assert_eq!(TowerKind::Tomato.payload_id(), 1);
    assert_eq!(TowerKind::Potato.payload_id(), 2);
    assert_eq!(TowerKind::Cabbage.payload_id(), 3);
}
