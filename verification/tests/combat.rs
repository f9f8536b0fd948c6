//! Collision resolution, death events, the economy, and full ticks.

use tower_core::components::Bullet;
use tower_core::components::Health;
use tower_core::components::Target;
use tower_core::components::Timer;
use tower_core::components::Tower;
use tower_core::components::TowerKind;
use tower_core::components::KILL_REWARD;
use tower_core::components::START_MONEY;
use tower_core::components::TOWER_COOLDOWN_MS;
use tower_core::math::Vec3Fix;
use tower_core::systems::advance;
use tower_core::systems::bullet_collison;
use tower_core::systems::give_money_on_kill;
use tower_core::systems::spawn_player;
use tower_core::systems::target_death;
use tower_core::world::Components;
use tower_core::world::World;

fn v(x: i64, y: i64, z: i64) -> Vec3Fix {
    Vec3Fix { x, y, z }
}

fn bullet_at(p: Vec3Fix) -> Components {
    let mut c = Components::empty();
    c.position = Some(p);
    c.bullet = Some(Bullet { direction: v(0, 0, 0), speed: 5500 });
    c
}

fn target_at(p: Vec3Fix, hp: i64) -> Components {
    let mut c = Components::empty();
    c.position = Some(p);
    c.target = Some(Target { speed: 0 });
    c.health = Some(Health { value: hp });
    c
}

fn tower_at(p: Vec3Fix) -> Components {
    let mut c = Components::empty();
    c.position = Some(p);
    c.tower = Some(Tower {
        shooting_timer: Timer::new(TOWER_COOLDOWN_MS, true),
        bullet_offset: v(0, 0, 0),
        kind: TowerKind::Basic,
    });
    c
}

#[test]
fn bullet_within_radius_damages_once_and_despawns() {
    // A bullet within the hit radius damages its target by exactly 1
    // and is despawned the same tick; a second target also in range is
    // untouched.
    let mut w = World::new();
    w.spawn(target_at(v(100, 0, 0), 3));
    w.spawn(target_at(v(150, 0, 0), 3));
    let bid = w.spawn(bullet_at(v(0, 0, 0)));
    w.commit();
    bullet_collison(&mut w);
    assert_eq!(w.entities[0].comps.health.unwrap().value, 2);
    assert_eq!(w.entities[1].comps.health.unwrap().value, 3);
    assert_eq!(w.despawns, vec![bid]);
    w.commit();
    assert_eq!(w.entities.len(), 2);
}

#[test]
fn bullet_at_radius_does_not_hit() {
    // The hit test is a strict comparison: distance exactly 0.2 misses.
    let mut w = World::new();
    w.spawn(target_at(v(200, 0, 0), 3));
    w.spawn(bullet_at(v(0, 0, 0)));
    w.commit();
    bullet_collison(&mut w);
    assert_eq!(w.entities[0].comps.health.unwrap().value, 3);
    assert_eq!(w.despawns.len(), 0);
}

#[test]
fn two_bullets_each_hit() {
    let mut w = World::new();
    w.spawn(target_at(v(0, 0, 0), 3));
    w.spawn(bullet_at(v(50, 0, 0)));
    w.spawn(bullet_at(v(0, 50, 0)));
    w.commit();
    bullet_collison(&mut w);
    assert_eq!(w.entities[0].comps.health.unwrap().value, 1);
    assert_eq!(w.despawns.len(), 2);
}

#[test]
fn dead_target_despawned_one_event_one_reward() {
    // Health reaching 0 despawns the target, emits exactly one death
    // event that tick, and the player is credited the reward exactly
    // once — never retroactively on a later tick.
    let mut w = World::new();
    spawn_player(&mut w);
    w.spawn(target_at(v(100, 0, 0), 1));
    w.spawn(bullet_at(v(0, 0, 0)));
    w.commit();
    advance(&mut w, 0);
    assert_eq!(w.death_events.len(), 1);
    let money: Vec<u64> = w
        .entities
        .iter()
        .filter_map(|e| e.comps.player.map(|p| p.money))
        .collect();
    assert_eq!(money, vec![START_MONEY + KILL_REWARD]);
    assert!(w.entities.iter().all(|e| e.comps.target.is_none()));
    assert!(w.entities.iter().all(|e| e.comps.bullet.is_none()));
    // A later tick with no deaths pays nothing for the old event.
    advance(&mut w, 0);
    assert_eq!(w.death_events.len(), 0);
    let money2: Vec<u64> = w
        .entities
        .iter()
        .filter_map(|e| e.comps.player.map(|p| p.money))
        .collect();
    assert_eq!(money2, vec![START_MONEY + KILL_REWARD]);
}

#[test]
fn two_deaths_two_rewards() {
    let mut w = World::new();
    spawn_player(&mut w);
    w.spawn(target_at(v(0, 0, 0), 0));
    w.spawn(target_at(v(1000, 0, 0), -2));
    w.commit();
    target_death(&mut w);
    assert_eq!(w.death_events.len(), 2);
    give_money_on_kill(&mut w);
    let p = w.entities[0].comps.player.unwrap();
    assert_eq!(p.money, START_MONEY + 2 * KILL_REWARD);
    w.commit();
    assert_eq!(w.entities.len(), 1);
}

#[test]
fn health_may_go_negative_before_commit() {
    let mut w = World::new();
    w.spawn(target_at(v(0, 0, 0), 0));
    w.spawn(bullet_at(v(10, 0, 0)));
    w.commit();
    bullet_collison(&mut w);
    assert_eq!(w.entities[0].comps.health.unwrap().value, -1);
}

#[test]
fn full_game_loop_kills_target_and_pays() {
    // A tower, a static target three hits away, and the player: ticked
    // at 20 ms the tower kills the target with three shots, the player
    // earns exactly one reward, and no bullet or target remains.
    let mut w = World::new();
    spawn_player(&mut w);
    w.spawn(tower_at(v(0, 0, 0)));
    w.spawn(target_at(v(1000, 0, 0), 3));
    w.commit();
    for _ in 0..250 {
        advance(&mut w, 20);
    }
    assert!(w.entities.iter().all(|e| e.comps.target.is_none()));
    assert!(w.entities.iter().all(|e| e.comps.bullet.is_none()));
    let money: Vec<u64> = w
        .entities
        .iter()
        .filter_map(|e| e.comps.player.map(|p| p.money))
        .collect();
    assert_eq!(money, vec![START_MONEY + KILL_REWARD]);
    assert_eq!(w.entities.len(), 2);
}
