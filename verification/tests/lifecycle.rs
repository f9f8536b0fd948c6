//! Deferred spawning and despawning, and bullet lifetimes.

use tower_core::components::Bullet;
use tower_core::components::Lifetime;
use tower_core::components::Timer;
use tower_core::components::BULLET_LIFETIME_MS;
use tower_core::math::Vec3Fix;
use tower_core::systems::bullet_despawn;
use tower_core::world::Components;
use tower_core::world::World;

fn v(x: i64, y: i64, z: i64) -> Vec3Fix {
    Vec3Fix { x, y, z }
}

fn bullet_comps() -> Components {
    let mut c = Components::empty();
    c.position = Some(v(0, 0, 0));
    c.bullet = Some(Bullet { direction: v(1000, 0, 0), speed: 5500 });
    c.lifetime = Some(Lifetime { timer: Timer::new(BULLET_LIFETIME_MS, false) });
    c
}

#[test]
fn spawn_invisible_until_commit() {
    // An entity spawned during a tick is absent from that tick's
    // queries and present starting the following tick.
    let mut w = World::new();
    let id = w.spawn(Components::empty());
    assert_eq!(w.entities.len(), 0);
    assert_eq!(w.spawns.len(), 1);
    w.commit();
    assert_eq!(w.entities.len(), 1);
    assert_eq!(w.entities[0].id, id);
    assert_eq!(w.spawns.len(), 0);
}

#[test]
fn despawn_deferred_until_commit() {
    let mut w = World::new();
    let id = w.spawn(Components::empty());
    w.commit();
    w.despawn(id);
    assert_eq!(w.entities.len(), 1);
    w.commit();
    assert_eq!(w.entities.len(), 0);
}

#[test]
fn despawn_twice_same_tick_is_idempotent() {
    // Issuing despawn twice for the same id within one tick has the
    // same end-of-tick effect as issuing it once.
    let mut w = World::new();
    let keep = w.spawn(Components::empty());
    let gone = w.spawn(Components::empty());
    w.commit();
    w.despawn(gone);
    w.despawn(gone);
    w.commit();
    assert_eq!(w.entities.len(), 1);
    assert_eq!(w.entities[0].id, keep);
    // The next tick starts from a clean queue.
    assert_eq!(w.despawns.len(), 0);
    w.commit();
    assert_eq!(w.entities.len(), 1);
}

#[test]
fn despawn_of_same_tick_spawn_never_visible() {
    let mut w = World::new();
    let id = w.spawn(Components::empty());
    w.despawn(id);
    w.commit();
    assert_eq!(w.entities.len(), 0);
}

#[test]
fn ids_are_never_reused() {
    let mut w = World::new();
    let a = w.spawn(Components::empty());
    w.commit();
    w.despawn(a);
    w.commit();
    let b = w.spawn(Components::empty());
    w.commit();
    assert_ne!(a, b);
    assert_eq!(w.entities[0].id, b);
}

#[test]
fn bullet_expires_at_lifetime() {
    // A bullet with a 5.5 s lifetime is despawned at the first tick at
    // which its accumulated delta-time reaches 5.5 s, even though it
    // never collides.
    let mut w = World::new();
    w.spawn(bullet_comps());
    w.commit();
    // Five ticks of one second: 5.0 s accumulated, still alive.
    for _ in 0..5 {
        bullet_despawn(&mut w, 1000);
        w.commit();
        assert_eq!(w.entities.len(), 1);
    }
    // The sixth tick crosses 5.5 s: despawned at end of that tick.
    bullet_despawn(&mut w, 1000);
    w.commit();
    assert_eq!(w.entities.len(), 0);
}

#[test]
fn lifetime_exact_boundary() {
    let mut w = World::new();
    w.spawn(bullet_comps());
    w.commit();
    bullet_despawn(&mut w, BULLET_LIFETIME_MS - 1);
    w.commit();
    assert_eq!(w.entities.len(), 1);
    bullet_despawn(&mut w, 1);
    w.commit();
    assert_eq!(w.entities.len(), 0);
}

#[test]
fn empty_world_tick_is_harmless() {
    let mut w = World::new();
    bullet_despawn(&mut w, 1000);
    w.commit();
    assert_eq!(w.entities.len(), 0);
    assert_eq!(w.next_id, 0);
}
