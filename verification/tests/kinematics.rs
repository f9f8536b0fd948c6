//! Fixed-point math and movement of bullets and targets.

use tower_core::components::Target;
use tower_core::components::Bullet;
use tower_core::math::dist_sq;
use tower_core::math::isqrt;
use tower_core::math::normalize;
use tower_core::math::Vec3Fix;
use tower_core::math::COORD_LIMIT;
use tower_core::systems::move_bullets;
use tower_core::systems::move_targets;
use tower_core::world::Components;
use tower_core::world::World;

fn v(x: i64, y: i64, z: i64) -> Vec3Fix {
    Vec3Fix { x, y, z }
}

fn empty_comps() -> Components {
    Components::empty()
}

fn world_with(comps: Vec<Components>) -> World {
    let mut w = World::new();
    for c in comps {
        w.spawn(c);
    }
    w.commit();
    w
}

#[test]
fn isqrt_exact_values() {
    assert_eq!(isqrt(0), 0);
    assert_eq!(isqrt(1), 1);
    assert_eq!(isqrt(2), 1);
    assert_eq!(isqrt(3), 1);
    assert_eq!(isqrt(4), 2);
    assert_eq!(isqrt(1_000_000), 1000);
    assert_eq!(isqrt(999_999), 999);
    assert_eq!(isqrt(u64::MAX), 0xFFFF_FFFF);
}

#[test]
fn dist_sq_pythagorean() {
    assert_eq!(dist_sq(&v(0, 0, 0), &v(3, 4, 0)), 25);
    assert_eq!(dist_sq(&v(1, 2, 3), &v(1, 2, 3)), 0);
    assert_eq!(dist_sq(&v(-3, 0, 0), &v(3, 0, 0)), 36);
}

#[test]
fn normalize_unit_vector_is_noop() {
    // A direction that is already unit length (norm 1000 milli-units)
    // comes back unchanged.
    assert_eq!(normalize(&v(1000, 0, 0)), v(1000, 0, 0));
    assert_eq!(normalize(&v(0, -1000, 0)), v(0, -1000, 0));
}

#[test]
fn normalize_rescales_to_unit_length() {
    assert_eq!(normalize(&v(2000, 0, 0)), v(1000, 0, 0));
    assert_eq!(normalize(&v(0, 0, 5500)), v(0, 0, 1000));
    assert_eq!(normalize(&v(3000, 4000, 0)), v(600, 800, 0));
}

#[test]
fn normalize_zero_vector_unchanged() {
    assert_eq!(normalize(&v(0, 0, 0)), v(0, 0, 0));
}

#[test]
fn bullet_moves_exactly_speed_times_dt() {
    // Speed 5.5 units/s, direction (1, 0, 0), delta-time 1.0 s: the
    // bullet moves exactly (5.5, 0, 0) from its spawn point.
    let mut c = empty_comps();
    c.position = Some(v(0, 0, 0));
    c.bullet = Some(Bullet { direction: v(1000, 0, 0), speed: 5500 });
    let mut w = world_with(vec![c]);
    move_bullets(&mut w, 1000);
    assert_eq!(w.entities[0].comps.position.unwrap(), v(5500, 0, 0));
}

#[test]
fn bullet_with_drifted_direction_renormalized() {
    // A direction that drifted to twice unit length still moves the
    // bullet by exactly speed * dt.
    let mut c = empty_comps();
    c.position = Some(v(100, 200, 300));
    c.bullet = Some(Bullet { direction: v(0, 2000, 0), speed: 2000 });
    let mut w = world_with(vec![c]);
    move_bullets(&mut w, 500);
    assert_eq!(w.entities[0].comps.position.unwrap(), v(100, 1200, 300));
}

#[test]
fn target_moves_along_x_only() {
    let mut c = empty_comps();
    c.position = Some(v(-4000, 200, 1500));
    c.target = Some(Target { speed: 300 });
    let mut w = world_with(vec![c]);
    move_targets(&mut w, 1000);
    assert_eq!(w.entities[0].comps.position.unwrap(), v(-3700, 200, 1500));
}

#[test]
fn movement_clamps_to_arena() {
    let mut c = empty_comps();
    c.position = Some(v(COORD_LIMIT, 0, 0));
    c.target = Some(Target { speed: 300 });
    let mut w = world_with(vec![c]);
    move_targets(&mut w, 1000);
    assert_eq!(w.entities[0].comps.position.unwrap(), v(COORD_LIMIT, 0, 0));
}
