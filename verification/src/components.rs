//! Component records attached to entities, and the gameplay constants.
//!
//! A component is a plain value record; an entity is an opaque identifier
//! grouping a set of them (see `world`).  Timers count milliseconds and
//! either repeat (cooldowns) or fire once (lifetimes).

use vstd::prelude::*;

verus! {

use crate::math::COORD_LIMIT;
use crate::math::DIR_LIMIT;
use crate::math::DT_LIMIT;
use crate::math::DURATION_LIMIT;
use crate::math::SPEED_LIMIT;
use crate::math::Vec3Fix;

/// Cooldown of a tower between two shots, in milliseconds.
pub const TOWER_COOLDOWN_MS: u64 = 1_000;

/// Speed of a bullet, in milli-units per second.
pub const BULLET_SPEED: i64 = 5_500;

/// Failsafe time-to-live of a bullet, in milliseconds.
pub const BULLET_LIFETIME_MS: u64 = 5_500;

/// A bullet closer than this to a target hits it (milli-units).
pub const HIT_RADIUS: i64 = 200;

/// Squared hit radius; collision compares squared distances.
pub const HIT_RADIUS_SQ: u64 = 40_000;

/// Damage one bullet hit applies to a target's health.
pub const HIT_DAMAGE: i64 = 1;

/// Money credited to the player for each target death.
pub const KILL_REWARD: u64 = 10;

/// Money a freshly spawned player starts with.
pub const START_MONEY: u64 = 100;

/// A timer accumulating elapsed milliseconds toward a duration.  A
/// repeating timer resets to zero when it fires; a one-shot timer stops at
/// its duration and never fires again.
#[derive(Clone, Copy, PartialEq, Eq, Structural, Debug)]
pub struct Timer {
    pub elapsed: u64,
    pub duration: u64,
    pub repeating: bool,
}

impl Timer {
    /// A duration is positive and bounded; the elapsed time never passes
    /// the duration, and a repeating timer never rests at it.
    pub open spec fn wf(self) -> bool {
        &&& 1 <= self.duration <= DURATION_LIMIT
        &&& self.elapsed <= self.duration
        &&& self.repeating ==> self.elapsed < self.duration
    }

    /// The timer fires on a tick of `dt`: it had not reached its duration
    /// yet and reaches it now.
    pub open spec fn just_fires(self, dt: u64) -> bool {
        self.elapsed < self.duration && self.elapsed + dt >= self.duration
    }

    /// The timer after a tick of `dt`: fired repeating timers reset to
    /// zero, fired one-shot timers stick at their duration.
    pub open spec fn after_tick(self, dt: u64) -> Timer {
        if self.elapsed + dt >= self.duration {
            if self.repeating {
                Timer { elapsed: 0, ..self }
            } else {
                Timer { elapsed: self.duration, ..self }
            }
        } else {
            Timer { elapsed: (self.elapsed + dt) as u64, ..self }
        }
    }

    pub fn new(duration: u64, repeating: bool) -> (t: Timer)
        requires
            1 <= duration <= DURATION_LIMIT,
        ensures
            t == (Timer { elapsed: 0, duration, repeating }),
            t.wf(),
    {
        Timer { elapsed: 0, duration, repeating }
    }

    /// Advances the timer by `dt` milliseconds and reports whether it
    /// fired on this tick.
    pub fn tick(&mut self, dt: u64) -> (fired: bool)
        requires
            old(self).wf(),
            dt <= DT_LIMIT,
        ensures
            *final(self) == old(self).after_tick(dt),
            fired == old(self).just_fires(dt),
            final(self).wf(),
    {
        let reached = dt >= self.duration - self.elapsed;
        let fired = self.elapsed < self.duration && reached;
        if reached {
            if self.repeating {
                self.elapsed = 0;
            } else {
                self.elapsed = self.duration;
            }
        } else {
            self.elapsed = self.elapsed + dt;
        }
        fired
    }
}

/// The closed set of tower variants.  All share the targeting logic and
/// the ballistic profile below; they differ in the visual payload a
/// renderer would attach to their bullets.
#[derive(Clone, Copy, PartialEq, Eq, Structural, Debug)]
pub enum TowerKind {
    Basic,
    Tomato,
    Potato,
    Cabbage,
}

pub open spec fn spec_bullet_speed(kind: TowerKind) -> i64 {
    BULLET_SPEED
}

pub open spec fn spec_payload_id(kind: TowerKind) -> u32 {
    match kind {
        TowerKind::Basic => 0,
        TowerKind::Tomato => 1,
        TowerKind::Potato => 2,
        TowerKind::Cabbage => 3,
    }
}

impl TowerKind {
    /// Speed of the bullets this tower kind fires.
    pub fn bullet_speed(&self) -> (r: i64)
        ensures
            r == spec_bullet_speed(*self),
    {
        BULLET_SPEED
    }

    /// Identifier of the visual payload a renderer attaches to this
    /// kind's bullets; the simulation itself never reads it.
    pub fn payload_id(&self) -> (r: u32)
        ensures
            r == spec_payload_id(*self),
    {
        match self {
            TowerKind::Basic => 0,
            TowerKind::Tomato => 1,
            TowerKind::Potato => 2,
            TowerKind::Cabbage => 3,
        }
    }
}

/// A tower: a repeating cooldown timer, the offset of its firing point
/// from its position, and its kind.
#[derive(Clone, Copy, PartialEq, Eq, Structural, Debug)]
pub struct Tower {
    pub shooting_timer: Timer,
    pub bullet_offset: Vec3Fix,
    pub kind: TowerKind,
}

impl Tower {
    pub open spec fn wf(self) -> bool {
        &&& self.shooting_timer.wf()
        &&& self.bullet_offset.bounded(COORD_LIMIT as int)
    }
}

/// A hostile target, moving along the x axis at a non-negative speed
/// (milli-units per second).
#[derive(Clone, Copy, PartialEq, Eq, Structural, Debug)]
pub struct Target {
    pub speed: i64,
}

impl Target {
    pub open spec fn wf(self) -> bool {
        0 <= self.speed <= SPEED_LIMIT
    }
}

/// A projectile: a direction (re-normalized each tick before use) and a
/// speed in milli-units per second.
#[derive(Clone, Copy, PartialEq, Eq, Structural, Debug)]
pub struct Bullet {
    pub direction: Vec3Fix,
    pub speed: i64,
}

impl Bullet {
    pub open spec fn wf(self) -> bool {
        &&& self.direction.bounded(DIR_LIMIT as int)
        &&& 0 <= self.speed <= SPEED_LIMIT
    }
}

/// Integer health; it may go negative transiently within a tick, and a
/// value of zero or below marks the entity as dead.
#[derive(Clone, Copy, PartialEq, Eq, Structural, Debug)]
pub struct Health {
    pub value: i64,
}

/// A one-shot time-to-live; when the timer fires the entity is queued for
/// despawn in the same tick.
#[derive(Clone, Copy, PartialEq, Eq, Structural, Debug)]
pub struct Lifetime {
    pub timer: Timer,
}

impl Lifetime {
    pub open spec fn wf(self) -> bool {
        &&& self.timer.wf()
        &&& !self.timer.repeating
    }
}

/// The player's purse; credited only by the death-event listener.
#[derive(Clone, Copy, PartialEq, Eq, Structural, Debug)]
pub struct Player {
    pub money: u64,
}

/// Signal that a target died this tick; emitted once per death, consumed
/// by listeners in the same tick's event phase, never persisted.
#[derive(Clone, Copy, PartialEq, Eq, Structural, Debug)]
pub struct TargetDeathEvent {}

} // verus!
