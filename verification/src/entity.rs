//! The two kinds of dynamic entity: players and projectiles.

use crate::angle::is_heading;
use crate::angle::FULL_TURN;
use crate::config::Config;
use crate::geometry::{off_field, Vec2, OFF_FIELD};
use vstd::prelude::*;

verus! {

/// The colour by which a player and its projectiles are told apart.
#[derive(Clone, Copy, Debug, PartialEq, Eq, Structural)]
pub struct Color {
    pub r: u8,
    pub g: u8,
    pub b: u8,
}

/// The rule by which a player fires, chosen when the player is created.
#[derive(Clone, Copy, Debug, PartialEq, Eq, Structural)]
pub enum FireMode {
    /// One shot each time a repeating countdown completes.
    Timer,
    /// One shot for each press of the fire button.
    EdgeTriggered,
}

/// A player's fire rule together with the state it needs.
#[derive(Clone, Copy, Debug, PartialEq, Eq, Structural)]
pub enum FirePolicy {
    /// A repeating countdown of `interval_ms` that stands at `elapsed_ms`.
    Timer { interval_ms: u32, elapsed_ms: u32 },
    /// Fires on button presses; holds no state.
    EdgeTriggered,
}

impl FirePolicy {
    /// The policy of a player created under `mode`: a countdown starts at
    /// zero with the configured interval.
    pub open spec fn initial(mode: FireMode, config: Config) -> FirePolicy {
        match mode {
            FireMode::Timer => FirePolicy::Timer {
                interval_ms: config.fire_interval_ms,
                elapsed_ms: 0,
            },
            FireMode::EdgeTriggered => FirePolicy::EdgeTriggered,
        }
    }

    /// The policy with its interval replaced; where a countdown stands is
    /// kept.
    pub open spec fn with_interval(self, interval_ms: u32) -> FirePolicy {
        match self {
            FirePolicy::Timer { interval_ms: _, elapsed_ms } => FirePolicy::Timer {
                interval_ms,
                elapsed_ms,
            },
            FirePolicy::EdgeTriggered => FirePolicy::EdgeTriggered,
        }
    }

    /// Makes the policy of a player created under `mode`.
    pub fn seeded(mode: FireMode, config: &Config) -> (policy: FirePolicy)
        ensures
            policy == FirePolicy::initial(mode, *config),
    {
        match mode {
            FireMode::Timer => FirePolicy::Timer {
                interval_ms: config.fire_interval_ms,
                elapsed_ms: 0,
            },
            FireMode::EdgeTriggered => FirePolicy::EdgeTriggered,
        }
    }

    /// Replaces the interval of a countdown.
    pub fn retimed(self, interval_ms: u32) -> (policy: FirePolicy)
        ensures
            policy == self.with_interval(interval_ms),
    {
        match self {
            FirePolicy::Timer { interval_ms: _, elapsed_ms } => FirePolicy::Timer {
                interval_ms,
                elapsed_ms,
            },
            FirePolicy::EdgeTriggered => FirePolicy::EdgeTriggered,
        }
    }
}

/// A player, bound to the input device `device_id`.
#[derive(Clone, Copy, Debug, PartialEq, Eq, Structural)]
pub struct Player {
    pub device_id: usize,
    /// In millionths of a world unit.
    pub position: Vec2,
    /// In microradians, from 0 up to a whole turn.
    pub heading: i64,
    /// Side of the box in thousandths of a world unit.
    pub scale: u32,
    pub color: Color,
    pub health: i32,
    /// A player that is not alive is hidden, kept off the field, and
    /// takes no input.
    pub alive: bool,
    /// Whether projectiles can hit the player.
    pub collidable: bool,
    pub fire: FirePolicy,
}

impl Player {
    /// The heading is in range, the health is not negative, only a
    /// living player with health left can be hit, and a dead player is
    /// kept off the field.
    pub open spec fn wf(&self) -> bool {
        &&& is_heading(self.heading as int)
        &&& self.health >= 0
        &&& self.collidable ==> self.alive && self.health >= 1
        &&& !self.alive ==> self.position == off_field()
    }

    /// The player as it enters play on `device_id`.
    pub open spec fn spawned(
        device_id: usize,
        position: Vec2,
        heading: i64,
        color: Color,
        mode: FireMode,
        config: Config,
    ) -> Player {
        Player {
            device_id,
            position,
            heading,
            scale: config.player_scale,
            color,
            health: config.starting_health,
            alive: true,
            collidable: !config.invincible,
            fire: FirePolicy::initial(mode, config),
        }
    }

    /// The player after its death: hidden, out of reach and moved off
    /// the field, all else kept.
    pub open spec fn killed(self) -> Player {
        Player { position: off_field(), alive: false, collidable: false, ..self }
    }

    /// The player after it re-enters play at `position`.
    pub open spec fn respawned(self, position: Vec2, config: Config) -> Player {
        Player {
            position,
            health: config.starting_health,
            alive: true,
            collidable: !config.invincible,
            ..self
        }
    }

    /// The player after a change of the parameters: interval, scale and
    /// health are reset at once, and a living player can be hit exactly
    /// when players are not invincible.
    pub open spec fn reconfigured(self, config: Config) -> Player {
        Player {
            scale: config.player_scale,
            health: config.starting_health,
            collidable: self.alive && !config.invincible,
            fire: self.fire.with_interval(config.fire_interval_ms),
            ..self
        }
    }

    /// The player after one hit: one health less, and out of reach once
    /// none is left.
    pub open spec fn struck(self) -> Player {
        Player {
            health: (self.health - 1) as i32,
            collidable: self.collidable && self.health - 1 > 0,
            ..self
        }
    }

    /// Whether the player is well formed.
    pub fn is_valid(&self) -> (valid: bool)
        ensures
            valid == self.wf(),
    {
        0 <= self.heading && self.heading < FULL_TURN && self.health >= 0 && (!self.collidable || (
        self.alive && self.health >= 1)) && (self.alive || (self.position.x == OFF_FIELD
            && self.position.y == OFF_FIELD))
    }

    /// Takes the player out of play.
    pub fn kill(self) -> (dead: Player)
        ensures
            dead == self.killed(),
            self.wf() ==> dead.wf(),
    {
        Player {
            position: Vec2 { x: OFF_FIELD, y: OFF_FIELD },
            alive: false,
            collidable: false,
            ..self
        }
    }
}

/// A projectile in flight.
#[derive(Clone, Copy, Debug, PartialEq, Eq, Structural)]
pub struct Projectile {
    /// The device of the player that fired it.
    pub owner_id: usize,
    /// In millionths of a world unit.
    pub position: Vec2,
    /// In thousandths of a world unit per second.
    pub velocity: Vec2,
    /// Whether another projectile can hit this one.
    pub collidable: bool,
    /// Side of the box in thousandths of a world unit.
    pub scale: u32,
    pub color: Color,
}

impl Projectile {
    /// The projectile that `shooter` fires along `facing`, a direction in
    /// thousandths: it starts at the shooter, flies at the configured
    /// speed, and carries the shooter's device and colour.
    pub open spec fn fired_by(shooter: Player, facing: Vec2, config: Config) -> Projectile {
        Projectile {
            owner_id: shooter.device_id,
            position: shooter.position,
            velocity: Vec2 {
                x: (facing.x * config.bullet_speed) as i64,
                y: (facing.y * config.bullet_speed) as i64,
            },
            collidable: config.bullet_collide,
            scale: config.bullet_scale,
            color: shooter.color,
        }
    }
}

} // verus!
