//! Tunable gameplay parameters and the store that announces their changes.

use vstd::prelude::*;

verus! {

/// The gameplay parameters, as one snapshot.
#[derive(Clone, Copy, Debug, PartialEq, Eq, Structural)]
pub struct Config {
    /// Player speed in world units per second.
    pub player_speed: u32,
    /// Largest turn in milliradians per second.
    pub turn_rate: u32,
    /// Milliseconds between two shots of a timer-driven shooter.
    pub fire_interval_ms: u32,
    /// Side of a player's box in thousandths of a world unit.
    pub player_scale: u32,
    /// While set, no player can be hit.
    pub invincible: bool,
    /// Health of a player that enters or re-enters play; at least 1.
    pub starting_health: i32,
    /// Projectile speed in world units per second.
    pub bullet_speed: u32,
    /// Whether a projectile can itself be hit by another.
    pub bullet_collide: bool,
    /// Side of a projectile's box in thousandths of a world unit.
    pub bullet_scale: u32,
}

impl Config {
    /// The starting health is at least 1.
    pub open spec fn wf(&self) -> bool {
        self.starting_health >= 1
    }

    /// Whether the snapshot is well formed.
    pub fn is_valid(&self) -> (valid: bool)
        ensures
            valid == self.wf(),
    {
        self.starting_health >= 1
    }

    /// The parameters a game starts with.
    pub fn standard() -> (config: Config)
        ensures
            config == (Config {
                player_speed: 500,
                turn_rate: 13_000,
                fire_interval_ms: 100,
                player_scale: 50_000,
                invincible: false,
                starting_health: 10,
                bullet_speed: 600,
                bullet_collide: true,
                bullet_scale: 10_000,
            }),
            config.wf(),
    {
        Config {
            player_speed: 500,
            turn_rate: 13_000,
            fire_interval_ms: 100,
            player_scale: 50_000,
            invincible: false,
            starting_health: 10,
            bullet_speed: 600,
            bullet_collide: true,
            bullet_scale: 10_000,
        }
    }
}

/// Holds the current snapshot and whether a change waits to be consumed.
///
/// Every mutation goes through [`ConfigStore::set`]; consumers learn of it
/// through [`ConfigStore::take_change`], once.
#[derive(Clone, Copy, Debug)]
pub struct ConfigStore {
    current: Config,
    pending: bool,
}

impl ConfigStore {
    /// The snapshot held.
    pub closed spec fn config(&self) -> Config {
        self.current
    }

    /// A change has been stored and not yet consumed.
    pub closed spec fn has_pending(&self) -> bool {
        self.pending
    }

    /// The snapshot held is well formed.
    pub open spec fn wf(&self) -> bool {
        self.config().wf()
    }

    /// A store that holds `config`, with no change waiting; none for a
    /// snapshot that is not well formed.
    pub fn new(config: Config) -> (store: Option<ConfigStore>)
        ensures
            store.is_some() == config.wf(),
            store.is_some() ==> store.unwrap().config() == config && !store.unwrap().has_pending()
                && store.unwrap().wf(),
    {
        if config.is_valid() {
            Some(ConfigStore { current: config, pending: false })
        } else {
            None
        }
    }

    /// The snapshot held.
    pub fn get(&self) -> (config: Config)
        ensures
            config == self.config(),
    {
        self.current
    }

    /// Whether a change waits to be consumed.
    pub fn is_pending(&self) -> (pending: bool)
        ensures
            pending == self.has_pending(),
    {
        self.pending
    }

    /// Replaces the snapshot.
    ///
    /// A snapshot that is not well formed is refused and nothing changes.
    /// One that differs from the snapshot held replaces it and leaves one
    /// change waiting, however many replacements precede the next
    /// [`ConfigStore::take_change`]. One equal to it changes nothing.
    pub fn set(&mut self, config: Config) -> (accepted: bool)
        requires
            old(self).wf(),
        ensures
            accepted == config.wf(),
            final(self).wf(),
            accepted ==> final(self).config() == config,
            accepted ==> final(self).has_pending() == (old(self).has_pending() || config != old(
                self,
            ).config()),
            !accepted ==> *final(self) == *old(self),
    {
        if !config.is_valid() {
            return false;
        }
        if config != self.current {
            self.current = config;
            self.pending = true;
        }
        true
    }

    /// Consumes the waiting change, if there is one, and hands out the
    /// snapshot it led to.
    pub fn take_change(&mut self) -> (change: Option<Config>)
        requires
            old(self).wf(),
        ensures
            final(self).wf(),
            final(self).config() == old(self).config(),
            !final(self).has_pending(),
            change == if old(self).has_pending() {
                Some(old(self).config())
            } else {
                None
            },
            change.is_some() ==> change.unwrap().wf(),
    {
        if self.pending {
            self.pending = false;
            Some(self.current)
        } else {
            None
        }
    }
}

} // verus!
