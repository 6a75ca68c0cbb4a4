//! One frame of the simulation, its stages in their fixed order.
//!
//! A frame has two halves. The first takes the devices' connections and
//! sticks. Between the halves the caller reads the players' headings and
//! works out which way each faces. The second fires, flies, removes what
//! left the arena, resolves the hits, applies the deaths, handles the
//! buttons and reacts to a change of the parameters.

use crate::collision::{lemma_survivors_were_there, resolved, survivors};
use crate::collision_laws::lemma_one_death_per_fall;
use crate::config::{Config, ConfigStore};
use crate::entity::{Player, Projectile};
use crate::geometry::{Arena, Vec2};
use crate::kinematics::{after_flight, inside_arena};
use crate::lifecycle::{after_buttons, after_config_change, after_deaths, ButtonEvent};
use crate::movement::{after_aims, after_moves, move_samples_wf, AimSample, MoveSample};
use crate::registry::{
    after_connections, device_ids, ids_after_all, is_fresh, ConnectionEvent, SpawnOptions,
};
use crate::spawner::{after_fire, facings_wf, fired_upto};
use crate::world::{players_wf, World};
use vstd::prelude::*;

verus! {

/// What the combat of a frame leads to.
pub struct Outcome {
    pub players: Seq<Player>,
    pub projectiles: Seq<Projectile>,
    /// The devices of the players that ran out of health, in order.
    pub deaths: Seq<usize>,
}

/// The projectiles that the hits are resolved on: those in flight and
/// those fired in this frame, after their flight, as far as they are
/// still inside the arena. A projectile fired in this frame has flown
/// once before it can be removed or hit.
pub open spec fn in_flight(
    players: Seq<Player>,
    projectiles: Seq<Projectile>,
    ms: int,
    events: Seq<ButtonEvent>,
    facings: Seq<Vec2>,
    arena: Arena,
    config: Config,
) -> Seq<Projectile> {
    inside_arena(
        after_flight(
            projectiles + fired_upto(players, facings, events, ms, config, players.len() as int),
            ms,
        ),
        arena,
    )
}

/// The combat of a frame: the shooters fire, the projectiles fly, those
/// outside the arena are removed, the hits are resolved, and the players
/// that ran out of health die.
pub open spec fn combat(
    players: Seq<Player>,
    projectiles: Seq<Projectile>,
    ms: int,
    events: Seq<ButtonEvent>,
    facings: Seq<Vec2>,
    arena: Arena,
    config: Config,
) -> Outcome {
    let flying = in_flight(players, projectiles, ms, events, facings, arena, config);
    let pass = resolved(after_fire(players, ms), flying);
    Outcome {
        players: after_deaths(pass.players, pass.deaths),
        projectiles: survivors(flying, pass.gone),
        deaths: pass.deaths,
    }
}

/// The players after a change of the parameters, if one was waiting.
pub open spec fn settled(players: Seq<Player>, changed: bool, config: Config) -> Seq<Player> {
    if changed {
        after_config_change(players, config)
    } else {
        players
    }
}

impl World {
    /// The first half of a frame: connections and disconnections, then
    /// movement, then rotation.
    ///
    /// The players that the connections lead to, for some fresh players
    /// drawn for the entrants, are moved and turned by their sticks.
    /// Afterwards one player is bound to each connected device, and no
    /// projectile has changed.
    pub fn begin_frame(
        &mut self,
        connections: &Vec<ConnectionEvent>,
        moves: &Vec<MoveSample>,
        aims: &Vec<AimSample>,
        ms: u32,
        options: &SpawnOptions,
        arena: &Arena,
        config: &Config,
    )
        requires
            old(self).wf(),
            move_samples_wf(moves@),
            arena.wf(),
            config.wf(),
        ensures
            final(self).wf(),
            device_ids(final(self).players@) == ids_after_all(
                device_ids(old(self).players@),
                connections@,
            ),
            exists|fresh: Seq<Player>|
                fresh.len() == connections@.len() && (forall|i: int|
                    0 <= i < fresh.len() ==> is_fresh(
                        #[trigger] fresh[i],
                        *options,
                        *arena,
                        *config,
                    )) && final(self).players@ == after_aims(
                    after_moves(
                        after_connections(old(self).players@, connections@, fresh),
                        moves@,
                        ms as int,
                        *arena,
                        *config,
                    ),
                    aims@,
                    ms as int,
                    *config,
                ),
            final(self).projectiles@ == old(self).projectiles@,
    {
        self.gamepad_connections(connections, options, arena, config);
        let ghost joined = self.players@;
        let ghost fresh = choose|fresh: Seq<Player>|
            fresh.len() == connections@.len() && (forall|i: int|
                0 <= i < fresh.len() ==> is_fresh(#[trigger] fresh[i], *options, *arena, *config))
                && joined == after_connections(old(self).players@, connections@, fresh);
        self.player_movement(moves, ms, arena, config);
        self.player_rotation(aims, ms, config);
        proof {
            assert(device_ids(self.players@) =~= device_ids(joined));
            assert(self.players@ == after_aims(
                after_moves(
                    after_connections(old(self).players@, connections@, fresh),
                    moves@,
                    ms as int,
                    *arena,
                    *config,
                ),
                aims@,
                ms as int,
                *config,
            ));
        }
    }

    /// The combat of a frame: firing, flight, removal at the edge, hits
    /// and deaths, in this order.
    ///
    /// `facings` holds, for each player in order, the unit vector of its
    /// heading in thousandths. Returned are the devices of the players
    /// that ran out of health. No projectile is left outside the arena.
    pub fn run_combat(
        &mut self,
        ms: u32,
        events: &Vec<ButtonEvent>,
        facings: &Vec<Vec2>,
        arena: &Arena,
        config: &Config,
    ) -> (deaths: Vec<usize>)
        requires
            old(self).wf(),
            facings_wf(facings@, old(self).players@),
            arena.wf(),
        ensures
            final(self).wf(),
            final(self).players@ == combat(
                old(self).players@,
                old(self).projectiles@,
                ms as int,
                events@,
                facings@,
                *arena,
                *config,
            ).players,
            final(self).projectiles@ == combat(
                old(self).players@,
                old(self).projectiles@,
                ms as int,
                events@,
                facings@,
                *arena,
                *config,
            ).projectiles,
            deaths@ == combat(
                old(self).players@,
                old(self).projectiles@,
                ms as int,
                events@,
                facings@,
                *arena,
                *config,
            ).deaths,
            forall|k: int|
                0 <= k < final(self).projectiles@.len() ==> arena.contains(
                    (#[trigger] final(self).projectiles@[k]).position,
                ),
    {
        self.create_bullets(ms, events, facings, config);
        self.apply_velocity(ms);
        self.despawn_bullets(arena);
        let ghost flying = self.projectiles@;
        let ghost shooters = self.players@;
        let deaths = self.check_for_collisions();
        proof {
            lemma_one_death_per_fall(shooters, flying);
            lemma_survivors_were_there(flying, resolved(shooters, flying).gone);
            assert forall|k: int| 0 <= k < self.projectiles@.len() implies arena.contains(
                (#[trigger] self.projectiles@[k]).position,
            ) by {
                let shot = self.projectiles@[k];
                assert(flying.contains(shot));
                let at = choose|at: int| 0 <= at < flying.len() && flying[at] == shot;
                assert(arena.contains(flying[at].position));
            }
        }
        self.kill_player(&deaths);
        deaths
    }

    /// The second half of a frame: the combat, then the buttons, then
    /// the reaction to a change of the parameters.
    ///
    /// The combat runs under the parameters that the store holds. Then a
    /// toggle button that went down takes its living player out of play
    /// or brings its dead player back at a place drawn at random in the
    /// arena. Last, a change that waits in the store resets every
    /// player. Returned are the devices of the players that ran out of
    /// health in the combat.
    pub fn finish_frame(
        &mut self,
        ms: u32,
        events: &Vec<ButtonEvent>,
        facings: &Vec<Vec2>,
        arena: &Arena,
        store: &mut ConfigStore,
    ) -> (deaths: Vec<usize>)
        requires
            old(self).wf(),
            old(store).wf(),
            facings_wf(facings@, old(self).players@),
            arena.wf(),
        ensures
            final(self).wf(),
            final(store).wf(),
            final(store).config() == old(store).config(),
            !final(store).has_pending(),
            deaths@ == combat(
                old(self).players@,
                old(self).projectiles@,
                ms as int,
                events@,
                facings@,
                *arena,
                old(store).config(),
            ).deaths,
            final(self).projectiles@ == combat(
                old(self).players@,
                old(self).projectiles@,
                ms as int,
                events@,
                facings@,
                *arena,
                old(store).config(),
            ).projectiles,
            forall|k: int|
                0 <= k < final(self).projectiles@.len() ==> arena.contains(
                    (#[trigger] final(self).projectiles@[k]).position,
                ),
            exists|places: Seq<Vec2>|
                places.len() == events@.len() && (forall|i: int|
                    0 <= i < places.len() ==> arena.contains(#[trigger] places[i]))
                    && final(self).players@ == settled(
                    after_buttons(
                        combat(
                            old(self).players@,
                            old(self).projectiles@,
                            ms as int,
                            events@,
                            facings@,
                            *arena,
                            old(store).config(),
                        ).players,
                        events@,
                        places,
                        old(store).config(),
                    ),
                    old(store).has_pending(),
                    old(store).config(),
                ),
    {
        let config = store.get();
        let deaths = self.run_combat(ms, events, facings, arena, &config);
        let ghost fought = self.players@;
        self.handle_buttons(events, arena, &config);
        let ghost places = choose|places: Seq<Vec2>|
            places.len() == events@.len() && (forall|i: int|
                0 <= i < places.len() ==> arena.contains(#[trigger] places[i])) && self.players@
                == after_buttons(fought, events@, places, config);
        self.respond_to_player_config_change(store);
        proof {
            assert(self.players@ == settled(
                after_buttons(fought, events@, places, config),
                old(store).has_pending(),
                config,
            ));
        }
        deaths
    }
}

} // verus!
