//! The life of a player: alive, dead, alive again; and what a change of
//! the parameters does to every player.

use crate::config::{Config, ConfigStore};
use crate::entity::Player;
use crate::geometry::{off_field, Arena, Vec2};
use crate::world::{lemma_same_devices_wf, World};
use vstd::prelude::*;

verus! {

/// The buttons that the simulation listens to.
#[derive(Clone, Copy, Debug, PartialEq, Eq, Structural)]
pub enum Button {
    /// Fires one projectile for an edge-triggered shooter.
    Fire,
    /// Takes a living player out of play and brings a dead one back.
    Toggle,
    /// Any other button; it does nothing.
    Other,
}

/// A button changed its state: `pressed` tells whether it went down.
#[derive(Clone, Copy, Debug, PartialEq, Eq, Structural)]
pub struct ButtonEvent {
    pub device_id: usize,
    pub button: Button,
    pub pressed: bool,
}

/// The players after the deaths have been applied: every player whose
/// device is among them is dead and off the field, every other player
/// is as before.
pub open spec fn after_deaths(players: Seq<Player>, deaths: Seq<usize>) -> Seq<Player> {
    Seq::new(
        players.len(),
        |k: int|
            if deaths.contains(players[k].device_id) {
                players[k].killed()
            } else {
                players[k]
            },
    )
}

/// The player after the toggle button: a living one dies and leaves
/// the field, a dead one re-enters play at `place`.
pub open spec fn toggled(player: Player, place: Vec2, config: Config) -> Player {
    if player.alive {
        player.killed()
    } else {
        player.respawned(place, config)
    }
}

/// The players after the toggle button of `device_id` went down.
pub open spec fn after_toggle(
    players: Seq<Player>,
    device_id: usize,
    place: Vec2,
    config: Config,
) -> Seq<Player> {
    Seq::new(
        players.len(),
        |k: int|
            if players[k].device_id == device_id {
                toggled(players[k], place, config)
            } else {
                players[k]
            },
    )
}

/// The players after one button event, where `place` is where a player
/// would re-enter play. Only a toggle button that goes down has an
/// effect here.
pub open spec fn after_button(
    players: Seq<Player>,
    event: ButtonEvent,
    place: Vec2,
    config: Config,
) -> Seq<Player> {
    if event.button == Button::Toggle && event.pressed {
        after_toggle(players, event.device_id, place, config)
    } else {
        players
    }
}

/// The players after a batch of button events taken in order, the event
/// at each place with the draw at the same place.
pub open spec fn after_buttons(
    players: Seq<Player>,
    events: Seq<ButtonEvent>,
    places: Seq<Vec2>,
    config: Config,
) -> Seq<Player>
    decreases events.len(),
{
    if events.len() == 0 {
        players
    } else {
        after_button(
            after_buttons(players, events.drop_last(), places.drop_last(), config),
            events.last(),
            places.last(),
            config,
        )
    }
}

/// The players after a change of the parameters.
pub open spec fn after_config_change(players: Seq<Player>, config: Config) -> Seq<Player> {
    Seq::new(players.len(), |k: int| players[k].reconfigured(config))
}

fn contains_device(deaths: &Vec<usize>, device_id: usize) -> (found: bool)
    ensures
        found == deaths@.contains(device_id),
{
    let mut i: usize = 0;
    while i < deaths.len()
        invariant
            i <= deaths@.len(),
            forall|k: int| 0 <= k < i ==> deaths@[k] != device_id,
        decreases deaths@.len() - i,
    {
        if deaths[i] == device_id {
            return true;
        }
        i = i + 1;
    }
    false
}

impl World {
    /// Applies this frame's deaths: each player named among them is
    /// hidden, put out of reach and moved off the field, where no arena
    /// contains it.
    ///
    /// A device that is named twice, that is not bound, or whose player
    /// is dead already changes nothing further.
    pub fn kill_player(&mut self, deaths: &Vec<usize>)
        requires
            old(self).wf(),
        ensures
            final(self).wf(),
            final(self).players@ == after_deaths(old(self).players@, deaths@),
            forall|k: int|
                0 <= k < old(self).players@.len() && deaths@.contains(
                    old(self).players@[k].device_id,
                ) ==> !(#[trigger] final(self).players@[k]).alive
                    && final(self).players@[k].position == off_field(),
            final(self).projectiles@ == old(self).projectiles@,
    {
        let ghost start = self.players@;
        let count = self.players.len();
        let mut i: usize = 0;
        while i < count
            invariant
                i <= count,
                count == start.len(),
                self.players@.len() == count,
                self.projectiles@ == old(self).projectiles@,
                forall|k: int| 0 <= k < i ==> self.players@[k] == after_deaths(start, deaths@)[k],
                forall|k: int| i <= k < count ==> self.players@[k] == start[k],
            decreases count - i,
        {
            let player = self.players[i];
            if contains_device(deaths, player.device_id) {
                self.players.set(i, player.kill());
            }
            i = i + 1;
        }
        proof {
            assert(self.players@ =~= after_deaths(start, deaths@));
            assert forall|k: int| 0 <= k < count implies (#[trigger] self.players@[k]).wf()
                && self.players@[k].device_id == start[k].device_id by {
                assert(start[k].wf());
            }
            lemma_same_devices_wf(start, self.players@);
        }
    }

    /// Handles the toggle button of `device_id`, with `place` as the
    /// place where a dead player re-enters play.
    ///
    /// A living player dies and is moved off the field. A dead one comes
    /// back at `place` with the starting health, and in reach unless
    /// players are invincible. A device that is not bound changes nothing.
    pub fn toggle_player(&mut self, device_id: usize, place: Vec2, config: &Config)
        requires
            old(self).wf(),
            config.wf(),
        ensures
            final(self).wf(),
            final(self).players@ == after_toggle(old(self).players@, device_id, place, *config),
            final(self).projectiles@ == old(self).projectiles@,
    {
        let ghost start = self.players@;
        match self.find_player(device_id) {
            Some(at) => {
                let mut player = self.players[at];
                assert(start[at as int].wf());
                if player.alive {
                    player = player.kill();
                } else {
                    player.position = place;
                    player.health = config.starting_health;
                    player.alive = true;
                    player.collidable = !config.invincible;
                }
                self.players.set(at, player);
                proof {
                    let goal = after_toggle(start, device_id, place, *config);
                    assert forall|k: int| 0 <= k < start.len() implies self.players@[k]
                        == goal[k] by {
                        if k < at {
                            assert(start[k].device_id != device_id);
                        } else if k > at {
                            assert(start[at as int].device_id != start[k].device_id);
                        }
                    }
                    assert(self.players@ =~= goal);
                    assert forall|k: int| 0 <= k < start.len() implies (
                    #[trigger] self.players@[k]).wf() && self.players@[k].device_id
                        == start[k].device_id by {
                        assert(start[k].wf());
                    }
                    lemma_same_devices_wf(start, self.players@);
                }
            },
            None => {
                proof {
                    assert(self.players@ =~= after_toggle(start, device_id, place, *config));
                }
            },
        }
    }

    /// Handles a frame's button events, each on its own and in order of
    /// arrival.
    ///
    /// A toggle button that goes down takes its living player out of
    /// play or brings its dead player back at a place drawn at random in
    /// the arena. The outcome is that of [`World::toggle_player`] event by
    /// event, for some places in the arena.
    pub fn handle_buttons(&mut self, events: &Vec<ButtonEvent>, arena: &Arena, config: &Config)
        requires
            old(self).wf(),
            arena.wf(),
            config.wf(),
        ensures
            final(self).wf(),
            final(self).players@.len() == old(self).players@.len(),
            exists|places: Seq<Vec2>|
                places.len() == events@.len() && (forall|i: int|
                    0 <= i < places.len() ==> arena.contains(#[trigger] places[i]))
                    && final(self).players@ == after_buttons(
                    old(self).players@,
                    events@,
                    places,
                    *config,
                ),
            final(self).projectiles@ == old(self).projectiles@,
    {
        let ghost start = self.players@;
        let ghost mut places: Seq<Vec2> = Seq::empty();
        let mut i: usize = 0;
        proof {
            assert(events@.take(0).len() == 0);
        }
        while i < events.len()
            invariant
                i <= events@.len(),
                self.wf(),
                arena.wf(),
                config.wf(),
                self.projectiles@ == old(self).projectiles@,
                self.players@.len() == start.len(),
                places.len() == i,
                forall|k: int| 0 <= k < places.len() ==> arena.contains(#[trigger] places[k]),
                self.players@ == after_buttons(start, events@.take(i as int), places, *config),
            decreases events@.len() - i,
        {
            let event = events[i];
            let ghost place = Vec2 { x: 0, y: 0 };
            if event.button == Button::Toggle && event.pressed {
                let drawn = arena.random_place();
                proof {
                    place = drawn;
                }
                self.toggle_player(event.device_id, drawn, config);
            }
            proof {
                let longer = places.push(place);
                assert(events@.take(i + 1).drop_last() == events@.take(i as int));
                assert(events@.take(i + 1).last() == event);
                assert(longer.drop_last() == places);
                assert(longer.last() == place);
                places = longer;
            }
            i = i + 1;
        }
        proof {
            assert(events@.take(events@.len() as int) == events@);
        }
    }

    /// Resets every player to the parameters given: fire interval, scale
    /// and health at once, and reach as invincibility allows. Place,
    /// heading and whether a player is alive stay as they are.
    pub fn reconfigure_players(&mut self, config: &Config)
        requires
            old(self).wf(),
            config.wf(),
        ensures
            final(self).wf(),
            final(self).players@ == after_config_change(old(self).players@, *config),
            final(self).projectiles@ == old(self).projectiles@,
    {
        let ghost start = self.players@;
        let count = self.players.len();
        let mut i: usize = 0;
        while i < count
            invariant
                i <= count,
                count == start.len(),
                self.players@.len() == count,
                self.projectiles@ == old(self).projectiles@,
                forall|k: int| 0 <= k < i ==> self.players@[k] == start[k].reconfigured(*config),
                forall|k: int| i <= k < count ==> self.players@[k] == start[k],
            decreases count - i,
        {
            let mut player = self.players[i];
            player.scale = config.player_scale;
            player.health = config.starting_health;
            player.collidable = player.alive && !config.invincible;
            player.fire = player.fire.retimed(config.fire_interval_ms);
            self.players.set(i, player);
            i = i + 1;
        }
        proof {
            assert(self.players@ =~= after_config_change(start, *config));
            assert forall|k: int| 0 <= k < count implies (#[trigger] self.players@[k]).wf()
                && self.players@[k].device_id == start[k].device_id by {
                assert(start[k].wf());
            }
            lemma_same_devices_wf(start, self.players@);
        }
    }

    /// Consumes the change that waits in the store, if there is one, and
    /// resets every player to the parameters it led to.
    ///
    /// With no change waiting nothing happens. Either way none waits
    /// afterwards.
    pub fn respond_to_player_config_change(&mut self, store: &mut ConfigStore) -> (changed: bool)
        requires
            old(self).wf(),
            old(store).wf(),
        ensures
            final(self).wf(),
            final(store).wf(),
            final(store).config() == old(store).config(),
            !final(store).has_pending(),
            changed == old(store).has_pending(),
            final(self).players@ == if changed {
                after_config_change(old(self).players@, old(store).config())
            } else {
                old(self).players@
            },
            final(self).projectiles@ == old(self).projectiles@,
    {
        match store.take_change() {
            Some(config) => {
                self.reconfigure_players(&config);
                true
            },
            None => false,
        }
    }
}

} // verus!
