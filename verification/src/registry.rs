//! Binding input devices to players: one player per connected device.

use crate::angle::{is_heading, normalize_heading, wrap_angle, FULL_TURN};
use crate::config::Config;
use crate::entity::{Color, FireMode, FirePolicy, Player};
use crate::geometry::{Arena, Vec2};
use crate::random::random_in_range;
use crate::world::{device_count, has_device, lemma_device_count, players_wf, World};
use vstd::prelude::*;

verus! {

/// A device was plugged in or pulled out.
#[derive(Clone, Copy, Debug, PartialEq, Eq, Structural)]
pub enum ConnectionEvent {
    Connected { device_id: usize },
    Disconnected { device_id: usize },
}

/// How players enter play.
#[derive(Clone, Copy, Debug, PartialEq, Eq, Structural)]
pub struct SpawnOptions {
    /// The fire rule of every new player.
    pub fire_mode: FireMode,
    /// Whether a new player faces a random way; else its heading is 0.
    pub random_heading: bool,
}

/// The players that are not bound to `device_id`, in their order.
pub open spec fn without_device(players: Seq<Player>, device_id: usize) -> Seq<Player> {
    players.filter(|p: Player| p.device_id != device_id)
}

/// `player` is as a player is when it enters play: placed in the arena,
/// with a heading in range, and with health, reach, scale and fire rule
/// as the parameters and options give them.
pub open spec fn is_fresh(player: Player, options: SpawnOptions, arena: Arena, config: Config) -> bool {
    &&& player == Player::spawned(
        player.device_id,
        player.position,
        player.heading,
        player.color,
        options.fire_mode,
        config,
    )
    &&& arena.contains(player.position)
    &&& is_heading(player.heading as int)
    &&& !options.random_heading ==> player.heading == 0
}

/// The devices of the players, in their order.
pub open spec fn device_ids(players: Seq<Player>) -> Seq<usize> {
    players.map_values(|p: Player| p.device_id)
}

/// The bound devices after one event: a connection adds its device at the
/// end unless it is bound already, a disconnection removes its device.
pub open spec fn ids_after(ids: Seq<usize>, event: ConnectionEvent) -> Seq<usize> {
    match event {
        ConnectionEvent::Connected { device_id } => if ids.contains(device_id) {
            ids
        } else {
            ids.push(device_id)
        },
        ConnectionEvent::Disconnected { device_id } => ids.filter(|d: usize| d != device_id),
    }
}

/// The bound devices after a batch of events, taken in order of arrival.
pub open spec fn ids_after_all(ids: Seq<usize>, events: Seq<ConnectionEvent>) -> Seq<usize>
    decreases events.len(),
{
    if events.len() == 0 {
        ids
    } else {
        ids_after_all(ids_after(ids, events.first()), events.drop_first())
    }
}

/// The players after one event, where `fresh` is the player that a
/// connection would put into play: a connection of an unbound device
/// adds `fresh`, bound to that device, at the end; a connection of a
/// bound device changes nothing; a disconnection removes the device's
/// player. Every other player stays exactly as it is.
pub open spec fn after_connection(
    players: Seq<Player>,
    event: ConnectionEvent,
    fresh: Player,
) -> Seq<Player> {
    match event {
        ConnectionEvent::Connected { device_id } => if has_device(players, device_id) {
            players
        } else {
            players.push(Player { device_id, ..fresh })
        },
        ConnectionEvent::Disconnected { device_id } => without_device(players, device_id),
    }
}

/// The players after a batch of events taken in order, the event at
/// each place with the fresh player at the same place.
pub open spec fn after_connections(
    players: Seq<Player>,
    events: Seq<ConnectionEvent>,
    fresh: Seq<Player>,
) -> Seq<Player>
    decreases events.len(),
{
    if events.len() == 0 {
        players
    } else {
        after_connection(
            after_connections(players, events.drop_last(), fresh.drop_last()),
            events.last(),
            fresh.last(),
        )
    }
}

/// A batch of one event does what the event does.
pub proof fn lemma_after_single_connection(
    players: Seq<Player>,
    events: Seq<ConnectionEvent>,
    fresh: Seq<Player>,
)
    requires
        events.len() == 1,
        fresh.len() == 1,
    ensures
        after_connections(players, events, fresh) == after_connection(players, events[0], fresh[0]),
{
    assert(events.drop_last().len() == 0);
    assert(after_connections(players, events.drop_last(), fresh.drop_last()) == players);
}

/// A device is bound exactly when it is among the devices of the players.
pub proof fn lemma_has_device_ids(players: Seq<Player>, device_id: usize)
    ensures
        has_device(players, device_id) == device_ids(players).contains(device_id),
{
    let ids = device_ids(players);
    if has_device(players, device_id) {
        let i = choose|i: int| 0 <= i < players.len() && (#[trigger] players[i]).device_id == device_id;
        assert(ids[i] == device_id);
    }
    if ids.contains(device_id) {
        let i = choose|i: int| 0 <= i < ids.len() && ids[i] == device_id;
        assert(players[i].device_id == device_id);
    }
}

/// Removing a device's players removes the device from the devices.
pub proof fn lemma_without_device_ids(players: Seq<Player>, device_id: usize)
    ensures
        device_ids(without_device(players, device_id)) == device_ids(players).filter(
            |d: usize| d != device_id,
        ),
        forall|k: int|
            0 <= k < without_device(players, device_id).len() ==> players.contains(
                #[trigger] without_device(players, device_id)[k],
            ) && without_device(players, device_id)[k].device_id != device_id,
    decreases players.len(),
{
    reveal(Seq::filter);
    let keep = |p: Player| p.device_id != device_id;
    let keep_id = |d: usize| d != device_id;
    if players.len() > 0 {
        let rest = players.drop_last();
        lemma_without_device_ids(rest, device_id);
        assert(device_ids(players).drop_last() == device_ids(rest));
        assert(device_ids(players).last() == players.last().device_id);
        let kept = without_device(players, device_id);
        assert forall|k: int| 0 <= k < kept.len() implies players.contains(#[trigger] kept[k])
            && kept[k].device_id != device_id by {
            if k < without_device(rest, device_id).len() {
                let p = without_device(rest, device_id)[k];
                assert(rest.contains(p));
                let at = choose|at: int| 0 <= at < rest.len() && rest[at] == p;
                assert(players[at] == p);
            } else {
                assert(kept[k] == players.last());
                assert(players[players.len() - 1] == players.last());
            }
        }
        assert(device_ids(kept) =~= device_ids(players).filter(keep_id));
    } else {
        assert(device_ids(without_device(players, device_id)) =~= device_ids(players).filter(
            keep_id,
        ));
    }
}

/// Removing the players of a device that is not bound removes nothing.
pub proof fn lemma_without_unbound_device(players: Seq<Player>, device_id: usize)
    requires
        !has_device(players, device_id),
    ensures
        without_device(players, device_id) == players,
    decreases players.len(),
{
    reveal(Seq::filter);
    if players.len() > 0 {
        let rest = players.drop_last();
        assert(players[players.len() - 1].device_id != device_id);
        assert forall|i: int| 0 <= i < rest.len() implies (#[trigger] rest[i]).device_id
            != device_id by {
            assert(rest[i] == players[i]);
        }
        lemma_without_unbound_device(rest, device_id);
        assert(rest.push(players.last()) == players);
    }
}

/// Removing a device's players keeps a list well formed and leaves the
/// device unbound.
pub proof fn lemma_without_device_wf(players: Seq<Player>, device_id: usize)
    requires
        players_wf(players),
    ensures
        players_wf(without_device(players, device_id)),
        !has_device(without_device(players, device_id), device_id),
        device_count(without_device(players, device_id), device_id) == 0,
    decreases players.len(),
{
    reveal(Seq::filter);
    let kept = without_device(players, device_id);
    lemma_without_device_ids(players, device_id);
    if players.len() > 0 {
        let rest = players.drop_last();
        assert forall|i: int| 0 <= i < rest.len() implies rest[i] == players[i] by {}
        assert(players_wf(rest));
        lemma_without_device_wf(rest, device_id);
        let kept_rest = without_device(rest, device_id);
        lemma_without_device_ids(rest, device_id);
        if players.last().device_id != device_id {
            assert(kept == kept_rest.push(players.last()));
            assert forall|i: int| 0 <= i < kept.len() implies (#[trigger] kept[i]).wf() by {
                if i < kept_rest.len() {
                    assert(kept_rest[i].wf());
                } else {
                    assert(players[players.len() - 1].wf());
                }
            }
            assert forall|i: int, j: int| 0 <= i < j < kept.len() implies (
            #[trigger] kept[i]).device_id != (#[trigger] kept[j]).device_id by {
                if j < kept_rest.len() {
                    assert(kept_rest[i].device_id != kept_rest[j].device_id);
                } else {
                    assert(rest.contains(kept_rest[i]));
                    let at = choose|at: int| 0 <= at < rest.len() && rest[at] == kept_rest[i];
                    assert(players[at].device_id != players[players.len() - 1].device_id);
                }
            }
        } else {
            assert(kept == kept_rest);
        }
    }
    if has_device(kept, device_id) {
        let i = choose|i: int| 0 <= i < kept.len() && (#[trigger] kept[i]).device_id == device_id;
        assert(false);
    }
    lemma_device_count(kept, device_id);
}

impl World {
    /// Puts a player into play on `device_id` at the given place, facing
    /// the given way, unless the device is bound already.
    ///
    /// A second connection of a bound device changes nothing. A heading
    /// of any size is brought into range. Afterwards exactly one player
    /// is bound to the device.
    pub fn spawn_player(
        &mut self,
        device_id: usize,
        position: Vec2,
        heading: i64,
        color: Color,
        mode: FireMode,
        config: &Config,
    ) -> (created: bool)
        requires
            old(self).wf(),
            config.wf(),
        ensures
            final(self).wf(),
            created == !has_device(old(self).players@, device_id),
            created ==> final(self).players@ == old(self).players@.push(
                Player::spawned(
                    device_id,
                    position,
                    wrap_angle(heading as int) as i64,
                    color,
                    mode,
                    *config,
                ),
            ),
            !created ==> final(self).players@ == old(self).players@,
            final(self).projectiles@ == old(self).projectiles@,
            device_count(final(self).players@, device_id) == 1,
            device_ids(final(self).players@) == ids_after(
                device_ids(old(self).players@),
                ConnectionEvent::Connected { device_id },
            ),
    {
        proof {
            lemma_has_device_ids(self.players@, device_id);
        }
        if self.find_player(device_id).is_some() {
            proof {
                lemma_device_count(self.players@, device_id);
            }
            return false;
        }
        let player = Player {
            device_id,
            position,
            heading: normalize_heading(heading),
            scale: config.player_scale,
            color,
            health: config.starting_health,
            alive: true,
            collidable: !config.invincible,
            fire: FirePolicy::seeded(mode, config),
        };
        let ghost before = self.players@;
        self.players.push(player);
        proof {
            let after = self.players@;
            assert forall|i: int| 0 <= i < after.len() implies (#[trigger] after[i]).wf() by {
                if i < before.len() {
                    assert(before[i].wf());
                }
            }
            assert forall|i: int, j: int| 0 <= i < j < after.len() implies (
            #[trigger] after[i]).device_id != (#[trigger] after[j]).device_id by {
                if j < before.len() {
                    assert(before[i].device_id != before[j].device_id);
                } else {
                    assert(before[i].device_id != device_id);
                }
            }
            assert(after[before.len() as int].device_id == device_id);
            assert(has_device(after, device_id));
            lemma_device_count(after, device_id);
            assert(device_ids(after) =~= device_ids(before).push(device_id));
        }
        true
    }

    /// Handles the connection of a device: a player enters play at a
    /// place drawn at random in the arena.
    ///
    /// Nothing changes if the device is bound already. Else one player
    /// is added at the end, fresh in every respect; its place, its
    /// colour and, if the options say so, its heading are drawn at
    /// random.
    pub fn on_connect(
        &mut self,
        device_id: usize,
        options: &SpawnOptions,
        arena: &Arena,
        config: &Config,
    ) -> (created: bool)
        requires
            old(self).wf(),
            arena.wf(),
            config.wf(),
        ensures
            final(self).wf(),
            created == !has_device(old(self).players@, device_id),
            created ==> final(self).players@.len() == old(self).players@.len() + 1
                && final(self).players@ == old(self).players@.push(final(self).players@.last())
                && final(self).players@.last().device_id == device_id && is_fresh(
                final(self).players@.last(),
                *options,
                *arena,
                *config,
            ),
            !created ==> final(self).players@ == old(self).players@,
            final(self).projectiles@ == old(self).projectiles@,
            device_count(final(self).players@, device_id) == 1,
            device_ids(final(self).players@) == ids_after(
                device_ids(old(self).players@),
                ConnectionEvent::Connected { device_id },
            ),
    {
        if self.find_player(device_id).is_some() {
            proof {
                lemma_device_count(self.players@, device_id);
                lemma_has_device_ids(self.players@, device_id);
            }
            return false;
        }
        let place = arena.random_place();
        let heading = if options.random_heading {
            random_in_range(0, FULL_TURN)
        } else {
            0
        };
        let r = random_in_range(0, 256);
        let g = random_in_range(0, 256);
        let b = random_in_range(0, 256);
        let color = Color { r: r as u8, g: g as u8, b: b as u8 };
        let ghost before = self.players@;
        let created = self.spawn_player(
            device_id,
            place,
            heading,
            color,
            options.fire_mode,
            config,
        );
        proof {
            if created {
                assert(self.players@ =~= before.push(self.players@.last()));
            }
        }
        created
    }

    /// Handles the disconnection of a device: its player leaves the
    /// world, alive or not.
    ///
    /// Every other player stays, in order. The projectiles stay too,
    /// those of the device among them. A device that is not bound
    /// changes nothing.
    pub fn on_disconnect(&mut self, device_id: usize) -> (removed: bool)
        requires
            old(self).wf(),
        ensures
            final(self).wf(),
            removed == has_device(old(self).players@, device_id),
            final(self).players@ == without_device(old(self).players@, device_id),
            !removed ==> final(self).players@ == old(self).players@,
            final(self).projectiles@ == old(self).projectiles@,
            device_count(final(self).players@, device_id) == 0,
            device_ids(final(self).players@) == ids_after(
                device_ids(old(self).players@),
                ConnectionEvent::Disconnected { device_id },
            ),
    {
        let ghost before = self.players@;
        let ghost keep = |p: Player| p.device_id != device_id;
        let count = self.players.len();
        let mut kept: Vec<Player> = Vec::new();
        let mut removed = false;
        let mut i: usize = 0;
        proof {
            reveal(Seq::filter);
            assert(before.take(0).filter(keep) == Seq::<Player>::empty());
        }
        while i < count
            invariant
                i <= count,
                count == before.len(),
                self.players@ == before,
                keep == |p: Player| p.device_id != device_id,
                kept@ == before.take(i as int).filter(keep),
                removed == has_device(before.take(i as int), device_id),
                !removed ==> kept@ == before.take(i as int),
            decreases count - i,
        {
            let player = self.players[i];
            proof {
                let head = before.take(i as int);
                assert(before.take(i + 1) == head.push(player));
                head.lemma_filter_push(player, keep);
                if has_device(head, device_id) {
                    let at = choose|at: int|
                        0 <= at < head.len() && (#[trigger] head[at]).device_id == device_id;
                    assert(before.take(i + 1)[at].device_id == device_id);
                }
                if player.device_id == device_id {
                    assert(before.take(i + 1)[i as int].device_id == device_id);
                }
                if has_device(before.take(i + 1), device_id) && player.device_id != device_id {
                    let at = choose|at: int|
                        0 <= at < i + 1 && (#[trigger] before.take(i + 1)[at]).device_id
                            == device_id;
                    assert(head[at].device_id == device_id);
                }
            }
            if player.device_id != device_id {
                kept.push(player);
            } else {
                removed = true;
            }
            i = i + 1;
        }
        proof {
            assert(before.take(count as int) == before);
            lemma_without_device_wf(before, device_id);
            lemma_without_device_ids(before, device_id);
        }
        self.players = kept;
        removed
    }

    /// Handles a frame's connections and disconnections, each event on
    /// its own and in order of arrival.
    ///
    /// The outcome is that of [`after_connections`] for some fresh
    /// players, one drawn for each event: no player changes but by
    /// entering or leaving. Afterwards the bound devices are those that
    /// the events lead to, one player each.
    pub fn gamepad_connections(
        &mut self,
        events: &Vec<ConnectionEvent>,
        options: &SpawnOptions,
        arena: &Arena,
        config: &Config,
    )
        requires
            old(self).wf(),
            arena.wf(),
            config.wf(),
        ensures
            final(self).wf(),
            exists|fresh: Seq<Player>|
                fresh.len() == events@.len() && (forall|i: int|
                    0 <= i < fresh.len() ==> is_fresh(
                        #[trigger] fresh[i],
                        *options,
                        *arena,
                        *config,
                    )) && final(self).players@ == after_connections(
                    old(self).players@,
                    events@,
                    fresh,
                ),
            device_ids(final(self).players@) == ids_after_all(
                device_ids(old(self).players@),
                events@,
            ),
            final(self).projectiles@ == old(self).projectiles@,
    {
        let ghost start = self.players@;
        let ghost mut fresh: Seq<Player> = Seq::empty();
        let mut i: usize = 0;
        proof {
            assert(events@.skip(0) == events@);
            assert(events@.take(0).len() == 0);
        }
        while i < events.len()
            invariant
                i <= events@.len(),
                self.wf(),
                arena.wf(),
                config.wf(),
                self.projectiles@ == old(self).projectiles@,
                ids_after_all(device_ids(self.players@), events@.skip(i as int)) == ids_after_all(
                    device_ids(start),
                    events@,
                ),
                fresh.len() == i,
                forall|k: int|
                    0 <= k < fresh.len() ==> is_fresh(#[trigger] fresh[k], *options, *arena, *config),
                self.players@ == after_connections(start, events@.take(i as int), fresh),
            decreases events@.len() - i,
        {
            let ghost before = self.players@;
            let event = events[i];
            let ghost mut entrant = Player::spawned(
                0,
                Vec2 { x: 0, y: 0 },
                0,
                Color { r: 0, g: 0, b: 0 },
                options.fire_mode,
                *config,
            );
            proof {
                assert(events@.skip(i as int).first() == event);
                assert(events@.skip(i as int).drop_first() == events@.skip(i + 1));
            }
            match event {
                ConnectionEvent::Connected { device_id } => {
                    let created = self.on_connect(device_id, options, arena, config);
                    proof {
                        if created {
                            entrant = self.players@.last();
                        }
                    }
                },
                ConnectionEvent::Disconnected { device_id } => {
                    self.on_disconnect(device_id);
                },
            }
            proof {
                let longer = fresh.push(entrant);
                assert(events@.take(i + 1).drop_last() == events@.take(i as int));
                assert(events@.take(i + 1).last() == event);
                assert(longer.drop_last() == fresh);
                assert(longer.last() == entrant);
                assert(self.players@ == after_connection(before, event, entrant));
                fresh = longer;
            }
            i = i + 1;
        }
        proof {
            assert(events@.skip(events@.len() as int).len() == 0);
            assert(events@.take(events@.len() as int) == events@);
        }
    }
}

} // verus!
