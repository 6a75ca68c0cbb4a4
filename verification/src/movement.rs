//! Moving and turning the players from the sticks of their devices.
//!
//! A frame's samples are a snapshot: for each player the first sample of
//! its device counts, and only living players move or turn.

use crate::angle::{
    angular_distance, is_heading, max_turn, normalize_heading, turn_budget, turn_toward,
    turned_toward, wrap_angle,
};
use crate::config::Config;
use crate::entity::Player;
use crate::geometry::{
    is_stick_sample, limit_to_unit, move_coord, moved_coord, unit_limited, Arena, Vec2,
};
use crate::world::{lemma_same_devices_wf, players_wf, World};
use vstd::prelude::*;

verus! {

/// The left stick of a device: where its player is to move, each
/// component in thousandths from -1000 to 1000.
#[derive(Clone, Copy, Debug, PartialEq, Eq, Structural)]
pub struct MoveSample {
    pub device_id: usize,
    pub axis: Vec2,
}

/// The right stick of a device: where its player is to face.
///
/// `target` is the heading, in microradians, at which a player faces
/// along `axis`. It means nothing while `axis` is zero.
#[derive(Clone, Copy, Debug, PartialEq, Eq, Structural)]
pub struct AimSample {
    pub device_id: usize,
    pub axis: Vec2,
    pub target: i64,
}

/// Where a player at `position` stands after moving along `axis` for `ms`
/// milliseconds at `speed`: the stick is cut back to unit length, the way
/// gone is speed times time times stick, and each coordinate is kept
/// inside the arena.
pub open spec fn moved_position(position: Vec2, axis: Vec2, speed: int, ms: int, arena: Arena) -> Vec2 {
    Vec2 {
        x: moved_coord(
            position.x as int,
            speed,
            ms,
            unit_limited(axis).x as int,
            arena.half_width as int,
        ) as i64,
        y: moved_coord(
            position.y as int,
            speed,
            ms,
            unit_limited(axis).y as int,
            arena.half_height as int,
        ) as i64,
    }
}

/// The player after its stick has moved it; a dead player stays.
pub open spec fn moved_player(player: Player, axis: Vec2, ms: int, arena: Arena, config: Config) -> Player {
    if player.alive {
        Player {
            position: moved_position(player.position, axis, config.player_speed as int, ms, arena),
            ..player
        }
    } else {
        player
    }
}

/// The player after its stick has turned it; a dead player and a stick
/// at rest leave the heading alone.
pub open spec fn turned_player(player: Player, aim: AimSample, ms: int, config: Config) -> Player {
    if player.alive && (aim.axis.x != 0 || aim.axis.y != 0) {
        Player {
            heading: turned_toward(
                player.heading as int,
                wrap_angle(aim.target as int),
                max_turn(config.turn_rate as int, ms),
            ) as i64,
            ..player
        }
    } else {
        player
    }
}

/// The place of the first move sample of `device_id` at or after `from`,
/// or the number of samples if there is none.
pub open spec fn first_move_sample(samples: Seq<MoveSample>, device_id: usize, from: int) -> int
    decreases samples.len() - from,
{
    if from < 0 || from >= samples.len() {
        samples.len() as int
    } else if samples[from].device_id == device_id {
        from
    } else {
        first_move_sample(samples, device_id, from + 1)
    }
}

/// The place of the first aim sample of `device_id` at or after `from`,
/// or the number of samples if there is none.
pub open spec fn first_aim_sample(samples: Seq<AimSample>, device_id: usize, from: int) -> int
    decreases samples.len() - from,
{
    if from < 0 || from >= samples.len() {
        samples.len() as int
    } else if samples[from].device_id == device_id {
        from
    } else {
        first_aim_sample(samples, device_id, from + 1)
    }
}

/// The player after a frame's move samples.
pub open spec fn player_after_moves(
    player: Player,
    samples: Seq<MoveSample>,
    ms: int,
    arena: Arena,
    config: Config,
) -> Player {
    let at = first_move_sample(samples, player.device_id, 0);
    if at < samples.len() {
        moved_player(player, samples[at].axis, ms, arena, config)
    } else {
        player
    }
}

/// The player after a frame's aim samples.
pub open spec fn player_after_aims(
    player: Player,
    samples: Seq<AimSample>,
    ms: int,
    config: Config,
) -> Player {
    let at = first_aim_sample(samples, player.device_id, 0);
    if at < samples.len() {
        turned_player(player, samples[at], ms, config)
    } else {
        player
    }
}

/// The players after a frame's move samples.
pub open spec fn after_moves(
    players: Seq<Player>,
    samples: Seq<MoveSample>,
    ms: int,
    arena: Arena,
    config: Config,
) -> Seq<Player> {
    Seq::new(players.len(), |k: int| player_after_moves(players[k], samples, ms, arena, config))
}

/// The players after a frame's aim samples.
pub open spec fn after_aims(
    players: Seq<Player>,
    samples: Seq<AimSample>,
    ms: int,
    config: Config,
) -> Seq<Player> {
    Seq::new(players.len(), |k: int| player_after_aims(players[k], samples, ms, config))
}

/// Every move sample is a stick sample.
pub open spec fn move_samples_wf(samples: Seq<MoveSample>) -> bool {
    forall|i: int| 0 <= i < samples.len() ==> is_stick_sample((#[trigger] samples[i]).axis)
}

/// Moves a player along its stick.
///
/// A living player ends inside the arena, wherever it stood, and keeps
/// all but its place. A dead player is left as it is.
pub fn move_player(player: Player, axis: Vec2, ms: u32, arena: &Arena, config: &Config) -> (out:
    Player)
    requires
        is_stick_sample(axis),
        arena.wf(),
    ensures
        out == moved_player(player, axis, ms as int, *arena, *config),
        player.alive ==> arena.contains(out.position),
        player.wf() ==> out.wf(),
{
    if !player.alive {
        return player;
    }
    let stick = limit_to_unit(axis);
    let x = move_coord(player.position.x, config.player_speed, ms, stick.x, arena.half_width);
    let y = move_coord(player.position.y, config.player_speed, ms, stick.y, arena.half_height);
    Player { position: Vec2 { x, y }, ..player }
}

/// Turns a player toward where its stick points.
///
/// In one call the heading changes by no more than the turn rate allows
/// for `ms` milliseconds, and it never passes the target.
pub fn turn_player(player: Player, aim: AimSample, ms: u32, config: &Config) -> (out: Player)
    requires
        player.wf(),
    ensures
        out == turned_player(player, aim, ms as int, *config),
        out.wf(),
        angular_distance(player.heading as int, out.heading as int) <= max_turn(
            config.turn_rate as int,
            ms as int,
        ),
{
    if !player.alive || (aim.axis.x == 0 && aim.axis.y == 0) {
        assert(max_turn(config.turn_rate as int, ms as int) >= 0) by (nonlinear_arith)
            requires
                config.turn_rate >= 0,
                ms >= 0,
        ;
        return player;
    }
    let target = normalize_heading(aim.target);
    let budget = turn_budget(config.turn_rate, ms);
    let heading = turn_toward(player.heading, target, budget);
    Player { heading, ..player }
}

fn find_move_sample(samples: &Vec<MoveSample>, device_id: usize) -> (at: usize)
    ensures
        at == first_move_sample(samples@, device_id, 0),
        at <= samples@.len(),
{
    let mut at: usize = 0;
    while at < samples.len()
        invariant
            at <= samples@.len(),
            first_move_sample(samples@, device_id, at as int) == first_move_sample(
                samples@,
                device_id,
                0,
            ),
        decreases samples@.len() - at,
    {
        if samples[at].device_id == device_id {
            return at;
        }
        at = at + 1;
    }
    at
}

fn find_aim_sample(samples: &Vec<AimSample>, device_id: usize) -> (at: usize)
    ensures
        at == first_aim_sample(samples@, device_id, 0),
        at <= samples@.len(),
{
    let mut at: usize = 0;
    while at < samples.len()
        invariant
            at <= samples@.len(),
            first_aim_sample(samples@, device_id, at as int) == first_aim_sample(
                samples@,
                device_id,
                0,
            ),
        decreases samples@.len() - at,
    {
        if samples[at].device_id == device_id {
            return at;
        }
        at = at + 1;
    }
    at
}

impl World {
    /// Moves every living player whose device has a move sample.
    ///
    /// Each such player ends inside the arena, wherever it stood.
    /// Players without a sample, dead players and all projectiles stay as
    /// they are.
    pub fn player_movement(
        &mut self,
        samples: &Vec<MoveSample>,
        ms: u32,
        arena: &Arena,
        config: &Config,
    )
        requires
            old(self).wf(),
            move_samples_wf(samples@),
            arena.wf(),
        ensures
            final(self).wf(),
            final(self).players@ == after_moves(
                old(self).players@,
                samples@,
                ms as int,
                *arena,
                *config,
            ),
            forall|k: int|
                0 <= k < old(self).players@.len() && old(self).players@[k].alive
                    && first_move_sample(samples@, old(self).players@[k].device_id, 0)
                    < samples@.len() ==> arena.contains(
                    (#[trigger] final(self).players@[k]).position,
                ),
            final(self).projectiles@ == old(self).projectiles@,
    {
        let ghost start = self.players@;
        let count = self.players.len();
        let mut i: usize = 0;
        while i < count
            invariant
                i <= count,
                count == start.len(),
                self.players@.len() == count,
                self.projectiles@ == old(self).projectiles@,
                forall|k: int| i <= k < count ==> self.players@[k] == start[k],
                move_samples_wf(samples@),
                arena.wf(),
                forall|k: int|
                    0 <= k < i ==> self.players@[k] == player_after_moves(
                        start[k],
                        samples@,
                        ms as int,
                        *arena,
                        *config,
                    ),
                forall|k: int|
                    0 <= k < i && start[k].alive && first_move_sample(
                        samples@,
                        start[k].device_id,
                        0,
                    ) < samples@.len() ==> arena.contains((#[trigger] self.players@[k]).position),
            decreases count - i,
        {
            let player = self.players[i];
            let at = find_move_sample(samples, player.device_id);
            if at < samples.len() {
                let moved = move_player(player, samples[at].axis, ms, arena, config);
                self.players.set(i, moved);
            }
            i = i + 1;
        }
        proof {
            assert(self.players@ =~= after_moves(start, samples@, ms as int, *arena, *config));
            assert forall|k: int| 0 <= k < count implies (#[trigger] self.players@[k]).wf()
                && self.players@[k].device_id == start[k].device_id by {
                assert(start[k].wf());
            }
            lemma_same_devices_wf(start, self.players@);
        }
    }

    /// Turns every living player whose device has an aim sample with a
    /// stick off rest.
    ///
    /// No heading changes by more than the turn rate allows for `ms`
    /// milliseconds. Players without a sample, dead players and all
    /// projectiles stay as they are.
    pub fn player_rotation(&mut self, samples: &Vec<AimSample>, ms: u32, config: &Config)
        requires
            old(self).wf(),
        ensures
            final(self).wf(),
            final(self).players@ == after_aims(old(self).players@, samples@, ms as int, *config),
            forall|k: int|
                0 <= k < final(self).players@.len() ==> angular_distance(
                    old(self).players@[k].heading as int,
                    (#[trigger] final(self).players@[k]).heading as int,
                ) <= max_turn(config.turn_rate as int, ms as int),
            final(self).projectiles@ == old(self).projectiles@,
    {
        let ghost start = self.players@;
        let count = self.players.len();
        let mut i: usize = 0;
        assert(max_turn(config.turn_rate as int, ms as int) >= 0) by (nonlinear_arith)
            requires
                config.turn_rate >= 0,
                ms >= 0,
        ;
        while i < count
            invariant
                i <= count,
                count == start.len(),
                self.players@.len() == count,
                self.projectiles@ == old(self).projectiles@,
                players_wf(start),
                forall|k: int| i <= k < count ==> self.players@[k] == start[k],
                max_turn(config.turn_rate as int, ms as int) >= 0,
                forall|k: int|
                    0 <= k < i ==> self.players@[k] == player_after_aims(
                        start[k],
                        samples@,
                        ms as int,
                        *config,
                    ),
                forall|k: int|
                    0 <= k < i ==> (#[trigger] self.players@[k]).wf() && angular_distance(
                        start[k].heading as int,
                        self.players@[k].heading as int,
                    ) <= max_turn(config.turn_rate as int, ms as int),
            decreases count - i,
        {
            let player = self.players[i];
            assert(start[i as int].wf());
            let at = find_aim_sample(samples, player.device_id);
            if at < samples.len() {
                let turned = turn_player(player, samples[at], ms, config);
                self.players.set(i, turned);
            }
            i = i + 1;
        }
        proof {
            assert(self.players@ =~= after_aims(start, samples@, ms as int, *config));
            assert forall|k: int| 0 <= k < count implies (#[trigger] self.players@[k]).wf()
                && self.players@[k].device_id == start[k].device_id by {}
            lemma_same_devices_wf(start, self.players@);
        }
    }
}

} // verus!
