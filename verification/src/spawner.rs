//! Firing: living shooters put projectiles into play, by countdown or by
//! button.

use crate::config::Config;
use crate::entity::{FirePolicy, Player, Projectile};
use crate::geometry::{is_stick_sample, Vec2};
use crate::lifecycle::{Button, ButtonEvent};
use crate::timer::{completions, remainder, tick_repeating};
use crate::world::{lemma_same_devices_wf, World};
use vstd::prelude::*;

verus! {

/// `event` is the fire button of `device_id` going down.
pub open spec fn is_fire_press(event: ButtonEvent, device_id: usize) -> bool {
    event.device_id == device_id && event.button == Button::Fire && event.pressed
}

/// How often the fire button of `device_id` went down in a frame's
/// events.
pub open spec fn fire_presses(events: Seq<ButtonEvent>, device_id: usize) -> nat
    decreases events.len(),
{
    if events.len() == 0 {
        0
    } else {
        fire_presses(events.drop_last(), device_id) + if is_fire_press(events.last(), device_id) {
            1nat
        } else {
            0nat
        }
    }
}

/// The fire policy after `ms` milliseconds: a countdown has advanced and
/// started over as often as it completed.
pub open spec fn ticked(fire: FirePolicy, ms: int) -> FirePolicy {
    match fire {
        FirePolicy::Timer { interval_ms, elapsed_ms } => FirePolicy::Timer {
            interval_ms,
            elapsed_ms: remainder(interval_ms as int, elapsed_ms as int, ms) as u32,
        },
        FirePolicy::EdgeTriggered => FirePolicy::EdgeTriggered,
    }
}

/// How many projectiles a player fires in a frame.
///
/// A dead player fires none. A timer-driven shooter fires one if its
/// countdown completed in the frame. An edge-triggered shooter fires one
/// for each time its fire button went down.
pub open spec fn shots_due(player: Player, events: Seq<ButtonEvent>, ms: int) -> nat {
    if !player.alive {
        0
    } else {
        match player.fire {
            FirePolicy::Timer { interval_ms, elapsed_ms } => if completions(
                interval_ms as int,
                elapsed_ms as int,
                ms,
            ) > 0 {
                1
            } else {
                0
            },
            FirePolicy::EdgeTriggered => fire_presses(events, player.device_id),
        }
    }
}

/// The player after a frame of firing: the countdown of a living player
/// has advanced, nothing else has changed.
pub open spec fn player_after_fire(player: Player, ms: int) -> Player {
    if player.alive {
        Player { fire: ticked(player.fire, ms), ..player }
    } else {
        player
    }
}

/// The players after a frame of firing.
pub open spec fn after_fire(players: Seq<Player>, ms: int) -> Seq<Player> {
    Seq::new(players.len(), |k: int| player_after_fire(players[k], ms))
}

/// `count` projectiles fired by `shooter` along `facing`.
pub open spec fn volley(shooter: Player, facing: Vec2, config: Config, count: nat) -> Seq<
    Projectile,
> {
    Seq::new(count, |i: int| Projectile::fired_by(shooter, facing, config))
}

/// The projectiles that the first `upto` players fire in a frame, player
/// by player in order.
pub open spec fn fired_upto(
    players: Seq<Player>,
    facings: Seq<Vec2>,
    events: Seq<ButtonEvent>,
    ms: int,
    config: Config,
    upto: int,
) -> Seq<Projectile>
    decreases upto,
{
    if upto <= 0 {
        Seq::empty()
    } else {
        fired_upto(players, facings, events, ms, config, upto - 1) + volley(
            players[upto - 1],
            facings[upto - 1],
            config,
            shots_due(players[upto - 1], events, ms),
        )
    }
}

/// Every facing is a direction in thousandths, one for each player.
pub open spec fn facings_wf(facings: Seq<Vec2>, players: Seq<Player>) -> bool {
    &&& facings.len() == players.len()
    &&& forall|k: int| 0 <= k < facings.len() ==> is_stick_sample(#[trigger] facings[k])
}

/// Makes the projectile that `shooter` fires along `facing`.
///
/// It starts where the shooter stands, flies along `facing` at the
/// configured speed, and carries the shooter's device and colour.
pub fn fire(shooter: &Player, facing: Vec2, config: &Config) -> (shot: Projectile)
    requires
        is_stick_sample(facing),
    ensures
        shot == Projectile::fired_by(*shooter, facing, *config),
        shot.owner_id == shooter.device_id,
{
    let speed: i64 = config.bullet_speed as i64;
    assert(-1000 * 0xffff_ffff <= facing.x * speed <= 1000 * 0xffff_ffff) by (nonlinear_arith)
        requires
            -1000 <= facing.x <= 1000,
            0 <= speed <= 0xffff_ffff,
    ;
    assert(-1000 * 0xffff_ffff <= facing.y * speed <= 1000 * 0xffff_ffff) by (nonlinear_arith)
        requires
            -1000 <= facing.y <= 1000,
            0 <= speed <= 0xffff_ffff,
    ;
    Projectile {
        owner_id: shooter.device_id,
        position: shooter.position,
        velocity: Vec2 { x: facing.x * speed, y: facing.y * speed },
        collidable: config.bullet_collide,
        scale: config.bullet_scale,
        color: shooter.color,
    }
}

/// Counts how often the fire button of `device_id` went down.
pub fn count_fire_presses(events: &Vec<ButtonEvent>, device_id: usize) -> (count: usize)
    ensures
        count == fire_presses(events@, device_id),
{
    let mut count: usize = 0;
    let mut i: usize = 0;
    proof {
        assert(events@.take(0).len() == 0);
    }
    while i < events.len()
        invariant
            i <= events@.len(),
            count <= i,
            count == fire_presses(events@.take(i as int), device_id),
        decreases events@.len() - i,
    {
        let event = events[i];
        proof {
            assert(events@.take(i + 1).drop_last() == events@.take(i as int));
            assert(events@.take(i + 1).last() == event);
        }
        if event.device_id == device_id && event.button == Button::Fire && event.pressed {
            count = count + 1;
        }
        i = i + 1;
    }
    proof {
        assert(events@.take(events@.len() as int) == events@);
    }
    count
}

/// Advances a player's fire policy by `ms` milliseconds and tells how
/// many projectiles the player fires.
pub fn shots_of(player: &Player, events: &Vec<ButtonEvent>, ms: u32) -> (out: (Player, usize))
    ensures
        out.0 == player_after_fire(*player, ms as int),
        out.1 == shots_due(*player, events@, ms as int),
{
    if !player.alive {
        return (*player, 0);
    }
    match player.fire {
        FirePolicy::Timer { interval_ms, elapsed_ms } => {
            let (rest, times) = tick_repeating(interval_ms, elapsed_ms, ms);
            let fire = FirePolicy::Timer { interval_ms, elapsed_ms: rest };
            let shots: usize = if times > 0 {
                1
            } else {
                0
            };
            (Player { fire, ..*player }, shots)
        },
        FirePolicy::EdgeTriggered => {
            let shots = count_fire_presses(events, player.device_id);
            (*player, shots)
        },
    }
}

impl World {
    /// Lets every living shooter fire what is due in this frame.
    ///
    /// `facings` holds, for each player in order, the unit vector of its
    /// heading in thousandths. The countdowns of living timer-driven
    /// shooters advance by `ms`. The new projectiles join the others at
    /// the end, shooter by shooter in the order of the players.
    pub fn create_bullets(
        &mut self,
        ms: u32,
        events: &Vec<ButtonEvent>,
        facings: &Vec<Vec2>,
        config: &Config,
    )
        requires
            old(self).wf(),
            facings_wf(facings@, old(self).players@),
        ensures
            final(self).wf(),
            final(self).players@ == after_fire(old(self).players@, ms as int),
            final(self).projectiles@ == old(self).projectiles@ + fired_upto(
                old(self).players@,
                facings@,
                events@,
                ms as int,
                *config,
                old(self).players@.len() as int,
            ),
    {
        let ghost start = self.players@;
        let ghost flying = self.projectiles@;
        let count = self.players.len();
        let mut i: usize = 0;
        proof {
            assert(self.projectiles@ =~= flying + fired_upto(
                start,
                facings@,
                events@,
                ms as int,
                *config,
                0,
            ));
        }
        while i < count
            invariant
                i <= count,
                count == start.len(),
                self.players@.len() == count,
                facings_wf(facings@, start),
                forall|k: int| i <= k < count ==> self.players@[k] == start[k],
                forall|k: int|
                    0 <= k < i ==> self.players@[k] == player_after_fire(start[k], ms as int),
                self.projectiles@ == flying + fired_upto(
                    start,
                    facings@,
                    events@,
                    ms as int,
                    *config,
                    i as int,
                ),
            decreases count - i,
        {
            let shooter = self.players[i];
            let facing = facings[i];
            let (after, shots) = shots_of(&shooter, events, ms);
            self.players.set(i, after);
            let ghost base = self.projectiles@;
            let mut fired: usize = 0;
            proof {
                assert(self.projectiles@ =~= base + volley(shooter, facing, *config, 0));
            }
            while fired < shots
                invariant
                    fired <= shots,
                    is_stick_sample(facing),
                    self.players@.len() == count,
                    forall|k: int| i < k < count ==> self.players@[k] == start[k],
                    forall|k: int|
                        0 <= k < i ==> self.players@[k] == player_after_fire(start[k], ms as int),
                    self.players@[i as int] == after,
                    self.projectiles@ == base + volley(shooter, facing, *config, fired as nat),
                decreases shots - fired,
            {
                let shot = fire(&shooter, facing, config);
                self.projectiles.push(shot);
                fired = fired + 1;
                proof {
                    assert(self.projectiles@ =~= base + volley(
                        shooter,
                        facing,
                        *config,
                        fired as nat,
                    ));
                }
            }
            proof {
                assert(self.projectiles@ =~= flying + fired_upto(
                    start,
                    facings@,
                    events@,
                    ms as int,
                    *config,
                    i + 1,
                ));
            }
            i = i + 1;
        }
        proof {
            assert(self.players@ =~= after_fire(start, ms as int));
            assert forall|k: int| 0 <= k < count implies (#[trigger] self.players@[k]).wf()
                && self.players@[k].device_id == start[k].device_id by {
                assert(start[k].wf());
            }
            lemma_same_devices_wf(start, self.players@);
        }
    }
}

} // verus!
