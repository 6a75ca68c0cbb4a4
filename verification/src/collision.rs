//! Hits of projectiles on players and on other projectiles.
//!
//! One pass takes the projectiles in order. Each that is still in flight
//! looks for its first target: the players in order, then the projectiles
//! in order. A target is in reach, belongs to another device, and overlaps
//! the projectile. The first one found ends the search.

use crate::despawned::{
    despawned_contains, despawned_insert, despawned_new, despawned_places, Despawned,
};
use crate::entity::{Player, Projectile};
use crate::geometry::{boxes_overlap, overlaps};
use crate::world::{players_wf, World};
use vstd::prelude::*;

verus! {

/// `player` can be hit by `shot`.
pub open spec fn player_in_way(player: Player, shot: Projectile) -> bool {
    &&& player.collidable
    &&& player.device_id != shot.owner_id
    &&& boxes_overlap(player.position, player.scale, shot.position, shot.scale)
}

/// `other` can be hit by `shot`; `gone` tells whether `other` has left
/// play earlier in the pass.
pub open spec fn projectile_in_way(other: Projectile, gone: bool, shot: Projectile) -> bool {
    &&& other.collidable
    &&& !gone
    &&& other.owner_id != shot.owner_id
    &&& boxes_overlap(other.position, other.scale, shot.position, shot.scale)
}

/// The place of the first player at or after `from` that `shot` can hit,
/// or the number of players if there is none.
pub open spec fn first_player_hit(players: Seq<Player>, shot: Projectile, from: int) -> int
    decreases players.len() - from,
{
    if from < 0 || from >= players.len() {
        players.len() as int
    } else if player_in_way(players[from], shot) {
        from
    } else {
        first_player_hit(players, shot, from + 1)
    }
}

/// The place of the first projectile at or after `from` that `shot` can
/// hit, or the number of projectiles if there is none.
pub open spec fn first_projectile_hit(
    projectiles: Seq<Projectile>,
    gone: Seq<bool>,
    shot: Projectile,
    from: int,
) -> int
    decreases projectiles.len() - from,
{
    if from < 0 || from >= projectiles.len() {
        projectiles.len() as int
    } else if projectile_in_way(projectiles[from], gone[from], shot) {
        from
    } else {
        first_projectile_hit(projectiles, gone, shot, from + 1)
    }
}

/// What a pass has done so far.
pub struct Pass {
    /// The players, with the hits taken so far.
    pub players: Seq<Player>,
    /// For each projectile, whether it has left play.
    pub gone: Seq<bool>,
    /// The devices of the players that ran out of health, in order.
    pub deaths: Seq<usize>,
}

/// The state before any projectile is looked at.
pub open spec fn pass_start(players: Seq<Player>, projectiles: Seq<Projectile>) -> Pass {
    Pass {
        players,
        gone: Seq::new(projectiles.len(), |i: int| false),
        deaths: Seq::empty(),
    }
}

/// The state after projectile `i` has looked for its target.
///
/// A projectile that has left play does nothing. One that finds a player
/// leaves play, and the player is struck: it loses one health, and when
/// none is left its device joins the deaths. One that finds a projectile
/// leaves play together with it. One that finds nothing flies on.
pub open spec fn resolve_one(pass: Pass, projectiles: Seq<Projectile>, i: int) -> Pass {
    if pass.gone[i] {
        pass
    } else {
        let shot = projectiles[i];
        let k = first_player_hit(pass.players, shot, 0);
        if k < pass.players.len() {
            let hit = pass.players[k].struck();
            Pass {
                players: pass.players.update(k, hit),
                gone: pass.gone.update(i, true),
                deaths: if hit.health == 0 {
                    pass.deaths.push(hit.device_id)
                } else {
                    pass.deaths
                },
            }
        } else {
            let j = first_projectile_hit(projectiles, pass.gone, shot, 0);
            if j < projectiles.len() {
                Pass { gone: pass.gone.update(i, true).update(j, true), ..pass }
            } else {
                pass
            }
        }
    }
}

/// The state after every projectile from `i` on has looked for its target.
pub open spec fn resolve_from(pass: Pass, projectiles: Seq<Projectile>, i: int) -> Pass
    decreases projectiles.len() - i,
{
    if i < 0 || i >= projectiles.len() {
        pass
    } else {
        resolve_from(resolve_one(pass, projectiles, i), projectiles, i + 1)
    }
}

/// The state after a whole pass.
pub open spec fn resolved(players: Seq<Player>, projectiles: Seq<Projectile>) -> Pass {
    resolve_from(pass_start(players, projectiles), projectiles, 0)
}

/// The projectiles that have not left play, in their order.
pub open spec fn survivors(projectiles: Seq<Projectile>, gone: Seq<bool>) -> Seq<Projectile>
    decreases projectiles.len(),
{
    if projectiles.len() == 0 {
        Seq::empty()
    } else {
        let rest = survivors(projectiles.drop_last(), gone.drop_last());
        if gone.last() {
            rest
        } else {
            rest.push(projectiles.last())
        }
    }
}

/// Every projectile that stays in play was in play before.
pub proof fn lemma_survivors_were_there(projectiles: Seq<Projectile>, gone: Seq<bool>)
    requires
        gone.len() == projectiles.len(),
    ensures
        survivors(projectiles, gone).len() <= projectiles.len(),
        forall|k: int|
            0 <= k < survivors(projectiles, gone).len() ==> projectiles.contains(
                #[trigger] survivors(projectiles, gone)[k],
            ),
    decreases projectiles.len(),
{
    if projectiles.len() > 0 {
        let rest = survivors(projectiles.drop_last(), gone.drop_last());
        lemma_survivors_were_there(projectiles.drop_last(), gone.drop_last());
        assert forall|k: int| 0 <= k < survivors(projectiles, gone).len() implies projectiles.contains(
            #[trigger] survivors(projectiles, gone)[k],
        ) by {
            if k < rest.len() {
                assert(projectiles.drop_last().contains(rest[k]));
                let at = choose|at: int|
                    0 <= at < projectiles.drop_last().len() && projectiles.drop_last()[at]
                        == rest[k];
                assert(projectiles[at] == rest[k]);
            } else {
                assert(projectiles[projectiles.len() - 1] == projectiles.last());
            }
        }
    }
}

/// What holds of a pass at every step: the players keep their number and
/// their devices and stay well formed, and every projectile has its flag.
pub open spec fn pass_wf(pass: Pass, projectiles: Seq<Projectile>) -> bool {
    &&& players_wf(pass.players)
    &&& pass.gone.len() == projectiles.len()
}

/// A step keeps a pass well formed.
pub proof fn lemma_resolve_one_wf(pass: Pass, projectiles: Seq<Projectile>, i: int)
    requires
        pass_wf(pass, projectiles),
        0 <= i < projectiles.len(),
    ensures
        pass_wf(resolve_one(pass, projectiles, i), projectiles),
        resolve_one(pass, projectiles, i).players.len() == pass.players.len(),
{
    let shot = projectiles[i];
    let next = resolve_one(pass, projectiles, i);
    if !pass.gone[i] {
        let k = first_player_hit(pass.players, shot, 0);
        lemma_first_player_hit(pass.players, shot, 0);
        if k < pass.players.len() {
            assert(pass.players[k].wf());
            assert forall|a: int| 0 <= a < next.players.len() implies (
            #[trigger] next.players[a]).wf() by {
                assert(pass.players[a].wf());
            }
            assert forall|a: int, b: int| 0 <= a < b < next.players.len() implies (
            #[trigger] next.players[a]).device_id != (#[trigger] next.players[b]).device_id by {
                assert(pass.players[a].device_id != pass.players[b].device_id);
            }
        } else {
            lemma_first_projectile_hit(projectiles, pass.gone, shot, 0);
        }
    }
}

/// The first player hit is in range and in the way, and none before it
/// is.
pub proof fn lemma_first_player_hit(players: Seq<Player>, shot: Projectile, from: int)
    requires
        0 <= from <= players.len(),
    ensures
        from <= first_player_hit(players, shot, from) <= players.len(),
        first_player_hit(players, shot, from) < players.len() ==> player_in_way(
            players[first_player_hit(players, shot, from)],
            shot,
        ),
        forall|k: int|
            from <= k < first_player_hit(players, shot, from) ==> !player_in_way(
                #[trigger] players[k],
                shot,
            ),
    decreases players.len() - from,
{
    if from < players.len() && !player_in_way(players[from], shot) {
        lemma_first_player_hit(players, shot, from + 1);
    }
}

/// The first projectile hit is in range and in the way, and none before
/// it is.
pub proof fn lemma_first_projectile_hit(
    projectiles: Seq<Projectile>,
    gone: Seq<bool>,
    shot: Projectile,
    from: int,
)
    requires
        0 <= from <= projectiles.len(),
    ensures
        from <= first_projectile_hit(projectiles, gone, shot, from) <= projectiles.len(),
        first_projectile_hit(projectiles, gone, shot, from) < projectiles.len()
            ==> projectile_in_way(
            projectiles[first_projectile_hit(projectiles, gone, shot, from)],
            gone[first_projectile_hit(projectiles, gone, shot, from)],
            shot,
        ),
        forall|k: int|
            from <= k < first_projectile_hit(projectiles, gone, shot, from) ==> !projectile_in_way(
                #[trigger] projectiles[k],
                gone[k],
                shot,
            ),
    decreases projectiles.len() - from,
{
    if from < projectiles.len() && !projectile_in_way(projectiles[from], gone[from], shot) {
        lemma_first_projectile_hit(projectiles, gone, shot, from + 1);
    }
}

fn find_player_hit(players: &Vec<Player>, shot: &Projectile) -> (k: usize)
    ensures
        k == first_player_hit(players@, *shot, 0),
        k <= players@.len(),
{
    let mut k: usize = 0;
    while k < players.len()
        invariant
            k <= players@.len(),
            first_player_hit(players@, *shot, k as int) == first_player_hit(players@, *shot, 0),
        decreases players@.len() - k,
    {
        let p = players[k];
        if p.collidable && p.device_id != shot.owner_id && overlaps(
            p.position,
            p.scale,
            shot.position,
            shot.scale,
        ) {
            return k;
        }
        k = k + 1;
    }
    k
}

/// `gone` tells of each projectile whether the set holds its place.
spec fn flags_of(gone: Seq<bool>, set: Despawned) -> bool {
    forall|j: int|
        0 <= j < gone.len() ==> (#[trigger] gone[j]) == despawned_places(set).contains(j as usize)
}

fn find_projectile_hit(
    projectiles: &Vec<Projectile>,
    despawned: &Despawned,
    Ghost(gone): Ghost<Seq<bool>>,
    shot: &Projectile,
) -> (j: usize)
    requires
        gone.len() == projectiles@.len(),
        flags_of(gone, *despawned),
    ensures
        j == first_projectile_hit(projectiles@, gone, *shot, 0),
        j <= projectiles@.len(),
{
    let mut j: usize = 0;
    while j < projectiles.len()
        invariant
            gone.len() == projectiles@.len(),
            flags_of(gone, *despawned),
            j <= projectiles@.len(),
            first_projectile_hit(projectiles@, gone, *shot, j as int) == first_projectile_hit(
                projectiles@,
                gone,
                *shot,
                0,
            ),
        decreases projectiles@.len() - j,
    {
        let t = projectiles[j];
        assert(gone[j as int] == despawned_places(*despawned).contains(j));
        if t.collidable && !despawned_contains(despawned, j) && t.owner_id != shot.owner_id
            && overlaps(t.position, t.scale, shot.position, shot.scale) {
            return j;
        }
        j = j + 1;
    }
    j
}

impl World {
    /// Resolves this frame's hits and reports the deaths.
    ///
    /// The players come out with the hits of the whole pass taken, the
    /// projectiles that left play are removed, and the devices of the
    /// players that ran out of health are returned in the order in which
    /// that happened.
    pub fn check_for_collisions(&mut self) -> (deaths: Vec<usize>)
        requires
            old(self).wf(),
        ensures
            final(self).wf(),
            final(self).players@ == resolved(old(self).players@, old(self).projectiles@).players,
            final(self).projectiles@ == survivors(
                old(self).projectiles@,
                resolved(old(self).players@, old(self).projectiles@).gone,
            ),
            deaths@ == resolved(old(self).players@, old(self).projectiles@).deaths,
    {
        let ghost start = pass_start(self.players@, self.projectiles@);
        let ghost shots = self.projectiles@;
        let count = self.projectiles.len();
        let mut despawned = despawned_new();
        let ghost mut gone: Seq<bool> = start.gone;
        let mut deaths: Vec<usize> = Vec::new();
        let mut i: usize = 0;
        while i < count
            invariant
                i <= count,
                count == shots.len(),
                self.projectiles@ == shots,
                flags_of(gone, despawned),
                pass_wf(Pass { players: self.players@, gone, deaths: deaths@ }, shots),
                resolve_from(
                    Pass { players: self.players@, gone, deaths: deaths@ },
                    shots,
                    i as int,
                ) == resolve_from(start, shots, 0),
            decreases count - i,
        {
            let ghost before = Pass { players: self.players@, gone, deaths: deaths@ };
            proof {
                lemma_resolve_one_wf(before, shots, i as int);
                assert(gone[i as int] == despawned_places(despawned).contains(i));
            }
            if !despawned_contains(&despawned, i) {
                let shot = self.projectiles[i];
                let k = find_player_hit(&self.players, &shot);
                if k < self.players.len() {
                    let mut hit = self.players[k];
                    assert(hit.wf());
                    hit.health = hit.health - 1;
                    hit.collidable = hit.collidable && hit.health > 0;
                    self.players.set(k, hit);
                    despawned_insert(&mut despawned, i);
                    proof {
                        gone = gone.update(i as int, true);
                    }
                    if hit.health == 0 {
                        deaths.push(hit.device_id);
                    }
                } else {
                    let j = find_projectile_hit(&self.projectiles, &despawned, Ghost(gone), &shot);
                    if j < count {
                        despawned_insert(&mut despawned, i);
                        despawned_insert(&mut despawned, j);
                        proof {
                            gone = gone.update(i as int, true).update(j as int, true);
                        }
                    }
                }
            }
            assert(Pass { players: self.players@, gone, deaths: deaths@ } == resolve_one(
                before,
                shots,
                i as int,
            ));
            i = i + 1;
        }
        let mut kept: Vec<Projectile> = Vec::new();
        let mut n: usize = 0;
        while n < count
            invariant
                n <= count,
                count == shots.len(),
                gone.len() == count,
                flags_of(gone, despawned),
                self.projectiles@ == shots,
                kept@ == survivors(shots.take(n as int), gone.take(n as int)),
            decreases count - n,
        {
            proof {
                assert(shots.take(n + 1).drop_last() == shots.take(n as int));
                assert(gone.take(n + 1).drop_last() == gone.take(n as int));
                assert(gone[n as int] == despawned_places(despawned).contains(n));
                assert(gone.take(n + 1).last() == gone[n as int]);
            }
            if !despawned_contains(&despawned, n) {
                kept.push(self.projectiles[n]);
            }
            n = n + 1;
        }
        proof {
            assert(shots.take(count as int) == shots);
            assert(gone.take(count as int) == gone);
        }
        self.projectiles = kept;
        deaths
    }
}

} // verus!
