//! What holds of every collision pass.

use crate::collision::{
    first_player_hit, first_projectile_hit, lemma_first_player_hit, lemma_first_projectile_hit,
    lemma_resolve_one_wf, pass_start, pass_wf, resolve_from, resolve_one, resolved, Pass,
};
use crate::entity::{Player, Projectile};
use crate::world::players_wf;
use vstd::prelude::*;

verus! {

/// `after` is `before` but for hits taken: health may be lower, never
/// below zero, and a player that was hit stays in reach only while it has
/// health left.
pub open spec fn worn(before: Player, after: Player) -> bool {
    &&& after == (Player {
        health: after.health,
        collidable: before.collidable && (after.health == before.health || after.health > 0),
        ..before
    })
    &&& 0 <= after.health <= before.health
}

/// Player `k` had health at the start and has none now.
pub open spec fn crossed_zero(start: Seq<Player>, now: Seq<Player>, k: int) -> bool {
    &&& 0 <= k < start.len()
    &&& start[k].health > 0
    &&& now[k].health == 0
}

/// Some player bound to `device_id` had health at the start and has none
/// now.
pub open spec fn device_crossed_zero(start: Seq<Player>, now: Seq<Player>, device_id: usize) -> bool {
    exists|k: int| #[trigger] crossed_zero(start, now, k) && start[k].device_id == device_id
}

/// The pass has only worn the players it started with, and its deaths
/// are, once each, the devices whose health it brought to zero.
pub open spec fn pass_follows(start: Seq<Player>, pass: Pass) -> bool {
    &&& pass.players.len() == start.len()
    &&& forall|k: int| 0 <= k < start.len() ==> worn(start[k], #[trigger] pass.players[k])
    &&& pass.deaths.no_duplicates()
    &&& forall|id: usize| #[trigger]
        pass.deaths.contains(id) <==> device_crossed_zero(start, pass.players, id)
}

proof fn lemma_resolve_one_follows(
    start: Seq<Player>,
    pass: Pass,
    projectiles: Seq<Projectile>,
    i: int,
)
    requires
        players_wf(start),
        pass_wf(pass, projectiles),
        pass_follows(start, pass),
        0 <= i < projectiles.len(),
    ensures
        pass_follows(start, resolve_one(pass, projectiles, i)),
{
    let next = resolve_one(pass, projectiles, i);
    let shot = projectiles[i];
    lemma_resolve_one_wf(pass, projectiles, i);
    let k = first_player_hit(pass.players, shot, 0);
    lemma_first_player_hit(pass.players, shot, 0);
    if pass.gone[i] || k >= pass.players.len() {
        assert(next.players == pass.players);
        assert(next.deaths == pass.deaths);
    } else {
        lemma_struck_follows(start, pass, projectiles, i, k);
    }
}

proof fn lemma_struck_follows(
    start: Seq<Player>,
    pass: Pass,
    projectiles: Seq<Projectile>,
    i: int,
    k: int,
)
    requires
        players_wf(start),
        pass_wf(pass, projectiles),
        pass_follows(start, pass),
        0 <= i < projectiles.len(),
        !pass.gone[i],
        k == first_player_hit(pass.players, projectiles[i], 0),
        k < pass.players.len(),
    ensures
        pass_follows(start, resolve_one(pass, projectiles, i)),
{
    let next = resolve_one(pass, projectiles, i);
    let shot = projectiles[i];
    lemma_resolve_one_wf(pass, projectiles, i);
    lemma_first_player_hit(pass.players, shot, 0);
    let old_player = pass.players[k];
    let hit = old_player.struck();
    assert(old_player.wf());
    assert(worn(start[k], old_player));
    assert(next.players == pass.players.update(k, hit));
    assert forall|a: int| 0 <= a < start.len() implies worn(
        start[a],
        #[trigger] next.players[a],
    ) by {
        assert(worn(start[a], pass.players[a]));
    }
    let id = hit.device_id;
    assert(start[k].device_id == id);
    // No other player is bound to the device of the player that was hit.
    assert forall|a: int| 0 <= a < start.len() && start[a].device_id == id implies a == k by {
        if a < k {
            assert(start[a].device_id != start[k].device_id);
        } else if k < a {
            assert(start[k].device_id != start[a].device_id);
        }
    }
    if hit.health == 0 {
        assert(next.deaths == pass.deaths.push(id));
        assert(!pass.deaths.contains(id)) by {
            if pass.deaths.contains(id) {
                assert(device_crossed_zero(start, pass.players, id));
                let a = choose|a: int| #[trigger]
                    crossed_zero(start, pass.players, a) && start[a].device_id == id;
                assert(a == k);
            }
        }
        assert(next.deaths.no_duplicates()) by {
            assert forall|a: int, b: int|
                0 <= a < next.deaths.len() && 0 <= b < next.deaths.len() && a != b implies next.deaths[a]
                != next.deaths[b] by {
                if a < pass.deaths.len() && b < pass.deaths.len() {
                    assert(pass.deaths[a] != pass.deaths[b]);
                } else if a < pass.deaths.len() {
                    assert(pass.deaths.contains(pass.deaths[a]));
                } else {
                    assert(pass.deaths.contains(pass.deaths[b]));
                }
            }
        }
        assert forall|d: usize| #[trigger]
            next.deaths.contains(d) <==> device_crossed_zero(start, next.players, d) by {
            if next.deaths.contains(d) {
                let at = choose|at: int| 0 <= at < next.deaths.len() && next.deaths[at] == d;
                if at < pass.deaths.len() {
                    assert(pass.deaths[at] == d);
                    assert(pass.deaths.contains(d));
                    assert(device_crossed_zero(start, pass.players, d));
                    let a = choose|a: int| #[trigger]
                        crossed_zero(start, pass.players, a) && start[a].device_id == d;
                    assert(a != k);
                    assert(next.players[a] == pass.players[a]);
                    assert(crossed_zero(start, next.players, a));
                } else {
                    assert(d == id);
                    assert(crossed_zero(start, next.players, k));
                }
            }
            if device_crossed_zero(start, next.players, d) {
                let a = choose|a: int| #[trigger]
                    crossed_zero(start, next.players, a) && start[a].device_id == d;
                if a == k {
                    assert(next.deaths[pass.deaths.len() as int] == d);
                } else {
                    assert(next.players[a] == pass.players[a]);
                    assert(crossed_zero(start, pass.players, a));
                    assert(pass.deaths.contains(d));
                    let at = choose|at: int| 0 <= at < pass.deaths.len() && pass.deaths[at] == d;
                    assert(next.deaths[at] == d);
                }
            }
        }
    } else {
        assert(next.deaths == pass.deaths);
        assert forall|d: usize| #[trigger]
            next.deaths.contains(d) <==> device_crossed_zero(start, next.players, d) by {
            if pass.deaths.contains(d) {
                assert(device_crossed_zero(start, pass.players, d));
                let a = choose|a: int| #[trigger]
                    crossed_zero(start, pass.players, a) && start[a].device_id == d;
                assert(a != k);
                assert(next.players[a] == pass.players[a]);
                assert(crossed_zero(start, next.players, a));
            }
            if device_crossed_zero(start, next.players, d) {
                let a = choose|a: int| #[trigger]
                    crossed_zero(start, next.players, a) && start[a].device_id == d;
                assert(a != k);
                assert(next.players[a] == pass.players[a]);
                assert(crossed_zero(start, pass.players, a));
            }
        }
    }
}

proof fn lemma_resolve_from_follows(
    start: Seq<Player>,
    pass: Pass,
    projectiles: Seq<Projectile>,
    i: int,
)
    requires
        players_wf(start),
        pass_wf(pass, projectiles),
        pass_follows(start, pass),
        0 <= i <= projectiles.len(),
    ensures
        pass_follows(start, resolve_from(pass, projectiles, i)),
        pass_wf(resolve_from(pass, projectiles, i), projectiles),
    decreases projectiles.len() - i,
{
    if i < projectiles.len() {
        lemma_resolve_one_wf(pass, projectiles, i);
        lemma_resolve_one_follows(start, pass, projectiles, i);
        lemma_resolve_from_follows(start, resolve_one(pass, projectiles, i), projectiles, i + 1);
    }
}

/// Health never goes below zero, and each fall to zero is reported once.
///
/// After a pass the players are well formed, one flag stands for each
/// projectile, and the players are only worn down: each keeps everything
/// but health and reach, and its health stays between zero and what it
/// was. The deaths hold no device twice, and hold a device exactly when
/// the pass took the last health of its player.
pub proof fn lemma_one_death_per_fall(players: Seq<Player>, projectiles: Seq<Projectile>)
    requires
        players_wf(players),
    ensures
        pass_wf(resolved(players, projectiles), projectiles),
        pass_follows(players, resolved(players, projectiles)),
{
    let start = pass_start(players, projectiles);
    assert(pass_follows(players, start)) by {
        assert forall|id: usize| #[trigger]
            start.deaths.contains(id) <==> device_crossed_zero(players, start.players, id) by {
            if device_crossed_zero(players, start.players, id) {
                let a = choose|a: int| #[trigger]
                    crossed_zero(players, start.players, a) && players[a].device_id == id;
                assert(false);
            }
        }
    }
    lemma_resolve_from_follows(players, start, projectiles, 0);
}

/// Owner immunity, one projectile at a time: a projectile leaves the
/// player bound to its owner's device exactly as it was.
pub proof fn lemma_owner_immunity(pass: Pass, projectiles: Seq<Projectile>, i: int, k: int)
    requires
        pass_wf(pass, projectiles),
        0 <= i < projectiles.len(),
        0 <= k < pass.players.len(),
        pass.players[k].device_id == projectiles[i].owner_id,
    ensures
        resolve_one(pass, projectiles, i).players[k] == pass.players[k],
{
    lemma_first_player_hit(pass.players, projectiles[i], 0);
}

/// Owner immunity among projectiles: a projectile never takes another
/// projectile of its own owner out of play.
pub proof fn lemma_owner_immunity_of_projectiles(
    pass: Pass,
    projectiles: Seq<Projectile>,
    i: int,
    j: int,
)
    requires
        pass_wf(pass, projectiles),
        0 <= i < projectiles.len(),
        0 <= j < projectiles.len(),
        j != i,
        projectiles[j].owner_id == projectiles[i].owner_id,
    ensures
        resolve_one(pass, projectiles, i).gone[j] == pass.gone[j],
{
    lemma_first_player_hit(pass.players, projectiles[i], 0);
    lemma_first_projectile_hit(projectiles, pass.gone, projectiles[i], 0);
}

/// How many of the first `upto` projectiles belong to another device than
/// `device_id`.
pub open spec fn foreign_shots(projectiles: Seq<Projectile>, device_id: usize, upto: int) -> int
    decreases upto,
{
    if upto <= 0 {
        0
    } else {
        foreign_shots(projectiles, device_id, upto - 1) + if projectiles[upto - 1].owner_id
            != device_id {
            1int
        } else {
            0int
        }
    }
}

proof fn lemma_foreign_shots_grow(projectiles: Seq<Projectile>, device_id: usize, a: int, b: int)
    requires
        0 <= a <= b,
    ensures
        0 <= foreign_shots(projectiles, device_id, a) <= foreign_shots(projectiles, device_id, b),
    decreases b,
{
    if a < b {
        lemma_foreign_shots_grow(projectiles, device_id, a, b - 1);
    } else if a > 0 {
        lemma_foreign_shots_grow(projectiles, device_id, a - 1, a - 1);
    }
}

proof fn lemma_resolve_from_spares_owner(
    start: Seq<Player>,
    pass: Pass,
    projectiles: Seq<Projectile>,
    i: int,
    k: int,
)
    requires
        pass_wf(pass, projectiles),
        0 <= i <= projectiles.len(),
        0 <= k < pass.players.len(),
        pass.players.len() == start.len(),
        pass.players[k].device_id == start[k].device_id,
        start[k].health - pass.players[k].health <= foreign_shots(
            projectiles,
            start[k].device_id,
            i,
        ),
    ensures
        resolve_from(pass, projectiles, i).players.len() == start.len(),
        start[k].health - resolve_from(pass, projectiles, i).players[k].health <= foreign_shots(
            projectiles,
            start[k].device_id,
            projectiles.len() as int,
        ),
    decreases projectiles.len() - i,
{
    if i < projectiles.len() {
        let next = resolve_one(pass, projectiles, i);
        lemma_resolve_one_wf(pass, projectiles, i);
        lemma_first_player_hit(pass.players, projectiles[i], 0);
        if pass.players[k].device_id == projectiles[i].owner_id {
            lemma_owner_immunity(pass, projectiles, i, k);
        }
        assert(next.players[k].health >= pass.players[k].health - 1);
        assert(next.players[k].device_id == start[k].device_id);
        lemma_resolve_from_spares_owner(start, next, projectiles, i + 1, k);
    }
}

/// Owner immunity over a whole pass: a player loses no more health than
/// there are projectiles of other devices. Its own projectiles, however
/// many overlap it, cost it nothing.
pub proof fn lemma_only_foreign_shots_hurt(
    players: Seq<Player>,
    projectiles: Seq<Projectile>,
    k: int,
)
    requires
        players_wf(players),
        0 <= k < players.len(),
    ensures
        resolved(players, projectiles).players.len() == players.len(),
        players[k].health - resolved(players, projectiles).players[k].health <= foreign_shots(
            projectiles,
            players[k].device_id,
            projectiles.len() as int,
        ),
{
    lemma_foreign_shots_grow(projectiles, players[k].device_id, 0, 0);
    lemma_resolve_from_spares_owner(
        players,
        pass_start(players, projectiles),
        projectiles,
        0,
        k,
    );
}

/// The health of all players together.
pub open spec fn total_health(players: Seq<Player>) -> int
    decreases players.len(),
{
    if players.len() == 0 {
        0
    } else {
        total_health(players.drop_last()) + players.last().health
    }
}

/// How many projectiles have left play.
pub open spec fn gone_count(gone: Seq<bool>) -> int
    decreases gone.len(),
{
    if gone.len() == 0 {
        0
    } else {
        gone_count(gone.drop_last()) + if gone.last() {
            1int
        } else {
            0int
        }
    }
}

proof fn lemma_total_health_update(players: Seq<Player>, k: int, player: Player)
    requires
        0 <= k < players.len(),
    ensures
        total_health(players.update(k, player)) == total_health(players) - players[k].health
            + player.health,
    decreases players.len(),
{
    let changed = players.update(k, player);
    if k == players.len() - 1 {
        assert(changed.drop_last() == players.drop_last());
    } else {
        assert(changed.drop_last() == players.drop_last().update(k, player));
        lemma_total_health_update(players.drop_last(), k, player);
    }
}

proof fn lemma_gone_count_update(gone: Seq<bool>, i: int)
    requires
        0 <= i < gone.len(),
    ensures
        gone_count(gone.update(i, true)) == gone_count(gone) + if gone[i] {
            0int
        } else {
            1int
        },
        0 <= gone_count(gone) <= gone.len(),
    decreases gone.len(),
{
    let changed = gone.update(i, true);
    lemma_gone_count_bounds(gone.drop_last());
    if i == gone.len() - 1 {
        assert(changed.drop_last() == gone.drop_last());
    } else {
        assert(changed.drop_last() == gone.drop_last().update(i, true));
        lemma_gone_count_update(gone.drop_last(), i);
    }
}

proof fn lemma_gone_count_bounds(gone: Seq<bool>)
    ensures
        0 <= gone_count(gone) <= gone.len(),
    decreases gone.len(),
{
    if gone.len() > 0 {
        lemma_gone_count_bounds(gone.drop_last());
    }
}

proof fn lemma_gone_count_none(n: nat)
    ensures
        gone_count(Seq::new(n, |i: int| false)) == 0,
    decreases n,
{
    if n > 0 {
        assert(Seq::new(n, |i: int| false).drop_last() == Seq::new((n - 1) as nat, |i: int| false));
        lemma_gone_count_none((n - 1) as nat);
    }
}

/// One projectile, at most one target.
///
/// A step of the pass changes at most one player, and that one by a
/// single health. It takes at most one other projectile out of play, and
/// never both a player and a projectile. The health lost is paid for by
/// the projectile itself leaving play.
pub proof fn lemma_one_target_per_projectile(pass: Pass, projectiles: Seq<Projectile>, i: int)
    requires
        pass_wf(pass, projectiles),
        0 <= i < projectiles.len(),
    ensures
        ({
            let next = resolve_one(pass, projectiles, i);
            &&& next.players.len() == pass.players.len()
            &&& next.gone.len() == pass.gone.len()
            &&& forall|a: int, b: int|
                0 <= a < pass.players.len() && 0 <= b < pass.players.len() && next.players[a]
                    != pass.players[a] && next.players[b] != pass.players[b] ==> a == b
            &&& forall|a: int|
                0 <= a < pass.players.len() ==> (#[trigger] next.players[a]).health
                    >= pass.players[a].health - 1
            &&& forall|a: int, b: int|
                0 <= a < pass.gone.len() && 0 <= b < pass.gone.len() && a != i && b != i
                    && next.gone[a] != pass.gone[a] && next.gone[b] != pass.gone[b] ==> a == b
            &&& forall|a: int, b: int|
                0 <= a < pass.players.len() && 0 <= b < pass.gone.len() && b != i
                    && next.players[a] != pass.players[a] ==> next.gone[b] == pass.gone[b]
            &&& total_health(pass.players) - total_health(next.players) == gone_count(next.gone)
                - gone_count(pass.gone) || (total_health(next.players) == total_health(
                pass.players,
            ) && gone_count(next.gone) >= gone_count(pass.gone))
        }),
{
    let next = resolve_one(pass, projectiles, i);
    let shot = projectiles[i];
    lemma_resolve_one_wf(pass, projectiles, i);
    lemma_first_player_hit(pass.players, shot, 0);
    lemma_first_projectile_hit(projectiles, pass.gone, shot, 0);
    lemma_gone_count_update(pass.gone, i);
    if !pass.gone[i] {
        let k = first_player_hit(pass.players, shot, 0);
        if k < pass.players.len() {
            lemma_total_health_update(pass.players, k, pass.players[k].struck());
        } else {
            let j = first_projectile_hit(projectiles, pass.gone, shot, 0);
            if j < projectiles.len() {
                lemma_gone_count_update(pass.gone.update(i, true), j);
            }
        }
    }
}

proof fn lemma_resolve_from_damage(
    start: Seq<Player>,
    pass: Pass,
    projectiles: Seq<Projectile>,
    i: int,
)
    requires
        pass_wf(pass, projectiles),
        0 <= i <= projectiles.len(),
        total_health(start) - total_health(pass.players) <= gone_count(pass.gone),
    ensures
        total_health(start) - total_health(resolve_from(pass, projectiles, i).players)
            <= gone_count(resolve_from(pass, projectiles, i).gone),
        resolve_from(pass, projectiles, i).gone.len() == projectiles.len(),
    decreases projectiles.len() - i,
{
    if i < projectiles.len() {
        lemma_resolve_one_wf(pass, projectiles, i);
        lemma_one_target_per_projectile(pass, projectiles, i);
        lemma_resolve_from_damage(start, resolve_one(pass, projectiles, i), projectiles, i + 1);
    }
}

/// Over a whole pass the players together lose no more health than there
/// are projectiles that left play: no projectile counts twice.
pub proof fn lemma_damage_is_paid_for(players: Seq<Player>, projectiles: Seq<Projectile>)
    requires
        players_wf(players),
    ensures
        total_health(players) - total_health(resolved(players, projectiles).players)
            <= gone_count(resolved(players, projectiles).gone),
        gone_count(resolved(players, projectiles).gone) <= projectiles.len(),
{
    lemma_gone_count_none(projectiles.len());
    lemma_resolve_from_damage(players, pass_start(players, projectiles), projectiles, 0);
    lemma_gone_count_bounds(resolved(players, projectiles).gone);
}

} // verus!
