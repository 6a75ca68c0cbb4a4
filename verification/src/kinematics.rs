//! Flight of the projectiles, and their end at the edge of the arena.

use crate::entity::Projectile;
use crate::geometry::{drift_coord, drifted_coord, Arena, Vec2};
use crate::world::World;
use vstd::prelude::*;

verus! {

/// The projectile after `ms` milliseconds of flight: its place has
/// advanced by velocity times time, nothing else has changed.
pub open spec fn flown(shot: Projectile, ms: int) -> Projectile {
    Projectile {
        position: Vec2 {
            x: drifted_coord(shot.position.x as int, shot.velocity.x as int, ms) as i64,
            y: drifted_coord(shot.position.y as int, shot.velocity.y as int, ms) as i64,
        },
        ..shot
    }
}

/// The projectiles after `ms` milliseconds of flight.
pub open spec fn after_flight(projectiles: Seq<Projectile>, ms: int) -> Seq<Projectile> {
    Seq::new(projectiles.len(), |k: int| flown(projectiles[k], ms))
}

/// The projectiles that are inside the arena, in their order. One that
/// lies on the edge is inside.
pub open spec fn inside_arena(projectiles: Seq<Projectile>, arena: Arena) -> Seq<Projectile> {
    projectiles.filter(|shot: Projectile| arena.contains(shot.position))
}

/// Of the projectiles, those inside the arena are kept and no others.
///
/// Every projectile kept is inside and was there before. Every
/// projectile that was inside is kept.
pub proof fn lemma_inside_arena(projectiles: Seq<Projectile>, arena: Arena)
    ensures
        forall|k: int|
            0 <= k < inside_arena(projectiles, arena).len() ==> arena.contains(
                (#[trigger] inside_arena(projectiles, arena)[k]).position,
            ) && projectiles.contains(inside_arena(projectiles, arena)[k]),
        forall|k: int|
            0 <= k < projectiles.len() && arena.contains((#[trigger] projectiles[k]).position)
                ==> inside_arena(projectiles, arena).contains(projectiles[k]),
        inside_arena(projectiles, arena).len() <= projectiles.len(),
{
    let keep = |shot: Projectile| arena.contains(shot.position);
    let kept = inside_arena(projectiles, arena);
    projectiles.lemma_filter_len(keep);
    assert forall|k: int| 0 <= k < kept.len() implies arena.contains(
        (#[trigger] kept[k]).position,
    ) && projectiles.contains(kept[k]) by {
        projectiles.lemma_filter_pred(keep, k);
        assert(kept.contains(kept[k]));
        projectiles.lemma_filter_contains_rev(keep, kept[k]);
    }
    assert forall|k: int|
        0 <= k < projectiles.len() && arena.contains(
            (#[trigger] projectiles[k]).position,
        ) implies kept.contains(projectiles[k]) by {
        projectiles.lemma_filter_contains(keep, k);
    }
}

/// Removing what is outside a second time removes nothing.
pub proof fn lemma_inside_arena_twice(projectiles: Seq<Projectile>, arena: Arena)
    ensures
        inside_arena(inside_arena(projectiles, arena), arena) == inside_arena(projectiles, arena),
    decreases projectiles.len(),
{
    reveal(Seq::filter);
    let keep = |shot: Projectile| arena.contains(shot.position);
    if projectiles.len() > 0 {
        let rest = projectiles.drop_last();
        lemma_inside_arena_twice(rest, arena);
        if keep(projectiles.last()) {
            rest.filter(keep).lemma_filter_push(projectiles.last(), keep);
        }
    }
}

/// Advances a projectile by its velocity.
pub fn fly(shot: Projectile, ms: u32) -> (out: Projectile)
    ensures
        out == flown(shot, ms as int),
{
    let x = drift_coord(shot.position.x, shot.velocity.x, ms);
    let y = drift_coord(shot.position.y, shot.velocity.y, ms);
    Projectile { position: Vec2 { x, y }, ..shot }
}

impl World {
    /// Advances every projectile by its velocity times `ms` milliseconds.
    ///
    /// The players stay as they are.
    pub fn apply_velocity(&mut self, ms: u32)
        ensures
            final(self).projectiles@ == after_flight(old(self).projectiles@, ms as int),
            final(self).players@ == old(self).players@,
            old(self).wf() ==> final(self).wf(),
    {
        let ghost start = self.projectiles@;
        let count = self.projectiles.len();
        let mut i: usize = 0;
        while i < count
            invariant
                i <= count,
                count == start.len(),
                self.projectiles@.len() == count,
                self.players@ == old(self).players@,
                forall|k: int| 0 <= k < i ==> self.projectiles@[k] == flown(start[k], ms as int),
                forall|k: int| i <= k < count ==> self.projectiles@[k] == start[k],
            decreases count - i,
        {
            let shot = fly(self.projectiles[i], ms);
            self.projectiles.set(i, shot);
            i = i + 1;
        }
        proof {
            assert(self.projectiles@ =~= after_flight(start, ms as int));
        }
    }

    /// Removes every projectile that has left the arena.
    ///
    /// Exactly the projectiles whose place lies outside the arena on
    /// some axis are removed; the others keep their order. No projectile
    /// outside is left, so a second call changes nothing. The players
    /// stay as they are.
    pub fn despawn_bullets(&mut self, arena: &Arena)
        requires
            arena.wf(),
        ensures
            final(self).projectiles@ == inside_arena(old(self).projectiles@, *arena),
            forall|k: int|
                0 <= k < final(self).projectiles@.len() ==> arena.contains(
                    (#[trigger] final(self).projectiles@[k]).position,
                ),
            final(self).players@ == old(self).players@,
            old(self).wf() ==> final(self).wf(),
    {
        let ghost start = self.projectiles@;
        let ghost keep = |shot: Projectile| arena.contains(shot.position);
        let count = self.projectiles.len();
        let mut kept: Vec<Projectile> = Vec::new();
        let mut i: usize = 0;
        proof {
            reveal(Seq::filter);
            assert(start.take(0).filter(keep) == Seq::<Projectile>::empty());
        }
        while i < count
            invariant
                i <= count,
                count == start.len(),
                self.projectiles@ == start,
                self.players@ == old(self).players@,
                arena.wf(),
                keep == |shot: Projectile| arena.contains(shot.position),
                kept@ == start.take(i as int).filter(keep),
            decreases count - i,
        {
            let shot = self.projectiles[i];
            proof {
                assert(start.take(i + 1) == start.take(i as int).push(shot));
                start.take(i as int).lemma_filter_push(shot, keep);
            }
            if arena.is_inside(shot.position) {
                kept.push(shot);
            }
            i = i + 1;
        }
        proof {
            assert(start.take(count as int) == start);
            lemma_inside_arena(start, *arena);
        }
        self.projectiles = kept;
    }
}

} // verus!
