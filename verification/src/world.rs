//! The world: every player and every projectile of one session.

use crate::entity::{Player, Projectile};
use vstd::prelude::*;

verus! {

/// Every player and every projectile, each list in order of creation.
#[derive(Clone, Debug)]
pub struct World {
    pub players: Vec<Player>,
    pub projectiles: Vec<Projectile>,
}

/// Every player is well formed and no two share a device.
pub open spec fn players_wf(players: Seq<Player>) -> bool {
    &&& forall|i: int| 0 <= i < players.len() ==> (#[trigger] players[i]).wf()
    &&& forall|i: int, j: int|
        0 <= i < j < players.len() ==> (#[trigger] players[i]).device_id != (
        #[trigger] players[j]).device_id
}

/// Some player is bound to `device_id`.
pub open spec fn has_device(players: Seq<Player>, device_id: usize) -> bool {
    exists|i: int| 0 <= i < players.len() && (#[trigger] players[i]).device_id == device_id
}

/// How many players are bound to `device_id`.
pub open spec fn device_count(players: Seq<Player>, device_id: usize) -> nat
    decreases players.len(),
{
    if players.len() == 0 {
        0
    } else {
        device_count(players.drop_last(), device_id) + if players.last().device_id == device_id {
            1nat
        } else {
            0nat
        }
    }
}

/// No device is counted where no player is bound to it.
pub proof fn lemma_device_count_absent(players: Seq<Player>, device_id: usize)
    requires
        !has_device(players, device_id),
    ensures
        device_count(players, device_id) == 0,
    decreases players.len(),
{
    if players.len() > 0 {
        let rest = players.drop_last();
        assert(players[players.len() - 1].device_id != device_id);
        assert forall|i: int| 0 <= i < rest.len() implies (#[trigger] rest[i]).device_id
            != device_id by {
            assert(rest[i] == players[i]);
        }
        lemma_device_count_absent(rest, device_id);
    }
}

/// In a well-formed list each device is bound to one player or to none.
pub proof fn lemma_device_count(players: Seq<Player>, device_id: usize)
    requires
        players_wf(players),
    ensures
        device_count(players, device_id) == if has_device(players, device_id) {
            1nat
        } else {
            0nat
        },
    decreases players.len(),
{
    if players.len() == 0 {
    } else {
        let rest = players.drop_last();
        let last = players.len() - 1;
        assert forall|i: int| 0 <= i < rest.len() implies rest[i] == players[i] by {}
        assert(players_wf(rest));
        if players[last].device_id == device_id {
            assert(has_device(players, device_id));
            assert(!has_device(rest, device_id)) by {
                if has_device(rest, device_id) {
                    let i = choose|i: int|
                        0 <= i < rest.len() && (#[trigger] rest[i]).device_id == device_id;
                    assert(players[i].device_id == players[last].device_id);
                }
            }
            lemma_device_count_absent(rest, device_id);
        } else {
            lemma_device_count(rest, device_id);
            if has_device(rest, device_id) {
                let i = choose|i: int|
                    0 <= i < rest.len() && (#[trigger] rest[i]).device_id == device_id;
                assert(players[i].device_id == device_id);
            }
            if has_device(players, device_id) {
                let i = choose|i: int|
                    0 <= i < players.len() && (#[trigger] players[i]).device_id == device_id;
                assert(rest[i].device_id == device_id);
            }
        }
    }
}

/// A list that keeps the devices of a well-formed list, place by place,
/// and holds only well-formed players is well formed.
pub proof fn lemma_same_devices_wf(before: Seq<Player>, after: Seq<Player>)
    requires
        players_wf(before),
        after.len() == before.len(),
        forall|k: int|
            0 <= k < after.len() ==> (#[trigger] after[k]).wf() && after[k].device_id
                == before[k].device_id,
    ensures
        players_wf(after),
{
    assert forall|i: int, j: int| 0 <= i < j < after.len() implies (#[trigger] after[i]).device_id
        != (#[trigger] after[j]).device_id by {
        assert(before[i].device_id != before[j].device_id);
    }
}

impl World {
    /// Every player is well formed and no two share a device.
    pub open spec fn wf(&self) -> bool {
        players_wf(self.players@)
    }

    /// A world without players or projectiles.
    pub fn new() -> (world: World)
        ensures
            world.players@.len() == 0,
            world.projectiles@.len() == 0,
            world.wf(),
    {
        World { players: Vec::new(), projectiles: Vec::new() }
    }

    /// The place of the player bound to `device_id` in the list of
    /// players, if there is one.
    pub fn find_player(&self, device_id: usize) -> (found: Option<usize>)
        ensures
            found.is_some() == has_device(self.players@, device_id),
            found.is_some() ==> found.unwrap() < self.players@.len() && self.players@[found.unwrap() as int].device_id
                == device_id,
            found.is_some() ==> forall|j: int|
                0 <= j < found.unwrap() ==> (#[trigger] self.players@[j]).device_id != device_id,
    {
        let mut i: usize = 0;
        while i < self.players.len()
            invariant
                i <= self.players@.len(),
                forall|j: int| 0 <= j < i ==> (#[trigger] self.players@[j]).device_id != device_id,
            decreases self.players@.len() - i,
        {
            if self.players[i].device_id == device_id {
                return Some(i);
            }
            i = i + 1;
        }
        None
    }

    /// Whether the world is well formed.
    pub fn is_valid(&self) -> (valid: bool)
        ensures
            valid == self.wf(),
    {
        let n = self.players.len();
        let mut i: usize = 0;
        while i < n
            invariant
                n == self.players@.len(),
                i <= n,
                forall|a: int| 0 <= a < i ==> (#[trigger] self.players@[a]).wf(),
                forall|a: int, b: int|
                    0 <= a < b < i ==> (#[trigger] self.players@[a]).device_id != (
                    #[trigger] self.players@[b]).device_id,
            decreases n - i,
        {
            if !self.players[i].is_valid() {
                return false;
            }
            let mut j: usize = 0;
            while j < i
                invariant
                    n == self.players@.len(),
                    j <= i < n,
                    forall|a: int|
                        0 <= a < j ==> (#[trigger] self.players@[a]).device_id
                            != self.players@[i as int].device_id,
                decreases i - j,
            {
                if self.players[j].device_id == self.players[i].device_id {
                    return false;
                }
                j = j + 1;
            }
            i = i + 1;
        }
        true
    }
}

} // verus!
