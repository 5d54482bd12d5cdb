//! Which monsters have the player in sight.
use vstd::prelude::*;

use crate::world::World;

verus! {

/// Whether `p` is among `pts`.
pub fn contains_point(pts: &Vec<(i32, i32)>, p: (i32, i32)) -> (r: bool)
    ensures
        r == pts@.contains(p),
{
    let mut k: usize = 0;
    while k < pts.len()
        invariant
            k <= pts@.len(),
            forall|j: int| 0 <= j < k ==> pts@[j] != p,
        decreases pts@.len() - k,
    {
        let q = pts[k];
        if q.0 == p.0 && q.1 == p.1 {
            return true;
        }
        k = k + 1;
    }
    false
}

/// The check of each monster's awareness of the player.
pub struct MonsterAI {}

impl MonsterAI {
    /// The monsters, in increasing order, whose viewshed holds the player's position.
    pub fn run(&self, world: &World) -> (r: Vec<usize>)
        requires
            world.wf(),
        ensures
            forall|k: int| 0 <= k < r@.len() ==> world.sees_player(#[trigger] r@[k] as int),
            forall|i: int, j: int| 0 <= i < j < r@.len() ==> r@[i] < r@[j],
            forall|e: int| #[trigger] world.sees_player(e) ==> r@.contains(e as usize),
    {
        let target = (world.player_position.x, world.player_position.y);
        let n = world.positions.len();
        let mut r: Vec<usize> = Vec::new();
        let mut e: usize = 0;
        while e < n
            invariant
                world.wf(),
                n == world.len(),
                e <= n,
                target == (world.player_position.x, world.player_position.y),
                forall|k: int| 0 <= k < r@.len() ==> world.sees_player(#[trigger] r@[k] as int),
                forall|k: int| 0 <= k < r@.len() ==> #[trigger] r@[k] < e,
                forall|i: int, j: int| 0 <= i < j < r@.len() ==> r@[i] < r@[j],
                forall|f: int| 0 <= f < e && #[trigger] world.sees_player(f) ==> r@.contains(f as usize),
            decreases n - e,
        {
            let sees = match &world.viewsheds[e] {
                Some(v) => world.monsters[e].is_some() && world.positions[e].is_some()
                    && contains_point(&v.visible_tiles, target),
                None => false,
            };
            let ghost before = r@;
            if sees {
                r.push(e);
                proof {
                    assert(r@[r@.len() - 1] == e);
                    assert forall|f: int| 0 <= f < e && #[trigger] world.sees_player(f) implies r@.contains(
                        f as usize,
                    ) by {
                        let i = choose|i: int| 0 <= i < before.len() && before[i] == f as usize;
                        assert(r@[i] == f as usize);
                    }
                }
            }
            proof {
                assert(sees == world.sees_player(e as int));
            }
            e = e + 1;
        }
        r
    }
}

} // verus!
