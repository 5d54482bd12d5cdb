//! Recomputing viewsheds and folding the player's into the map's fog of war.
use vstd::prelude::*;

use crate::map::{folded_view, revealed_grows, GameMap, MapModel};
use crate::world::{Viewshed, World};

verus! {

/// The points of `s` that lie on a `w` by `h` grid, in their order.
pub open spec fn clip_points(s: Seq<(i32, i32)>, w: int, h: int) -> Seq<(i32, i32)>
    decreases s.len(),
{
    if s.len() == 0 {
        s
    } else {
        let rest = clip_points(s.drop_last(), w, h);
        let p = s.last();
        if 0 <= p.0 < w && 0 <= p.1 < h {
            rest.push(p)
        } else {
            rest
        }
    }
}

/// Every clipped point lies on the grid.
pub proof fn lemma_clip_on_grid(s: Seq<(i32, i32)>, w: int, h: int)
    ensures
        forall|k: int|
            0 <= k < clip_points(s, w, h).len() ==> {
                let p = #[trigger] clip_points(s, w, h)[k];
                0 <= p.0 < w && 0 <= p.1 < h
            },
    decreases s.len(),
{
    if s.len() > 0 {
        lemma_clip_on_grid(s.drop_last(), w, h);
        let rest = clip_points(s.drop_last(), w, h);
        assert forall|k: int| 0 <= k < clip_points(s, w, h).len() implies {
            let p = #[trigger] clip_points(s, w, h)[k];
            0 <= p.0 < w && 0 <= p.1 < h
        } by {
            if k < rest.len() {
                assert(clip_points(s, w, h)[k] == rest[k]);
            }
        }
    }
}

/// The points of `pts` that lie on a `w` by `h` grid.
pub fn clip(pts: &Vec<(i32, i32)>, w: i32, h: i32) -> (r: Vec<(i32, i32)>)
    ensures
        r@ == clip_points(pts@, w as int, h as int),
{
    let mut r: Vec<(i32, i32)> = Vec::new();
    let mut k: usize = 0;
    while k < pts.len()
        invariant
            k <= pts@.len(),
            r@ == clip_points(pts@.take(k as int), w as int, h as int),
        decreases pts@.len() - k,
    {
        let p = pts[k];
        proof {
            assert(pts@.take(k + 1).drop_last() =~= pts@.take(k as int));
        }
        if 0 <= p.0 && p.0 < w && 0 <= p.1 && p.1 < h {
            r.push(p);
        }
        k = k + 1;
    }
    proof {
        assert(pts@.take(pts@.len() as int) =~= pts@);
    }
    r
}

/// `b` is `a` after a fresh view `pts` was stored: same tag and range, no longer dirty.
pub open spec fn refreshed(a: Option<Viewshed>, b: Option<Viewshed>, pts: Seq<(i32, i32)>) -> bool {
    &&& a is Some
    &&& b matches Some(v) && {
        &&& v.tag == a->Some_0.tag
        &&& v.range == a->Some_0.range
        &&& !v.dirty
        &&& v.visible_tiles@ == pts
    }
}

/// What a visibility pass makes of the store and the map, given `fov[e]`, the cells the
/// sight oracle reports from entity `e`'s position out to its range.
pub open spec fn visibility_outcome(
    w0: World,
    w1: World,
    m0: MapModel,
    m1: MapModel,
    fov: Seq<Seq<(i32, i32)>>,
) -> bool {
    &&& w1.wf()
    &&& w1.positions@ == w0.positions@
    &&& w1.players@ == w0.players@
    &&& w1.monsters@ == w0.monsters@
    &&& w1.player_position == w0.player_position
    &&& w1.viewsheds@.len() == w0.viewsheds@.len()
    &&& forall|e: int|
        0 <= e < w0.len() ==> if w0.needs_view(e) {
            refreshed(
                w0.viewsheds@[e],
                #[trigger] w1.viewsheds@[e],
                clip_points(fov[e], m0.width as int, m0.height as int),
            )
        } else {
            w1.viewsheds@[e] == w0.viewsheds@[e]
        }
    &&& revealed_grows(m0, m1)
    &&& forall|e: int|
        #[trigger] w0.needs_view(e) && w0.players@[e] is Some ==> folded_view(
            m0,
            m1,
            clip_points(fov[e], m0.width as int, m0.height as int),
        )
    &&& (forall|e: int| #[trigger] w0.needs_view(e) ==> w0.players@[e] is None) ==> m1 == m0
}

/// The pass that recomputes dirty viewsheds.
pub struct VisibilitySystem {}

impl VisibilitySystem {
    /// Recomputes every dirty viewshed from `fov`; the player's also becomes the map's
    /// visible set and is revealed for good. Clean viewsheds are left as they are.
    pub fn run(&self, world: &mut World, map: &mut GameMap, fov: &Vec<Vec<(i32, i32)>>)
        requires
            old(world).wf(),
            old(map).wf(),
            fov@.len() == old(world).len(),
        ensures
            final(map).wf(),
            visibility_outcome(
                *old(world),
                *final(world),
                old(map)@,
                final(map)@,
                fov@.map_values(|v: Vec<(i32, i32)>| v@),
            ),
    {
        let ghost w0 = *world;
        let ghost m0 = map@;
        let ghost fv = fov@.map_values(|v: Vec<(i32, i32)>| v@);
        let n = world.positions.len();
        let mut e: usize = 0;
        while e < n
            invariant
                world.wf(),
                map.wf(),
                n == w0.len(),
                fov@.len() == n,
                fv == fov@.map_values(|v: Vec<(i32, i32)>| v@),
                w0.wf(),
                m0.valid(),
                e <= n,
                world.positions@ == w0.positions@,
                world.players@ == w0.players@,
                world.monsters@ == w0.monsters@,
                world.player_position == w0.player_position,
                world.viewsheds@.len() == n,
                map@.width == m0.width,
                map@.height == m0.height,
                forall|f: int|
                    0 <= f < n ==> if f < e && w0.needs_view(f) {
                        refreshed(
                            w0.viewsheds@[f],
                            #[trigger] world.viewsheds@[f],
                            clip_points(fv[f], m0.width as int, m0.height as int),
                        )
                    } else {
                        world.viewsheds@[f] == w0.viewsheds@[f]
                    },
                revealed_grows(m0, map@),
                forall|f: int|
                    0 <= f < e && #[trigger] w0.needs_view(f) && w0.players@[f] is Some ==> folded_view(
                        m0,
                        map@,
                        clip_points(fv[f], m0.width as int, m0.height as int),
                    ),
                (forall|f: int| 0 <= f < e && #[trigger] w0.needs_view(f) ==> w0.players@[f] is None)
                    ==> map@ == m0,
            decreases n - e,
        {
            let needs = match &world.viewsheds[e] {
                Some(v) => v.dirty && world.positions[e].is_some(),
                None => false,
            };
            let ghost mstart = map@;
            proof {
                assert(needs == w0.needs_view(e as int));
            }
            if needs {
                let clipped = clip(&fov[e], map.width(), map.height());
                proof {
                    assert(fv[e as int] == fov@[e as int]@);
                    lemma_clip_on_grid(fv[e as int], m0.width as int, m0.height as int);
                }
                let is_player = world.players[e].is_some();
                let ghost mb = map@;
                match &mut world.viewsheds[e] {
                    Some(v) => {
                        v.visible_tiles = clipped;
                        if is_player {
                            map.visible_tiles_update(v);
                        }
                        v.dirty = false;
                    },
                    None => {},
                }
                proof {
                    if is_player {
                        assert forall|f: int| 0 <= f < e implies !(#[trigger] w0.needs_view(f)
                            && w0.players@[f] is Some) by {
                            if w0.needs_view(f) && w0.players@[f] is Some {
                                assert(w0.players@[e as int] is Some);
                            }
                        }
                        assert(mb == m0);
                    } else {
                        assert(map@ == mb);
                    }
                }
            }
            proof {
                if forall|f: int| 0 <= f < e + 1 && #[trigger] w0.needs_view(f) ==> w0.players@[f] is None {
                    assert(forall|f: int| 0 <= f < e && #[trigger] w0.needs_view(f) ==> w0.players@[f] is None);
                    assert(mstart == m0);
                    if needs {
                        assert(w0.players@[e as int] is None);
                    }
                }
            }
            e = e + 1;
        }
    }
}

} // verus!
