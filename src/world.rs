//! The entity-component store and the systems that run over it.
use vstd::prelude::*;

use crate::map::{GameMap, MapModel, Tile};

verus! {

/// Grid coordinates of an entity.
#[derive(Clone, Copy, Debug, PartialEq, Eq, Structural)]
pub struct Position {
    pub x: i32,
    pub y: i32,
}

/// The cells an entity currently sees, the radius they were computed with, and whether
/// they must be computed again.
#[derive(Debug)]
pub struct Viewshed {
    pub tag: String,
    pub visible_tiles: Vec<(i32, i32)>,
    pub range: i32,
    pub dirty: bool,
}

/// Marks the entity the keyboard moves.
#[derive(Clone, Copy, Debug, PartialEq, Eq, Structural)]
pub struct Player {}

/// Marks an entity that watches for the player.
#[derive(Clone, Copy, Debug, PartialEq, Eq, Structural)]
pub struct Monster {}

/// A copy of the player's position, kept in step with its component.
#[derive(Clone, Copy, Debug, PartialEq, Eq, Structural)]
pub struct PlayerPosition {
    pub x: i32,
    pub y: i32,
}

/// Whether the next tick advances the world or waits for input.
#[derive(Clone, Copy, Debug, PartialEq, Eq, Structural)]
pub enum RunState {
    Paused,
    Running,
}

/// The scheduling state of a session.
#[derive(Clone, Copy, Debug, PartialEq, Eq, Structural)]
pub struct State {
    pub run_state: RunState,
}

/// Entities as indices, with one column per component type: entity `e` has a component
/// exactly when its column holds `Some` at `e`.
#[derive(Debug)]
pub struct World {
    pub positions: Vec<Option<Position>>,
    pub viewsheds: Vec<Option<Viewshed>>,
    pub players: Vec<Option<Player>>,
    pub monsters: Vec<Option<Monster>>,
    pub player_position: PlayerPosition,
}

impl World {
    /// Number of entities.
    pub open spec fn len(&self) -> int {
        self.positions@.len() as int
    }

    /// The columns line up and at most one entity is the player.
    pub open spec fn wf(&self) -> bool {
        &&& self.viewsheds@.len() == self.len()
        &&& self.players@.len() == self.len()
        &&& self.monsters@.len() == self.len()
        &&& forall|i: int, j: int|
            #![trigger self.players@[i], self.players@[j]]
            0 <= i < self.len() && 0 <= j < self.len() && self.players@[i] is Some
                && self.players@[j] is Some ==> i == j
    }

    /// Entity `e` is the player and can move: it has a position and a viewshed.
    pub open spec fn is_mover(&self, e: int) -> bool {
        &&& 0 <= e < self.len()
        &&& self.players@[e] is Some
        &&& self.positions@[e] is Some
        &&& self.viewsheds@[e] is Some
    }

    /// Entity `e` is the first that can move.
    pub open spec fn is_first_mover(&self, e: int) -> bool {
        self.is_mover(e) && forall|f: int| 0 <= f < e ==> !#[trigger] self.is_mover(f)
    }

    /// Entity `e` has a position and a viewshed marked for recomputation.
    pub open spec fn needs_view(&self, e: int) -> bool {
        &&& 0 <= e < self.len()
        &&& self.positions@[e] is Some
        &&& self.viewsheds@[e] matches Some(v) && v.dirty
    }

    /// Entity `e` is a monster with a position whose viewshed holds the player's position.
    pub open spec fn sees_player(&self, e: int) -> bool {
        &&& 0 <= e < self.len()
        &&& self.monsters@[e] is Some
        &&& self.positions@[e] is Some
        &&& self.viewsheds@[e] matches Some(v) && v.visible_tiles@.contains(
            (self.player_position.x, self.player_position.y),
        )
    }

    /// A store with no entities.
    pub fn new() -> (r: World)
        ensures
            r.wf(),
            r.len() == 0,
            r.player_position == (PlayerPosition { x: 0, y: 0 }),
    {
        World {
            positions: Vec::new(),
            viewsheds: Vec::new(),
            players: Vec::new(),
            monsters: Vec::new(),
            player_position: PlayerPosition { x: 0, y: 0 },
        }
    }

    /// Number of entities.
    pub fn entity_count(&self) -> (r: usize)
        ensures
            r == self.len(),
    {
        self.positions.len()
    }

    /// Adds an entity with no components and returns its index.
    pub fn create_entity(&mut self) -> (e: usize)
        requires
            old(self).wf(),
            old(self).len() < usize::MAX,
        ensures
            final(self).wf(),
            e == old(self).len(),
            final(self).positions@ == old(self).positions@.push(None),
            final(self).viewsheds@ == old(self).viewsheds@.push(None),
            final(self).players@ == old(self).players@.push(None),
            final(self).monsters@ == old(self).monsters@.push(None),
            final(self).player_position == old(self).player_position,
    {
        let e = self.positions.len();
        self.positions.push(None);
        self.viewsheds.push(None);
        self.players.push(None);
        self.monsters.push(None);
        e
    }

    /// Attaches (or replaces) entity `e`'s position.
    pub fn set_position(&mut self, e: usize, p: Position)
        requires
            old(self).wf(),
            e < old(self).len(),
        ensures
            final(self).wf(),
            final(self).positions@ == old(self).positions@.update(e as int, Some(p)),
            final(self).viewsheds@ == old(self).viewsheds@,
            final(self).players@ == old(self).players@,
            final(self).monsters@ == old(self).monsters@,
            final(self).player_position == old(self).player_position,
    {
        self.positions[e] = Some(p);
    }

    /// Detaches entity `e`'s position.
    pub fn remove_position(&mut self, e: usize)
        requires
            old(self).wf(),
            e < old(self).len(),
        ensures
            final(self).wf(),
            final(self).positions@ == old(self).positions@.update(e as int, None),
            final(self).viewsheds@ == old(self).viewsheds@,
            final(self).players@ == old(self).players@,
            final(self).monsters@ == old(self).monsters@,
            final(self).player_position == old(self).player_position,
    {
        self.positions[e] = None;
    }

    /// Attaches (or replaces) entity `e`'s viewshed.
    pub fn set_viewshed(&mut self, e: usize, v: Viewshed)
        requires
            old(self).wf(),
            e < old(self).len(),
        ensures
            final(self).wf(),
            final(self).positions@ == old(self).positions@,
            final(self).viewsheds@ == old(self).viewsheds@.update(e as int, Some(v)),
            final(self).players@ == old(self).players@,
            final(self).monsters@ == old(self).monsters@,
            final(self).player_position == old(self).player_position,
    {
        self.viewsheds[e] = Some(v);
    }

    /// Detaches entity `e`'s viewshed.
    pub fn remove_viewshed(&mut self, e: usize)
        requires
            old(self).wf(),
            e < old(self).len(),
        ensures
            final(self).wf(),
            final(self).positions@ == old(self).positions@,
            final(self).viewsheds@ == old(self).viewsheds@.update(e as int, None),
            final(self).players@ == old(self).players@,
            final(self).monsters@ == old(self).monsters@,
            final(self).player_position == old(self).player_position,
    {
        self.viewsheds[e] = None;
    }

    /// Tags entity `e` as a monster.
    pub fn set_monster(&mut self, e: usize)
        requires
            old(self).wf(),
            e < old(self).len(),
        ensures
            final(self).wf(),
            final(self).positions@ == old(self).positions@,
            final(self).viewsheds@ == old(self).viewsheds@,
            final(self).players@ == old(self).players@,
            final(self).monsters@ == old(self).monsters@.update(e as int, Some(Monster {  })),
            final(self).player_position == old(self).player_position,
    {
        self.monsters[e] = Some(Monster {  });
    }

    /// Removes entity `e`'s monster tag.
    pub fn remove_monster(&mut self, e: usize)
        requires
            old(self).wf(),
            e < old(self).len(),
        ensures
            final(self).wf(),
            final(self).positions@ == old(self).positions@,
            final(self).viewsheds@ == old(self).viewsheds@,
            final(self).players@ == old(self).players@,
            final(self).monsters@ == old(self).monsters@.update(e as int, None),
            final(self).player_position == old(self).player_position,
    {
        self.monsters[e] = None;
    }

    /// Tags entity `e` as the player, unless another entity already is; says whether `e`
    /// is the player now.
    pub fn set_player(&mut self, e: usize) -> (r: bool)
        requires
            old(self).wf(),
            e < old(self).len(),
        ensures
            final(self).wf(),
            r == forall|f: int|
                0 <= f < old(self).len() && #[trigger] old(self).players@[f] is Some ==> f == e,
            r ==> final(self).players@ == old(self).players@.update(e as int, Some(Player {  })),
            !r ==> final(self).players@ == old(self).players@,
            final(self).positions@ == old(self).positions@,
            final(self).viewsheds@ == old(self).viewsheds@,
            final(self).monsters@ == old(self).monsters@,
            final(self).player_position == old(self).player_position,
    {
        let n = self.players.len();
        let mut f: usize = 0;
        while f < n
            invariant
                self.wf(),
                n == self.len(),
                e < n,
                f <= n,
                forall|g: int| 0 <= g < f && #[trigger] self.players@[g] is Some ==> g == e,
            decreases n - f,
        {
            if f != e && self.players[f].is_some() {
                return false;
            }
            f = f + 1;
        }
        self.players[e] = Some(Player {  });
        true
    }

    /// Removes entity `e`'s player tag.
    pub fn remove_player(&mut self, e: usize)
        requires
            old(self).wf(),
            e < old(self).len(),
        ensures
            final(self).wf(),
            final(self).positions@ == old(self).positions@,
            final(self).viewsheds@ == old(self).viewsheds@,
            final(self).players@ == old(self).players@.update(e as int, None),
            final(self).monsters@ == old(self).monsters@,
            final(self).player_position == old(self).player_position,
    {
        self.players[e] = None;
    }

    /// Adds a monster at `pos` that sees through `view`; returns its index.
    pub fn spawn_monster(&mut self, pos: Position, view: Viewshed) -> (e: usize)
        requires
            old(self).wf(),
            old(self).len() < usize::MAX,
        ensures
            final(self).wf(),
            e == old(self).len(),
            final(self).positions@ == old(self).positions@.push(Some(pos)),
            final(self).viewsheds@ == old(self).viewsheds@.push(Some(view)),
            final(self).players@ == old(self).players@.push(None),
            final(self).monsters@ == old(self).monsters@.push(Some(Monster {  })),
            final(self).player_position == old(self).player_position,
    {
        let e = self.create_entity();
        self.set_position(e, pos);
        self.set_viewshed(e, view);
        self.set_monster(e);
        proof {
            assert(self.positions@ =~= old(self).positions@.push(Some(pos)));
            assert(self.viewsheds@ =~= old(self).viewsheds@.push(Some(view)));
            assert(self.monsters@ =~= old(self).monsters@.push(Some(Monster {  })));
        }
        e
    }

    /// Adds the player at `pos`, seeing through `view`, and sets the player-position
    /// copy; refused, with the store unchanged, when there already is a player.
    pub fn spawn_player(&mut self, pos: Position, view: Viewshed) -> (r: Option<usize>)
        requires
            old(self).wf(),
            old(self).len() < usize::MAX,
        ensures
            final(self).wf(),
            match r {
                Some(e) => {
                    &&& forall|f: int| 0 <= f < old(self).len() ==> #[trigger] old(self).players@[f] is None
                    &&& e == old(self).len()
                    &&& final(self).positions@ == old(self).positions@.push(Some(pos))
                    &&& final(self).viewsheds@ == old(self).viewsheds@.push(Some(view))
                    &&& final(self).players@ == old(self).players@.push(Some(Player {  }))
                    &&& final(self).monsters@ == old(self).monsters@.push(None)
                    &&& final(self).player_position == (PlayerPosition { x: pos.x, y: pos.y })
                },
                None => {
                    &&& exists|f: int| 0 <= f < old(self).len() && #[trigger] old(self).players@[f] is Some
                    &&& *final(self) == *old(self)
                },
            },
    {
        let n = self.players.len();
        let mut f: usize = 0;
        while f < n
            invariant
                self.wf(),
                *self == *old(self),
                n == self.len(),
                f <= n,
                forall|g: int| 0 <= g < f ==> #[trigger] self.players@[g] is None,
            decreases n - f,
        {
            if self.players[f].is_some() {
                return None;
            }
            f = f + 1;
        }
        let e = self.create_entity();
        self.set_position(e, pos);
        self.set_viewshed(e, view);
        self.players[e] = Some(Player {  });
        self.player_position = PlayerPosition { x: pos.x, y: pos.y };
        proof {
            assert(self.positions@ =~= old(self).positions@.push(Some(pos)));
            assert(self.viewsheds@ =~= old(self).viewsheds@.push(Some(view)));
            assert(self.players@ =~= old(self).players@.push(Some(Player {  })));
        }
        Some(e)
    }

    /// Entity `e`'s position, if it has one.
    pub fn position(&self, e: usize) -> (r: Option<Position>)
        requires
            self.wf(),
            e < self.len(),
        ensures
            r == self.positions@[e as int],
    {
        self.positions[e]
    }

    /// Entity `e`'s viewshed, if it has one.
    pub fn viewshed(&self, e: usize) -> (r: Option<&Viewshed>)
        requires
            self.wf(),
            e < self.len(),
        ensures
            r is Some == self.viewsheds@[e as int] is Some,
            r is Some ==> *r->Some_0 == self.viewsheds@[e as int]->Some_0,
    {
        match &self.viewsheds[e] {
            Some(v) => Some(v),
            None => None,
        }
    }

    /// Whether entity `e` is the player.
    pub fn is_player(&self, e: usize) -> (r: bool)
        requires
            self.wf(),
            e < self.len(),
        ensures
            r == self.players@[e as int] is Some,
    {
        self.players[e].is_some()
    }

    /// Whether entity `e` is a monster.
    pub fn is_monster(&self, e: usize) -> (r: bool)
        requires
            self.wf(),
            e < self.len(),
        ensures
            r == self.monsters@[e as int] is Some,
    {
        self.monsters[e].is_some()
    }

    /// The copy of the player's position.
    pub fn player_position(&self) -> (r: PlayerPosition)
        ensures
            r == self.player_position,
    {
        self.player_position
    }

    /// The first entity that is the player and has a position and a viewshed.
    pub fn find_mover(&self) -> (r: Option<usize>)
        requires
            self.wf(),
        ensures
            match r {
                Some(e) => self.is_first_mover(e as int),
                None => forall|e: int| !#[trigger] self.is_mover(e),
            },
    {
        let n = self.positions.len();
        let mut e: usize = 0;
        while e < n
            invariant
                self.wf(),
                n == self.len(),
                e <= n,
                forall|f: int| 0 <= f < e ==> !#[trigger] self.is_mover(f),
            decreases n - e,
        {
            if self.players[e].is_some() && self.positions[e].is_some()
                && self.viewsheds[e].is_some() {
                return Some(e);
            }
            e = e + 1;
        }
        None
    }
}

/// The cell a move by `(dx, dy)` from `p` aims at: the sum, clamped onto the grid.
pub open spec fn move_target(m: MapModel, p: Position, dx: i32, dy: i32) -> (int, int) {
    m.clamped(p.x + dx, p.y + dy)
}

/// A move by `(dx, dy)` goes through: the first mover's target cell is floor.
pub open spec fn move_allowed(w: World, m: MapModel, dx: i32, dy: i32) -> bool {
    exists|e: int|
        #[trigger] w.is_first_mover(e) && {
            let t = move_target(m, w.positions@[e]->Some_0, dx, dy);
            m.tile(t.0, t.1) == Tile::Floor
        }
}

/// `b` is `a` with entity `e` moved to `(x, y)`: its position and the player-position
/// copy are `(x, y)` and its viewshed is marked for recomputation; nothing else changed.
pub open spec fn moved_to(a: World, b: World, e: int, x: int, y: int) -> bool {
    let v = a.viewsheds@[e]->Some_0;
    &&& b.positions@ == a.positions@.update(e, Some(Position { x: x as i32, y: y as i32 }))
    &&& b.viewsheds@ == a.viewsheds@.update(
        e,
        Some(Viewshed { tag: v.tag, visible_tiles: v.visible_tiles, range: v.range, dirty: true }),
    )
    &&& b.players@ == a.players@
    &&& b.monsters@ == a.monsters@
    &&& b.player_position == (PlayerPosition { x: x as i32, y: y as i32 })
}

/// `b` is what a move by `(dx, dy)` makes of `a`: the first mover stands on its target
/// when the move goes through, and otherwise nothing changes.
pub open spec fn move_outcome(a: World, b: World, m: MapModel, dx: i32, dy: i32) -> bool {
    if move_allowed(a, m, dx, dy) {
        forall|e: int|
            #[trigger] a.is_first_mover(e) ==> {
                let t = move_target(m, a.positions@[e]->Some_0, dx, dy);
                moved_to(a, b, e, t.0, t.1)
            }
    } else {
        b == a
    }
}

/// A move's target lies on the grid, whatever the start and the displacement.
pub proof fn lemma_move_target_on_grid(m: MapModel, p: Position, dx: i32, dy: i32)
    requires
        m.valid(),
    ensures
        m.in_bounds(move_target(m, p, dx, dy).0, move_target(m, p, dx, dy).1),
{
}

/// `v` saturated into the range of `i32`.
fn saturate(v: i64) -> (r: i32)
    ensures
        r == if v < i32::MIN {
            i32::MIN as int
        } else if v > i32::MAX {
            i32::MAX as int
        } else {
            v as int
        },
{
    if v < i32::MIN as i64 {
        i32::MIN
    } else if v > i32::MAX as i64 {
        i32::MAX
    } else {
        v as i32
    }
}

/// Moves the player by `(delta_x, delta_y)`, clamped onto the grid, when the target is
/// floor; says whether it moved.
pub fn try_move_player(delta_x: i32, delta_y: i32, world: &mut World, map: &GameMap) -> (r: bool)
    requires
        old(world).wf(),
        map.wf(),
    ensures
        final(world).wf(),
        r == move_allowed(*old(world), map@, delta_x, delta_y),
        move_outcome(*old(world), *final(world), map@, delta_x, delta_y),
{
    let e = match world.find_mover() {
        Some(e) => e,
        None => {
            return false;
        },
    };
    let pos = match world.positions[e] {
        Some(p) => p,
        None => {
            return false;
        },
    };
    let (x, y) = map.clamp(
        saturate(pos.x as i64 + delta_x as i64),
        saturate(pos.y as i64 + delta_y as i64),
    );
    proof {
        assert(move_target(map@, pos, delta_x, delta_y) == (x as int, y as int));
    }
    if map.at(x, y) == Tile::Floor {
        let ghost before = *world;
        world.positions[e] = Some(Position { x, y });
        world.player_position = PlayerPosition { x, y };
        match &mut world.viewsheds[e] {
            Some(v) => {
                v.dirty = true;
            },
            None => {},
        }
        proof {
            assert(world.viewsheds@ =~= before.viewsheds@.update(
                e as int,
                Some(
                    Viewshed {
                        tag: before.viewsheds@[e as int]->Some_0.tag,
                        visible_tiles: before.viewsheds@[e as int]->Some_0.visible_tiles,
                        range: before.viewsheds@[e as int]->Some_0.range,
                        dirty: true,
                    },
                ),
            ));
            assert forall|f: int| #[trigger] before.is_first_mover(f) implies f == e by {
                if f < e {
                    assert(!before.is_mover(f));
                } else if f > e {
                    assert(!before.is_mover(e as int));
                }
            }
            assert(move_allowed(before, map@, delta_x, delta_y));
        }
        true
    } else {
        proof {
            assert forall|f: int| #[trigger] world.is_first_mover(f) implies f == e by {
                if f < e {
                    assert(!world.is_mover(f));
                } else if f > e {
                    assert(!world.is_mover(e as int));
                }
            }
        }
        false
    }
}

} // verus!
