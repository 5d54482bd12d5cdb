//! The turn scheduler: one world step per running tick, then a wait for input.
use vstd::prelude::*;

use crate::map::{revealed_grows, GameMap};
use crate::monster_ai::MonsterAI;
use crate::visibility::{visibility_outcome, VisibilitySystem};
use crate::world::{move_outcome, try_move_player, RunState, State, World};

verus! {

/// A step on the grid asked for by the player.
#[derive(Clone, Copy, Debug, PartialEq, Eq, Structural)]
pub enum Direction {
    Left,
    Right,
    Up,
    Down,
}

impl Direction {
    pub open spec fn spec_delta(&self) -> (i32, i32) {
        match *self {
            Direction::Left => (-1i32, 0i32),
            Direction::Right => (1i32, 0i32),
            Direction::Up => (0i32, -1i32),
            Direction::Down => (0i32, 1i32),
        }
    }

    /// The displacement of one step in this direction; `y` grows downward.
    pub fn delta(&self) -> (r: (i32, i32))
        ensures
            r == self.spec_delta(),
    {
        match *self {
            Direction::Left => (-1, 0),
            Direction::Right => (1, 0),
            Direction::Up => (0, -1),
            Direction::Down => (0, 1),
        }
    }
}

/// Consumes one input: no direction leaves the turn waiting; a direction tries the move
/// and, whether or not it went through, lets the world run.
pub fn player_input(world: &mut World, map: &GameMap, key: Option<Direction>) -> (r: RunState)
    requires
        old(world).wf(),
        map.wf(),
    ensures
        final(world).wf(),
        match key {
            None => r == RunState::Paused && *final(world) == *old(world),
            Some(d) => r == RunState::Running && move_outcome(
                *old(world),
                *final(world),
                map@,
                d.spec_delta().0,
                d.spec_delta().1,
            ),
        },
{
    match key {
        None => RunState::Paused,
        Some(d) => {
            let (dx, dy) = d.delta();
            try_move_player(dx, dy, world, map);
            RunState::Running
        },
    }
}

/// One world step: the visibility pass, then the monsters' check; returns the monsters
/// that have the player in sight.
pub fn run_systems(world: &mut World, map: &mut GameMap, fov: &Vec<Vec<(i32, i32)>>) -> (r: Vec<
    usize,
>)
    requires
        old(world).wf(),
        old(map).wf(),
        fov@.len() == old(world).len(),
    ensures
        final(map).wf(),
        visibility_outcome(
            *old(world),
            *final(world),
            old(map)@,
            final(map)@,
            fov@.map_values(|v: Vec<(i32, i32)>| v@),
        ),
        forall|k: int| 0 <= k < r@.len() ==> final(world).sees_player(#[trigger] r@[k] as int),
        forall|i: int, j: int| 0 <= i < j < r@.len() ==> r@[i] < r@[j],
        forall|e: int| #[trigger] final(world).sees_player(e) ==> r@.contains(e as usize),
{
    let vis = VisibilitySystem {  };
    vis.run(world, map, fov);
    let mai = MonsterAI {  };
    mai.run(world)
}

/// One tick of the session. Running: the world steps once and the state turns to
/// paused. Paused: the input is consumed as `player_input` does. Returns the monsters
/// that saw the player, empty when the world did not step.
pub fn tick(
    state: &mut State,
    world: &mut World,
    map: &mut GameMap,
    key: Option<Direction>,
    fov: &Vec<Vec<(i32, i32)>>,
) -> (r: Vec<usize>)
    requires
        old(world).wf(),
        old(map).wf(),
        fov@.len() == old(world).len(),
    ensures
        final(world).wf(),
        final(map).wf(),
        revealed_grows(old(map)@, final(map)@),
        match old(state).run_state {
            RunState::Running => {
                &&& final(state).run_state == RunState::Paused
                &&& visibility_outcome(
                    *old(world),
                    *final(world),
                    old(map)@,
                    final(map)@,
                    fov@.map_values(|v: Vec<(i32, i32)>| v@),
                )
                &&& forall|k: int|
                    0 <= k < r@.len() ==> final(world).sees_player(#[trigger] r@[k] as int)
                &&& forall|i: int, j: int| 0 <= i < j < r@.len() ==> r@[i] < r@[j]
                &&& forall|e: int| #[trigger] final(world).sees_player(e) ==> r@.contains(e as usize)
            },
            RunState::Paused => {
                &&& r@.len() == 0
                &&& final(map)@ == old(map)@
                &&& match key {
                    None => final(state).run_state == RunState::Paused && *final(world)
                        == *old(world),
                    Some(d) => final(state).run_state == RunState::Running && move_outcome(
                        *old(world),
                        *final(world),
                        old(map)@,
                        d.spec_delta().0,
                        d.spec_delta().1,
                    ),
                }
            },
        },
{
    match state.run_state {
        RunState::Running => {
            let seen = run_systems(world, map, fov);
            state.run_state = RunState::Paused;
            seen
        },
        RunState::Paused => {
            state.run_state = player_input(world, map, key);
            Vec::new()
        },
    }
}

} // verus!
