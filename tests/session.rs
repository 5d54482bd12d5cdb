use dungeon_core::map::{ConfigurationError, GameMap, RenderCell, Tile};
use dungeon_core::monster_ai::{contains_point, MonsterAI};
use dungeon_core::turn::{player_input, run_systems, tick, Direction};
use dungeon_core::visibility::{clip, VisibilitySystem};
use dungeon_core::world::{try_move_player, Position, RunState, State, Viewshed, World};

struct Sight<'a>(&'a GameMap);

impl<'a> rltk::BaseMap for Sight<'a> {
    fn is_opaque(&self, idx: usize) -> bool {
        self.0.is_opaque(idx)
    }
}

impl<'a> rltk::Algorithm2D for Sight<'a> {
    fn dimensions(&self) -> rltk::Point {
        rltk::Point::new(self.0.width(), self.0.height())
    }
}

fn fov_for(world: &World, map: &GameMap) -> Vec<Vec<(i32, i32)>> {
    let mut out = Vec::new();
    for e in 0..world.entity_count() {
        let pts = match (world.position(e), world.viewshed(e)) {
            (Some(p), Some(v)) if v.dirty => {
                rltk::field_of_view(rltk::Point::new(p.x, p.y), v.range, &Sight(map))
                    .into_iter()
                    .map(|q| (q.x, q.y))
                    .collect()
            }
            _ => Vec::new(),
        };
        out.push(pts);
    }
    out
}

fn view(tag: &str, range: i32) -> Viewshed {
    Viewshed { tag: tag.to_string(), visible_tiles: Vec::new(), range, dirty: true }
}

/// One room whose floor spans x and y from 1 to 5 on a 20 by 20 grid.
fn one_room() -> GameMap {
    GameMap::from_corners(20, 20, &vec![(1, 1)])
}

#[test]
fn scenario_seeded_start_is_smallest_center() {
    let map = GameMap::new_seeded(120, 120, 7).unwrap();
    let centers = map.centers().clone();
    assert_eq!(centers.len(), 8);
    let smallest = *centers.iter().min().unwrap();
    assert_eq!(map.start_position(), smallest);
    let mut sorted = centers.clone();
    sorted.sort();
    assert_eq!(sorted, centers);
    for &(x, y) in centers.iter() {
        assert!(x >= 3 && x <= 116 && y >= 3 && y <= 116);
        assert_eq!(map.at(x, y), Tile::Floor);
    }
    assert!(centers.iter().any(|c| *c != centers[0]));
    let mut world = World::new();
    let (sx, sy) = map.start_position();
    let p = world.spawn_player(Position { x: sx, y: sy }, view("player", 8)).unwrap();
    assert_eq!(world.position(p), Some(Position { x: sx, y: sy }));
    assert_eq!(world.player_position().x, sx);
    assert_eq!(world.player_position().y, sy);
}

#[test]
fn seeded_generation_repeats() {
    let a = GameMap::new_seeded(60, 40, 99).unwrap();
    let b = GameMap::new_seeded(60, 40, 99).unwrap();
    assert_eq!(a.centers(), b.centers());
    assert_eq!(a.start_position(), b.start_position());
    for y in 0..40 {
        for x in 0..60 {
            assert_eq!(a.at(x, y), b.at(x, y));
        }
    }
}

#[test]
fn generated_border_is_wall() {
    let map = GameMap::new(30, 25).unwrap();
    for x in 0..30 {
        assert_eq!(map.at(x, 0), Tile::Wall);
        assert_eq!(map.at(x, 24), Tile::Wall);
    }
    for y in 0..25 {
        assert_eq!(map.at(0, y), Tile::Wall);
        assert_eq!(map.at(29, y), Tile::Wall);
    }
}

#[test]
fn too_small_map_is_a_configuration_error() {
    assert_eq!(
        GameMap::new_seeded(6, 120, 1).err(),
        Some(ConfigurationError { width: 6, height: 120 })
    );
    assert_eq!(
        GameMap::new(120, 0).err(),
        Some(ConfigurationError { width: 120, height: 0 })
    );
    assert!(GameMap::new_seeded(7, 7, 1).is_ok());
}

#[test]
fn rooms_and_corridor_from_corners() {
    let map = GameMap::from_corners(20, 20, &vec![(10, 10), (1, 1)]);
    assert_eq!(map.centers(), &vec![(3, 3), (12, 12)]);
    assert_eq!(map.start_position(), (3, 3));
    assert_eq!(map.at(1, 1), Tile::Floor);
    assert_eq!(map.at(14, 14), Tile::Floor);
    assert_eq!(map.at(8, 3), Tile::Floor);
    assert_eq!(map.at(12, 7), Tile::Floor);
    assert_eq!(map.at(8, 4), Tile::Wall);
    assert_eq!(map.at(0, 0), Tile::Wall);
    assert_eq!(map.at(15, 15), Tile::Wall);
}

#[test]
fn clamp_keeps_target_on_grid() {
    let map = one_room();
    assert_eq!(map.clamp(-4, 3), (0, 3));
    assert_eq!(map.clamp(25, -1), (19, 0));
    assert_eq!(map.clamp(i32::MIN, i32::MAX), (0, 19));
    assert_eq!(map.clamp(7, 8), (7, 8));
}

#[test]
fn scenario_move_into_wall_consumes_turn() {
    let mut map = one_room();
    let mut world = World::new();
    let p = world.spawn_player(Position { x: 1, y: 3 }, view("player", 8)).unwrap();
    world.viewsheds[p].as_mut().unwrap().dirty = false;
    let mut state = State { run_state: RunState::Paused };
    let fov = fov_for(&world, &map);
    let seen = tick(&mut state, &mut world, &mut map, Some(Direction::Left), &fov);
    assert!(seen.is_empty());
    assert_eq!(state.run_state, RunState::Running);
    assert_eq!(world.position(p), Some(Position { x: 1, y: 3 }));
    assert!(!world.viewshed(p).unwrap().dirty);
}

#[test]
fn no_input_keeps_paused() {
    let map = one_room();
    let mut world = World::new();
    world.spawn_player(Position { x: 2, y: 2 }, view("player", 8)).unwrap();
    assert_eq!(player_input(&mut world, &map, None), RunState::Paused);
    assert_eq!(world.position(0), Some(Position { x: 2, y: 2 }));
}

#[test]
fn move_onto_floor_updates_everything() {
    let map = one_room();
    let mut world = World::new();
    let p = world.spawn_player(Position { x: 2, y: 2 }, view("player", 8)).unwrap();
    world.viewsheds[p].as_mut().unwrap().dirty = false;
    assert!(try_move_player(1, 0, &mut world, &map));
    assert_eq!(world.position(p), Some(Position { x: 3, y: 2 }));
    assert_eq!((world.player_position().x, world.player_position().y), (3, 2));
    assert!(world.viewshed(p).unwrap().dirty);
    assert_eq!(player_input(&mut world, &map, Some(Direction::Down)), RunState::Running);
    assert_eq!(world.position(p), Some(Position { x: 3, y: 3 }));
}

#[test]
fn huge_displacement_is_clamped() {
    let map = one_room();
    let mut world = World::new();
    let p = world.spawn_player(Position { x: 2, y: 2 }, view("player", 8)).unwrap();
    assert!(!try_move_player(i32::MAX, 0, &mut world, &map));
    assert_eq!(world.position(p), Some(Position { x: 2, y: 2 }));
    assert!(try_move_player(0, i32::MIN, &mut world, &map) == false);
}

#[test]
fn no_player_means_no_move() {
    let map = one_room();
    let mut world = World::new();
    world.spawn_monster(Position { x: 2, y: 2 }, view("mob", 8));
    assert!(!try_move_player(1, 0, &mut world, &map));
    assert_eq!(world.position(0), Some(Position { x: 2, y: 2 }));
}

#[test]
fn scenario_monster_sees_player_three_cells_away() {
    let mut map = one_room();
    let mut world = World::new();
    let m = world.spawn_monster(Position { x: 1, y: 3 }, view("mob-0", 8));
    world.spawn_player(Position { x: 4, y: 3 }, view("player", 8)).unwrap();
    let fov = fov_for(&world, &map);
    let seen = run_systems(&mut world, &mut map, &fov);
    assert_eq!(seen, vec![m]);
    assert!(!world.viewshed(m).unwrap().dirty);
}

#[test]
fn distant_monster_does_not_see() {
    let mut map = GameMap::from_corners(30, 20, &vec![(1, 1), (20, 10)]);
    let mut world = World::new();
    world.spawn_monster(Position { x: 22, y: 12 }, view("mob-0", 3));
    world.spawn_player(Position { x: 3, y: 3 }, view("player", 8)).unwrap();
    let fov = fov_for(&world, &map);
    let seen = run_systems(&mut world, &mut map, &fov);
    assert!(seen.is_empty());
}

#[test]
fn player_view_replaces_visible_and_keeps_revealed() {
    let mut map = one_room();
    let mut world = World::new();
    let p = world.spawn_player(Position { x: 2, y: 2 }, view("player", 8)).unwrap();
    VisibilitySystem {}.run(&mut world, &mut map, &vec![vec![(2, 2), (3, 2), (-1, 2), (40, 3)]]);
    assert_eq!(world.viewshed(p).unwrap().visible_tiles, vec![(2, 2), (3, 2)]);
    assert!(map.is_visible(&Position { x: 3, y: 2 }));
    assert!(map.is_revealed(3, 2));
    world.viewsheds[p].as_mut().unwrap().dirty = true;
    VisibilitySystem {}.run(&mut world, &mut map, &vec![vec![(5, 5)]]);
    assert!(!map.is_visible(&Position { x: 3, y: 2 }));
    assert!(map.is_revealed(3, 2));
    assert!(map.is_visible(&Position { x: 5, y: 5 }));
    assert!(map.is_revealed(5, 5));
    VisibilitySystem {}.run(&mut world, &mut map, &vec![vec![(9, 9)]]);
    assert!(!map.is_visible(&Position { x: 9, y: 9 }));
    assert_eq!(world.viewshed(p).unwrap().visible_tiles, vec![(5, 5)]);
}

#[test]
fn monster_view_leaves_fog_alone() {
    let mut map = one_room();
    let mut world = World::new();
    let m = world.spawn_monster(Position { x: 2, y: 2 }, view("mob-0", 8));
    VisibilitySystem {}.run(&mut world, &mut map, &vec![vec![(2, 2), (3, 3)]]);
    assert_eq!(world.viewshed(m).unwrap().visible_tiles, vec![(2, 2), (3, 3)]);
    assert!(!map.is_revealed(2, 2));
    assert!(!map.is_visible(&Position { x: 3, y: 3 }));
}

#[test]
fn running_tick_pauses_after_one_step() {
    let mut map = one_room();
    let mut world = World::new();
    world.spawn_player(Position { x: 2, y: 2 }, view("player", 8)).unwrap();
    let mut state = State { run_state: RunState::Running };
    let fov = fov_for(&world, &map);
    tick(&mut state, &mut world, &mut map, None, &fov);
    assert_eq!(state.run_state, RunState::Paused);
    assert!(map.is_visible(&Position { x: 2, y: 2 }));
    assert!(map.is_revealed(5, 5));
}

#[test]
fn render_cells_lists_revealed_cells() {
    let mut map = one_room();
    let mut world = World::new();
    world.spawn_player(Position { x: 2, y: 2 }, view("player", 8)).unwrap();
    VisibilitySystem {}.run(&mut world, &mut map, &vec![vec![(0, 0), (2, 1)]]);
    world.viewsheds[0].as_mut().unwrap().dirty = true;
    VisibilitySystem {}.run(&mut world, &mut map, &vec![vec![(2, 1)]]);
    assert_eq!(
        map.render_cells(),
        vec![
            RenderCell { x: 0, y: 0, glyph: '#', visible: false },
            RenderCell { x: 2, y: 1, glyph: '.', visible: true },
        ]
    );
}

#[test]
fn clip_drops_off_grid_points() {
    let pts = vec![(0, 0), (-1, 0), (4, 2), (5, 2), (4, 3), (2, -7)];
    assert_eq!(clip(&pts, 5, 3), vec![(0, 0), (4, 2)]);
    assert!(contains_point(&pts, (5, 2)));
    assert!(!contains_point(&pts, (5, 5)));
}

#[test]
fn store_attaches_and_detaches_components() {
    let mut world = World::new();
    let a = world.create_entity();
    let b = world.create_entity();
    assert_eq!((a, b), (0, 1));
    assert_eq!(world.entity_count(), 2);
    world.set_position(b, Position { x: 4, y: 5 });
    assert_eq!(world.position(b), Some(Position { x: 4, y: 5 }));
    assert_eq!(world.position(a), None);
    assert!(world.set_player(a));
    assert!(!world.set_player(b));
    assert!(world.is_player(a));
    assert!(!world.is_player(b));
    world.remove_player(a);
    assert!(world.set_player(b));
    world.set_monster(a);
    assert!(world.is_monster(a));
    world.remove_monster(a);
    assert!(!world.is_monster(a));
    world.set_viewshed(a, view("x", 2));
    assert_eq!(world.viewshed(a).unwrap().range, 2);
    world.remove_viewshed(a);
    assert!(world.viewshed(a).is_none());
    world.remove_position(b);
    assert_eq!(world.position(b), None);
    assert!(world.spawn_player(Position { x: 0, y: 0 }, view("p", 1)).is_none());
    assert_eq!(world.entity_count(), 2);
}

#[test]
fn monster_ai_lists_watchers_in_order() {
    let mut world = World::new();
    let m0 = world.spawn_monster(Position { x: 1, y: 1 }, view("mob-0", 8));
    let m1 = world.spawn_monster(Position { x: 2, y: 2 }, view("mob-1", 8));
    let m2 = world.spawn_monster(Position { x: 3, y: 3 }, view("mob-2", 8));
    world.spawn_player(Position { x: 4, y: 4 }, view("player", 8)).unwrap();
    world.viewsheds[m0].as_mut().unwrap().visible_tiles = vec![(4, 4)];
    world.viewsheds[m1].as_mut().unwrap().visible_tiles = vec![(4, 5)];
    world.viewsheds[m2].as_mut().unwrap().visible_tiles = vec![(1, 1), (4, 4)];
    assert_eq!(MonsterAI {}.run(&world), vec![m0, m2]);
}

#[test]
fn directions_step_one_cell() {
    assert_eq!(Direction::Left.delta(), (-1, 0));
    assert_eq!(Direction::Right.delta(), (1, 0));
    assert_eq!(Direction::Up.delta(), (0, -1));
    assert_eq!(Direction::Down.delta(), (0, 1));
    assert_eq!(Tile::Empty.glyph(), ' ');
    assert_eq!(GameMap::from_corners(9, 8, &vec![(1, 1)]).dimensions(), (9, 8));
}
