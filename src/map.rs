//! The tile grid, its fog-of-war bitsets and the room-and-corridor generator.
use vstd::prelude::*;

use vstd::relations::{sorted_by, total_ordering};
use vstd::seq_lib::lemma_sorted_unique;

use crate::clamper::{clamp_int, Clamper};
use crate::rect::Rect;
use crate::world::{Position, Viewshed};

verus! {

/// One cell of the grid.
#[derive(Clone, Copy, Debug, PartialEq, Eq, Structural)]
pub enum Tile {
    Empty,
    Floor,
    Wall,
}

/// The character a tile is drawn with.
pub open spec fn glyph_of(t: Tile) -> char {
    match t {
        Tile::Empty => ' ',
        Tile::Floor => '.',
        Tile::Wall => '#',
    }
}

impl Tile {
    /// The character the tile is drawn with.
    pub fn glyph(&self) -> (r: char)
        ensures
            r == glyph_of(*self),
    {
        match *self {
            Tile::Empty => ' ',
            Tile::Floor => '.',
            Tile::Wall => '#',
        }
    }
}

/// A cell to draw: where, with which character, and whether it is in sight now or only
/// remembered.
#[derive(Clone, Copy, Debug, PartialEq, Eq, Structural)]
pub struct RenderCell {
    pub x: i32,
    pub y: i32,
    pub glyph: char,
    pub visible: bool,
}

/// The cells to draw among the first `n` of the grid: the revealed ones, in index order.
pub open spec fn render_prefix(m: MapModel, n: int) -> Seq<RenderCell>
    decreases n,
{
    if n <= 0 {
        Seq::empty()
    } else {
        let rest = render_prefix(m, n - 1);
        let i = n - 1;
        if m.revealed[i] {
            rest.push(
                RenderCell {
                    x: (i % (m.width as int)) as i32,
                    y: (i / (m.width as int)) as i32,
                    glyph: glyph_of(m.tiles[i]),
                    visible: m.visible[i],
                },
            )
        } else {
            rest
        }
    }
}

/// Row-major index of the cell `(x, y)` in a grid `w` cells wide.
pub open spec fn cell(w: int, x: int, y: int) -> int {
    y * w + x
}

pub proof fn lemma_cell_bounds(w: int, h: int, x: int, y: int)
    requires
        0 <= x < w,
        0 <= y < h,
    ensures
        0 <= cell(w, x, y) < w * h,
{
    assert(0 <= y * w) by (nonlinear_arith)
        requires
            0 <= y,
            0 < w,
    ;
    assert(y * w + x < w * h) by (nonlinear_arith)
        requires
            0 <= x < w,
            0 <= y < h,
    ;
}

pub proof fn lemma_cell_injective(w: int, x1: int, y1: int, x2: int, y2: int)
    requires
        0 <= x1 < w,
        0 <= x2 < w,
        0 <= y1,
        0 <= y2,
        cell(w, x1, y1) == cell(w, x2, y2),
    ensures
        x1 == x2,
        y1 == y2,
{
    if y1 < y2 {
        assert(y1 * w + w <= y2 * w) by (nonlinear_arith)
            requires
                y1 < y2,
                0 < w,
        ;
    } else if y2 < y1 {
        assert(y2 * w + w <= y1 * w) by (nonlinear_arith)
            requires
                y2 < y1,
                0 < w,
        ;
    }
}

/// What a map holds, as mathematical values.
pub struct MapModel {
    pub tiles: Seq<Tile>,
    pub width: i32,
    pub height: i32,
    pub start_position: (i32, i32),
    pub revealed: Seq<bool>,
    pub visible: Seq<bool>,
    pub centers: Seq<(i32, i32)>,
}

impl MapModel {
    pub open spec fn valid(&self) -> bool {
        &&& 1 <= self.width
        &&& 1 <= self.height
        &&& self.width * self.height <= i32::MAX
        &&& self.tiles.len() == self.width * self.height
        &&& self.revealed.len() == self.tiles.len()
        &&& self.visible.len() == self.tiles.len()
    }

    pub open spec fn in_bounds(&self, x: int, y: int) -> bool {
        0 <= x < self.width && 0 <= y < self.height
    }

    pub open spec fn idx(&self, x: int, y: int) -> int {
        cell(self.width as int, x, y)
    }

    pub open spec fn tile(&self, x: int, y: int) -> Tile {
        self.tiles[self.idx(x, y)]
    }

    /// `(x, y)` brought onto the grid, each axis on its own.
    pub open spec fn clamped(&self, x: int, y: int) -> (int, int) {
        (clamp_int(x, 0, self.width - 1), clamp_int(y, 0, self.height - 1))
    }
}

/// Every cell revealed in `a` is still revealed in `b`.
pub open spec fn revealed_grows(a: MapModel, b: MapModel) -> bool {
    &&& a.revealed.len() == b.revealed.len()
    &&& forall|i: int| 0 <= i < a.revealed.len() && #[trigger] a.revealed[i] ==> b.revealed[i]
}

/// Revealed cells stay revealed over any run of steps that each keep them: from step `i`
/// to any later step `j`.
pub proof fn lemma_revealed_persists(states: Seq<MapModel>, i: int, j: int)
    requires
        0 <= i <= j < states.len(),
        forall|k: int| 0 <= k && k + 1 < states.len() ==> revealed_grows(#[trigger] states[k], states[k + 1]),
    ensures
        revealed_grows(states[i], states[j]),
    decreases j - i,
{
    if i < j {
        lemma_revealed_persists(states, i, j - 1);
        assert(revealed_grows(states[j - 1], states[j]));
    }
}

/// The same grid, rooms and dimensions: only the fog-of-war bitsets may differ.
pub open spec fn same_layout(a: MapModel, b: MapModel) -> bool {
    &&& a.tiles == b.tiles
    &&& a.width == b.width
    &&& a.height == b.height
    &&& a.start_position == b.start_position
    &&& a.centers == b.centers
}

/// The bitsets of `b` are those of `a` after the points `pts` were folded in as the
/// player's view: visible exactly at `pts`, revealed where it was or where visible.
pub open spec fn folded_view(a: MapModel, b: MapModel, pts: Seq<(i32, i32)>) -> bool {
    &&& same_layout(a, b)
    &&& b.valid()
    &&& revealed_grows(a, b)
    &&& forall|x: int, y: int|
        #![trigger b.idx(x, y)]
        b.in_bounds(x, y) ==> {
            &&& b.visible[b.idx(x, y)] == pts.contains((x as i32, y as i32))
            &&& b.revealed[b.idx(x, y)] == (a.revealed[a.idx(x, y)] || b.visible[b.idx(x, y)])
        }
}


/// Side of a generated room, border walls included.
pub const ROOM_SIZE: i32 = 5;

/// Number of rooms a generated map holds.
pub const ROOM_COUNT: usize = 8;

/// Why a map could not be generated: the grid cannot hold a room inside its border.
#[derive(Clone, Copy, Debug, PartialEq, Eq, Structural)]
pub struct ConfigurationError {
    pub width: i32,
    pub height: i32,
}

/// A room fits on a grid of these dimensions, strictly inside the border walls.
pub open spec fn room_fits(width: int, height: int) -> bool {
    width >= ROOM_SIZE + 2 && height >= ROOM_SIZE + 2
}

/// Lexicographic order on pairs.
pub open spec fn lex_le(a: (i32, i32), b: (i32, i32)) -> bool {
    a.0 < b.0 || (a.0 == b.0 && a.1 <= b.1)
}

pub open spec fn lex_order() -> spec_fn((i32, i32), (i32, i32)) -> bool {
    |a: (i32, i32), b: (i32, i32)| lex_le(a, b)
}

pub proof fn lemma_lex_total()
    ensures
        total_ordering(lex_order()),
{
}

/// A room with top-left corner `c` lies strictly inside the border of the grid.
pub open spec fn corner_fits(c: (i32, i32), width: int, height: int) -> bool {
    1 <= c.0 <= width - ROOM_SIZE - 1 && 1 <= c.1 <= height - ROOM_SIZE - 1
}

pub open spec fn corners_fit(corners: Seq<(i32, i32)>, width: int, height: int) -> bool {
    forall|k: int| 0 <= k < corners.len() ==> corner_fits(#[trigger] corners[k], width, height)
}

/// A room center of a room that fits on the grid lies at least three cells from the edge.
pub open spec fn center_fits(c: (i32, i32), width: int, height: int) -> bool {
    3 <= c.0 <= width - 4 && 3 <= c.1 <= height - 4
}

/// The cell `(x, y)` is one of the room's with top-left corner `c`.
pub open spec fn in_room(c: (i32, i32), x: int, y: int) -> bool {
    c.0 <= x <= c.0 + ROOM_SIZE - 1 && c.1 <= y <= c.1 + ROOM_SIZE - 1
}

pub open spec fn in_rooms(corners: Seq<(i32, i32)>, x: int, y: int) -> bool {
    exists|k: int| 0 <= k < corners.len() && #[trigger] in_room(corners[k], x, y)
}

pub open spec fn room_center(c: (i32, i32)) -> (i32, i32) {
    ((c.0 + 2) as i32, (c.1 + 2) as i32)
}

pub open spec fn room_centers(corners: Seq<(i32, i32)>) -> Seq<(i32, i32)> {
    corners.map_values(|c: (i32, i32)| room_center(c))
}

/// The cell `(x, y)` lies on the corridor from center `a` to center `b`: along `a`'s row
/// from `a`'s column to `b`'s, then along `b`'s column between the two rows.
pub open spec fn on_corridor(a: (i32, i32), b: (i32, i32), x: int, y: int) -> bool {
    ||| (y == a.1 && a.0 <= x <= b.0)
    ||| (x == b.0 && (a.1 <= y <= b.1 || b.1 <= y <= a.1))
}

/// The cell lies on a corridor between two consecutive centers.
pub open spec fn on_corridors(centers: Seq<(i32, i32)>, x: int, y: int) -> bool {
    exists|j: int|
        0 <= j && j + 1 < centers.len() && #[trigger] on_corridor(centers[j], centers[j + 1], x, y)
}

/// Floor in a map with these rooms and these ordered centers; all else is wall.
pub open spec fn planned_floor(
    corners: Seq<(i32, i32)>,
    centers: Seq<(i32, i32)>,
    x: int,
    y: int,
) -> bool {
    in_rooms(corners, x, y) || on_corridors(centers, x, y)
}

/// `m` is the map generated on a `width` by `height` grid with rooms at `corners`.
pub open spec fn generated_from(
    m: MapModel,
    width: i32,
    height: i32,
    corners: Seq<(i32, i32)>,
) -> bool {
    &&& m.valid()
    &&& m.width == width
    &&& m.height == height
    &&& m.centers.len() == corners.len()
    &&& sorted_by(m.centers, lex_order())
    &&& m.centers.to_multiset() == room_centers(corners).to_multiset()
    &&& m.start_position == m.centers[0]
    &&& forall|x: int, y: int|
        #![trigger m.idx(x, y)]
        m.in_bounds(x, y) ==> m.tiles[m.idx(x, y)] == if planned_floor(
            corners,
            m.centers,
            x,
            y,
        ) {
            Tile::Floor
        } else {
            Tile::Wall
        }
    &&& forall|i: int| 0 <= i < m.tiles.len() ==> !#[trigger] m.revealed[i] && !m.visible[i]
}

/// Generation is a function of the rooms: two maps generated on the same grid with the
/// same rooms are the same map, sorted centers and start included.
pub proof fn lemma_generation_deterministic(
    a: MapModel,
    b: MapModel,
    width: i32,
    height: i32,
    corners: Seq<(i32, i32)>,
)
    requires
        generated_from(a, width, height, corners),
        generated_from(b, width, height, corners),
    ensures
        a.centers == b.centers,
        a.start_position == b.start_position,
        a == b,
{
    lemma_lex_total();
    lemma_sorted_unique(a.centers, b.centers, lex_order());
    let w = width as int;
    assert forall|i: int| 0 <= i < a.tiles.len() implies a.tiles[i] == b.tiles[i] by {
        vstd::arithmetic::div_mod::lemma_fundamental_div_mod(i, w);
        let x = i % w;
        let y = i / w;
        assert(0 <= y < height) by (nonlinear_arith)
            requires
                i == w * y + x,
                0 <= x < w,
                0 <= i < w * height,
                w > 0,
        ;
        assert(a.idx(x, y) == i && b.idx(x, y) == i);
    }
    assert(a.tiles =~= b.tiles);
    assert(a.revealed =~= b.revealed);
    assert forall|i: int| 0 <= i < a.visible.len() implies a.visible[i] == b.visible[i] by {
        assert(!a.revealed[i] && !b.revealed[i]);
    }
    assert(a.visible =~= b.visible);
}

/// A grid described cell by cell by `floor` stays so described in a model with the
/// same tiles and dimensions.
proof fn lemma_same_tiles(a: MapModel, b: MapModel, floor: spec_fn(int, int) -> bool)
    requires
        a.tiles == b.tiles,
        a.width == b.width,
        a.height == b.height,
        forall|x: int, y: int|
            #![trigger a.idx(x, y)]
            a.in_bounds(x, y) ==> a.tiles[a.idx(x, y)] == if floor(x, y) {
                Tile::Floor
            } else {
                Tile::Wall
            },
    ensures
        forall|x: int, y: int|
            #![trigger b.idx(x, y)]
            b.in_bounds(x, y) ==> b.tiles[b.idx(x, y)] == if floor(x, y) {
                Tile::Floor
            } else {
                Tile::Wall
            },
{
    assert forall|x: int, y: int|
        #![trigger b.idx(x, y)]
        b.in_bounds(x, y) implies b.tiles[b.idx(x, y)] == if floor(x, y) {
            Tile::Floor
        } else {
            Tile::Wall
        } by {
        assert(a.idx(x, y) == b.idx(x, y));
    }
}

/// Relies on slice::sort: orders the pairs ascending, lexicographically, keeping each one.
#[verifier::external_body]
fn sort_pairs(v: &mut Vec<(i32, i32)>)
    ensures
        sorted_by(final(v)@, lex_order()),
        final(v)@.to_multiset() == old(v)@.to_multiset(),
{
    v.sort();
}

#[verifier::external_type_specification]
#[verifier::external_body]
pub struct ExRandomNumberGenerator(rltk::RandomNumberGenerator);

/// Relies on RandomNumberGenerator::new: a generator seeded from the system's entropy
/// source, or from the clock where that fails.
#[verifier::external_body]
fn fresh_rng() -> rltk::RandomNumberGenerator {
    rltk::RandomNumberGenerator::new()
}

/// Relies on RandomNumberGenerator::seeded: a generator whose stream the seed fixes.
#[verifier::external_body]
fn seeded_rng(seed: u64) -> rltk::RandomNumberGenerator {
    rltk::RandomNumberGenerator::seeded(seed)
}

/// Relies on RandomNumberGenerator::roll_dice with one die: a value from 1 to `faces`.
#[verifier::external_body]
fn roll_die(rng: &mut rltk::RandomNumberGenerator, faces: i32) -> (r: i32)
    requires
        1 <= faces < i32::MAX,
    ensures
        1 <= r <= faces,
{
    rng.roll_dice(1, faces)
}

/// The tile grid with its dimensions, fog-of-war bitsets and room centers.
pub struct GameMap {
    tiles: Vec<Tile>,
    width: i32,
    height: i32,
    start_position: (i32, i32),
    vcw: Clamper<i32>,
    vch: Clamper<i32>,
    revealed_tiles: Vec<bool>,
    visible_tiles: Vec<bool>,
    centers: Vec<(i32, i32)>,
}

impl View for GameMap {
    type V = MapModel;

    closed spec fn view(&self) -> MapModel {
        MapModel {
            tiles: self.tiles@,
            width: self.width,
            height: self.height,
            start_position: self.start_position,
            revealed: self.revealed_tiles@,
            visible: self.visible_tiles@,
            centers: self.centers@,
        }
    }
}

impl GameMap {
    pub closed spec fn inv(&self) -> bool {
        &&& self.vcw.0 == 0
        &&& self.vcw.1 == self.width - 1
        &&& self.vch.0 == 0
        &&& self.vch.1 == self.height - 1
    }

    /// The map is consistent with itself.
    pub open spec fn wf(&self) -> bool {
        self.inv() && self@.valid()
    }

    fn xy_index(&self, x: i32, y: i32) -> (r: usize)
        requires
            self.wf(),
            self@.in_bounds(x as int, y as int),
        ensures
            r == self@.idx(x as int, y as int),
            r < self@.tiles.len(),
    {
        proof {
            lemma_cell_bounds(self.width as int, self.height as int, x as int, y as int);
        }
        (y * self.width + x) as usize
    }

    /// Turns the cell `(x, y)` into floor and leaves every other cell as it was.
    fn carve(&mut self, x: i32, y: i32)
        requires
            old(self).wf(),
            old(self)@.in_bounds(x as int, y as int),
        ensures
            final(self).wf(),
            final(self)@.width == old(self)@.width,
            final(self)@.height == old(self)@.height,
            final(self)@.revealed == old(self)@.revealed,
            final(self)@.visible == old(self)@.visible,
            final(self)@.centers == old(self)@.centers,
            final(self)@.start_position == old(self)@.start_position,
            forall|a: int, b: int|
                #![trigger final(self)@.idx(a, b)]
                final(self)@.in_bounds(a, b) ==> final(self)@.tiles[final(self)@.idx(a, b)] == if a
                    == x && b == y {
                    Tile::Floor
                } else {
                    old(self)@.tiles[old(self)@.idx(a, b)]
                },
    {
        let i = self.xy_index(x, y);
        self.tiles[i] = Tile::Floor;
        proof {
            assert forall|a: int, b: int|
                #![trigger self@.idx(a, b)]
                self@.in_bounds(a, b) implies self@.tiles[self@.idx(a, b)] == if a == x && b == y {
                    Tile::Floor
                } else {
                    old(self)@.tiles[old(self)@.idx(a, b)]
                } by {
                lemma_cell_bounds(self.width as int, self.height as int, a, b);
                if self@.idx(a, b) == i {
                    lemma_cell_injective(self.width as int, a, b, x as int, y as int);
                }
            }
        }
    }

    /// Carves the room with top-left corner `c`.
    fn carve_room(&mut self, rect: &Rect<i32>, c: (i32, i32), Ghost(prior): Ghost<Seq<(i32, i32)>>)
        requires
            old(self).wf(),
            corner_fits(c, old(self)@.width as int, old(self)@.height as int),
            rect.x1 == c.0,
            rect.y1 == c.1,
            rect.x2 == c.0 + ROOM_SIZE - 1,
            rect.y2 == c.1 + ROOM_SIZE - 1,
            forall|a: int, b: int|
                #![trigger old(self)@.idx(a, b)]
                old(self)@.in_bounds(a, b) ==> old(self)@.tiles[old(self)@.idx(a, b)] == if in_rooms(
                    prior,
                    a,
                    b,
                ) {
                    Tile::Floor
                } else {
                    Tile::Wall
                },
        ensures
            final(self).wf(),
            final(self)@.width == old(self)@.width,
            final(self)@.height == old(self)@.height,
            final(self)@.revealed == old(self)@.revealed,
            final(self)@.visible == old(self)@.visible,
            final(self)@.centers == old(self)@.centers,
            final(self)@.start_position == old(self)@.start_position,
            forall|a: int, b: int|
                #![trigger final(self)@.idx(a, b)]
                final(self)@.in_bounds(a, b) ==> final(self)@.tiles[final(self)@.idx(a, b)] == if in_rooms(
                    prior.push(c),
                    a,
                    b,
                ) {
                    Tile::Floor
                } else {
                    Tile::Wall
                },
    {
        let ghost pc = prior.push(c);
        let mut y = rect.y1;
        while y <= rect.y2
            invariant
                self.wf(),
                self@.width == old(self)@.width,
                self@.height == old(self)@.height,
                self@.revealed == old(self)@.revealed,
                self@.visible == old(self)@.visible,
                self@.centers == old(self)@.centers,
                self@.start_position == old(self)@.start_position,
                rect.x1 == c.0,
                rect.y1 == c.1,
                rect.x2 == c.0 + ROOM_SIZE - 1,
                rect.y2 == c.1 + ROOM_SIZE - 1,
                corner_fits(c, self@.width as int, self@.height as int),
                c.1 <= y <= rect.y2 + 1,
                forall|a: int, b: int|
                    #![trigger self@.idx(a, b)]
                    self@.in_bounds(a, b) ==> self@.tiles[self@.idx(a, b)] == if in_rooms(prior, a, b)
                        || (in_room(c, a, b) && b < y) {
                        Tile::Floor
                    } else {
                        Tile::Wall
                    },
            decreases rect.y2 + 1 - y,
        {
            let mut x = rect.x1;
            while x <= rect.x2
                invariant
                    self.wf(),
                    self@.width == old(self)@.width,
                    self@.height == old(self)@.height,
                    self@.revealed == old(self)@.revealed,
                    self@.visible == old(self)@.visible,
                    self@.centers == old(self)@.centers,
                    self@.start_position == old(self)@.start_position,
                    rect.x1 == c.0,
                    rect.y1 == c.1,
                    rect.x2 == c.0 + ROOM_SIZE - 1,
                    rect.y2 == c.1 + ROOM_SIZE - 1,
                    corner_fits(c, self@.width as int, self@.height as int),
                    c.1 <= y <= rect.y2,
                    c.0 <= x <= rect.x2 + 1,
                    forall|a: int, b: int|
                        #![trigger self@.idx(a, b)]
                        self@.in_bounds(a, b) ==> self@.tiles[self@.idx(a, b)] == if in_rooms(
                            prior,
                            a,
                            b,
                        ) || (in_room(c, a, b) && (b < y || (b == y && a < x))) {
                            Tile::Floor
                        } else {
                            Tile::Wall
                        },
                decreases rect.x2 + 1 - x,
            {
                self.carve(x, y);
                x = x + 1;
            }
            y = y + 1;
        }
        proof {
            assert forall|a: int, b: int|
                #![trigger self@.idx(a, b)]
                self@.in_bounds(a, b) implies self@.tiles[self@.idx(a, b)] == if in_rooms(pc, a, b) {
                    Tile::Floor
                } else {
                    Tile::Wall
                } by {
                if in_rooms(prior, a, b) {
                    let k = choose|k: int| 0 <= k < prior.len() && #[trigger] in_room(prior[k], a, b);
                    assert(pc[k] == prior[k]);
                }
                if in_room(c, a, b) {
                    assert(pc[prior.len() as int] == c);
                }
                if in_rooms(pc, a, b) {
                    let k = choose|k: int| 0 <= k < pc.len() && #[trigger] in_room(pc[k], a, b);
                    if k < prior.len() {
                        assert(pc[k] == prior[k]);
                    }
                }
            }
        }
    }

    /// Carves the corridor from center `ca` to center `cb`.
    fn carve_corridor(
        &mut self,
        ca: (i32, i32),
        cb: (i32, i32),
        Ghost(before): Ghost<spec_fn(int, int) -> bool>,
    )
        requires
            old(self).wf(),
            old(self)@.in_bounds(ca.0 as int, ca.1 as int),
            old(self)@.in_bounds(cb.0 as int, cb.1 as int),
            forall|a: int, b: int|
                #![trigger old(self)@.idx(a, b)]
                old(self)@.in_bounds(a, b) ==> old(self)@.tiles[old(self)@.idx(a, b)] == if before(
                    a,
                    b,
                ) {
                    Tile::Floor
                } else {
                    Tile::Wall
                },
        ensures
            final(self).wf(),
            final(self)@.width == old(self)@.width,
            final(self)@.height == old(self)@.height,
            final(self)@.revealed == old(self)@.revealed,
            final(self)@.visible == old(self)@.visible,
            final(self)@.centers == old(self)@.centers,
            final(self)@.start_position == old(self)@.start_position,
            forall|a: int, b: int|
                #![trigger final(self)@.idx(a, b)]
                final(self)@.in_bounds(a, b) ==> final(self)@.tiles[final(self)@.idx(a, b)] == if before(
                    a,
                    b,
                ) || on_corridor(ca, cb, a, b) {
                    Tile::Floor
                } else {
                    Tile::Wall
                },
    {
        let (ax, ay) = ca;
        let (bx, by) = cb;
        let mut x = ax;
        while x <= bx
            invariant
                self.wf(),
                self@.width == old(self)@.width,
                self@.height == old(self)@.height,
                self@.revealed == old(self)@.revealed,
                self@.visible == old(self)@.visible,
                self@.centers == old(self)@.centers,
                self@.start_position == old(self)@.start_position,
                self@.in_bounds(ax as int, ay as int),
                self@.in_bounds(bx as int, by as int),
                ax <= x,
                x <= bx + 1 || x == ax,
                forall|a: int, b: int|
                    #![trigger self@.idx(a, b)]
                    self@.in_bounds(a, b) ==> self@.tiles[self@.idx(a, b)] == if before(a, b) || (b
                        == ay && ax <= a < x) {
                        Tile::Floor
                    } else {
                        Tile::Wall
                    },
            decreases bx + 1 - x,
        {
            self.carve(x, ay);
            x = x + 1;
        }
        let (lo, hi) = if by < ay {
            (by, ay)
        } else {
            (ay, by)
        };
        let mut y = lo;
        while y <= hi
            invariant
                self.wf(),
                self@.width == old(self)@.width,
                self@.height == old(self)@.height,
                self@.revealed == old(self)@.revealed,
                self@.visible == old(self)@.visible,
                self@.centers == old(self)@.centers,
                self@.start_position == old(self)@.start_position,
                self@.in_bounds(bx as int, lo as int),
                self@.in_bounds(bx as int, hi as int),
                lo == if by < ay { by } else { ay },
                hi == if by < ay { ay } else { by },
                lo <= y <= hi + 1,
                forall|a: int, b: int|
                    #![trigger self@.idx(a, b)]
                    self@.in_bounds(a, b) ==> self@.tiles[self@.idx(a, b)] == if before(a, b) || (b
                        == ay && ax <= a <= bx) || (a == bx && lo <= b < y) {
                        Tile::Floor
                    } else {
                        Tile::Wall
                    },
            decreases hi + 1 - y,
        {
            self.carve(bx, y);
            y = y + 1;
        }
    }

    /// The map with rooms at the top-left corners `corners`, in that order, joined by
    /// corridors between consecutive centers in ascending order.
    pub fn from_corners(width: i32, height: i32, corners: &Vec<(i32, i32)>) -> (r: GameMap)
        requires
            room_fits(width as int, height as int),
            width * height <= i32::MAX,
            corners@.len() >= 1,
            corners_fit(corners@, width as int, height as int),
        ensures
            r.wf(),
            generated_from(r@, width, height, corners@),
    {
        proof {
            assert(width <= i32::MAX / 7 && height <= i32::MAX / 7) by (nonlinear_arith)
                requires
                    width * height <= i32::MAX,
                    width >= 7,
                    height >= 7,
            ;
        }
        let tile_count = (width * height) as usize;
        let mut map = GameMap {
            tiles: vec![Tile::Wall; tile_count],
            width,
            height,
            start_position: (0, 0),
            vcw: Clamper::new(0, width - 1),
            vch: Clamper::new(0, height - 1),
            revealed_tiles: vec![false; tile_count],
            visible_tiles: vec![false; tile_count],
            centers: Vec::new(),
        };
        let mut k: usize = 0;
        proof {
            assert(corners@.take(0) =~= Seq::<(i32, i32)>::empty());
            assert(room_centers(corners@.take(0)) =~= Seq::<(i32, i32)>::empty());
            assert forall|a: int, b: int|
                #![trigger map@.idx(a, b)]
                map@.in_bounds(a, b) implies map@.tiles[map@.idx(a, b)] == if in_rooms(
                    corners@.take(0),
                    a,
                    b,
                ) {
                    Tile::Floor
                } else {
                    Tile::Wall
                } by {
                lemma_cell_bounds(width as int, height as int, a, b);
            }
        }
        while k < corners.len()
            invariant
                width <= i32::MAX / 7,
                height <= i32::MAX / 7,
                map.wf(),
                map@.width == width,
                map@.height == height,
                map@.start_position == (0i32, 0i32),
                forall|i: int| 0 <= i < map@.tiles.len() ==> !#[trigger] map@.revealed[i] && !map@.visible[i],
                corners_fit(corners@, width as int, height as int),
                k <= corners@.len(),
                map@.centers == room_centers(corners@.take(k as int)),
                forall|a: int, b: int|
                    #![trigger map@.idx(a, b)]
                    map@.in_bounds(a, b) ==> map@.tiles[map@.idx(a, b)] == if in_rooms(
                        corners@.take(k as int),
                        a,
                        b,
                    ) {
                        Tile::Floor
                    } else {
                        Tile::Wall
                    },
            decreases corners@.len() - k,
        {
            let (rx1, ry1) = corners[k];
            let ghost start = map@;
            proof {
                assert(corner_fits(corners@[k as int], width as int, height as int));
            }
            let rect = Rect::new(rx1, ry1, ROOM_SIZE - 1, ROOM_SIZE - 1);
            map.carve_room(&rect, (rx1, ry1), Ghost(corners@.take(k as int)));
            let ghost carved = map@;
            map.centers.push(rect.center());
            proof {
                assert(corners@.take(k + 1) =~= corners@.take(k as int).push((rx1, ry1)));
                assert(room_centers(corners@.take(k + 1)) =~= room_centers(corners@.take(k as int)).push(room_center((rx1, ry1))));
                let pk = corners@.take(k + 1);
                lemma_same_tiles(carved, map@, |a: int, b: int| in_rooms(pk, a, b));
                assert(map@.revealed == start.revealed && map@.visible == start.visible);
                assert forall|i: int| 0 <= i < map@.tiles.len() implies !#[trigger] map@.revealed[i]
                    && !map@.visible[i] by {
                    assert(!start.revealed[i] && !start.visible[i]);
                }
            }
            k = k + 1;
        }
        proof {
            assert(corners@.take(corners@.len() as int) =~= corners@);
        }
        let ghost unsorted = map@.centers;
        let ghost before_sort = map@;
        sort_pairs(&mut map.centers);
        proof {
            broadcast use vstd::seq_lib::group_to_multiset_ensures;
            assert forall|i: int| 0 <= i < map@.centers.len() implies #[trigger] center_fits(
                map@.centers[i],
                width as int,
                height as int,
            ) by {
                assert(map@.centers.to_multiset().count(map@.centers[i]) > 0);
                assert(unsorted.contains(map@.centers[i]));
                let j = choose|j: int| 0 <= j < unsorted.len() && unsorted[j] == map@.centers[i];
                assert(corner_fits(corners@[j], width as int, height as int));
            }
            vstd::seq_lib::to_multiset_len(unsorted);
            vstd::seq_lib::to_multiset_len(map@.centers);
            assert(map@.centers.len() == unsorted.len());
        }
        map.start_position = map.centers[0];
        let ghost rooms = corners@;
        proof {
            lemma_same_tiles(before_sort, map@, |a: int, b: int| planned_floor(rooms, map@.centers.take(1), a, b));
        }
        let ghost centers = map@.centers;
        let mut j: usize = 0;
        let n = map.centers.len();
        while j + 1 < n
            invariant
                map.wf(),
                map@.width == width,
                map@.height == height,
                map@.centers == centers,
                centers.len() == corners@.len(),
                n == centers.len(),
                map@.start_position == centers[0],
                forall|i: int| 0 <= i < map@.tiles.len() ==> !#[trigger] map@.revealed[i] && !map@.visible[i],
                forall|i: int| 0 <= i < centers.len() ==> #[trigger] center_fits(
                    centers[i],
                    width as int,
                    height as int,
                ),
                j < centers.len(),
                forall|a: int, b: int|
                    #![trigger map@.idx(a, b)]
                    map@.in_bounds(a, b) ==> map@.tiles[map@.idx(a, b)] == if planned_floor(
                        rooms,
                        centers.take(j + 1),
                        a,
                        b,
                    ) {
                        Tile::Floor
                    } else {
                        Tile::Wall
                    },
            decreases centers.len() - j,
        {
            let ca = map.centers[j];
            let cb = map.centers[j + 1];
            let ghost before = |a: int, b: int| planned_floor(rooms, centers.take(j + 1), a, b);
            proof {
                assert(center_fits(centers[j as int], width as int, height as int));
                assert(center_fits(centers[j + 1], width as int, height as int));
            }
            map.carve_corridor(ca, cb, Ghost(before));
            proof {
                let t2 = centers.take(j + 2);
                let t1 = centers.take(j + 1);
                assert forall|a: int, b: int| map@.in_bounds(a, b) implies #[trigger] planned_floor(rooms, t2, a, b)
                    == (before(a, b) || on_corridor(ca, cb, a, b)) by {
                    if on_corridors(t1, a, b) {
                        let i = choose|i: int| 0 <= i && i + 1 < t1.len() && #[trigger] on_corridor(t1[i], t1[i + 1], a, b);
                        assert(t2[i] == t1[i] && t2[i + 1] == t1[i + 1]);
                    }
                    if on_corridor(ca, cb, a, b) {
                        assert(t2[j as int] == ca && t2[j + 1] == cb);
                    }
                    if on_corridors(t2, a, b) {
                        let i = choose|i: int| 0 <= i && i + 1 < t2.len() && #[trigger] on_corridor(t2[i], t2[i + 1], a, b);
                        if i < j {
                            assert(t2[i] == t1[i] && t2[i + 1] == t1[i + 1]);
                        }
                    }
                }
            }
            j = j + 1;
        }
        proof {
            assert(centers.take(j + 1) =~= centers);
            assert(unsorted == room_centers(corners@));
            assert(sorted_by(map@.centers, lex_order()));
            assert(map@.centers.to_multiset() == room_centers(corners@).to_multiset());
            assert(map@.start_position == map@.centers[0]);
            assert forall|x: int, y: int|
                #![trigger map@.idx(x, y)]
                map@.in_bounds(x, y) implies map@.tiles[map@.idx(x, y)] == if planned_floor(
                    corners@,
                    map@.centers,
                    x,
                    y,
                ) {
                    Tile::Floor
                } else {
                    Tile::Wall
                } by {}
            assert(forall|i: int| 0 <= i < map@.tiles.len() ==> !#[trigger] map@.revealed[i] && !map@.visible[i]);
            assert(map@.valid());
        }
        map
    }

    /// Places `ROOM_COUNT` rooms at corners drawn from `rng`, then builds the map. A grid
    /// too small to hold a room inside its border is refused.
    pub fn generate(width: i32, height: i32, rng: &mut rltk::RandomNumberGenerator) -> (r: Result<
        GameMap,
        ConfigurationError,
    >)
        requires
            room_fits(width as int, height as int) ==> width * height <= i32::MAX,
        ensures
            match r {
                Ok(m) => {
                    &&& room_fits(width as int, height as int)
                    &&& m.wf()
                    &&& exists|corners: Seq<(i32, i32)>|
                        #![trigger generated_from(m@, width, height, corners)]
                        corners.len() == ROOM_COUNT && corners_fit(corners, width as int, height as int)
                            && generated_from(m@, width, height, corners)
                },
                Err(e) => !room_fits(width as int, height as int) && e == ConfigurationError {
                    width,
                    height,
                },
            },
    {
        if width < ROOM_SIZE + 2 || height < ROOM_SIZE + 2 {
            return Err(ConfigurationError { width, height });
        }
        let mut corners: Vec<(i32, i32)> = Vec::new();
        let mut i: usize = 0;
        while i < ROOM_COUNT
            invariant
                room_fits(width as int, height as int),
                corners@.len() == i,
                i <= ROOM_COUNT,
                corners_fit(corners@, width as int, height as int),
            decreases ROOM_COUNT - i,
        {
            let rx1 = roll_die(rng, width - ROOM_SIZE - 1);
            let ry1 = roll_die(rng, height - ROOM_SIZE - 1);
            corners.push((rx1, ry1));
            i = i + 1;
        }
        let map = GameMap::from_corners(width, height, &corners);
        Ok(map)
    }

    /// A map on a `width` by `height` grid, with rooms placed by a freshly seeded
    /// generator.
    pub fn new(width: i32, height: i32) -> (r: Result<GameMap, ConfigurationError>)
        requires
            room_fits(width as int, height as int) ==> width * height <= i32::MAX,
        ensures
            match r {
                Ok(m) => {
                    &&& room_fits(width as int, height as int)
                    &&& m.wf()
                    &&& exists|corners: Seq<(i32, i32)>|
                        #![trigger generated_from(m@, width, height, corners)]
                        corners.len() == ROOM_COUNT && corners_fit(corners, width as int, height as int)
                            && generated_from(m@, width, height, corners)
                },
                Err(e) => !room_fits(width as int, height as int) && e == ConfigurationError {
                    width,
                    height,
                },
            },
    {
        let mut rng = fresh_rng();
        GameMap::generate(width, height, &mut rng)
    }

    /// A map on a `width` by `height` grid, with rooms placed by a generator seeded with
    /// `seed`: the same seed gives the same map.
    pub fn new_seeded(width: i32, height: i32, seed: u64) -> (r: Result<GameMap, ConfigurationError>)
        requires
            room_fits(width as int, height as int) ==> width * height <= i32::MAX,
        ensures
            match r {
                Ok(m) => {
                    &&& room_fits(width as int, height as int)
                    &&& m.wf()
                    &&& exists|corners: Seq<(i32, i32)>|
                        #![trigger generated_from(m@, width, height, corners)]
                        corners.len() == ROOM_COUNT && corners_fit(corners, width as int, height as int)
                            && generated_from(m@, width, height, corners)
                },
                Err(e) => !room_fits(width as int, height as int) && e == ConfigurationError {
                    width,
                    height,
                },
            },
    {
        let mut rng = seeded_rng(seed);
        GameMap::generate(width, height, &mut rng)
    }

    fn index_xy(&self, i: usize) -> (r: (i32, i32))
        requires
            self.wf(),
            i < self@.tiles.len(),
        ensures
            r.0 == i as int % (self.width as int),
            r.1 == i as int / (self.width as int),
            self@.in_bounds(r.0 as int, r.1 as int),
    {
        let w = self.width as usize;
        proof {
            vstd::arithmetic::div_mod::lemma_fundamental_div_mod(i as int, w as int);
            let q = i as int / w as int;
            assert(q < self.height) by (nonlinear_arith)
                requires
                    i as int == w * q + i as int % (w as int),
                    0 <= i as int % (w as int),
                    (i as int) < w * self.height,
                    w > 0,
            ;
            assert(0 <= q) by (nonlinear_arith)
                requires
                    q == i as int / w as int,
                    i >= 0,
                    w > 0,
            ;
        }
        ((i % w) as i32, (i / w) as i32)
    }

    /// The cells to draw: each revealed one with its character and whether it is in
    /// sight now, in index order.
    pub fn render_cells(&self) -> (r: Vec<RenderCell>)
        requires
            self.wf(),
        ensures
            r@ == render_prefix(self@, self@.tiles.len() as int),
    {
        let n = self.tiles.len();
        let mut r: Vec<RenderCell> = Vec::new();
        let mut i: usize = 0;
        while i < n
            invariant
                self.wf(),
                n == self@.tiles.len(),
                i <= n,
                r@ == render_prefix(self@, i as int),
            decreases n - i,
        {
            if self.revealed_tiles[i] {
                let (x, y) = self.index_xy(i);
                r.push(
                    RenderCell {
                        x,
                        y,
                        glyph: self.tiles[i].glyph(),
                        visible: self.visible_tiles[i],
                    },
                );
            }
            i = i + 1;
        }
        r
    }

    /// The tile at `(x, y)`.
    pub fn at(&self, x: i32, y: i32) -> (r: Tile)
        requires
            self.wf(),
            self@.in_bounds(x as int, y as int),
        ensures
            r == self@.tile(x as int, y as int),
    {
        self.tiles[self.xy_index(x, y)]
    }

    /// `(x, y)` brought onto the grid, each axis clamped on its own.
    pub fn clamp(&self, x: i32, y: i32) -> (r: (i32, i32))
        requires
            self.wf(),
        ensures
            (r.0 as int, r.1 as int) == self@.clamped(x as int, y as int),
            self@.in_bounds(r.0 as int, r.1 as int),
    {
        (self.vcw.clamp(x), self.vch.clamp(y))
    }

    pub fn start_position(&self) -> (r: (i32, i32))
        ensures
            r == self@.start_position,
    {
        self.start_position
    }

    /// Width and height of the grid.
    pub fn dimensions(&self) -> (r: (i32, i32))
        ensures
            r == (self@.width, self@.height),
    {
        (self.width, self.height)
    }

    pub fn width(&self) -> (r: i32)
        ensures
            r == self@.width,
    {
        self.width
    }

    pub fn height(&self) -> (r: i32)
        ensures
            r == self@.height,
    {
        self.height
    }

    /// The room centers, in ascending order.
    pub fn centers(&self) -> (r: &Vec<(i32, i32)>)
        ensures
            r@ == self@.centers,
    {
        &self.centers
    }

    /// Whether the tile with index `idx` blocks sight.
    pub fn is_opaque(&self, idx: usize) -> (r: bool)
        requires
            idx < self@.tiles.len(),
        ensures
            r == (self@.tiles[idx as int] == Tile::Wall),
    {
        self.tiles[idx] == Tile::Wall
    }

    /// Whether the entity's cell is currently in the player's sight.
    pub fn is_visible(&self, pos: &Position) -> (r: bool)
        requires
            self.wf(),
            self@.in_bounds(pos.x as int, pos.y as int),
        ensures
            r == self@.visible[self@.idx(pos.x as int, pos.y as int)],
    {
        self.visible_tiles[self.xy_index(pos.x, pos.y)]
    }

    /// Whether the cell `(x, y)` has ever been in the player's sight.
    pub fn is_revealed(&self, x: i32, y: i32) -> (r: bool)
        requires
            self.wf(),
            self@.in_bounds(x as int, y as int),
        ensures
            r == self@.revealed[self@.idx(x as int, y as int)],
    {
        self.revealed_tiles[self.xy_index(x, y)]
    }

    /// Makes the viewshed's cells the visible ones, and reveals them for good.
    pub fn visible_tiles_update(&mut self, viewshed: &Viewshed)
        requires
            old(self).wf(),
            forall|k: int|
                0 <= k < viewshed.visible_tiles@.len() ==> old(self)@.in_bounds(
                    #[trigger] viewshed.visible_tiles@[k].0 as int,
                    viewshed.visible_tiles@[k].1 as int,
                ),
        ensures
            final(self).wf(),
            folded_view(old(self)@, final(self)@, viewshed.visible_tiles@),
    {
        let ghost w = self.width as int;
        let ghost h = self.height as int;
        let n = self.visible_tiles.len();
        let mut i: usize = 0;
        while i < n
            invariant
                self.wf(),
                same_layout(old(self)@, self@),
                self@.revealed == old(self)@.revealed,
                self@.visible.len() == n,
                n == self@.tiles.len(),
                i <= n,
                forall|j: int| 0 <= j < i ==> !self@.visible[j],
            decreases n - i,
        {
            self.visible_tiles[i] = false;
            i = i + 1;
        }
        let pts = &viewshed.visible_tiles;
        let mut k: usize = 0;
        proof {
            assert(pts@.take(0) =~= Seq::<(i32, i32)>::empty());
            assert forall|x: int, y: int|
                #![trigger self@.idx(x, y)]
                self@.in_bounds(x, y) implies {
                    &&& self@.visible[self@.idx(x, y)] == pts@.take(0).contains((x as i32, y as i32))
                    &&& self@.revealed[self@.idx(x, y)] == (old(self)@.revealed[old(
                        self,
                    )@.idx(x, y)] || self@.visible[self@.idx(x, y)])
                } by {
                lemma_cell_bounds(w, h, x, y);
            }
        }
        while k < pts.len()
            invariant
                self.wf(),
                same_layout(old(self)@, self@),
                w == self.width,
                h == self.height,
                revealed_grows(old(self)@, self@),
                forall|k: int|
                    0 <= k < pts@.len() ==> old(self)@.in_bounds(
                        #[trigger] pts@[k].0 as int,
                        pts@[k].1 as int,
                    ),
                k <= pts@.len(),
                forall|x: int, y: int|
                    #![trigger self@.idx(x, y)]
                    self@.in_bounds(x, y) ==> {
                        &&& self@.visible[self@.idx(x, y)] == pts@.take(k as int).contains(
                            (x as i32, y as i32),
                        )
                        &&& self@.revealed[self@.idx(x, y)] == (old(self)@.revealed[old(
                            self,
                        )@.idx(x, y)] || self@.visible[self@.idx(x, y)])
                    },
            decreases pts@.len() - k,
        {
            let p = pts[k];
            let idx = self.xy_index(p.0, p.1);
            let ghost before = self@;
            self.revealed_tiles[idx] = true;
            self.visible_tiles[idx] = true;
            proof {
                assert(pts@.take(k + 1) =~= pts@.take(k as int).push(p));
                assert forall|x: int, y: int|
                    #![trigger self@.idx(x, y)]
                    self@.in_bounds(x, y) implies {
                        &&& self@.visible[self@.idx(x, y)] == pts@.take(k + 1).contains(
                            (x as i32, y as i32),
                        )
                        &&& self@.revealed[self@.idx(x, y)] == (old(self)@.revealed[old(
                            self,
                        )@.idx(x, y)] || self@.visible[self@.idx(x, y)])
                    } by {
                    lemma_cell_bounds(w, h, x, y);
                    assert(before.idx(x, y) == self@.idx(x, y));
                    if x == p.0 && y == p.1 {
                        assert(pts@.take(k + 1)[k as int] == p);
                    } else {
                        if self@.idx(x, y) == idx {
                            lemma_cell_injective(w, x, y, p.0 as int, p.1 as int);
                        }
                        assert(pts@.take(k + 1).contains((x as i32, y as i32))
                            == pts@.take(k as int).contains((x as i32, y as i32)));
                    }
                }
            }
            k = k + 1;
        }
        proof {
            assert(pts@.take(pts@.len() as int) =~= pts@);
            assert forall|x: int, y: int|
                #![trigger self@.idx(x, y)]
                self@.in_bounds(x, y) implies {
                    &&& self@.visible[self@.idx(x, y)] == pts@.contains((x as i32, y as i32))
                } by {
                lemma_cell_bounds(w, h, x, y);
            }
        }
    }
}

} // verus!
