use vstd::prelude::*;

use crate::config::{MAP_HEIGHT, MAP_WIDTH};
use crate::structures::{empty_tile, Object, Rect, Tile, TileGrid};

verus! {

pub open spec fn in_map(x: int, y: int) -> bool {
    0 <= x < MAP_WIDTH && 0 <= y < MAP_HEIGHT
}

/// The map has `MAP_WIDTH` columns of `MAP_HEIGHT` tiles.
pub open spec fn map_wf(map: &TileGrid) -> bool {
    &&& map@.len() == MAP_WIDTH
    &&& forall|x: int| 0 <= x < MAP_WIDTH ==> (#[trigger] map@[x])@.len() == MAP_HEIGHT
}

pub open spec fn tile_at(map: &TileGrid, x: int, y: int) -> Tile {
    map@[x]@[y]
}

/// A cell of the map that does not block movement.
pub open spec fn passable(map: &TileGrid, x: int, y: int) -> bool {
    in_map(x, y) && !tile_at(map, x, y).collision_enabled
}

/// `n` is `o` with every cell of the box `[xa, xb] x [ya, yb]` made empty.
pub open spec fn carved_box(o: &TileGrid, n: &TileGrid, xa: int, xb: int, ya: int, yb: int) -> bool {
    &&& map_wf(n)
    &&& forall|x: int, y: int|
        in_map(x, y) ==> #[trigger] tile_at(n, x, y) == if xa <= x <= xb && ya <= y <= yb {
            empty_tile()
        } else {
            tile_at(o, x, y)
        }
}

/// Every cell that is passable in `o` is passable in `n`.
pub open spec fn keeps_passable(o: &TileGrid, n: &TileGrid) -> bool {
    forall|x: int, y: int| #[trigger] passable(o, x, y) ==> #[trigger] passable(n, x, y)
}

/// The cells of row `y` from column `xa` to column `xb` are all passable.
pub open spec fn row_passable(map: &TileGrid, xa: int, xb: int, y: int) -> bool {
    forall|x: int| (xa <= x <= xb || xb <= x <= xa) ==> #[trigger] passable(map, x, y)
}

/// The cells of column `x` from row `ya` to row `yb` are all passable.
pub open spec fn column_passable(map: &TileGrid, x: int, ya: int, yb: int) -> bool {
    forall|y: int| (ya <= y <= yb || yb <= y <= ya) ==> #[trigger] passable(map, x, y)
}

/// An L-shaped corridor of passable cells joins `(ax, ay)` to `(bx, by)`.
pub open spec fn corridor_between(map: &TileGrid, ax: int, ay: int, bx: int, by: int) -> bool {
    ||| row_passable(map, ax, bx, ay) && column_passable(map, bx, ay, by)
    ||| column_passable(map, ax, ay, by) && row_passable(map, ax, bx, by)
}

pub proof fn lemma_keeps_passable_trans(a: &TileGrid, b: &TileGrid, c: &TileGrid)
    requires
        keeps_passable(a, b),
        keeps_passable(b, c),
    ensures
        keeps_passable(a, c),
{
    assert forall|x: int, y: int| #[trigger] passable(a, x, y) implies #[trigger] passable(c, x, y) by {
        assert(passable(b, x, y));
    }
}

pub proof fn lemma_carved_keeps_passable(o: &TileGrid, n: &TileGrid, xa: int, xb: int, ya: int, yb: int)
    requires
        carved_box(o, n, xa, xb, ya, yb),
    ensures
        keeps_passable(o, n),
        forall|x: int, y: int| xa <= x <= xb && ya <= y <= yb && in_map(x, y) ==> #[trigger] passable(n, x, y),
{
    assert forall|x: int, y: int| #[trigger] passable(o, x, y) implies #[trigger] passable(n, x, y) by {
        assert(tile_at(n, x, y) == tile_at(n, x, y));
    }
    assert forall|x: int, y: int| xa <= x <= xb && ya <= y <= yb && in_map(x, y) implies #[trigger] passable(n, x, y) by {
        assert(tile_at(n, x, y) == tile_at(n, x, y));
    }
}

/// A map of `MAP_WIDTH` x `MAP_HEIGHT` wall tiles.
pub fn new_wall_map() -> (map: TileGrid)
    ensures
        map_wf(&map),
        forall|x: int, y: int| in_map(x, y) ==> #[trigger] tile_at(&map, x, y) == crate::structures::wall_tile(),
{
    let mut map: TileGrid = Vec::new();
    let mut x: i32 = 0;
    while x < MAP_WIDTH
        invariant
            0 <= x <= MAP_WIDTH,
            map@.len() == x,
            forall|i: int| 0 <= i < x ==> (#[trigger] map@[i])@.len() == MAP_HEIGHT,
            forall|i: int, j: int| 0 <= i < x && 0 <= j < MAP_HEIGHT ==> #[trigger] map@[i]@[j] == crate::structures::wall_tile(),
        decreases MAP_WIDTH - x,
    {
        let mut column: Vec<Tile> = Vec::new();
        let mut y: i32 = 0;
        while y < MAP_HEIGHT
            invariant
                0 <= y <= MAP_HEIGHT,
                column@.len() == y,
                forall|j: int| 0 <= j < y ==> #[trigger] column@[j] == crate::structures::wall_tile(),
            decreases MAP_HEIGHT - y,
        {
            column.push(Tile::wall());
            y = y + 1;
        }
        map.push(column);
        x = x + 1;
    }
    map
}

/// Sets one tile.
fn set_tile(map: &mut TileGrid, x: i32, y: i32, t: Tile)
    requires
        map_wf(old(map)),
        in_map(x as int, y as int),
    ensures
        map_wf(final(map)),
        forall|i: int, j: int|
            in_map(i, j) ==> #[trigger] tile_at(final(map), i, j) == if i == x && j == y {
                t
            } else {
                tile_at(old(map), i, j)
            },
{
    let mut column: Vec<Tile> = Vec::new();
    std::mem::swap(&mut map[x as usize], &mut column);
    column.set(y as usize, t);
    std::mem::swap(&mut map[x as usize], &mut column);
    assert forall|i: int| 0 <= i < MAP_WIDTH implies (#[trigger] map@[i])@.len() == MAP_HEIGHT by {
        if i != x {
            assert(map@[i] == old(map)@[i]);
        }
    }
}

/// Makes every cell of the box `[xa, xb] x [ya, yb]` empty.
fn carve(map: &mut TileGrid, xa: i32, xb: i32, ya: i32, yb: i32)
    requires
        map_wf(old(map)),
        0 <= xa,
        xb < MAP_WIDTH,
        0 <= ya,
        yb < MAP_HEIGHT,
    ensures
        carved_box(old(map), final(map), xa as int, xb as int, ya as int, yb as int),
{
    let ghost m0 = *map;
    let mut x: i32 = xa;
    while x <= xb
        invariant
            0 <= xa <= x,
            xb < MAP_WIDTH,
            0 <= ya,
            yb < MAP_HEIGHT,
            x <= xb + 1 || x == xa,
            carved_box(&m0, map, xa as int, x - 1, ya as int, yb as int),
        decreases MAP_WIDTH - x,
    {
        let mut y: i32 = ya;
        while y <= yb
            invariant
                0 <= xa <= x <= xb,
                xb < MAP_WIDTH,
                0 <= ya <= y,
                y <= yb + 1 || y == ya,
                yb < MAP_HEIGHT,
                map_wf(map),
                forall|i: int, j: int|
                    in_map(i, j) ==> #[trigger] tile_at(map, i, j) == if (xa <= i < x && ya <= j <= yb) || (
                    i == x && ya <= j < y) {
                        empty_tile()
                    } else {
                        tile_at(&m0, i, j)
                    },
            decreases MAP_HEIGHT - y,
        {
            set_tile(map, x, y, Tile::empty());
            y = y + 1;
        }
        x = x + 1;
    }
}

/// Empties the interior of `room`, its border excluded.
pub fn create_room(room: Rect, map: &mut TileGrid)
    requires
        map_wf(old(map)),
        -1 <= room.x1 <= room.x2 <= MAP_WIDTH,
        -1 <= room.y1 <= room.y2 <= MAP_HEIGHT,
    ensures
        carved_box(old(map), final(map), room.x1 + 1, room.x2 - 1, room.y1 + 1, room.y2 - 1),
{
    carve(map, room.x1 + 1, room.x2 - 1, room.y1 + 1, room.y2 - 1);
}

pub open spec fn min_int(a: int, b: int) -> int {
    if a <= b { a } else { b }
}

pub open spec fn max_int(a: int, b: int) -> int {
    if a <= b { b } else { a }
}

/// Empties row `y` between columns `x1` and `x2`, both included.
pub fn create_hor_tunnel(x1: i32, x2: i32, y: i32, map: &mut TileGrid)
    requires
        map_wf(old(map)),
        in_map(x1 as int, y as int),
        in_map(x2 as int, y as int),
    ensures
        carved_box(old(map), final(map), min_int(x1 as int, x2 as int), max_int(x1 as int, x2 as int), y as int, y as int),
{
    if x1 <= x2 {
        carve(map, x1, x2, y, y);
    } else {
        carve(map, x2, x1, y, y);
    }
}

/// Empties column `x` between rows `y1` and `y2`, both included.
pub fn create_ver_tunnel(x: i32, y1: i32, y2: i32, map: &mut TileGrid)
    requires
        map_wf(old(map)),
        in_map(x as int, y1 as int),
        in_map(x as int, y2 as int),
    ensures
        carved_box(old(map), final(map), x as int, x as int, min_int(y1 as int, y2 as int), max_int(y1 as int, y2 as int)),
{
    if y1 <= y2 {
        carve(map, x, x, y1, y2);
    } else {
        carve(map, x, x, y2, y1);
    }
}

/// Some object that blocks stands on `(x, y)`.
pub open spec fn occupied(objects: Seq<Object>, x: int, y: int) -> bool {
    exists|i: int| 0 <= i < objects.len() && (#[trigger] objects[i]).blocks && objects[i].x == x && objects[i].y == y
}

/// A cell that nothing can enter: off the map, a wall, or taken by a blocking object.
pub open spec fn blocked(map: &TileGrid, objects: Seq<Object>, x: int, y: int) -> bool {
    !passable(map, x, y) || occupied(objects, x, y)
}

/// Whether `(x, y)` is blocked. A cell off the map counts as blocked.
pub fn is_blocked(x: i32, y: i32, map: &TileGrid, objects: &[Object]) -> (r: bool)
    requires
        map_wf(map),
    ensures
        r == blocked(map, objects@, x as int, y as int),
{
    if x < 0 || x >= MAP_WIDTH || y < 0 || y >= MAP_HEIGHT {
        return true;
    }
    if map[x as usize][y as usize].collision_enabled {
        return true;
    }
    let mut i: usize = 0;
    while i < objects.len()
        invariant
            0 <= i <= objects@.len(),
            forall|k: int| 0 <= k < i ==> !((#[trigger] objects@[k]).blocks && objects@[k].x == x && objects@[k].y == y),
        decreases objects@.len() - i,
    {
        if objects[i].blocks && objects[i].x == x && objects[i].y == y {
            return true;
        }
        i = i + 1;
    }
    false
}

/// `n` is `o` with object `id` moved by `(dx, dy)` where that cell is free,
/// and left in place otherwise.
pub open spec fn moved_by(o: Seq<Object>, n: Seq<Object>, map: &TileGrid, id: int, dx: int, dy: int) -> bool {
    let tx = o[id].x + dx;
    let ty = o[id].y + dy;
    if blocked(map, o, tx, ty) {
        n == o
    } else {
        n == o.update(id, Object { x: tx as i32, y: ty as i32, ..o[id] })
    }
}

/// Moves object `id` by `(dx, dy)` unless the destination is blocked.
pub fn move_by(id: usize, dx: i32, dy: i32, map: &TileGrid, objects: &mut Vec<Object>)
    requires
        map_wf(map),
        id < old(objects)@.len(),
    ensures
        moved_by(old(objects)@, final(objects)@, map, id as int, dx as int, dy as int),
{
    let tx: i64 = objects[id].x as i64 + dx as i64;
    let ty: i64 = objects[id].y as i64 + dy as i64;
    if tx < 0 || tx >= MAP_WIDTH as i64 || ty < 0 || ty >= MAP_HEIGHT as i64 {
        return;
    }
    if !is_blocked(tx as i32, ty as i32, map, objects.as_slice()) {
        objects[id].set_loc(tx as i32, ty as i32);
    }
}

} // verus!
