use vstd::prelude::*;

use crate::config::{MAP_HEIGHT, MAP_WIDTH};
use crate::dungeon::{in_map, map_wf, tile_at};
use crate::structures::{Object, Tile, TileGrid};

verus! {

/// The field of view: `[x][y]` holds whether that cell is in view now.
pub type FovGrid = Vec<Vec<bool>>;

/// Whether `(x, y)` is in view; a cell outside the grid is not.
pub open spec fn in_fov(fov: &FovGrid, x: int, y: int) -> bool {
    0 <= x < fov@.len() && 0 <= y < fov@[x]@.len() && fov@[x]@[y]
}

pub fn is_in_fov(fov: &FovGrid, x: i32, y: i32) -> (r: bool)
    ensures
        r == in_fov(fov, x as int, y as int),
{
    if x < 0 || y < 0 {
        return false;
    }
    let xu = x as usize;
    let yu = y as usize;
    if xu >= fov.len() {
        return false;
    }
    if yu >= fov[xu].len() {
        return false;
    }
    fov[xu][yu]
}

/// `n` is `o` after one rendering pass under `fov`: every cell in view is
/// marked explored, and nothing else changes.
pub open spec fn explored_step(o: &TileGrid, n: &TileGrid, fov: &FovGrid) -> bool {
    &&& map_wf(n)
    &&& forall|x: int, y: int|
        in_map(x, y) ==> #[trigger] tile_at(n, x, y) == (Tile {
            is_explored: tile_at(o, x, y).is_explored || in_fov(fov, x, y),
            ..tile_at(o, x, y)
        })
}

/// Marks every cell in view as explored.
pub fn update_explored(map: &mut TileGrid, fov: &FovGrid)
    requires
        map_wf(old(map)),
    ensures
        explored_step(old(map), final(map), fov),
{
    let ghost m0 = *map;
    let mut x: i32 = 0;
    while x < MAP_WIDTH
        invariant
            0 <= x <= MAP_WIDTH,
            map_wf(map),
            forall|i: int, j: int|
                in_map(i, j) ==> #[trigger] tile_at(map, i, j) == if i < x {
                    Tile { is_explored: tile_at(&m0, i, j).is_explored || in_fov(fov, i, j), ..tile_at(&m0, i, j) }
                } else {
                    tile_at(&m0, i, j)
                },
        decreases MAP_WIDTH - x,
    {
        let mut column: Vec<Tile> = Vec::new();
        let ghost pre = *map;
        std::mem::swap(&mut map[x as usize], &mut column);
        let ghost c0 = column@;
        assert(c0 == pre@[x as int]@);
        let mut y: i32 = 0;
        while y < MAP_HEIGHT
            invariant
                0 <= x < MAP_WIDTH,
                0 <= y <= MAP_HEIGHT,
                column@.len() == MAP_HEIGHT,
                c0.len() == MAP_HEIGHT,
                forall|j: int| 0 <= j < MAP_HEIGHT ==> #[trigger] column@[j] == if j < y {
                    Tile { is_explored: c0[j].is_explored || in_fov(fov, x as int, j), ..c0[j] }
                } else {
                    c0[j]
                },
            decreases MAP_HEIGHT - y,
        {
            if is_in_fov(fov, x, y) {
                let t = column[y as usize];
                column.set(y as usize, Tile { is_explored: true, ..t });
            }
            y = y + 1;
        }
        let ghost before = *map;
        let ghost cfin = column@;
        std::mem::swap(&mut map[x as usize], &mut column);
        assert(map@[x as int]@ == cfin);
        proof {
            assert forall|i: int| 0 <= i < MAP_WIDTH implies (#[trigger] map@[i])@.len() == MAP_HEIGHT by {
                if i != x {
                    assert(map@[i] == before@[i]);
                }
            }
            assert forall|i: int, j: int| in_map(i, j) implies #[trigger] tile_at(map, i, j) == if i < x + 1 {
                Tile { is_explored: tile_at(&m0, i, j).is_explored || in_fov(fov, i, j), ..tile_at(&m0, i, j) }
            } else {
                tile_at(&m0, i, j)
            } by {
                if i != x {
                    assert(map@[i] == before@[i]);
                    assert(before@[i] == pre@[i]);
                    assert(tile_at(map, i, j) == tile_at(&pre, i, j));
                } else {
                    assert(tile_at(&pre, i, j) == tile_at(&m0, i, j));
                    assert(c0[j] == tile_at(&pre, i, j));
                    assert(cfin[j] == Tile { is_explored: c0[j].is_explored || in_fov(fov, x as int, j), ..c0[j] });
                    assert(map@[i]@[j] == cfin[j]);
                }
            }
        }
        x = x + 1;
    }
}

/// Over any run of rendering passes, a cell once explored stays explored.
pub proof fn lemma_explored_monotonic(maps: Seq<TileGrid>, fovs: Seq<FovGrid>, i: int, j: int, x: int, y: int)
    requires
        maps.len() == fovs.len() + 1,
        forall|k: int| 0 <= k < fovs.len() ==> explored_step(&maps[k], &maps[k + 1], &#[trigger] fovs[k]),
        0 <= i <= j < maps.len(),
        in_map(x, y),
        tile_at(&maps[i], x, y).is_explored,
    ensures
        tile_at(&maps[j], x, y).is_explored,
    decreases j - i,
{
    if i < j {
        lemma_explored_monotonic(maps, fovs, i, j - 1, x, y);
        assert(explored_step(&maps[j - 1], &maps[j], &fovs[j - 1]));
        assert(tile_at(&maps[j], x, y) == tile_at(&maps[j], x, y));
    }
}

/// The object can be drawn: it is in view, or it is always shown and its
/// cell has been explored.
pub open spec fn drawable(o: Object, map: &TileGrid, fov: &FovGrid) -> bool {
    in_fov(fov, o.x as int, o.y as int) || (o.always_visible && in_map(o.x as int, o.y as int) && tile_at(
        map,
        o.x as int,
        o.y as int,
    ).is_explored)
}

/// Indices below `n` of drawable objects whose `blocks` equals `blocking`, in order.
pub open spec fn drawable_indices(objects: Seq<Object>, map: &TileGrid, fov: &FovGrid, n: int, blocking: bool) -> Seq<usize>
    decreases n,
{
    if n <= 0 {
        Seq::empty()
    } else {
        let rest = drawable_indices(objects, map, fov, n - 1, blocking);
        if drawable(objects[n - 1], map, fov) && objects[n - 1].blocks == blocking {
            rest.push((n - 1) as usize)
        } else {
            rest
        }
    }
}

/// Indices of the objects to draw, in drawing order: those that do not block
/// first, then those that do, each group in list order.
pub fn objects_to_draw(objects: &[Object], map: &TileGrid, fov: &FovGrid) -> (r: Vec<usize>)
    requires
        map_wf(map),
    ensures
        r@ == drawable_indices(objects@, map, fov, objects@.len() as int, false) + drawable_indices(
            objects@,
            map,
            fov,
            objects@.len() as int,
            true,
        ),
{
    let mut first: Vec<usize> = Vec::new();
    let mut second: Vec<usize> = Vec::new();
    let mut i: usize = 0;
    while i < objects.len()
        invariant
            0 <= i <= objects@.len(),
            map_wf(map),
            first@ == drawable_indices(objects@, map, fov, i as int, false),
            second@ == drawable_indices(objects@, map, fov, i as int, true),
        decreases objects@.len() - i,
    {
        let o = &objects[i];
        let shown = is_in_fov(fov, o.x, o.y) || (o.always_visible && 0 <= o.x && o.x < MAP_WIDTH && 0 <= o.y
            && o.y < MAP_HEIGHT && map[o.x as usize][o.y as usize].is_explored);
        if shown {
            if o.blocks {
                second.push(i);
            } else {
                first.push(i);
            }
        }
        i = i + 1;
    }
    let mut k: usize = 0;
    let ghost f0 = first@;
    while k < second.len()
        invariant
            0 <= k <= second@.len(),
            first@ == f0 + second@.subrange(0, k as int),
        decreases second@.len() - k,
    {
        first.push(second[k]);
        k = k + 1;
        assert(first@ =~= f0 + second@.subrange(0, k as int));
    }
    assert(second@.subrange(0, second@.len() as int) =~= second@);
    first
}

/// How a drawn cell looks: lit or dark, wall or ground.
#[derive(Clone, Copy, Debug, PartialEq, Eq, Structural)]
pub enum TileLook {
    DarkWall,
    DarkGround,
    LightWall,
    LightGround,
}

/// The look of a cell: lit when in view, a wall when of the opaque class.
pub fn tile_look(visible: bool, wall: bool) -> (r: TileLook)
    ensures
        r == if visible {
            if wall { TileLook::LightWall } else { TileLook::LightGround }
        } else {
            if wall { TileLook::DarkWall } else { TileLook::DarkGround }
        },
{
    match (visible, wall) {
        (false, true) => TileLook::DarkWall,
        (false, false) => TileLook::DarkGround,
        (true, true) => TileLook::LightWall,
        (true, false) => TileLook::LightGround,
    }
}

} // verus!
