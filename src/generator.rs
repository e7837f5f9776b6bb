use rand::rngs::StdRng;
use vstd::prelude::*;

use crate::colors::{black, light_blue, light_orange, violet, white, Color};
use crate::config::{
    DOUBLE_DAMAGE_SPAWN_CHANCE, FIRE_SCROLL_SPAWN_CHANCE, HEAL_SPAWN_CHANCE, MAP_HEIGHT, MAP_WIDTH,
    MAX_ROOMS, MAX_ROOM_ITEMS, MAX_ROOM_MONSTERS, MONSTER_XP, PLAYER, ROOM_MAX_SIZE, ROOM_MIN_SIZE,
};
use crate::dungeon::{
    blocked, column_passable, corridor_between, create_hor_tunnel, create_room, create_ver_tunnel,
    is_blocked, keeps_passable, lemma_carved_keeps_passable, lemma_keeps_passable_trans, map_wf,
    max_int, min_int, new_wall_map, passable, row_passable, in_map, tile_at, carved_box,
};
use crate::random::{random_bool, random_in};
use crate::structures::{
    rect_center, rects_intersect, Ai, Attackable, DeathCallback, Item, MonsterConfig, Object, Rect,
    TileGrid, wall_tile, empty_tile,
};

verus! {

/// `o` is a live monster built from the table record `cfg`.
pub open spec fn monster_from(o: Object, cfg: MonsterConfig) -> bool {
    &&& o.symbol == cfg.symbol
    &&& o.color == (Color { r: cfg.r, g: cfg.g, b: cfg.b })
    &&& o.name@ == cfg.name@
    &&& o.blocks
    &&& o.alive
    &&& o.attackable == Some(
        Attackable {
            max_hp: cfg.max_hp,
            hp: cfg.max_hp,
            armor: cfg.armor,
            damage: cfg.damage,
            xp: MONSTER_XP,
            on_death: DeathCallback::Monster,
        },
    )
    &&& o.ai == Some(Ai::Basic)
    &&& o.item is None
    &&& !o.always_visible
    &&& o.level == 1
}

/// `o` is a pick-up lying on the floor.
pub open spec fn is_item_object(o: Object) -> bool {
    &&& o.item is Some
    &&& o.always_visible
    &&& !o.blocks
    &&& !o.alive
    &&& o.attackable is None
    &&& o.ai is None
}

/// `o` is something the spawner may place: a monster of the table or an item.
pub open spec fn spawned_ok(o: Object, monsters: Seq<MonsterConfig>) -> bool {
    ||| exists|k: int| 0 <= k < monsters.len() && #[trigger] monster_from(o, monsters[k])
    ||| is_item_object(o)
}

/// `(x, y)` lies in `room`, its border included.
pub open spec fn in_room(room: Rect, x: int, y: int) -> bool {
    room.x1 <= x <= room.x2 && room.y1 <= y <= room.y2
}

/// The item kind for a draw of `chance` in `0..100`: cumulative thresholds
/// in the order heal, fire, double damage; the rest is blind.
pub open spec fn item_kind_for(chance: int) -> Item {
    if chance < HEAL_SPAWN_CHANCE {
        Item::Heal
    } else if chance < HEAL_SPAWN_CHANCE + FIRE_SCROLL_SPAWN_CHANCE {
        Item::Fire
    } else if chance < HEAL_SPAWN_CHANCE + FIRE_SCROLL_SPAWN_CHANCE + DOUBLE_DAMAGE_SPAWN_CHANCE {
        Item::DoubleDamage
    } else {
        Item::Blind
    }
}

pub fn item_for_chance(chance: i32) -> (r: Item)
    ensures
        r == item_kind_for(chance as int),
{
    if chance < HEAL_SPAWN_CHANCE {
        Item::Heal
    } else if chance < HEAL_SPAWN_CHANCE + FIRE_SCROLL_SPAWN_CHANCE {
        Item::Fire
    } else if chance < HEAL_SPAWN_CHANCE + FIRE_SCROLL_SPAWN_CHANCE + DOUBLE_DAMAGE_SPAWN_CHANCE {
        Item::DoubleDamage
    } else {
        Item::Blind
    }
}

/// A monster of the table record `cfg`, standing on `(x, y)`.
pub fn make_monster(x: i32, y: i32, cfg: &MonsterConfig) -> (o: Object)
    ensures
        o.x == x,
        o.y == y,
        monster_from(o, *cfg),
{
    let color = Color::new(cfg.r, cfg.g, cfg.b);
    let mut monster = Object::new(x, y, cfg.symbol, color, cfg.name.as_str(), true);
    monster.attackable = Some(
        Attackable {
            max_hp: cfg.max_hp,
            hp: cfg.max_hp,
            armor: cfg.armor,
            damage: cfg.damage,
            xp: MONSTER_XP,
            on_death: DeathCallback::Monster,
        },
    );
    monster.alive = true;
    monster.ai = Some(Ai::Basic);
    monster
}

/// An item of kind `kind` lying on `(x, y)`.
pub fn make_item(x: i32, y: i32, kind: Item) -> (o: Object)
    ensures
        o.x == x,
        o.y == y,
        o.item == Some(kind),
        is_item_object(o),
{
    let mut object = match kind {
        Item::Heal => Object::new(x, y, '!', violet(), "healing potion", false),
        Item::Fire => Object::new(x, y, '#', light_orange(), "scroll of fire mark", false),
        Item::DoubleDamage => Object::new(x, y, '$', light_blue(), "double damage", false),
        Item::Blind => Object::new(x, y, '?', black(), "Flesh", false),
    };
    object.item = Some(kind);
    object.always_visible = true;
    object
}

/// The room lies inside the map with room for at least one interior cell
/// each way.
pub open spec fn room_fits(room: Rect) -> bool {
    &&& 0 <= room.x1
    &&& room.x1 + 1 < room.x2 < MAP_WIDTH
    &&& 0 <= room.y1
    &&& room.y1 + 1 < room.y2 < MAP_HEIGHT
}

/// A drawn monster placement: a cell of `room`, border included, and a
/// record index of the table when it has any record.
pub open spec fn monster_draw_ok(room: Rect, d: (i32, i32, usize), n_records: int) -> bool {
    &&& in_room(room, d.0 as int, d.1 as int)
    &&& n_records > 0 ==> d.2 < n_records
}

/// A drawn item placement: a cell strictly inside `room` and a chance in
/// `0..100`.
pub open spec fn item_draw_ok(room: Rect, d: (i32, i32, i32)) -> bool {
    &&& room.x1 < d.0 < room.x2
    &&& room.y1 < d.1 < room.y2
    &&& 0 <= d.2 < 100
}

/// `n` is `s` after the monster draw `d`: the monster of record `d.2` on
/// cell `(d.0, d.1)` appended when that cell is free and the record exists,
/// nothing otherwise.
pub open spec fn monster_step(s: Seq<Object>, n: Seq<Object>, map: &TileGrid, monsters: Seq<MonsterConfig>, d: (i32, i32, usize)) -> bool {
    if !blocked(map, s, d.0 as int, d.1 as int) && (d.2 as int) < monsters.len() {
        &&& n.len() == s.len() + 1
        &&& n.subrange(0, s.len() as int) == s
        &&& n.last().x == d.0 && n.last().y == d.1
        &&& monster_from(n.last(), monsters[d.2 as int])
    } else {
        n == s
    }
}

/// `n` is `s` after the item draw `d`: the item of kind
/// `item_kind_for(d.2)` on cell `(d.0, d.1)` appended when that cell is free,
/// nothing otherwise.
pub open spec fn item_step(s: Seq<Object>, n: Seq<Object>, map: &TileGrid, d: (i32, i32, i32)) -> bool {
    if !blocked(map, s, d.0 as int, d.1 as int) {
        &&& n.len() == s.len() + 1
        &&& n.subrange(0, s.len() as int) == s
        &&& made_item(n.last(), d.0 as int, d.1 as int, item_kind_for(d.2 as int))
    } else {
        n == s
    }
}

/// `states` runs from `o` to `n` through the monster draws and then the
/// item draws, one step each.
pub open spec fn placement_trace(
    states: Seq<Seq<Object>>,
    o: Seq<Object>,
    n: Seq<Object>,
    map: &TileGrid,
    monsters: Seq<MonsterConfig>,
    md: Seq<(i32, i32, usize)>,
    id: Seq<(i32, i32, i32)>,
) -> bool {
    &&& states.len() == md.len() + id.len() + 1
    &&& states[0] == o
    &&& states.last() == n
    &&& forall|k: int| 0 <= k < md.len() ==> #[trigger] monster_step(states[k], states[k + 1], map, monsters, md[k])
    &&& forall|k: int|
        0 <= k < id.len() ==> #[trigger] item_step(states[md.len() + k], states[md.len() + k + 1], map, id[k])
}

/// `n` is what placing the draws `md` then `id` does to `o`.
pub open spec fn placed(
    o: Seq<Object>,
    n: Seq<Object>,
    map: &TileGrid,
    monsters: Seq<MonsterConfig>,
    md: Seq<(i32, i32, usize)>,
    id: Seq<(i32, i32, i32)>,
) -> bool {
    exists|states: Seq<Seq<Object>>| #[trigger] placement_trace(states, o, n, map, monsters, md, id)
}

/// Objects from `start` on were spawned into `room`: monsters of the table
/// up to `split`, each on a cell of the room; items after it, each strictly
/// inside the room; every one on a cell that was free when it came.
pub open spec fn spawn_layout(n: Seq<Object>, start: int, split: int, room: Rect, map: &TileGrid, monsters: Seq<MonsterConfig>) -> bool {
    &&& 0 <= start <= split <= n.len()
    &&& forall|i: int|
        start <= i < split ==> {
            &&& exists|k: int| 0 <= k < monsters.len() && #[trigger] monster_from(n[i], monsters[k])
            &&& in_room(room, (#[trigger] n[i]).x as int, n[i].y as int)
        }
    &&& forall|i: int|
        split <= i < n.len() ==> {
            &&& is_item_object(#[trigger] n[i])
            &&& room.x1 < n[i].x < room.x2
            &&& room.y1 < n[i].y < room.y2
        }
    &&& forall|i: int| start <= i < n.len() ==> !blocked(map, n.subrange(0, i), (#[trigger] n[i]).x as int, n[i].y as int)
}

/// Places the drawn monsters, then the drawn items, each on its cell when
/// that cell is free.
pub fn place_spawns(
    room: Rect,
    map: &TileGrid,
    objects: &mut Vec<Object>,
    monsters: &[MonsterConfig],
    monster_draws: &[(i32, i32, usize)],
    item_draws: &[(i32, i32, i32)],
)
    requires
        map_wf(map),
        forall|k: int| 0 <= k < monster_draws@.len() ==> monster_draw_ok(room, #[trigger] monster_draws@[k], monsters@.len() as int),
        forall|k: int| 0 <= k < item_draws@.len() ==> item_draw_ok(room, #[trigger] item_draws@[k]),
    ensures
        placed(old(objects)@, final(objects)@, map, monsters@, monster_draws@, item_draws@),
        final(objects)@.len() <= old(objects)@.len() + monster_draws@.len() + item_draws@.len(),
        final(objects)@.subrange(0, old(objects)@.len() as int) == old(objects)@,
        exists|split: int| #[trigger] spawn_layout(final(objects)@, old(objects)@.len() as int, split, room, map, monsters@),
{
    let ghost o0 = objects@;
    let ghost start = o0.len() as int;
    let ghost mut states: Seq<Seq<Object>> = seq![o0];
    assert(o0.subrange(0, start) =~= o0);
    let mut k: usize = 0;
    while k < monster_draws.len()
        invariant
            map_wf(map),
            forall|j: int| 0 <= j < monster_draws@.len() ==> monster_draw_ok(room, #[trigger] monster_draws@[j], monsters@.len() as int),
            0 <= k <= monster_draws@.len(),
            start == o0.len(),
            states.len() == k + 1,
            states[0] == o0,
            states[k as int] == objects@,
            forall|j: int| 0 <= j < k ==> #[trigger] monster_step(states[j], states[j + 1], map, monsters@, monster_draws@[j]),
            start <= objects@.len() <= start + k,
            objects@.subrange(0, start) == o0,
            spawn_layout(objects@, start, objects@.len() as int, room, map, monsters@),
        decreases monster_draws@.len() - k,
    {
        let (x, y, m) = monster_draws[k];
        let ghost before = objects@;
        if !is_blocked(x, y, map, objects.as_slice()) && m < monsters.len() {
            let monster = make_monster(x, y, &monsters[m]);
            objects.push(monster);
            proof {
                assert(monster_from(objects@.last(), monsters@[m as int]));
                lemma_push_layout(before, objects@, start, o0, before.len() as int, true, room, map, monsters@);
            }
        }
        proof {
            states = states.push(objects@);
            assert(objects@.subrange(0, before.len() as int) =~= before);
        }
        k = k + 1;
    }
    let ghost split = objects@.len() as int;
    let mut k: usize = 0;
    while k < item_draws.len()
        invariant
            map_wf(map),
            forall|j: int| 0 <= j < item_draws@.len() ==> item_draw_ok(room, #[trigger] item_draws@[j]),
            0 <= k <= item_draws@.len(),
            start == o0.len(),
            states.len() == monster_draws@.len() + k + 1,
            states[0] == o0,
            states[monster_draws@.len() + k] == objects@,
            forall|j: int| 0 <= j < monster_draws@.len() ==> #[trigger] monster_step(states[j], states[j + 1], map, monsters@, monster_draws@[j]),
            forall|j: int|
                0 <= j < k ==> #[trigger] item_step(states[monster_draws@.len() + j], states[monster_draws@.len() + j + 1], map, item_draws@[j]),
            start <= split <= objects@.len() <= start + monster_draws@.len() + k,
            objects@.subrange(0, start) == o0,
            spawn_layout(objects@, start, split, room, map, monsters@),
        decreases item_draws@.len() - k,
    {
        let (x, y, chance) = item_draws[k];
        let ghost before = objects@;
        if !is_blocked(x, y, map, objects.as_slice()) {
            let item = make_item(x, y, item_for_chance(chance));
            objects.push(item);
            proof {
                lemma_push_layout(before, objects@, start, o0, split, false, room, map, monsters@);
            }
        }
        proof {
            assert(objects@.subrange(0, before.len() as int) =~= before);
            let ghost old_states = states;
            states = states.push(objects@);
            assert forall|j: int| 0 <= j < monster_draws@.len() implies #[trigger] monster_step(states[j], states[j + 1], map, monsters@, monster_draws@[j]) by {
                assert(states[j] == old_states[j] && states[j + 1] == old_states[j + 1]);
            }
            assert forall|j: int| 0 <= j < k + 1 implies #[trigger] item_step(
                states[monster_draws@.len() + j],
                states[monster_draws@.len() + j + 1],
                map,
                item_draws@[j],
            ) by {
                if j < k {
                    assert(states[monster_draws@.len() + j] == old_states[monster_draws@.len() + j]);
                    assert(states[monster_draws@.len() + j + 1] == old_states[monster_draws@.len() + j + 1]);
                } else {
                    assert(states[monster_draws@.len() + j] == before);
                    assert(states[monster_draws@.len() + j + 1] == objects@);
                    assert(item_draws@[j] == (x, y, chance));
                }
            }
            assert(objects@.subrange(0, before.len() as int) =~= before);
        }
        k = k + 1;
    }
    proof {
        assert(placement_trace(states, o0, objects@, map, monsters@, monster_draws@, item_draws@));
        assert(spawn_layout(objects@, start, split, room, map, monsters@));
    }
}

/// `o` is the item of kind `kind` made by `make_item` on `(x, y)`.
pub open spec fn made_item(o: Object, x: int, y: int, kind: Item) -> bool {
    &&& o.x == x
    &&& o.y == y
    &&& o.item == Some(kind)
    &&& is_item_object(o)
}

proof fn lemma_push_layout(
    before: Seq<Object>,
    after: Seq<Object>,
    start: int,
    o0: Seq<Object>,
    split: int,
    monster: bool,
    room: Rect,
    map: &TileGrid,
    monsters: Seq<MonsterConfig>,
)
    requires
        start <= split <= before.len(),
        before.subrange(0, start) == o0,
        spawn_layout(before, start, split, room, map, monsters),
        after == before.push(after.last()),
        !blocked(map, before, after.last().x as int, after.last().y as int),
        monster ==> {
            &&& split == before.len()
            &&& exists|k: int| 0 <= k < monsters.len() && #[trigger] monster_from(after.last(), monsters[k])
            &&& in_room(room, after.last().x as int, after.last().y as int)
        },
        !monster ==> {
            &&& is_item_object(after.last())
            &&& room.x1 < after.last().x < room.x2
            &&& room.y1 < after.last().y < room.y2
        },
    ensures
        after.subrange(0, start) == o0,
        spawn_layout(after, start, if monster { after.len() as int } else { split }, room, map, monsters),
{
    assert(after.subrange(0, start) =~= before.subrange(0, start));
    assert(after.subrange(0, before.len() as int) =~= before);
    assert forall|i: int| 0 <= i < before.len() implies after[i] == before[i] && after.subrange(0, i) == before.subrange(0, i) by {
        assert(after.subrange(0, i) =~= before.subrange(0, i));
    }
}

/// Places up to `MAX_ROOM_MONSTERS` monsters and up to `MAX_ROOM_ITEMS`
/// items in `room`. Each gets one random cell (and, for a monster, a random
/// record; for an item, a random chance); where that cell is blocked it is
/// not placed.
pub fn spawn_objects(room: Rect, map: &TileGrid, objects: &mut Vec<Object>, monsters: &[MonsterConfig], rng: &mut StdRng)
    requires
        map_wf(map),
        room_fits(room),
    ensures
        final(objects)@.len() <= old(objects)@.len() + MAX_ROOM_MONSTERS + MAX_ROOM_ITEMS,
        final(objects)@.subrange(0, old(objects)@.len() as int) == old(objects)@,
        exists|split: int| #[trigger] spawn_layout(final(objects)@, old(objects)@.len() as int, split, room, map, monsters@),
        exists|md: Seq<(i32, i32, usize)>, id: Seq<(i32, i32, i32)>|
            {
                &&& md.len() <= MAX_ROOM_MONSTERS
                &&& id.len() <= MAX_ROOM_ITEMS
                &&& forall|k: int| 0 <= k < md.len() ==> monster_draw_ok(room, #[trigger] md[k], monsters@.len() as int)
                &&& forall|k: int| 0 <= k < id.len() ==> item_draw_ok(room, #[trigger] id[k])
                &&& #[trigger] placed(old(objects)@, final(objects)@, map, monsters@, md, id)
            },
{
    let monster_num = random_in(rng, 0, MAX_ROOM_MONSTERS + 1);
    let mut monster_draws: Vec<(i32, i32, usize)> = Vec::new();
    let mut k: i32 = 0;
    while k < monster_num
        invariant
            room_fits(room),
            0 <= k <= monster_num <= MAX_ROOM_MONSTERS,
            monster_draws@.len() == k,
            forall|j: int| 0 <= j < k ==> monster_draw_ok(room, #[trigger] monster_draws@[j], monsters@.len() as int),
        decreases monster_num - k,
    {
        let x = random_in(rng, room.x1, room.x2 + 1);
        let y = random_in(rng, room.y1, room.y2 + 1);
        let record: usize = if monsters.len() > 0 {
            let bound: i32 = if monsters.len() > i32::MAX as usize {
                i32::MAX
            } else {
                monsters.len() as i32
            };
            random_in(rng, 0, bound) as usize
        } else {
            0
        };
        monster_draws.push((x, y, record));
        k = k + 1;
    }
    let num_items = random_in(rng, 0, MAX_ROOM_ITEMS + 1);
    let mut item_draws: Vec<(i32, i32, i32)> = Vec::new();
    let mut k: i32 = 0;
    while k < num_items
        invariant
            room_fits(room),
            0 <= k <= num_items <= MAX_ROOM_ITEMS,
            item_draws@.len() == k,
            forall|j: int| 0 <= j < k ==> item_draw_ok(room, #[trigger] item_draws@[j]),
        decreases num_items - k,
    {
        let x = random_in(rng, room.x1 + 1, room.x2);
        let y = random_in(rng, room.y1 + 1, room.y2);
        let chance = random_in(rng, 0, 100);
        item_draws.push((x, y, chance));
        k = k + 1;
    }
    place_spawns(room, map, objects, monsters, monster_draws.as_slice(), item_draws.as_slice());
}

/// Spawned objects are monsters of the table or items, in the room, on
/// cells that were free when they came.
pub proof fn lemma_layout_spawned(n: Seq<Object>, start: int, split: int, room: Rect, map: &TileGrid, monsters: Seq<MonsterConfig>)
    requires
        spawn_layout(n, start, split, room, map, monsters),
    ensures
        forall|i: int| start <= i < n.len() ==> spawned_ok(#[trigger] n[i], monsters) && in_room(room, n[i].x as int, n[i].y as int),
{
    assert forall|i: int| start <= i < n.len() implies spawned_ok(#[trigger] n[i], monsters) && in_room(room, n[i].x as int, n[i].y as int) by {
        if i < split {
            let k = choose|k: int| 0 <= k < monsters.len() && #[trigger] monster_from(n[i], monsters[k]);
        }
    }
}

/// Every interior cell of `r` (its border excluded) is passable.
pub open spec fn interior_passable(map: &TileGrid, r: Rect) -> bool {
    forall|x: int, y: int| r.x1 < x < r.x2 && r.y1 < y < r.y2 ==> #[trigger] passable(map, x, y)
}

/// The accepted rooms as the map shows them: each fits the map and is
/// open inside, none meets an earlier one by the intersection test, the
/// player stands at the center of the first, and an L-shaped corridor joins
/// the centers of each two consecutive rooms.
pub open spec fn layout_ok(map: &TileGrid, rooms: Seq<Rect>, px: int, py: int) -> bool {
    &&& forall|i: int| 0 <= i < rooms.len() ==> room_fits(#[trigger] rooms[i]) && interior_passable(map, rooms[i])
    &&& forall|i: int, j: int| 0 <= i < j < rooms.len() ==> !rects_intersect(#[trigger] rooms[j], #[trigger] rooms[i])
    &&& rooms.len() > 0 ==> (px, py) == rect_center(rooms[0])
    &&& forall|i: int|
        0 < i < rooms.len() ==> corridor_between(
            map,
            rect_center(rooms[i - 1]).0,
            rect_center(rooms[i - 1]).1,
            rect_center(#[trigger] rooms[i]).0,
            rect_center(rooms[i]).1,
        )
}

/// Width and height lie in `ROOM_MIN_SIZE..=ROOM_MAX_SIZE`.
pub open spec fn room_sized(r: Rect) -> bool {
    &&& ROOM_MIN_SIZE <= r.x2 - r.x1 <= ROOM_MAX_SIZE
    &&& ROOM_MIN_SIZE <= r.y2 - r.y1 <= ROOM_MAX_SIZE
}

/// The object stands in one of `rooms`, border included.
pub open spec fn in_some_room(rooms: Seq<Rect>, o: Object) -> bool {
    exists|r: int| 0 <= r < rooms.len() && #[trigger] in_room(rooms[r], o.x as int, o.y as int)
}

pub open spec fn between(v: int, a: int, b: int) -> bool {
    a <= v <= b || b <= v <= a
}

/// `(x, y)` lies on one of the two L-shaped routes from `a` to `b`.
pub open spec fn on_corridor(a: (int, int), b: (int, int), x: int, y: int) -> bool {
    ||| y == a.1 && between(x, a.0, b.0)
    ||| x == b.0 && between(y, a.1, b.1)
    ||| x == a.0 && between(y, a.1, b.1)
    ||| y == b.1 && between(x, a.0, b.0)
}

/// Room `i` of `rooms` opens `(x, y)`: the cell is inside it, or on a route
/// from the center of the room before it to its own.
pub open spec fn dug_by(rooms: Seq<Rect>, i: int, x: int, y: int) -> bool {
    ||| rooms[i].x1 < x < rooms[i].x2 && rooms[i].y1 < y < rooms[i].y2
    ||| i > 0 && on_corridor(rect_center(rooms[i - 1]), rect_center(rooms[i]), x, y)
}

pub open spec fn carved_by(rooms: Seq<Rect>, x: int, y: int) -> bool {
    exists|i: int| 0 <= i < rooms.len() && #[trigger] dug_by(rooms, i, x, y)
}

/// Every cell is an unexplored wall, or an unexplored empty cell that the
/// rooms and their corridors opened.
pub open spec fn only_carved(map: &TileGrid, rooms: Seq<Rect>) -> bool {
    forall|x: int, y: int|
        in_map(x, y) ==> #[trigger] tile_at(map, x, y) == wall_tile() || (tile_at(map, x, y) == empty_tile()
            && carved_by(rooms, x, y))
}

proof fn lemma_only_carved_push(map: &TileGrid, rooms: Seq<Rect>, r: Rect)
    requires
        only_carved(map, rooms),
    ensures
        only_carved(map, rooms.push(r)),
{
    let longer = rooms.push(r);
    assert forall|x: int, y: int| in_map(x, y) && #[trigger] tile_at(map, x, y) != wall_tile() implies carved_by(longer, x, y) by {
        let i = choose|i: int| 0 <= i < rooms.len() && #[trigger] dug_by(rooms, i, x, y);
        assert(longer[i] == rooms[i]);
        if i > 0 {
            assert(longer[i - 1] == rooms[i - 1]);
        }
        assert(dug_by(longer, i, x, y));
    }
}

proof fn lemma_only_carved_box(o: &TileGrid, n: &TileGrid, rooms: Seq<Rect>, xa: int, xb: int, ya: int, yb: int)
    requires
        only_carved(o, rooms),
        carved_box(o, n, xa, xb, ya, yb),
        forall|x: int, y: int| xa <= x <= xb && ya <= y <= yb ==> #[trigger] carved_by(rooms, x, y),
    ensures
        only_carved(n, rooms),
{
    assert forall|x: int, y: int| in_map(x, y) implies #[trigger] tile_at(n, x, y) == wall_tile() || (tile_at(n, x, y) == empty_tile()
        && carved_by(rooms, x, y)) by {
        if xa <= x <= xb && ya <= y <= yb {
            assert(carved_by(rooms, x, y));
        } else {
            assert(tile_at(n, x, y) == tile_at(o, x, y));
        }
    }
}

/// `o` is the exit marker.
pub open spec fn is_exit(o: Object) -> bool {
    &&& o.symbol == '<'
    &&& o.name@ == "door"@
    &&& o.color == (Color { r: 255, g: 255, b: 255 })
    &&& o.always_visible
    &&& !o.blocks
    &&& !o.alive
    &&& o.attackable is None
    &&& o.ai is None
    &&& o.item is None
}

/// A generated level: at least one room laid out as `layout_ok` says, the
/// spawned objects after the player, and the exit last, at the center of
/// the last room.
pub open spec fn generated(map: &TileGrid, rooms: Seq<Rect>, objects: Seq<Object>, monsters: Seq<MonsterConfig>) -> bool {
    &&& 1 <= rooms.len() <= MAX_ROOMS
    &&& forall|i: int| 0 <= i < rooms.len() ==> room_sized(#[trigger] rooms[i])
    &&& only_carved(map, rooms)
    &&& forall|i: int| 1 <= i < objects.len() - 1 ==> #[trigger] in_some_room(rooms, objects[i])
    &&& objects.len() >= 2
    &&& layout_ok(map, rooms, objects[0].x as int, objects[0].y as int)
    &&& forall|i: int| 1 <= i < objects.len() - 1 ==> spawned_ok(#[trigger] objects[i], monsters)
    &&& is_exit(objects.last())
    &&& (objects.last().x as int, objects.last().y as int) == rect_center(rooms.last())
}

/// On a generated level the player stands inside the first room, on a
/// passable cell off its border.
pub proof fn lemma_player_in_first_room(map: &TileGrid, rooms: Seq<Rect>, objects: Seq<Object>, monsters: Seq<MonsterConfig>)
    requires
        generated(map, rooms, objects, monsters),
    ensures
        rooms[0].x1 < objects[0].x < rooms[0].x2,
        rooms[0].y1 < objects[0].y < rooms[0].y2,
        passable(map, objects[0].x as int, objects[0].y as int),
{
    assert(room_fits(rooms[0]) && interior_passable(map, rooms[0]));
    lemma_center_inside(rooms[0]);
}

proof fn lemma_center_inside(r: Rect)
    requires
        room_fits(r),
    ensures
        r.x1 < rect_center(r).0 < r.x2,
        r.y1 < rect_center(r).1 < r.y2,
{
}

proof fn lemma_layout_kept(m1: &TileGrid, m2: &TileGrid, rooms: Seq<Rect>, px: int, py: int)
    requires
        layout_ok(m1, rooms, px, py),
        keeps_passable(m1, m2),
    ensures
        layout_ok(m2, rooms, px, py),
{
    assert forall|i: int| 0 <= i < rooms.len() implies room_fits(#[trigger] rooms[i]) && interior_passable(m2, rooms[i]) by {
        assert forall|x: int, y: int| rooms[i].x1 < x < rooms[i].x2 && rooms[i].y1 < y < rooms[i].y2 implies #[trigger] passable(m2, x, y) by {
            assert(passable(m1, x, y));
        }
    }
    assert forall|i: int| 0 < i < rooms.len() implies corridor_between(
        m2,
        rect_center(rooms[i - 1]).0,
        rect_center(rooms[i - 1]).1,
        rect_center(#[trigger] rooms[i]).0,
        rect_center(rooms[i]).1,
    ) by {
        let (ax, ay) = rect_center(rooms[i - 1]);
        let (bx, by) = rect_center(rooms[i]);
        lemma_corridor_kept(m1, m2, ax, ay, bx, by);
    }
}

proof fn lemma_corridor_kept(m1: &TileGrid, m2: &TileGrid, ax: int, ay: int, bx: int, by: int)
    requires
        corridor_between(m1, ax, ay, bx, by),
        keeps_passable(m1, m2),
    ensures
        corridor_between(m2, ax, ay, bx, by),
{
    lemma_row_kept(m1, m2, ax, bx, ay);
    lemma_row_kept(m1, m2, ax, bx, by);
    lemma_column_kept(m1, m2, bx, ay, by);
    lemma_column_kept(m1, m2, ax, ay, by);
}

proof fn lemma_row_kept(m1: &TileGrid, m2: &TileGrid, xa: int, xb: int, y: int)
    requires
        keeps_passable(m1, m2),
    ensures
        row_passable(m1, xa, xb, y) ==> row_passable(m2, xa, xb, y),
{
    if row_passable(m1, xa, xb, y) {
        assert forall|x: int| (xa <= x <= xb || xb <= x <= xa) implies #[trigger] passable(m2, x, y) by {
            assert(passable(m1, x, y));
        }
    }
}

proof fn lemma_column_kept(m1: &TileGrid, m2: &TileGrid, x: int, ya: int, yb: int)
    requires
        keeps_passable(m1, m2),
    ensures
        column_passable(m1, x, ya, yb) ==> column_passable(m2, x, ya, yb),
{
    if column_passable(m1, x, ya, yb) {
        assert forall|y: int| (ya <= y <= yb || yb <= y <= ya) implies #[trigger] passable(m2, x, y) by {
            assert(passable(m1, x, y));
        }
    }
}

/// Whether `room` meets any of `rooms` by the intersection test.
fn intersects_any(room: &Rect, rooms: &Vec<Rect>) -> (r: bool)
    ensures
        r == exists|i: int| 0 <= i < rooms@.len() && rects_intersect(*room, #[trigger] rooms@[i]),
{
    let mut i: usize = 0;
    while i < rooms.len()
        invariant
            0 <= i <= rooms@.len(),
            forall|k: int| 0 <= k < i ==> !rects_intersect(*room, #[trigger] rooms@[k]),
        decreases rooms@.len() - i,
    {
        if room.is_intersected_with(&rooms[i]) {
            return true;
        }
        i = i + 1;
    }
    false
}

/// `n` is `o` with some cells of the routes from `a` to `b` opened.
pub open spec fn opened_on_corridor(o: &TileGrid, n: &TileGrid, a: (int, int), b: (int, int)) -> bool {
    forall|x: int, y: int|
        in_map(x, y) ==> #[trigger] tile_at(n, x, y) == tile_at(o, x, y) || (tile_at(n, x, y) == empty_tile()
            && on_corridor(a, b, x, y))
}

/// Digs an L-shaped tunnel from the center of `prev` to the center of
/// `room`: along the row first when `horizontal_first`, along the column
/// first otherwise.
fn connect_rooms(map: &mut TileGrid, prev: Rect, room: Rect, horizontal_first: bool)
    requires
        map_wf(old(map)),
        room_fits(prev),
        room_fits(room),
    ensures
        map_wf(final(map)),
        keeps_passable(old(map), final(map)),
        corridor_between(final(map), rect_center(prev).0, rect_center(prev).1, rect_center(room).0, rect_center(room).1),
        opened_on_corridor(old(map), final(map), rect_center(prev), rect_center(room)),
{
    proof {
        lemma_center_inside(prev);
        lemma_center_inside(room);
    }
    let ghost m1 = *map;
    let (prev_x, prev_y) = prev.center();
    let (new_x, new_y) = room.center();
    let ghost m_a;
    if horizontal_first {
        create_hor_tunnel(prev_x, new_x, prev_y, map);
        proof {
            m_a = *map;
            lemma_carved_keeps_passable(&m1, map, min_int(prev_x as int, new_x as int), max_int(prev_x as int, new_x as int), prev_y as int, prev_y as int);
        }
        create_ver_tunnel(new_x, prev_y, new_y, map);
        proof {
            lemma_carved_keeps_passable(&m_a, map, new_x as int, new_x as int, min_int(prev_y as int, new_y as int), max_int(prev_y as int, new_y as int));
            assert(row_passable(map, prev_x as int, new_x as int, prev_y as int)) by {
                assert forall|xx: int| (prev_x <= xx <= new_x || new_x <= xx <= prev_x) implies #[trigger] passable(map, xx, prev_y as int) by {
                    assert(passable(&m_a, xx, prev_y as int));
                }
            }
            assert(column_passable(map, new_x as int, prev_y as int, new_y as int));
        }
    } else {
        create_ver_tunnel(prev_x, prev_y, new_y, map);
        proof {
            m_a = *map;
            lemma_carved_keeps_passable(&m1, map, prev_x as int, prev_x as int, min_int(prev_y as int, new_y as int), max_int(prev_y as int, new_y as int));
        }
        create_hor_tunnel(prev_x, new_x, new_y, map);
        proof {
            lemma_carved_keeps_passable(&m_a, map, min_int(prev_x as int, new_x as int), max_int(prev_x as int, new_x as int), new_y as int, new_y as int);
            assert(column_passable(map, prev_x as int, prev_y as int, new_y as int)) by {
                assert forall|yy: int| (prev_y <= yy <= new_y || new_y <= yy <= prev_y) implies #[trigger] passable(map, prev_x as int, yy) by {
                    assert(passable(&m_a, prev_x as int, yy));
                }
            }
            assert(row_passable(map, prev_x as int, new_x as int, new_y as int));
        }
    }
    proof {
        lemma_keeps_passable_trans(&m1, &m_a, map);
        let a = rect_center(prev);
        let b = rect_center(room);
        assert forall|x: int, y: int| in_map(x, y) implies #[trigger] tile_at(map, x, y) == tile_at(&m1, x, y) || (tile_at(map, x, y)
            == empty_tile() && on_corridor(a, b, x, y)) by {
            assert(tile_at(&m_a, x, y) == tile_at(&m_a, x, y));
        }
    }
}

proof fn lemma_only_carved_corridor(o: &TileGrid, n: &TileGrid, rooms: Seq<Rect>, i: int)
    requires
        only_carved(o, rooms),
        0 < i < rooms.len(),
        opened_on_corridor(o, n, rect_center(rooms[i - 1]), rect_center(rooms[i])),
    ensures
        only_carved(n, rooms),
{
    assert forall|x: int, y: int| in_map(x, y) implies #[trigger] tile_at(n, x, y) == wall_tile() || (tile_at(n, x, y) == empty_tile()
        && carved_by(rooms, x, y)) by {
        if tile_at(n, x, y) != tile_at(o, x, y) {
            assert(dug_by(rooms, i, x, y));
        }
    }
}

/// A room candidate as the generator draws it: width and height in
/// `ROOM_MIN_SIZE..=ROOM_MAX_SIZE`, its top left corner such that it ends
/// inside the map.
pub open spec fn candidate_ok(r: Rect) -> bool {
    &&& room_sized(r)
    &&& 0 <= r.x1 && r.x2 < MAP_WIDTH
    &&& 0 <= r.y1 && r.y2 < MAP_HEIGHT
}

/// The rooms kept from the first `k` candidates: each candidate is kept if
/// and only if it meets none of the rooms kept before it.
pub open spec fn accepted_rooms(cands: Seq<Rect>, k: int) -> Seq<Rect>
    decreases k,
{
    if k <= 0 {
        Seq::empty()
    } else {
        let prev = accepted_rooms(cands, k - 1);
        if exists|i: int| 0 <= i < prev.len() && rects_intersect(cands[k - 1], #[trigger] prev[i]) {
            prev
        } else {
            prev.push(cands[k - 1])
        }
    }
}

/// The kept rooms of the first `k` candidates depend on those candidates only.
proof fn lemma_accepted_prefix(cands: Seq<Rect>, k: int)
    requires
        0 <= k < cands.len(),
    ensures
        accepted_rooms(cands, k) == accepted_rooms(cands.drop_last(), k),
    decreases k,
{
    if k > 0 {
        lemma_accepted_prefix(cands, k - 1);
        assert(cands[k - 1] == cands.drop_last()[k - 1]);
    }
}

/// One room's spawning during generation: from the objects `s`, placing
/// the draws `md` and `id` on `grid` (the map as it was then) gave `after`;
/// the first room (round 0) then receives the player at its center, giving
/// `n`.
pub open spec fn spawn_round(
    s: Seq<Object>,
    after: Seq<Object>,
    n: Seq<Object>,
    grid: TileGrid,
    room: Rect,
    monsters: Seq<MonsterConfig>,
    md: Seq<(i32, i32, usize)>,
    id: Seq<(i32, i32, i32)>,
    round: int,
) -> bool {
    &&& md.len() <= MAX_ROOM_MONSTERS
    &&& id.len() <= MAX_ROOM_ITEMS
    &&& forall|k: int| 0 <= k < md.len() ==> monster_draw_ok(room, #[trigger] md[k], monsters.len() as int)
    &&& forall|k: int| 0 <= k < id.len() ==> item_draw_ok(room, #[trigger] id[k])
    &&& placed(s, after, &grid, monsters, md, id)
    &&& if round == 0 {
        &&& n == after.update(0, Object { x: n[0].x, y: n[0].y, ..after[0] })
        &&& (n[0].x as int, n[0].y as int) == rect_center(room)
    } else {
        n == after
    }
}

/// The spawn history of a level: the object list starts as the player
/// alone, and each kept room in turn adds what its round placed.
pub type SpawnHistory = (
    Seq<Seq<Object>>,
    Seq<Seq<Object>>,
    Seq<TileGrid>,
    Seq<Seq<(i32, i32, usize)>>,
    Seq<Seq<(i32, i32, i32)>>,
);

pub open spec fn spawn_history(first: Object, rooms: Seq<Rect>, h: SpawnHistory, monsters: Seq<MonsterConfig>) -> bool {
    let (states, afters, grids, mds, ids) = h;
    &&& states.len() == rooms.len() + 1
    &&& afters.len() == rooms.len() && grids.len() == rooms.len()
    &&& mds.len() == rooms.len() && ids.len() == rooms.len()
    &&& states[0] == seq![first]
    &&& forall|r: int|
        0 <= r < rooms.len() ==> #[trigger] spawn_round(
            states[r],
            afters[r],
            states[r + 1],
            grids[r],
            rooms[r],
            monsters,
            mds[r],
            ids[r],
            r,
        )
}

/// Builds a new level. Everything but the player is dropped from `objects`;
/// up to `MAX_ROOMS` rooms of random size and place are tried, each kept
/// unless it meets an earlier one. A kept room is emptied and stocked, the
/// first receives the player, each later one is joined to the one before by
/// an L-shaped tunnel of random orientation. The exit is placed at the center
/// of the last room.
pub fn generate_map(objects: &mut Vec<Object>, monsters: &[MonsterConfig], rng: &mut StdRng) -> (map: TileGrid)
    requires
        old(objects)@.len() >= 1,
    ensures
        map_wf(&map),
        final(objects)@[0] == (Object { x: final(objects)@[0].x, y: final(objects)@[0].y, ..old(objects)@[0] }),
        exists|cands: Seq<Rect>|
            {
                &&& cands.len() == MAX_ROOMS
                &&& forall|k: int| 0 <= k < cands.len() ==> candidate_ok(#[trigger] cands[k])
                &&& #[trigger] generated(&map, accepted_rooms(cands, MAX_ROOMS as int), final(objects)@, monsters@)
                &&& exists|h: SpawnHistory|
                    #[trigger] spawn_history(old(objects)@[0], accepted_rooms(cands, MAX_ROOMS as int), h, monsters@)
                        && final(objects)@ == h.0.last().push(final(objects)@.last())
            },
{
    let mut map = new_wall_map();
    objects.truncate(1);
    let ghost first_player = objects@[0];
    let mut rooms: Vec<Rect> = Vec::new();
    let mut attempt: i32 = 0;
    let ghost mut cands: Seq<Rect> = Seq::empty();
    let ghost mut h: SpawnHistory = (seq![objects@], Seq::empty(), Seq::empty(), Seq::empty(), Seq::empty());
    assert(objects@ =~= seq![first_player]);
    assert(only_carved(&map, rooms@));
    while attempt < MAX_ROOMS
        invariant
            0 <= attempt <= MAX_ROOMS,
            map_wf(&map),
            objects@.len() >= 1,
            objects@[0] == (Object { x: objects@[0].x, y: objects@[0].y, ..first_player }),
            attempt > 0 ==> rooms@.len() > 0,
            layout_ok(&map, rooms@, objects@[0].x as int, objects@[0].y as int),
            forall|i: int| 1 <= i < objects@.len() ==> spawned_ok(#[trigger] objects@[i], monsters@),
            rooms@.len() <= attempt,
            forall|i: int| 0 <= i < rooms@.len() ==> room_sized(#[trigger] rooms@[i]),
            only_carved(&map, rooms@),
            forall|i: int| 1 <= i < objects@.len() ==> #[trigger] in_some_room(rooms@, objects@[i]),
            cands.len() == attempt,
            forall|k: int| 0 <= k < cands.len() ==> candidate_ok(#[trigger] cands[k]),
            rooms@ == accepted_rooms(cands, attempt as int),
            spawn_history(first_player, rooms@, h, monsters@),
            h.0.last() == objects@,
        decreases MAX_ROOMS - attempt,
    {
        let width = random_in(rng, ROOM_MIN_SIZE, ROOM_MAX_SIZE + 1);
        let height = random_in(rng, ROOM_MIN_SIZE, ROOM_MAX_SIZE + 1);
        let x = random_in(rng, 0, MAP_WIDTH - width);
        let y = random_in(rng, 0, MAP_HEIGHT - height);
        let new_room = Rect::new(x, y, width, height);
        let failed = intersects_any(&new_room, &rooms);
        let ghost kept_before = rooms@;
        let ghost old_cands = cands;
        proof {
            cands = cands.push(new_room);
            assert(cands[attempt as int] == new_room);
            lemma_accepted_prefix(cands, attempt as int);
            assert(cands.drop_last() =~= old_cands);
            assert(accepted_rooms(cands, attempt as int) == kept_before);
        }
        if !failed {
            let ghost m0 = map;
            let ghost px = objects@[0].x as int;
            let ghost py = objects@[0].y as int;
            let ghost grown = rooms@.push(new_room);
            let ghost last = rooms@.len() as int;
            proof {
                lemma_only_carved_push(&map, rooms@, new_room);
            }
            create_room(new_room, &mut map);
            proof {
                assert forall|xx: int, yy: int| x + 1 <= xx <= x + width - 1 && y + 1 <= yy <= y + height - 1
                    implies #[trigger] carved_by(grown, xx, yy) by {
                    assert(dug_by(grown, last, xx, yy));
                }
                lemma_only_carved_box(&m0, &map, grown, x + 1, x + width - 1, y + 1, y + height - 1);
                lemma_carved_keeps_passable(&m0, &map, x + 1, x + width - 1, y + 1, y + height - 1);
                lemma_layout_kept(&m0, &map, rooms@, px, py);
                assert(interior_passable(&map, new_room));
            }
            let ghost before = objects@;
            let ghost grid = map;
            spawn_objects(new_room, &map, objects, monsters, rng);
            let ghost after = objects@;
            proof {
                assert(objects@[0] == before[0]);
                let split = choose|split: int| #[trigger] spawn_layout(objects@, before.len() as int, split, new_room, &map, monsters@);
                lemma_layout_spawned(objects@, before.len() as int, split, new_room, &map, monsters@);
                assert forall|i: int| 1 <= i < objects@.len() implies #[trigger] in_some_room(grown, objects@[i]) by {
                    if i < before.len() {
                        assert(objects@[i] == before[i]);
                        assert(in_some_room(rooms@, before[i]));
                        let r = choose|r: int| 0 <= r < rooms@.len() && #[trigger] in_room(rooms@[r], before[i].x as int, before[i].y as int);
                        assert(grown[r] == rooms@[r]);
                    } else {
                        assert(in_room(grown[last], objects@[i].x as int, objects@[i].y as int));
                    }
                }
                assert forall|i: int| 1 <= i < objects@.len() implies spawned_ok(#[trigger] objects@[i], monsters@) by {
                    if i < before.len() {
                        assert(objects@[i] == before[i]);
                    }
                }
            }
            let (new_x, new_y) = new_room.center();
            proof {
                lemma_center_inside(new_room);
            }
            let ghost m1 = map;
            if rooms.len() == 0 {
                let ghost b2 = objects@;
                objects[PLAYER].set_loc(new_x, new_y);
                proof {
                    assert forall|i: int| 1 <= i < objects@.len() implies spawned_ok(#[trigger] objects@[i], monsters@) by {
                        assert(objects@[i] == b2[i]);
                    }
                }
            } else {
                let prev = rooms[rooms.len() - 1];
                let (prev_x, prev_y) = prev.center();
                proof {
                    lemma_center_inside(prev);
                }
                let horizontal_first = random_bool(rng);
                connect_rooms(&mut map, prev, new_room, horizontal_first);
                proof {
                    assert(grown[last - 1] == prev);
                    lemma_only_carved_corridor(&m1, &map, grown, last);
                }
                proof {
                    lemma_layout_kept(&m1, &map, rooms@, objects@[0].x as int, objects@[0].y as int);
                    assert forall|xx: int, yy: int| new_room.x1 < xx < new_room.x2 && new_room.y1 < yy < new_room.y2 implies #[trigger] passable(&map, xx, yy) by {
                        assert(passable(&m1, xx, yy));
                    }
                }
            }
            let ghost r0 = rooms@;
            rooms.push(new_room);
            proof {
                let (md, id) = choose|md: Seq<(i32, i32, usize)>, id: Seq<(i32, i32, i32)>|
                    {
                        &&& md.len() <= MAX_ROOM_MONSTERS
                        &&& id.len() <= MAX_ROOM_ITEMS
                        &&& forall|k: int| 0 <= k < md.len() ==> monster_draw_ok(new_room, #[trigger] md[k], monsters@.len() as int)
                        &&& forall|k: int| 0 <= k < id.len() ==> item_draw_ok(new_room, #[trigger] id[k])
                        &&& #[trigger] placed(before, after, &grid, monsters@, md, id)
                    };
                let old_h = h;
                h = (h.0.push(objects@), h.1.push(after), h.2.push(grid), h.3.push(md), h.4.push(id));
                assert(spawn_round(before, after, objects@, grid, new_room, monsters@, md, id, last));
                assert forall|r: int| 0 <= r < rooms@.len() implies #[trigger] spawn_round(
                    h.0[r],
                    h.1[r],
                    h.0[r + 1],
                    h.2[r],
                    rooms@[r],
                    monsters@,
                    h.3[r],
                    h.4[r],
                    r,
                ) by {
                    if r < last {
                        assert(h.0[r] == old_h.0[r] && h.0[r + 1] == old_h.0[r + 1] && h.1[r] == old_h.1[r]);
                        assert(h.2[r] == old_h.2[r] && h.3[r] == old_h.3[r] && h.4[r] == old_h.4[r]);
                        assert(rooms@[r] == r0[r]);
                    } else {
                        assert(h.0[r] == before);
                    }
                }
                assert(spawn_history(first_player, rooms@, h, monsters@));
                assert(rooms@[rooms@.len() - 1] == new_room);
                assert forall|i: int| 0 <= i < rooms@.len() implies room_fits(#[trigger] rooms@[i]) && interior_passable(&map, rooms@[i]) by {
                    if i < r0.len() {
                        assert(rooms@[i] == r0[i]);
                    }
                }
                assert forall|i: int, j: int| 0 <= i < j < rooms@.len() implies !rects_intersect(#[trigger] rooms@[j], #[trigger] rooms@[i]) by {
                    assert(rooms@[i] == r0[i]);
                    if j < r0.len() {
                        assert(rooms@[j] == r0[j]);
                    }
                }
                assert forall|i: int| 0 < i < rooms@.len() implies corridor_between(
                    &map,
                    rect_center(rooms@[i - 1]).0,
                    rect_center(rooms@[i - 1]).1,
                    rect_center(#[trigger] rooms@[i]).0,
                    rect_center(rooms@[i]).1,
                ) by {
                    assert(rooms@[i - 1] == r0[i - 1]);
                    if i < r0.len() {
                        assert(rooms@[i] == r0[i]);
                    }
                }
            }
        }
        proof {
            if failed {
                assert(rooms@ == accepted_rooms(cands, attempt + 1));
            } else {
                assert(rooms@ == kept_before.push(new_room));
                assert(rooms@ == accepted_rooms(cands, attempt + 1));
            }
        }
        attempt = attempt + 1;
    }
    let last = rooms[rooms.len() - 1];
    let (last_x, last_y) = last.center();
    let mut door = Object::new(last_x, last_y, '<', white(), "door", false);
    door.always_visible = true;
    let ghost before = objects@;
    objects.push(door);
    proof {
        assert(objects@[0] == before[0]);
        assert forall|i: int| 1 <= i < objects@.len() - 1 implies spawned_ok(#[trigger] objects@[i], monsters@) by {
            assert(objects@[i] == before[i]);
        }
        assert(generated(&map, rooms@, objects@, monsters@));
        assert(objects@ == h.0.last().push(objects@.last()));
    }
    map
}

} // verus!
