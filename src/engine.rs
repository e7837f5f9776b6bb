use rand::rngs::StdRng;
use vstd::prelude::*;

use crate::colors::{black, blue, green, red, violet, white, yellow};
use crate::config::{
    ARMOR_PER_LEVEL, DAMAGE_PER_LEVEL, INVENTORY_CAPACITY, LEVEL_UP_XP_BASE, LEVEL_UP_XP_PER_LEVEL,
    MAX_HP_PER_LEVEL, PLAYER, PLAYER_ARMOR_PER_LEVEL, PLAYER_DAMAGE_PER_LEVEL, PLAYER_MAX_HP_PER_LEVEL,
    XP_PER_LEVEL, BLIND_RANGE, FIRE_RANGE, HEAL_AMOUNT,
};
use crate::dungeon::{map_wf, move_by, moved_by};
use crate::generator::{generate_map, generated};
use crate::skills::{burned, blinded, cast_blind, cast_dd, cast_fire, cast_heal, nearest_target};
use crate::structures::{
    add_clamped, attack_damage, awarded, clamp_i32, clamp_to_i32, damaged, doubled, half_toward_zero,
    healed, lemma_log_extended_refl, log_extended, messages_appended,
    Attackable, DeathCallback, Game, Item, Message, MonsterConfig, Object, Rect, UseResult,
};
use crate::colors::Color;
use crate::structures::logged;
use crate::visibility::FovGrid;

verus! {

/// The player as a new game starts.
pub fn create_player() -> (p: Object)
    ensures
        p.x == 5 && p.y == 5,
        p.symbol == '@',
        p.color == (crate::colors::Color { r: 0, g: 0, b: 255 }),
        p.name@ == "Player"@,
        p.blocks,
        p.alive,
        p.attackable == Some(
            Attackable { max_hp: 100, hp: 100, armor: 6, damage: 10, xp: 0, on_death: DeathCallback::Player },
        ),
        p.ai is None,
        p.item is None,
        !p.always_visible,
        p.level == 1,
{
    let mut player = Object::new(5, 5, '@', blue(), "Player", true);
    player.alive = true;
    player.attackable = Some(
        Attackable { max_hp: 100, hp: 100, armor: 6, damage: 10, xp: 0, on_death: DeathCallback::Player },
    );
    player
}

/// `n` is `o` after object `a` attacked object `t`.
pub open spec fn attack_outcome(o: Seq<Object>, n: Seq<Object>, a: int, t: int) -> bool {
    if attack_damage(o[a], o[t]) > 0 {
        exists|r: Option<i32>|
            #[trigger] damaged(n[t], o[t], attack_damage(o[a], o[t]), r) && n == o.update(t, n[t]).update(
                a,
                awarded(o[a], r),
            )
    } else {
        n == o
    }
}

/// Object `attacker` attacks object `target` of the same list.
pub fn attack_between(attacker: usize, target: usize, game: &mut Game, objects: &mut Vec<Object>)
    requires
        attacker < old(objects)@.len(),
        target < old(objects)@.len(),
        attacker != target,
    ensures
        log_extended(old(game), final(game)),
        attack_outcome(old(objects)@, final(objects)@, attacker as int, target as int),
{
    let ghost o0 = objects@;
    let mut victim = Object::new(0, 0, ' ', black(), "", false);
    std::mem::swap(&mut objects[target], &mut victim);
    assert(victim == o0[target as int]);
    let ghost v0 = victim;
    let ghost a0 = objects@[attacker as int];
    objects[attacker].attack(&mut victim, game);
    std::mem::swap(&mut objects[target], &mut victim);
    proof {
        let d = attack_damage(a0, v0);
        if d > 0 {
            let r = choose|r: Option<i32>| #[trigger] damaged(objects@[target as int], v0, d, r) && objects@[attacker as int] == awarded(a0, r);
            assert(objects@ =~= o0.update(target as int, objects@[target as int]).update(attacker as int, awarded(o0[attacker as int], r)));
        } else {
            assert(objects@ =~= o0);
        }
    }
}

/// The first object other than the player that can fight and stands on `(x, y)`.
pub open spec fn target_at(objects: Seq<Object>, i: int, x: int, y: int) -> bool {
    &&& 1 <= i < objects.len()
    &&& objects[i].attackable is Some
    &&& objects[i].x == x
    &&& objects[i].y == y
}

/// The player moved by `(dx, dy)` where no one stands that can fight, and
/// attacked the first such object otherwise.
pub open spec fn move_or_attack_outcome(o: Seq<Object>, n: Seq<Object>, og: &Game, ng: &Game, dx: int, dy: int) -> bool {
    let tx = o[PLAYER as int].x + dx;
    let ty = o[PLAYER as int].y + dy;
    &&& (forall|i: int| !#[trigger] target_at(o, i, tx, ty)) ==> *ng == *og && moved_by(o, n, &og.map, PLAYER as int, dx, dy)
    &&& forall|t: int|
        #[trigger] target_at(o, t, tx, ty) && (forall|i: int| i < t ==> !#[trigger] target_at(o, i, tx, ty)) ==> log_extended(og, ng)
            && attack_outcome(o, n, PLAYER as int, t)
}

/// Moves the player by `(dx, dy)`, or attacks what stands there.
pub fn player_move_or_attack(dx: i32, dy: i32, game: &mut Game, objects: &mut Vec<Object>)
    requires
        map_wf(&old(game).map),
        old(objects)@.len() >= 1,
    ensures
        move_or_attack_outcome(old(objects)@, final(objects)@, old(game), final(game), dx as int, dy as int),
        final(objects)@.len() == old(objects)@.len(),
        final(game).map == old(game).map,
{
    let tx: i64 = objects[PLAYER].x as i64 + dx as i64;
    let ty: i64 = objects[PLAYER].y as i64 + dy as i64;
    let mut t: usize = 1;
    while t < objects.len() && !(objects[t].attackable.is_some() && objects[t].x as i64 == tx && objects[t].y as i64 == ty)
        invariant
            1 <= t <= objects@.len(),
            tx == objects@[PLAYER as int].x + dx,
            ty == objects@[PLAYER as int].y + dy,
            forall|k: int| k < t ==> !#[trigger] target_at(objects@, k, tx as int, ty as int),
        decreases objects@.len() - t,
    {
        t = t + 1;
    }
    if t < objects.len() {
        let ghost o0 = objects@;
        assert(target_at(o0, t as int, tx as int, ty as int));
        attack_between(PLAYER, t, game, objects);
        assert forall|u: int|
            #[trigger] target_at(o0, u, tx as int, ty as int) && (forall|i: int| i < u ==> !#[trigger] target_at(o0, i, tx as int, ty as int))
                implies u == t by {
            if u > t {
                assert(target_at(o0, t as int, tx as int, ty as int));
            }
        }
    } else {
        assert forall|k: int| !#[trigger] target_at(objects@, k, tx as int, ty as int) by {
            if k >= t {
                assert(!(1 <= k < objects@.len()));
            }
        }
        move_by(PLAYER, dx, dy, &game.map, objects);
    }
}

/// One axis of a step toward a target `a` away on this axis and `b` on
/// the other: the sign of `a` when `|a| / sqrt(a^2 + b^2)` rounds to one,
/// that is when `3 a^2 >= b^2`, and zero otherwise.
pub open spec fn step_of(a: int, b: int) -> int {
    if 3 * a * a >= b * b {
        if a > 0 {
            1
        } else if a < 0 {
            -1
        } else {
            0
        }
    } else {
        0
    }
}

fn step_toward(a: i64, b: i64) -> (r: i32)
    requires
        -0x1_0000_0000 <= a <= 0x1_0000_0000,
        -0x1_0000_0000 <= b <= 0x1_0000_0000,
    ensures
        r == step_of(a as int, b as int),
{
    assert(0 <= a * a <= 0x1_0000_0000 * 0x1_0000_0000) by (nonlinear_arith)
        requires -0x1_0000_0000 <= a <= 0x1_0000_0000;
    assert(0 <= b * b <= 0x1_0000_0000 * 0x1_0000_0000) by (nonlinear_arith)
        requires -0x1_0000_0000 <= b <= 0x1_0000_0000;
    let a2: i128 = a as i128 * a as i128;
    let b2: i128 = b as i128 * b as i128;
    assert(3 * a * a == 3 * a2) by (nonlinear_arith)
        requires a2 == a * a;
    if 3 * a2 >= b2 {
        if a > 0 {
            1
        } else if a < 0 {
            -1
        } else {
            0
        }
    } else {
        0
    }
}

/// Steps object `id` one cell toward `(player_x, player_y)`, each axis
/// being the rounded component of the unit vector toward it.
pub fn monster_move(id: usize, player_x: i32, player_y: i32, map: &Vec<Vec<crate::structures::Tile>>, objects: &mut Vec<Object>)
    requires
        map_wf(map),
        id < old(objects)@.len(),
    ensures
        ({
            let dx = player_x - old(objects)@[id as int].x;
            let dy = player_y - old(objects)@[id as int].y;
            moved_by(old(objects)@, final(objects)@, map, id as int, step_of(dx, dy), step_of(dy, dx))
        }),
{
    let dx: i64 = player_x as i64 - objects[id].x as i64;
    let dy: i64 = player_y as i64 - objects[id].y as i64;
    let sx = step_toward(dx, dy);
    let sy = step_toward(dy, dx);
    move_by(id, sx, sy, map, objects);
}

/// Object `id` went from the floor into the inventory, or stayed where it
/// was when the inventory was full.
pub open spec fn pick_outcome(o: Seq<Object>, n: Seq<Object>, og: &Game, ng: &Game, id: int) -> bool {
    &&& messages_appended(og, ng)
    &&& ng.map == og.map
    &&& ng.level == og.level
    &&& ng.messages@.len() == og.messages@.len() + 1
    &&& og.inventory@.len() >= INVENTORY_CAPACITY ==> {
        &&& n == o && ng.inventory == og.inventory
        &&& ng.messages@.last().1 == (Color { r: 255, g: 0, b: 0 })
        &&& (ng.messages@.last().0 matches Message::InventoryFull { item } && item@ == o[id].name@)
    }
    &&& og.inventory@.len() < INVENTORY_CAPACITY ==> {
        &&& n == o.update(id, o.last()).drop_last()
        &&& ng.inventory@ == og.inventory@.push(o[id])
        &&& ng.messages@.last().1 == (Color { r: 0, g: 255, b: 0 })
        &&& (ng.messages@.last().0 matches Message::PickedUp { item } && item@ == o[id].name@)
    }
}

/// Moves object `object_id` from the floor into the inventory, unless the
/// inventory is full. The last object takes the freed place in the list.
pub fn pick_item_up(object_id: usize, game: &mut Game, objects: &mut Vec<Object>)
    requires
        1 <= object_id < old(objects)@.len(),
    ensures
        pick_outcome(old(objects)@, final(objects)@, old(game), final(game), object_id as int),
{
    let ghost g0 = *game;
    if game.inventory.len() >= INVENTORY_CAPACITY {
        game.messages.add(Message::InventoryFull { item: objects[object_id].name.clone() }, red());
    } else {
        let item = objects.swap_remove(object_id);
        game.messages.add(Message::PickedUp { item: item.name.clone() }, green());
        game.inventory.push(item);
    }
    assert(game.messages@.subrange(0, g0.messages@.len() as int) =~= g0.messages@);
}

/// What using an item of `kind` does to the objects `o`, giving `n`, and
/// whether it was used up.
pub open spec fn item_effect(kind: Item, fov: &FovGrid, o: Seq<Object>, n: Seq<Object>, used: bool) -> bool {
    match kind {
        Item::Heal => match o[PLAYER as int].attackable {
            Some(a) if a.hp != a.max_hp => used && n == o.update(PLAYER as int, healed(o[PLAYER as int], HEAL_AMOUNT as int)),
            _ => !used && n == o,
        },
        Item::DoubleDamage => match o[PLAYER as int].attackable {
            Some(a) if a.armor > 0 => used && n == o.update(PLAYER as int, doubled(o[PLAYER as int])),
            _ => !used && n == o,
        },
        Item::Fire => {
            &&& nearest_target(o, fov, FIRE_RANGE as int, None) ==> !used && n == o
            &&& forall|t: usize|
                #[trigger] nearest_target(o, fov, FIRE_RANGE as int, Some(t)) ==> used && exists|xr: Option<i32>|
                    #[trigger] burned(o, n, t as int, xr)
        },
        Item::Blind => {
            &&& nearest_target(o, fov, BLIND_RANGE as int, None) ==> !used && n == o
            &&& forall|t: usize|
                #[trigger] nearest_target(o, fov, BLIND_RANGE as int, Some(t)) ==> used && n == o.update(
                    t as int,
                    blinded(o[t as int]),
                )
        },
    }
}

/// Inventory item `id` took effect, and left the inventory if used up.
pub open spec fn use_outcome(o: Seq<Object>, n: Seq<Object>, og: &Game, ng: &Game, fov: &FovGrid, id: int) -> bool {
    &&& messages_appended(og, ng)
    &&& ng.map == og.map
    &&& ng.level == og.level
    &&& match og.inventory@[id].item {
        None => {
            &&& n == o && ng.inventory == og.inventory
            &&& ng.messages@.len() == og.messages@.len() + 1
            &&& ng.messages@.last().1 == (Color { r: 255, g: 255, b: 255 })
            &&& (ng.messages@.last().0 matches Message::CannotUse { item } && item@ == og.inventory@[id].name@)
        },
        Some(kind) => exists|used: bool|
            #[trigger] item_effect(kind, fov, o, n, used) && ng.inventory@ == if used {
                og.inventory@.remove(id)
            } else {
                og.inventory@
            } && (!used ==> ng.messages@.last() == (Message::Cancelled, Color { r: 255, g: 255, b: 255 })),
    }
}

/// Uses inventory item `inventory_id`; an item used up leaves the inventory.
pub fn use_item(inventory_id: usize, fov: &FovGrid, game: &mut Game, objects: &mut Vec<Object>)
    requires
        inventory_id < old(game).inventory@.len(),
        old(objects)@.len() >= 1,
    ensures
        use_outcome(old(objects)@, final(objects)@, old(game), final(game), fov, inventory_id as int),
        final(objects)@.len() == old(objects)@.len(),
{
    let ghost g0 = *game;
    let ghost o0 = objects@;
    proof {
        lemma_log_extended_refl(game);
    }
    match game.inventory[inventory_id].item {
        Some(item) => {
            let result = match item {
                Item::Heal => cast_heal(inventory_id, fov, game, objects),
                Item::Fire => cast_fire(inventory_id, fov, game, objects),
                Item::DoubleDamage => cast_dd(inventory_id, fov, game, objects),
                Item::Blind => cast_blind(inventory_id, fov, game, objects),
            };
            let ghost used = result == UseResult::UsedUp;
            assert(item_effect(item, fov, o0, objects@, used));
            let ghost g1 = *game;
            match result {
                UseResult::UsedUp => {
                    game.inventory.remove(inventory_id);
                },
                UseResult::Cancelled => {
                    game.messages.add(Message::Cancelled, white());
                    assert(game.messages@.subrange(0, g1.messages@.len() as int) =~= g1.messages@);
                },
            }
            assert(game.messages@.subrange(0, g0.messages@.len() as int) =~= g1.messages@.subrange(0, g0.messages@.len() as int));
            assert(game.messages@.subrange(0, g0.messages@.len() as int) =~= g0.messages@);
        },
        None => {
            game.messages.add(Message::CannotUse { item: game.inventory[inventory_id].name.clone() }, white());
            assert(game.messages@.subrange(0, g0.messages@.len() as int) =~= g0.messages@);
        },
    }
}

/// `a` strengthened for dungeon level `level`: damage, armor, maximum hit
/// points and experience raised by their per-level amounts times `level`,
/// hit points refilled (each value saturating).
pub open spec fn leveled(a: Attackable, level: int) -> Attackable {
    let max_hp = clamp_i32(a.max_hp + MAX_HP_PER_LEVEL * level) as i32;
    Attackable {
        damage: clamp_i32(a.damage + DAMAGE_PER_LEVEL * level) as i32,
        armor: clamp_i32(a.armor + ARMOR_PER_LEVEL * level) as i32,
        max_hp,
        hp: max_hp,
        xp: clamp_i32(a.xp + XP_PER_LEVEL * level) as i32,
        ..a
    }
}

/// `n` is `o` with every object but the player that can fight strengthened
/// for dungeon level `level`.
pub open spec fn all_leveled(o: Seq<Object>, n: Seq<Object>, level: int) -> bool {
    &&& n.len() == o.len()
    &&& n[PLAYER as int] == o[PLAYER as int]
    &&& forall|i: int|
        1 <= i < o.len() ==> #[trigger] n[i] == match o[i].attackable {
            None => o[i],
            Some(a) => Object { attackable: Some(leveled(a, level)), ..o[i] },
        }
}

fn raised(v: i32, per_level: i32, level: u32) -> (r: i32)
    requires
        0 <= per_level <= 100,
    ensures
        r == clamp_i32(v + per_level * level),
{
    assert(0 <= per_level * level <= 100 * 0xffff_ffff) by (nonlinear_arith)
        requires 0 <= per_level <= 100, 0 <= level <= 0xffff_ffff;
    clamp_to_i32(v as i64 + per_level as i64 * level as i64)
}

/// Strengthens every monster for the current dungeon level.
pub fn monsters_level_up(game: &mut Game, objects: &mut Vec<Object>)
    requires
        old(objects)@.len() >= 1,
    ensures
        *final(game) == *old(game),
        all_leveled(old(objects)@, final(objects)@, old(game).level as int),
{
    let ghost o0 = objects@;
    let level = game.level;
    let mut id: usize = 1;
    while id < objects.len()
        invariant
            1 <= id <= objects@.len(),
            objects@.len() == o0.len(),
            objects@[PLAYER as int] == o0[PLAYER as int],
            forall|i: int|
                1 <= i < o0.len() ==> #[trigger] objects@[i] == if i < id {
                    match o0[i].attackable {
                        None => o0[i],
                        Some(a) => Object { attackable: Some(leveled(a, level as int)), ..o0[i] },
                    }
                } else {
                    o0[i]
                },
        decreases objects@.len() - id,
    {
        if let Some(a) = objects[id].attackable {
            let max_hp = raised(a.max_hp, MAX_HP_PER_LEVEL, level);
            let stronger = Attackable {
                damage: raised(a.damage, DAMAGE_PER_LEVEL, level),
                armor: raised(a.armor, ARMOR_PER_LEVEL, level),
                max_hp,
                hp: max_hp,
                xp: raised(a.xp, XP_PER_LEVEL, level),
                ..a
            };
            objects[id].attackable = Some(stronger);
        }
        id = id + 1;
    }
}

/// The player went down a level: healed by half their maximum hit points
/// and placed on a freshly generated level whose monsters are strengthened
/// for its number; the inventory is kept; the log tells of the rest and of
/// the new level.
pub open spec fn level_transition(o: Seq<Object>, n: Seq<Object>, og: &Game, ng: &Game, monsters: Seq<MonsterConfig>) -> bool {
    &&& ng.messages@.len() == og.messages@.len() + 2
    &&& ng.messages@[og.messages@.len() as int] == (Message::Resting, Color { r: 127, g: 0, b: 255 })
    &&& ng.messages@[og.messages@.len() + 1int] == (Message::NextLevel { dungeon_level: ng.level }, Color { r: 255, g: 0, b: 0 })
    &&& ng.level == og.level + 1
    &&& ng.inventory == og.inventory
    &&& messages_appended(og, ng)
    &&& map_wf(&ng.map)
    &&& ({
        let p = o[PLAYER as int];
        let half = match p.attackable {
            Some(a) => half_toward_zero(a.max_hp as int),
            None => 0,
        };
        n[PLAYER as int] == (Object {
            x: n[PLAYER as int].x,
            y: n[PLAYER as int].y,
            ..healed(p, half)
        })
    })
    &&& exists|rooms: Seq<Rect>, spawned: Seq<Object>|
        #[trigger] generated(&ng.map, rooms, spawned, monsters) && all_leveled(spawned, n, ng.level as int)
}

/// Takes the player down: heals them by half their maximum hit points,
/// counts one more dungeon level, builds a new level around them, and
/// strengthens its monsters for it.
pub fn next_level(game: &mut Game, objects: &mut Vec<Object>, monsters: &[MonsterConfig], rng: &mut StdRng)
    requires
        old(objects)@.len() >= 1,
        old(game).level < u32::MAX,
    ensures
        level_transition(old(objects)@, final(objects)@, old(game), final(game), monsters@),
{
    let ghost g0 = *game;
    game.messages.add(Message::Resting, violet());
    let heal_hp = match objects[PLAYER].attackable {
        Some(a) => if a.max_hp >= 0 {
            a.max_hp / 2
        } else {
            -(((-(a.max_hp as i64)) / 2) as i32)
        },
        None => 0,
    };
    objects[PLAYER].heal(heal_hp);
    game.level = game.level + 1;
    game.messages.add(Message::NextLevel { dungeon_level: game.level }, red());
    let ghost g1 = *game;
    assert(game.messages@.subrange(0, g0.messages@.len() as int) =~= g0.messages@);
    game.map = generate_map(objects, monsters, rng);
    let ghost spawned = objects@;
    let ghost m = game.map;
    monsters_level_up(game, objects);
    proof {
        let rooms = choose|rooms: Seq<Rect>| #[trigger] generated(&m, rooms, spawned, monsters@);
        assert(generated(&game.map, rooms, spawned, monsters@));
    }
}

/// Experience needed to leave character level `level`.
pub open spec fn level_up_xp(level: int) -> int {
    LEVEL_UP_XP_BASE + level * LEVEL_UP_XP_PER_LEVEL
}

/// The object has gathered enough experience to gain a level.
pub open spec fn ready_to_level(o: Object) -> bool {
    match o.attackable {
        Some(a) => a.xp >= level_up_xp(o.level as int),
        None => false,
    }
}

/// `o` after gaining a level with stat `choice` (0: maximum hit points,
/// 1: attack, otherwise defense): the threshold is paid from experience and
/// hit points are refilled. Unchanged when not ready.
pub open spec fn after_level_up(o: Object, choice: int) -> Object {
    match o.attackable {
        Some(a) if ready_to_level(o) => {
            let paid = Attackable { xp: clamp_i32(a.xp - level_up_xp(o.level as int)) as i32, ..a };
            let raised = if choice == 0 {
                Attackable { max_hp: clamp_i32(paid.max_hp + PLAYER_MAX_HP_PER_LEVEL) as i32, ..paid }
            } else if choice == 1 {
                Attackable { damage: clamp_i32(paid.damage + PLAYER_DAMAGE_PER_LEVEL) as i32, ..paid }
            } else {
                Attackable { armor: clamp_i32(paid.armor + PLAYER_ARMOR_PER_LEVEL) as i32, ..paid }
            };
            Object { level: (o.level + 1) as i32, attackable: Some(Attackable { hp: raised.max_hp, ..raised }), ..o }
        },
        _ => o,
    }
}

/// Experience needed to leave character level `level`.
pub fn level_up_threshold(level: i32) -> (r: i64)
    ensures
        r == level_up_xp(level as int),
{
    LEVEL_UP_XP_BASE as i64 + level as i64 * LEVEL_UP_XP_PER_LEVEL as i64
}

/// Whether the player has enough experience to gain a level.
pub fn needs_level_up(objects: &[Object]) -> (r: bool)
    requires
        objects@.len() >= 1,
    ensures
        r == ready_to_level(objects@[PLAYER as int]),
{
    let player = &objects[PLAYER];
    match player.attackable {
        Some(a) => a.xp as i64 >= level_up_threshold(player.level),
        None => false,
    }
}

/// Gains the player a level, raising the stat `choice` (0: maximum hit
/// points, 1: attack, 2: defense), when they have the experience for it.
pub fn level_up(game: &mut Game, objects: &mut Vec<Object>, choice: usize)
    requires
        old(objects)@.len() >= 1,
        choice < 3,
    ensures
        log_extended(old(game), final(game)),
        final(objects)@ == old(objects)@.update(PLAYER as int, after_level_up(old(objects)@[PLAYER as int], choice as int)),
        !ready_to_level(old(objects)@[PLAYER as int]) ==> *final(game) == *old(game),
        ready_to_level(old(objects)@[PLAYER as int]) ==> logged(old(game), final(game), 1)
            && final(game).messages@.last() == (Message::LevelReached { level: (old(objects)@[PLAYER as int].level + 1) as i32 }, Color { r: 255, g: 255, b: 0 }),
{
    proof {
        lemma_log_extended_refl(game);
    }
    let ghost g0 = *game;
    if !needs_level_up(objects.as_slice()) {
        assert(objects@ =~= objects@.update(PLAYER as int, objects@[PLAYER as int]));
        return;
    }
    let threshold = level_up_threshold(objects[PLAYER].level);
    let level = objects[PLAYER].level + 1;
    if let Some(a) = objects[PLAYER].attackable {
        game.messages.add(Message::LevelReached { level }, yellow());
        assert(game.messages@.subrange(0, g0.messages@.len() as int) =~= g0.messages@);
        let paid = Attackable { xp: clamp_to_i32(a.xp as i64 - threshold), ..a };
        let raised = if choice == 0 {
            Attackable { max_hp: add_clamped(paid.max_hp, PLAYER_MAX_HP_PER_LEVEL), ..paid }
        } else if choice == 1 {
            Attackable { damage: add_clamped(paid.damage, PLAYER_DAMAGE_PER_LEVEL), ..paid }
        } else {
            Attackable { armor: add_clamped(paid.armor, PLAYER_ARMOR_PER_LEVEL), ..paid }
        };
        objects[PLAYER].level = level;
        objects[PLAYER].attackable = Some(Attackable { hp: raised.max_hp, ..raised });
    }
}

/// A player whose experience is exactly the threshold gains one level and
/// no more: the experience left is zero, below the next threshold.
pub proof fn lemma_level_up_exact(p: Object, choice: int)
    requires
        p.attackable is Some,
        p.attackable.unwrap().xp == level_up_xp(p.level as int),
        p.level >= -2,
    ensures
        ready_to_level(p),
        after_level_up(p, choice).level == p.level + 1,
        after_level_up(p, choice).attackable.unwrap().xp == 0,
        !ready_to_level(after_level_up(p, choice)),
{
}

} // verus!
