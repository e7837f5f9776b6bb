use rand::rngs::StdRng;
use rand::SeedableRng;

use roguelike::ai::{ai_basic, ai_blind, ai_turn};
use roguelike::colors::{white, Color};
use roguelike::config::{
    BLIND_NUM_TURNS, HEAL_AMOUNT, INVENTORY_CAPACITY, MAP_HEIGHT, MAP_WIDTH, PLAYER,
};
use roguelike::dungeon::{create_hor_tunnel, create_room, create_ver_tunnel, is_blocked, move_by, new_wall_map};
use roguelike::engine::{
    create_player, level_up, level_up_threshold, monster_move, monsters_level_up, needs_level_up,
    next_level, pick_item_up, player_move_or_attack, use_item,
};
use roguelike::generator::{generate_map, item_for_chance, make_item, make_monster, place_spawns, spawn_objects};
use roguelike::monster_table::{is_readable_json_text, monster_table_json, ConfigError};
use roguelike::skills::{cast_blind, cast_dd, cast_fire, cast_heal, closest_monster};
use roguelike::structures::{
    Ai, Attackable, DeathCallback, Game, Item, Message, Messages, MonsterConfig, Object, Rect, Tile,
    TileGrid, UseResult,
};
use roguelike::turn::{handle_command, item_at_player, play_turn, player_on_stairs, Command};
use roguelike::structures::PlayerAction;
use roguelike::visibility::{is_in_fov, objects_to_draw, update_explored, FovGrid};

fn empty_map() -> TileGrid {
    let mut map = new_wall_map();
    create_room(Rect::new(0, 0, MAP_WIDTH - 1, MAP_HEIGHT - 1), &mut map);
    map
}

fn new_game(map: TileGrid) -> Game {
    Game { map, messages: Messages::new(), inventory: vec![], level: 1 }
}

fn full_fov() -> FovGrid {
    vec![vec![true; MAP_HEIGHT as usize]; MAP_WIDTH as usize]
}

fn no_fov() -> FovGrid {
    vec![vec![false; MAP_HEIGHT as usize]; MAP_WIDTH as usize]
}

fn monster_at(x: i32, y: i32, hp: i32, armor: i32, damage: i32, xp: i32) -> Object {
    let mut m = Object::new(x, y, 'o', white(), "orc", true);
    m.alive = true;
    m.attackable = Some(Attackable { max_hp: hp, hp, armor, damage, xp, on_death: DeathCallback::Monster });
    m.ai = Some(Ai::Basic);
    m
}

fn player_at(x: i32, y: i32) -> Object {
    let mut p = create_player();
    p.set_loc(x, y);
    p
}

fn table() -> Vec<MonsterConfig> {
    vec![
        MonsterConfig { symbol: 'o', name: "orc".to_string(), max_hp: 10, damage: 3, armor: 0, r: 0, g: 127, b: 0 },
        MonsterConfig { symbol: 'T', name: "troll".to_string(), max_hp: 16, damage: 4, armor: 1, r: 0, g: 90, b: 0 },
    ]
}

fn hp_of(o: &Object) -> i32 {
    o.attackable.unwrap().hp
}

#[test]
fn tile_constructors() {
    let e = Tile::empty();
    assert!(!e.collision_enabled && !e.is_visible && !e.is_explored);
    let w = Tile::wall();
    assert!(w.collision_enabled && w.is_visible && !w.is_explored);
}

#[test]
fn rect_center_and_intersection() {
    let a = Rect::new(2, 3, 7, 6);
    assert_eq!((a.x2, a.y2), (9, 9));
    assert_eq!(a.center(), (5, 6));
    let b = Rect::new(5, 5, 10, 10);
    assert!(b.is_intersected_with(&a) == (5 <= 9 && 15 >= 9 && 5 <= 9 && 15 >= 3));
    // the test compares both far x edges, so it is not symmetric
    let left = Rect::new(0, 0, 10, 10);
    let inner = Rect::new(2, 2, 3, 3);
    assert!(left.is_intersected_with(&inner));
    assert!(!inner.is_intersected_with(&left));
}

#[test]
fn room_and_tunnels_carve_exactly() {
    let mut map = new_wall_map();
    create_room(Rect::new(10, 10, 6, 5), &mut map);
    assert!(!map[11][11].collision_enabled);
    assert!(!map[15][14].collision_enabled);
    assert!(map[10][11].collision_enabled);
    assert!(map[16][12].collision_enabled);
    assert!(map[12][15].collision_enabled);
    create_hor_tunnel(30, 25, 20, &mut map);
    for x in 25..=30 {
        assert!(!map[x][20].collision_enabled);
    }
    assert!(map[24][20].collision_enabled && map[31][20].collision_enabled);
    create_ver_tunnel(40, 8, 3, &mut map);
    for y in 3..=8 {
        assert!(!map[40][y].collision_enabled);
    }
    assert!(map[40][2].collision_enabled && map[40][9].collision_enabled);
}

#[test]
fn blocked_cells() {
    let map = empty_map();
    let objects = vec![player_at(5, 5), make_item(6, 6, Item::Heal)];
    assert!(is_blocked(5, 5, &map, &objects));
    assert!(!is_blocked(6, 6, &map, &objects));
    assert!(is_blocked(0, 0, &map, &objects));
    assert!(is_blocked(-1, 4, &map, &objects));
    assert!(is_blocked(MAP_WIDTH, 4, &map, &objects));
}

#[test]
fn move_by_respects_walls() {
    let map = empty_map();
    let mut objects = vec![player_at(1, 1)];
    move_by(PLAYER, -1, 0, &map, &mut objects);
    assert_eq!(objects[0].loc(), (1, 1));
    move_by(PLAYER, 1, 1, &map, &mut objects);
    assert_eq!(objects[0].loc(), (2, 2));
}

#[test]
fn attack_reduces_hp_by_damage_minus_armor() {
    let mut game = new_game(empty_map());
    let mut attacker = monster_at(1, 1, 20, 0, 9, 0);
    let mut defender = monster_at(2, 1, 20, 4, 1, 30);
    attacker.attack(&mut defender, &mut game);
    assert_eq!(hp_of(&defender), 15);
    assert!(defender.alive);
    assert_eq!(attacker.attackable.unwrap().xp, 0);
}

#[test]
fn attack_with_weak_damage_does_nothing() {
    let mut game = new_game(empty_map());
    let mut attacker = monster_at(1, 1, 20, 0, 4, 0);
    let mut defender = monster_at(2, 1, 0, 4, 1, 30);
    attacker.attack(&mut defender, &mut game);
    assert_eq!(hp_of(&defender), 0);
    assert!(defender.alive);
    let log = game.messages.iter();
    assert_eq!(log.len(), 1);
    assert!(matches!(log[0].0, Message::ArmorStronger { .. }));
}

#[test]
fn attack_damage_twelve_armor_five_on_ten_hp() {
    let mut game = new_game(empty_map());
    let mut attacker = player_at(1, 1);
    attacker.attackable = Some(Attackable { max_hp: 100, hp: 100, armor: 0, damage: 12, xp: 5, on_death: DeathCallback::Player });
    let mut defender = monster_at(2, 1, 10, 5, 1, 40);
    attacker.attack(&mut defender, &mut game);
    // 12 - 5 = 7 damage: 3 hit points are left and nothing dies
    assert_eq!(hp_of(&defender), 3);
    assert!(defender.alive);
    assert_eq!(attacker.attackable.unwrap().xp, 5);
}

#[test]
fn attack_kills_clamps_and_awards_xp() {
    let mut game = new_game(empty_map());
    let mut attacker = player_at(1, 1);
    attacker.attackable = Some(Attackable { max_hp: 100, hp: 100, armor: 0, damage: 12, xp: 5, on_death: DeathCallback::Player });
    let mut defender = monster_at(2, 1, 10, 5, 1, 40);
    defender.attackable = Some(Attackable { max_hp: 20, hp: 5, armor: 5, damage: 1, xp: 40, on_death: DeathCallback::Monster });
    attacker.attack(&mut defender, &mut game);
    assert!(!defender.alive);
    assert_eq!(defender.attackable, None);
    assert!(defender.ai.is_none());
    assert!(!defender.blocks);
    assert_eq!(defender.symbol, '%');
    assert_eq!(defender.name, "remains of orc");
    assert_eq!(attacker.attackable.unwrap().xp, 45);
}

#[test]
fn get_damage_on_player_keeps_record() {
    let mut game = new_game(empty_map());
    let mut p = player_at(3, 3);
    let r = p.get_damage(500, &mut game);
    assert_eq!(r, Some(0));
    assert!(!p.alive);
    assert_eq!(hp_of(&p), 0);
    assert_eq!(p.symbol, '%');
    assert_eq!(p.color, Color { r: 191, g: 0, b: 0 });
    assert_eq!(p.name, "Player");
    assert!(matches!(game.messages.iter()[0].0, Message::PlayerDied));
}

#[test]
fn heal_caps_at_max() {
    let mut p = player_at(3, 3);
    p.attackable = Some(Attackable { max_hp: 100, hp: 50, armor: 0, damage: 1, xp: 0, on_death: DeathCallback::Player });
    let amounts = [10, 0, 25, 30, 7];
    let mut expected = 50;
    for a in amounts {
        p.heal(a);
        expected = std::cmp::min(100, expected + a);
        assert_eq!(hp_of(&p), expected);
        assert!(hp_of(&p) <= 100);
    }
    assert_eq!(hp_of(&p), 100);
}

#[test]
fn double_damage_halves_armor() {
    let mut p = player_at(3, 3);
    p.attackable = Some(Attackable { max_hp: 10, hp: 10, armor: 7, damage: 6, xp: 0, on_death: DeathCallback::Player });
    p.use_double_damage();
    assert_eq!(p.attackable.unwrap().armor, 3);
    assert_eq!(p.attackable.unwrap().damage, 12);
}

#[test]
fn item_chance_thresholds() {
    assert_eq!(item_for_chance(0), Item::Heal);
    assert_eq!(item_for_chance(24), Item::Heal);
    assert_eq!(item_for_chance(25), Item::Fire);
    assert_eq!(item_for_chance(49), Item::Fire);
    assert_eq!(item_for_chance(50), Item::DoubleDamage);
    assert_eq!(item_for_chance(74), Item::DoubleDamage);
    assert_eq!(item_for_chance(75), Item::Blind);
    assert_eq!(item_for_chance(99), Item::Blind);
}

#[test]
fn monster_from_table_record() {
    let cfg = &table()[1];
    let m = make_monster(4, 5, cfg);
    assert_eq!(m.loc(), (4, 5));
    assert_eq!(m.name, "troll");
    assert_eq!(m.symbol, 'T');
    assert_eq!(m.color, Color { r: 0, g: 90, b: 0 });
    assert!(m.alive && m.blocks);
    assert_eq!(m.attackable, Some(Attackable { max_hp: 16, hp: 16, armor: 1, damage: 4, xp: 75, on_death: DeathCallback::Monster }));
}

#[test]
fn spawned_objects_stay_in_room_on_free_cells() {
    let mut map = new_wall_map();
    let room = Rect::new(10, 10, 8, 7);
    create_room(room, &mut map);
    for seed in 0..40u64 {
        let mut rng = StdRng::seed_from_u64(seed);
        let mut objects = vec![player_at(1, 1)];
        spawn_objects(room, &map, &mut objects, &table(), &mut rng);
        assert!(objects.len() <= 1 + 3 + 2);
        for (i, o) in objects.iter().enumerate().skip(1) {
            assert!(room.x1 <= o.x && o.x <= room.x2 && room.y1 <= o.y && o.y <= room.y2);
            assert!(!map[o.x as usize][o.y as usize].collision_enabled);
            assert!(!is_blocked(o.x, o.y, &map, &objects[..i]));
            assert!(o.item.is_some() || o.attackable.is_some());
        }
    }
}

fn check_generated(map: &TileGrid, objects: &[Object]) {
    assert_eq!(map.len(), MAP_WIDTH as usize);
    assert!(map.iter().all(|c| c.len() == MAP_HEIGHT as usize));
    assert!(objects.len() >= 2);
    let p = &objects[0];
    assert_eq!(p.name, "Player");
    assert!(!map[p.x as usize][p.y as usize].collision_enabled);
    let door = objects.last().unwrap();
    assert_eq!(door.name, "door");
    assert_eq!(door.symbol, '<');
    assert!(door.always_visible && !door.blocks);
    assert!(!map[door.x as usize][door.y as usize].collision_enabled);
    for o in &objects[1..objects.len() - 1] {
        assert!(!map[o.x as usize][o.y as usize].collision_enabled);
    }
    // the outer border is never carved
    for x in 0..MAP_WIDTH as usize {
        assert!(map[x][0].collision_enabled && map[x][MAP_HEIGHT as usize - 1].collision_enabled);
    }
    for y in 0..MAP_HEIGHT as usize {
        assert!(map[0][y].collision_enabled && map[MAP_WIDTH as usize - 1][y].collision_enabled);
    }
}

/// Flood fill over passable cells from `(sx, sy)`.
fn reachable(map: &TileGrid, sx: usize, sy: usize) -> Vec<Vec<bool>> {
    let mut seen = vec![vec![false; MAP_HEIGHT as usize]; MAP_WIDTH as usize];
    let mut stack = vec![(sx, sy)];
    seen[sx][sy] = true;
    while let Some((x, y)) = stack.pop() {
        let steps = [(1i32, 0i32), (-1, 0), (0, 1), (0, -1)];
        for (dx, dy) in steps {
            let nx = x as i32 + dx;
            let ny = y as i32 + dy;
            if nx < 0 || ny < 0 || nx >= MAP_WIDTH || ny >= MAP_HEIGHT {
                continue;
            }
            let (nx, ny) = (nx as usize, ny as usize);
            if !seen[nx][ny] && !map[nx][ny].collision_enabled {
                seen[nx][ny] = true;
                stack.push((nx, ny));
            }
        }
    }
    seen
}

#[test]
fn generation_always_yields_a_room_and_an_exit() {
    for seed in 0..50u64 {
        let mut rng = StdRng::seed_from_u64(seed);
        let mut objects = vec![create_player(), make_item(3, 3, Item::Heal)];
        let map = generate_map(&mut objects, &table(), &mut rng);
        check_generated(&map, &objects);
    }
}

#[test]
fn generated_level_is_connected() {
    for seed in 100..130u64 {
        let mut rng = StdRng::seed_from_u64(seed);
        let mut objects = vec![create_player()];
        let map = generate_map(&mut objects, &table(), &mut rng);
        let p = &objects[0];
        let seen = reachable(&map, p.x as usize, p.y as usize);
        let door = objects.last().unwrap();
        assert!(seen[door.x as usize][door.y as usize]);
        for x in 0..MAP_WIDTH as usize {
            for y in 0..MAP_HEIGHT as usize {
                if !map[x][y].collision_enabled {
                    assert!(seen[x][y], "cell {},{} cut off (seed {})", x, y, seed);
                }
            }
        }
    }
}

#[test]
fn generation_keeps_the_player_record() {
    let mut rng = StdRng::seed_from_u64(9);
    let mut player = create_player();
    player.attackable = Some(Attackable { max_hp: 80, hp: 33, armor: 2, damage: 7, xp: 12, on_death: DeathCallback::Player });
    let mut objects = vec![player];
    let _ = generate_map(&mut objects, &table(), &mut rng);
    assert_eq!(objects[0].attackable.unwrap().hp, 33);
    assert_eq!(objects[0].name, "Player");
}

#[test]
fn explored_is_sticky() {
    let mut map = empty_map();
    let mut fov = no_fov();
    fov[3][4] = true;
    update_explored(&mut map, &fov);
    assert!(map[3][4].is_explored);
    assert!(!map[3][5].is_explored);
    update_explored(&mut map, &no_fov());
    assert!(map[3][4].is_explored);
    fov[3][4] = false;
    fov[10][10] = true;
    update_explored(&mut map, &fov);
    assert!(map[3][4].is_explored && map[10][10].is_explored);
    assert!(!map[3][4].collision_enabled);
}

#[test]
fn fov_lookup_outside_grid_is_false() {
    let fov = full_fov();
    assert!(is_in_fov(&fov, 0, 0));
    assert!(!is_in_fov(&fov, -1, 0));
    assert!(!is_in_fov(&fov, MAP_WIDTH, 0));
}

#[test]
fn draw_order_puts_blockers_last() {
    let mut map = empty_map();
    let mut fov = no_fov();
    fov[2][2] = true;
    fov[4][4] = true;
    let mut item = make_item(7, 7, Item::Fire);
    item.always_visible = true;
    let objects = vec![player_at(2, 2), make_item(4, 4, Item::Heal), item, monster_at(4, 4, 5, 0, 1, 1), monster_at(9, 9, 5, 0, 1, 1)];
    assert_eq!(objects_to_draw(&objects, &map, &fov), vec![1, 0, 3]);
    map[7][7].is_explored = true;
    assert_eq!(objects_to_draw(&objects, &map, &fov), vec![1, 2, 0, 3]);
}

#[test]
fn closest_monster_picks_nearest_in_range() {
    let fov = full_fov();
    let objects = vec![player_at(10, 10), monster_at(14, 10, 5, 0, 1, 1), monster_at(12, 11, 5, 0, 1, 1), monster_at(11, 12, 5, 0, 1, 1)];
    assert_eq!(closest_monster(&fov, &objects, 10), Some(2));
    assert_eq!(closest_monster(&fov, &objects, 1), None);
    assert_eq!(closest_monster(&fov, &objects, 2), Some(2));
    assert_eq!(closest_monster(&no_fov(), &objects, 10), None);
    // exactly at the range is still in range
    let objects = vec![player_at(10, 10), monster_at(13, 10, 5, 0, 1, 1)];
    assert_eq!(closest_monster(&fov, &objects, 3), Some(1));
    assert_eq!(closest_monster(&fov, &objects, 2), None);
}

#[test]
fn heal_item_used_up() {
    let mut game = new_game(empty_map());
    game.inventory.push(make_item(0, 0, Item::Heal));
    let mut player = player_at(5, 5);
    player.attackable = Some(Attackable { max_hp: 100, hp: 50, armor: 0, damage: 1, xp: 0, on_death: DeathCallback::Player });
    let mut objects = vec![player];
    use_item(0, &full_fov(), &mut game, &mut objects);
    assert_eq!(hp_of(&objects[0]), 50 + HEAL_AMOUNT);
    assert_eq!(hp_of(&objects[0]), 60);
    assert!(game.inventory.is_empty());
}

#[test]
fn heal_item_cancelled_at_full_health() {
    let mut game = new_game(empty_map());
    game.inventory.push(make_item(0, 0, Item::Heal));
    let mut objects = vec![player_at(5, 5)];
    use_item(0, &full_fov(), &mut game, &mut objects);
    assert_eq!(hp_of(&objects[0]), 100);
    assert_eq!(game.inventory.len(), 1);
    assert!(matches!(game.messages.iter().last().unwrap().0, Message::Cancelled));
    let r = cast_heal(0, &full_fov(), &mut game, &mut objects);
    assert_eq!(r, UseResult::Cancelled);
}

#[test]
fn double_damage_item() {
    let mut game = new_game(empty_map());
    let mut objects = vec![player_at(5, 5)];
    assert_eq!(cast_dd(0, &full_fov(), &mut game, &mut objects), UseResult::UsedUp);
    assert_eq!(objects[0].attackable.unwrap().armor, 3);
    assert_eq!(objects[0].attackable.unwrap().damage, 20);
    objects[0].attackable = Some(Attackable { armor: 0, ..objects[0].attackable.unwrap() });
    assert_eq!(cast_dd(0, &full_fov(), &mut game, &mut objects), UseResult::Cancelled);
    assert_eq!(objects[0].attackable.unwrap().damage, 20);
}

#[test]
fn fire_kills_and_credits_player() {
    let mut game = new_game(empty_map());
    let mut objects = vec![player_at(5, 5), monster_at(8, 5, 10, 50, 1, 75)];
    assert_eq!(cast_fire(0, &full_fov(), &mut game, &mut objects), UseResult::UsedUp);
    assert!(!objects[1].alive);
    assert_eq!(objects[0].attackable.unwrap().xp, 75);
    assert_eq!(cast_fire(0, &full_fov(), &mut game, &mut objects), UseResult::Cancelled);
}

#[test]
fn fire_wounds_without_kill() {
    let mut game = new_game(empty_map());
    let mut objects = vec![player_at(5, 5), monster_at(8, 5, 25, 50, 1, 75)];
    assert_eq!(cast_fire(0, &full_fov(), &mut game, &mut objects), UseResult::UsedUp);
    assert_eq!(hp_of(&objects[1]), 15);
    assert_eq!(objects[0].attackable.unwrap().xp, 0);
}

#[test]
fn blind_confuses_nearest_target() {
    let mut game = new_game(empty_map());
    let mut objects = vec![player_at(5, 5), monster_at(7, 5, 25, 0, 1, 75), monster_at(20, 5, 25, 0, 1, 75)];
    assert_eq!(cast_blind(0, &full_fov(), &mut game, &mut objects), UseResult::UsedUp);
    match &objects[1].ai {
        Some(Ai::Blind { prev_ai, num_turns }) => {
            assert_eq!(*num_turns, BLIND_NUM_TURNS);
            assert!(matches!(**prev_ai, Ai::Basic));
        }
        _ => panic!("not confused"),
    }
    assert!(matches!(objects[2].ai, Some(Ai::Basic)));
    let mut far = vec![player_at(5, 5), monster_at(20, 5, 25, 0, 1, 75)];
    assert_eq!(cast_blind(0, &full_fov(), &mut game, &mut far), UseResult::Cancelled);
}

#[test]
fn confusion_counts_down_then_restores() {
    let mut game = new_game(empty_map());
    let mut rng = StdRng::seed_from_u64(3);
    let mut monster = monster_at(20, 20, 25, 0, 1, 75);
    let n = 3;
    monster.ai = Some(Ai::Blind { prev_ai: Box::new(Ai::Basic), num_turns: n });
    let mut objects = vec![player_at(5, 5), monster];
    let fov = no_fov();
    for k in 1..=(n + 1) {
        ai_turn(1, &fov, &mut game, &mut objects, &mut rng);
        match &objects[1].ai {
            Some(Ai::Blind { num_turns, .. }) => assert_eq!(*num_turns, n - k),
            _ => panic!("recovered too early"),
        }
        let (x, y) = objects[1].loc();
        assert!((x - 20).abs() <= k && (y - 20).abs() <= k);
    }
    ai_turn(1, &fov, &mut game, &mut objects, &mut rng);
    assert!(matches!(objects[1].ai, Some(Ai::Basic)));
    assert!(matches!(game.messages.iter().last().unwrap().0, Message::NoLongerConfused { .. }));
}

#[test]
fn blind_turn_with_negative_count_returns_previous() {
    let mut game = new_game(empty_map());
    let mut rng = StdRng::seed_from_u64(1);
    let mut objects = vec![player_at(5, 5), monster_at(20, 20, 25, 0, 1, 75)];
    let r = ai_blind(1, &no_fov(), &mut game, &mut objects, Box::new(Ai::Basic), -1, &mut rng);
    assert!(matches!(r, Ai::Basic));
    assert_eq!(objects[1].loc(), (20, 20));
}

#[test]
fn basic_ai_chases_and_attacks() {
    let mut game = new_game(empty_map());
    let fov = full_fov();
    let mut objects = vec![player_at(10, 10), monster_at(15, 12, 10, 0, 8, 10)];
    ai_basic(1, &fov, &mut game, &mut objects);
    assert_eq!(objects[1].loc(), (14, 12));
    let mut objects = vec![player_at(10, 10), monster_at(11, 11, 10, 0, 8, 10)];
    ai_basic(1, &fov, &mut game, &mut objects);
    assert_eq!(objects[1].loc(), (11, 11));
    assert_eq!(hp_of(&objects[0]), 100 - (8 - 6));
    let mut objects = vec![player_at(10, 10), monster_at(15, 12, 10, 0, 8, 10)];
    ai_basic(1, &no_fov(), &mut game, &mut objects);
    assert_eq!(objects[1].loc(), (15, 12));
}

#[test]
fn monster_step_rounds_each_axis() {
    let map = empty_map();
    let mut objects = vec![player_at(10, 10), monster_at(20, 14, 5, 0, 1, 1)];
    monster_move(1, 10, 10, &map, &mut objects);
    // (-10, -4): -10/10.77 rounds to -1, -4/10.77 rounds to 0
    assert_eq!(objects[1].loc(), (19, 14));
    let mut objects = vec![player_at(10, 10), monster_at(15, 15, 5, 0, 1, 1)];
    monster_move(1, 10, 10, &map, &mut objects);
    assert_eq!(objects[1].loc(), (14, 14));
}

#[test]
fn move_or_attack() {
    let mut game = new_game(empty_map());
    let mut objects = vec![player_at(10, 10), monster_at(11, 10, 30, 2, 1, 10)];
    player_move_or_attack(1, 0, &mut game, &mut objects);
    assert_eq!(objects[0].loc(), (10, 10));
    assert_eq!(hp_of(&objects[1]), 30 - (10 - 2));
    player_move_or_attack(0, 1, &mut game, &mut objects);
    assert_eq!(objects[0].loc(), (10, 11));
}

#[test]
fn pick_up_moves_item_to_inventory() {
    let mut game = new_game(empty_map());
    let mut objects = vec![player_at(4, 4), make_item(4, 4, Item::Fire), monster_at(9, 9, 5, 0, 1, 1)];
    assert_eq!(item_at_player(&objects), Some(1));
    pick_item_up(1, &mut game, &mut objects);
    assert_eq!(game.inventory.len(), 1);
    assert_eq!(game.inventory[0].item, Some(Item::Fire));
    assert_eq!(objects.len(), 2);
    assert_eq!(objects[1].name, "orc");
    assert_eq!(item_at_player(&objects), None);
}

#[test]
fn pick_up_refused_when_full() {
    let mut game = new_game(empty_map());
    for _ in 0..INVENTORY_CAPACITY {
        game.inventory.push(make_item(0, 0, Item::Heal));
    }
    let mut objects = vec![player_at(4, 4), make_item(4, 4, Item::Fire)];
    pick_item_up(1, &mut game, &mut objects);
    assert_eq!(game.inventory.len(), INVENTORY_CAPACITY);
    assert_eq!(objects.len(), 2);
    assert!(matches!(game.messages.iter().last().unwrap().0, Message::InventoryFull { .. }));
}

#[test]
fn level_up_at_exact_threshold() {
    let mut game = new_game(empty_map());
    let mut player = create_player();
    let threshold = level_up_threshold(1);
    assert_eq!(threshold, 350);
    player.attackable = Some(Attackable { max_hp: 100, hp: 40, armor: 6, damage: 10, xp: 350, on_death: DeathCallback::Player });
    let mut objects = vec![player];
    assert!(needs_level_up(&objects));
    level_up(&mut game, &mut objects, 0);
    let a = objects[0].attackable.unwrap();
    assert_eq!(objects[0].level, 2);
    assert_eq!(a.xp, 0);
    assert_eq!(a.max_hp, 125);
    assert_eq!(a.hp, 125);
    assert!(!needs_level_up(&objects));
    level_up(&mut game, &mut objects, 1);
    assert_eq!(objects[0].level, 2);
}

#[test]
fn level_up_below_threshold_does_nothing() {
    let mut game = new_game(empty_map());
    let mut player = create_player();
    player.attackable = Some(Attackable { xp: 349, ..player.attackable.unwrap() });
    let mut objects = vec![player];
    assert!(!needs_level_up(&objects));
    level_up(&mut game, &mut objects, 2);
    assert_eq!(objects[0].level, 1);
    assert_eq!(objects[0].attackable.unwrap().xp, 349);
}

#[test]
fn monsters_scale_with_dungeon_level() {
    let mut game = new_game(empty_map());
    game.level = 3;
    let mut objects = vec![player_at(1, 1), monster_at(5, 5, 10, 1, 3, 75), make_item(6, 6, Item::Heal)];
    objects[1].attackable = Some(Attackable { hp: 4, ..objects[1].attackable.unwrap() });
    monsters_level_up(&mut game, &mut objects);
    let a = objects[1].attackable.unwrap();
    assert_eq!((a.damage, a.armor, a.max_hp, a.hp, a.xp), (3 + 6, 1 + 3, 10 + 15, 25, 75 + 60));
    assert_eq!(objects[0].attackable.unwrap().damage, 10);
    assert!(objects[2].attackable.is_none());
}

#[test]
fn next_level_heals_half_and_rebuilds() {
    let mut game = new_game(empty_map());
    let mut rng = StdRng::seed_from_u64(11);
    let mut player = create_player();
    player.attackable = Some(Attackable { hp: 20, ..player.attackable.unwrap() });
    let mut objects = vec![player];
    next_level(&mut game, &mut objects, &table(), &mut rng);
    assert_eq!(game.level, 2);
    assert_eq!(hp_of(&objects[0]), 70);
    check_generated(&game.map, &objects);
    for o in &objects[1..objects.len() - 1] {
        if let Some(a) = o.attackable {
            assert_eq!(a.hp, a.max_hp);
            assert!(a.xp == 75 + 40);
        }
    }
}

#[test]
fn commands_and_turns() {
    let mut game = new_game(empty_map());
    let mut rng = StdRng::seed_from_u64(5);
    let fov = full_fov();
    let mut objects = vec![player_at(10, 10), make_item(10, 10, Item::Heal), monster_at(20, 10, 10, 0, 1, 10)];
    let r = handle_command(Command::PickUp, &fov, &mut game, &mut objects, &table(), &mut rng);
    assert_eq!(r, PlayerAction::TookTurn);
    assert_eq!(game.inventory.len(), 1);
    let r = handle_command(Command::PickUp, &fov, &mut game, &mut objects, &table(), &mut rng);
    assert_eq!(r, PlayerAction::DidnotTakeTurn);
    let r = handle_command(Command::Unknown, &fov, &mut game, &mut objects, &table(), &mut rng);
    assert_eq!(r, PlayerAction::DidnotTakeTurn);
    let r = handle_command(Command::Exit, &fov, &mut game, &mut objects, &table(), &mut rng);
    assert_eq!(r, PlayerAction::Exit);
    let r = play_turn(Command::Move { dx: 1, dy: 0 }, &fov, &mut game, &mut objects, &table(), &mut rng);
    assert_eq!(r, PlayerAction::TookTurn);
    assert_eq!(objects[0].loc(), (11, 10));
    // the monster saw the player and stepped toward them
    assert_eq!(objects[1].loc(), (19, 10));
    assert!(!player_on_stairs(&objects));
    let r = handle_command(Command::Descend, &fov, &mut game, &mut objects, &table(), &mut rng);
    assert_eq!(r, PlayerAction::DidnotTakeTurn);
    assert_eq!(game.level, 1);
}

#[test]
fn descending_on_the_exit() {
    let mut game = new_game(empty_map());
    let mut rng = StdRng::seed_from_u64(21);
    let fov = full_fov();
    let door = Object::new(10, 10, '<', white(), "door", false);
    let mut objects = vec![player_at(10, 10), door];
    assert!(player_on_stairs(&objects));
    let r = handle_command(Command::Descend, &fov, &mut game, &mut objects, &table(), &mut rng);
    assert_eq!(r, PlayerAction::DidnotTakeTurn);
    assert_eq!(game.level, 2);
    check_generated(&game.map, &objects);
}

#[test]
fn dead_player_can_only_quit() {
    let mut game = new_game(empty_map());
    let mut rng = StdRng::seed_from_u64(2);
    let mut objects = vec![player_at(10, 10)];
    objects[0].alive = false;
    let r = handle_command(Command::Move { dx: 1, dy: 0 }, &full_fov(), &mut game, &mut objects, &table(), &mut rng);
    assert_eq!(r, PlayerAction::DidnotTakeTurn);
    assert_eq!(objects[0].loc(), (10, 10));
    let r = handle_command(Command::Exit, &full_fov(), &mut game, &mut objects, &table(), &mut rng);
    assert_eq!(r, PlayerAction::Exit);
}

#[test]
fn monster_table_text_is_extracted() {
    let doc = r#"{"saved_configs":[{"symbol":"o","name":"orc","max_hp":10,"damage":3,"armor":0,"r":0,"g":127,"b":0}]}"#;
    let text = monster_table_json(doc).unwrap();
    assert!(text.starts_with('['));
    assert!(text.ends_with(']'));
    assert!(text.contains("\"orc\""));
    assert_ne!(text, doc);
}

#[test]
fn monster_table_missing_is_an_error() {
    let r = monster_table_json(r#"{"other": 1}"#);
    assert_eq!(r, Err(ConfigError::MissingTable));
}

#[test]
fn stats_saturate_at_the_largest_values() {
    let mut game = new_game(empty_map());
    let mut attacker = monster_at(1, 1, 10, 0, i32::MAX, i32::MAX - 1);
    let mut defender = monster_at(2, 1, i32::MAX, i32::MIN, 1, 40);
    attacker.attack(&mut defender, &mut game);
    assert!(!defender.alive);
    assert_eq!(defender.attackable, None);
    assert_eq!(attacker.attackable.unwrap().xp, i32::MAX);
    attacker.use_double_damage();
    assert_eq!(attacker.attackable.unwrap().damage, i32::MAX);
    let mut p = player_at(3, 3);
    p.attackable = Some(Attackable { max_hp: i32::MAX, hp: i32::MAX - 3, armor: -7, damage: 1, xp: 0, on_death: DeathCallback::Player });
    p.heal(i32::MAX);
    assert_eq!(hp_of(&p), i32::MAX);
    p.use_double_damage();
    assert_eq!(p.attackable.unwrap().armor, -3);
}

#[test]
fn empty_monster_table_spawns_only_items() {
    let mut map = new_wall_map();
    let room = Rect::new(10, 10, 8, 7);
    create_room(room, &mut map);
    for seed in 0..20u64 {
        let mut rng = StdRng::seed_from_u64(seed);
        let mut objects = vec![player_at(1, 1)];
        spawn_objects(room, &map, &mut objects, &[], &mut rng);
        assert!(objects[1..].iter().all(|o| o.item.is_some()));
    }
}

#[test]
fn monster_table_rejects_documents_it_cannot_read() {
    assert_eq!(monster_table_json("{\""), Err(ConfigError::Malformed));
    assert_eq!(monster_table_json("\"{\""), Err(ConfigError::Malformed));
    assert_eq!(monster_table_json("{\"\\"), Err(ConfigError::Malformed));
    assert_eq!(monster_table_json("{\"saved_configs\": \"\\u0041\"}"), Err(ConfigError::Malformed));
    assert_eq!(monster_table_json("{\"a\": 1}}"), Err(ConfigError::MissingTable));
    assert!(is_readable_json_text("  {\"saved_configs\": [{\"name\": \"o}rc\"}]}\n"));
    assert!(!is_readable_json_text("[\"open\"]"));
}

#[test]
fn monster_table_keeps_escaped_names() {
    let doc = r#"{"saved_configs":[{"symbol":"o","name":"Orc \"Big\" \\ one","max_hp":10,"damage":3,"armor":0,"r":0,"g":127,"b":0}]}"#;
    let text = monster_table_json(doc).unwrap();
    assert!(text.starts_with('[') && text.ends_with(']'));
    assert!(text.contains(r#"Orc \"Big\""#));
}

#[test]
fn rect_center_truncates_toward_zero() {
    let r = Rect { x1: -3, y1: -5, x2: 0, y2: 2 };
    assert_eq!(r.center(), (-1, -1));
}

#[test]
fn place_spawns_follows_the_draws() {
    let mut map = new_wall_map();
    let room = Rect::new(10, 10, 8, 7);
    create_room(room, &mut map);
    let mut objects = vec![player_at(1, 1)];
    // a wall cell, a free cell, the same cell again (now taken), another free cell
    let monster_draws = [(10, 12, 0usize), (12, 12, 1), (12, 12, 0), (13, 13, 0)];
    let item_draws = [(14, 14, 10), (13, 13, 60), (15, 12, 99)];
    place_spawns(room, &map, &mut objects, &table(), &monster_draws, &item_draws);
    assert_eq!(objects.len(), 1 + 2 + 2);
    assert_eq!(objects[1].name, "troll");
    assert_eq!(objects[1].loc(), (12, 12));
    assert_eq!(objects[2].name, "orc");
    assert_eq!(objects[2].loc(), (13, 13));
    assert_eq!(objects[3].item, Some(Item::Heal));
    assert_eq!(objects[3].loc(), (14, 14));
    assert_eq!(objects[4].item, Some(Item::Blind));
    assert_eq!(objects[4].loc(), (15, 12));
}

#[test]
fn player_death_is_logged_last() {
    let mut game = new_game(empty_map());
    let mut orc = monster_at(6, 5, 20, 0, 12, 0);
    let mut player = player_at(5, 5);
    player.attackable = Some(Attackable { max_hp: 100, hp: 4, armor: 5, damage: 10, xp: 40, on_death: DeathCallback::Player });
    orc.attack(&mut player, &mut game);
    assert_eq!(hp_of(&player), 0);
    assert!(!player.alive);
    assert_eq!(orc.attackable.unwrap().xp, 40);
    let log = game.messages.iter();
    assert_eq!(log.len(), 3);
    assert!(matches!(log[0].0, Message::Dealt { damage: 7, .. }));
    assert_eq!(log[1], (Message::PlayerDied, Color { r: 255, g: 0, b: 0 }));
    assert_eq!(log[2], (Message::GameOver, Color { r: 255, g: 0, b: 0 }));
}

#[test]
fn level_up_is_logged() {
    let mut game = new_game(empty_map());
    let mut player = create_player();
    player.attackable = Some(Attackable { xp: 350, ..player.attackable.unwrap() });
    let mut objects = vec![player];
    level_up(&mut game, &mut objects, 0);
    assert_eq!(game.messages.iter().last().unwrap(), &(Message::LevelReached { level: 2 }, Color { r: 255, g: 255, b: 0 }));
    let before = game.messages.iter().len();
    level_up(&mut game, &mut objects, 0);
    assert_eq!(game.messages.iter().len(), before);
}

#[test]
fn tile_looks() {
    assert_eq!(roguelike::visibility::tile_look(false, true), roguelike::visibility::TileLook::DarkWall);
    assert_eq!(roguelike::visibility::tile_look(false, false), roguelike::visibility::TileLook::DarkGround);
    assert_eq!(roguelike::visibility::tile_look(true, true), roguelike::visibility::TileLook::LightWall);
    assert_eq!(roguelike::visibility::tile_look(true, false), roguelike::visibility::TileLook::LightGround);
}
