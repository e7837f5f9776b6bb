use vstd::prelude::*;
use vstd::string::*;

use crate::colors::{dark_red, orange, red, white, Color};

verus! {

/// `v` saturated to the range of `i32`.
pub open spec fn clamp_i32(v: int) -> int {
    if v > i32::MAX {
        i32::MAX as int
    } else if v < i32::MIN {
        i32::MIN as int
    } else {
        v
    }
}

/// Narrows a wide integer to `i32`, saturating at the bounds.
pub fn clamp_to_i32(v: i64) -> (r: i32)
    ensures
        r == clamp_i32(v as int),
{
    if v > i32::MAX as i64 {
        i32::MAX
    } else if v < i32::MIN as i64 {
        i32::MIN
    } else {
        v as i32
    }
}

/// Adds two `i32` values, saturating at the bounds.
pub fn add_clamped(a: i32, b: i32) -> (r: i32)
    ensures
        r == clamp_i32(a + b),
{
    clamp_to_i32(a as i64 + b as i64)
}

/// A record of the monster table: the stats a spawned monster starts with.
#[derive(Clone, Debug)]
pub struct MonsterConfig {
    pub symbol: char,
    pub name: String,
    pub max_hp: i32,
    pub damage: i32,
    pub armor: i32,
    pub r: u8,
    pub g: u8,
    pub b: u8,
}

/// The whole monster table, as it is stored.
#[derive(Clone, Debug)]
pub struct MonsterConfigJson {
    pub saved_configs: Vec<MonsterConfig>,
}

/// One cell of the map.
#[derive(Clone, Copy, Debug, PartialEq, Eq, Structural)]
pub struct Tile {
    /// Blocks movement.
    pub collision_enabled: bool,
    /// Belongs to the opaque (wall) class.
    pub is_visible: bool,
    /// Has been in view at least once.
    pub is_explored: bool,
}

impl Tile {
    /// A passable, transparent, unexplored cell.
    pub fn empty() -> (t: Self)
        ensures
            t == empty_tile(),
    {
        Tile { collision_enabled: false, is_visible: false, is_explored: false }
    }

    /// A blocking, opaque, unexplored cell.
    pub fn wall() -> (t: Self)
        ensures
            t == wall_tile(),
    {
        Tile { collision_enabled: true, is_visible: true, is_explored: false }
    }
}

pub open spec fn empty_tile() -> Tile {
    Tile { collision_enabled: false, is_visible: false, is_explored: false }
}

pub open spec fn wall_tile() -> Tile {
    Tile { collision_enabled: true, is_visible: true, is_explored: false }
}

/// An axis-aligned rectangle, from corner `(x1, y1)` to corner `(x2, y2)`.
#[derive(Clone, Copy, Debug, PartialEq, Eq, Structural)]
pub struct Rect {
    pub x1: i32,
    pub y1: i32,
    pub x2: i32,
    pub y2: i32,
}

/// The intersection test used to reject overlapping rooms. It compares the
/// far x edges of both rectangles, so it is not symmetric.
pub open spec fn rects_intersect(a: Rect, b: Rect) -> bool {
    a.x1 <= b.x2 && a.x2 >= b.x2 && a.y1 <= b.y2 && a.y2 >= b.y1
}

/// The midpoint, each coordinate halved toward zero.
pub open spec fn rect_center(r: Rect) -> (int, int) {
    (half_toward_zero(r.x1 + r.x2), half_toward_zero(r.y1 + r.y2))
}

impl Rect {
    pub fn new(x: i32, y: i32, width: i32, height: i32) -> (r: Self)
        requires
            i32::MIN <= x + width <= i32::MAX,
            i32::MIN <= y + height <= i32::MAX,
        ensures
            r == (Rect { x1: x, y1: y, x2: (x + width) as i32, y2: (y + height) as i32 }),
    {
        Rect { x1: x, y1: y, x2: x + width, y2: y + height }
    }

    pub fn is_intersected_with(&self, second_rect: &Rect) -> (r: bool)
        ensures
            r == rects_intersect(*self, *second_rect),
    {
        (self.x1 <= second_rect.x2) && (self.x2 >= second_rect.x2) && (self.y1 <= second_rect.y2)
            && (self.y2 >= second_rect.y1)
    }

    /// The midpoint, each coordinate halved toward zero.
    pub fn center(&self) -> (r: (i32, i32))
        ensures
            r.0 == rect_center(*self).0,
            r.1 == rect_center(*self).1,
    {
        (half_sum(self.x1, self.x2), half_sum(self.y1, self.y2))
    }
}

/// Half of `a + b`, rounded toward zero.
fn half_sum(a: i32, b: i32) -> (r: i32)
    ensures
        r == half_toward_zero(a + b),
{
    let s: i64 = a as i64 + b as i64;
    if s >= 0 {
        (s / 2) as i32
    } else {
        -((-s) / 2) as i32
    }
}

/// What a monster does on its own turn.
#[derive(Debug)]
pub enum Ai {
    /// Chases and attacks the player when the player can see it.
    Basic,
    /// Wanders at random; `prev_ai` comes back once `num_turns` has run below zero.
    Blind { prev_ai: Box<Ai>, num_turns: i32 },
}

/// What happens when an entity's hit points reach zero.
#[derive(Clone, Copy, Debug, PartialEq, Eq, Structural)]
pub enum DeathCallback {
    Player,
    Monster,
}

/// Combat capability: hit points and attack stats.
#[derive(Clone, Copy, Debug, PartialEq, Eq, Structural)]
pub struct Attackable {
    pub max_hp: i32,
    pub hp: i32,
    pub armor: i32,
    pub damage: i32,
    /// Experience awarded for killing this entity, or gathered by the player.
    pub xp: i32,
    pub on_death: DeathCallback,
}

/// Kinds of usable items.
#[derive(Clone, Copy, Debug, PartialEq, Eq, Structural)]
pub enum Item {
    Heal,
    Fire,
    DoubleDamage,
    Blind,
}

/// Whether using an item consumed it.
#[derive(Clone, Copy, Debug, PartialEq, Eq, Structural)]
pub enum UseResult {
    UsedUp,
    Cancelled,
}

/// What a handled key press means for the turn.
#[derive(Clone, Copy, Debug, PartialEq, Eq, Structural)]
pub enum PlayerAction {
    TookTurn,
    DidnotTakeTurn,
    Exit,
}

/// An entry of the message log, kept as data; its text is rendered by the front end.
#[derive(Clone, Debug, PartialEq)]
pub enum Message {
    Welcome,
    Dealt { attacker: String, damage: i32, target: String },
    ArmorStronger { attacker: String, target: String },
    PlayerDied,
    GameOver,
    MonsterDied { name: String, xp: i32 },
    NoHealNeeded,
    Healed { amount: i32 },
    CannotReduceArmor,
    DoubleDamageGained,
    FireBurns { target: String, damage: i32 },
    NoTargetToBurn,
    Blinded { target: String },
    NoTargetToBlind,
    InventoryFull { item: String },
    PickedUp { item: String },
    Cancelled,
    CannotUse { item: String },
    Resting,
    NextLevel { dungeon_level: u32 },
    NoLongerConfused { name: String },
    LevelReached { level: i32 },
}

/// The append-only message log.
pub struct Messages {
    messages: Vec<(Message, Color)>,
}

impl View for Messages {
    type V = Seq<(Message, Color)>;

    closed spec fn view(&self) -> Seq<(Message, Color)> {
        self.messages@
    }
}

impl Messages {
    pub fn new() -> (m: Self)
        ensures
            m@ == Seq::<(Message, Color)>::empty(),
    {
        Messages { messages: Vec::new() }
    }

    pub fn add(&mut self, message: Message, color: Color)
        ensures
            final(self)@ == old(self)@.push((message, color)),
    {
        self.messages.push((message, color));
    }

    /// The entries, oldest first.
    pub fn iter(&self) -> (r: &[(Message, Color)])
        ensures
            r@ == self@,
    {
        self.messages.as_slice()
    }
}

/// The map: a grid of tiles addressed `[x][y]`.
pub type TileGrid = Vec<Vec<Tile>>;

/// The session state besides the objects.
pub struct Game {
    pub map: TileGrid,
    pub messages: Messages,
    pub inventory: Vec<Object>,
    pub level: u32,
}

/// The log of `n` is that of `o` with entries appended.
pub open spec fn messages_appended(o: &Game, n: &Game) -> bool {
    &&& o.messages@.len() <= n.messages@.len()
    &&& n.messages@.subrange(0, o.messages@.len() as int) == o.messages@
}

/// `n` is `o` with entries appended to its log and nothing else changed.
pub open spec fn log_extended(o: &Game, n: &Game) -> bool {
    &&& n.map == o.map
    &&& n.inventory == o.inventory
    &&& n.level == o.level
    &&& messages_appended(o, n)
}

/// `ng` is `og` with exactly `k` entries appended to its log.
pub open spec fn logged(og: &Game, ng: &Game, k: int) -> bool {
    log_extended(og, ng) && ng.messages@.len() == og.messages@.len() + k
}

/// The log of `g` holds, from index `from` to its end, the entries of the
/// death of an object named `name` with death kind `kind`, worth `xp`.
pub open spec fn death_entries(g: &Game, from: int, name: Seq<char>, kind: DeathCallback, xp: i32) -> bool {
    match kind {
        DeathCallback::Player => {
            &&& g.messages@.len() == from + 2
            &&& g.messages@[from] == (Message::PlayerDied, Color { r: 255, g: 0, b: 0 })
            &&& g.messages@[from + 1] == (Message::GameOver, Color { r: 255, g: 0, b: 0 })
        },
        DeathCallback::Monster => {
            &&& g.messages@.len() == from + 1
            &&& g.messages@[from].1 == (Color { r: 255, g: 127, b: 0 })
            &&& (g.messages@[from].0 matches Message::MonsterDied { name: n, xp: x } && n@ == name && x == xp)
        },
    }
}

/// The experience an object's combat record is worth, zero without one.
pub open spec fn xp_of(o: Object) -> i32 {
    match o.attackable {
        Some(a) => a.xp,
        None => 0,
    }
}

pub proof fn lemma_log_extended_refl(g: &Game)
    ensures
        log_extended(g, g),
{
    assert(g.messages@.subrange(0, g.messages@.len() as int) =~= g.messages@);
}

pub proof fn lemma_log_extended_trans(a: &Game, b: &Game, c: &Game)
    requires
        log_extended(a, b),
        log_extended(b, c),
    ensures
        log_extended(a, c),
{
    let la = a.messages@.len() as int;
    assert(c.messages@.subrange(0, la) =~= c.messages@.subrange(0, b.messages@.len() as int).subrange(0, la));
}

/// Any entity of the game: the player, a monster, an item or the exit.
#[derive(Debug)]
pub struct Object {
    pub x: i32,
    pub y: i32,
    pub symbol: char,
    pub color: Color,
    pub name: String,
    pub blocks: bool,
    pub alive: bool,
    pub attackable: Option<Attackable>,
    pub ai: Option<Ai>,
    pub item: Option<Item>,
    pub always_visible: bool,
    pub level: i32,
}

/// Squared Euclidean distance between two cells.
pub open spec fn dist_sq(x1: int, y1: int, x2: int, y2: int) -> int {
    (x2 - x1) * (x2 - x1) + (y2 - y1) * (y2 - y1)
}

/// Hit points left after taking `damage`: unchanged unless `damage` is
/// positive, and never below zero.
pub open spec fn hp_after(hp: int, damage: int) -> int {
    if damage > 0 {
        if hp - damage > 0 {
            hp - damage
        } else {
            0
        }
    } else {
        hp
    }
}

/// Hit points after healing by `amount`, capped at `max_hp`.
pub open spec fn healed_hp(hp: int, max_hp: int, amount: int) -> int {
    let raised = clamp_i32(hp + amount);
    if raised > max_hp {
        max_hp
    } else {
        raised
    }
}

/// Hit points after the first `k` heals of `amounts`, starting from `hp`.
pub open spec fn heal_prefix(hp: int, max_hp: int, amounts: Seq<i32>, k: int) -> int
    decreases k,
{
    if k <= 0 {
        hp
    } else {
        healed_hp(heal_prefix(hp, max_hp, amounts, k - 1), max_hp, amounts[k - 1] as int)
    }
}

/// Over any run of heals, each heal leaves `min(max_hp, hp + amount)` hit
/// points and never more than `max_hp`.
pub proof fn lemma_heals_capped(hp: i32, max_hp: i32, amounts: Seq<i32>, k: int)
    requires
        hp <= max_hp,
        forall|i: int| 0 <= i < amounts.len() ==> #[trigger] amounts[i] >= 0,
        0 <= k < amounts.len(),
    ensures
        hp <= heal_prefix(hp as int, max_hp as int, amounts, k) <= max_hp,
        heal_prefix(hp as int, max_hp as int, amounts, k + 1) == if heal_prefix(hp as int, max_hp as int, amounts, k)
            + amounts[k] > max_hp {
            max_hp as int
        } else {
            heal_prefix(hp as int, max_hp as int, amounts, k) + amounts[k]
        },
        heal_prefix(hp as int, max_hp as int, amounts, k + 1) <= max_hp,
    decreases k,
{
    if k > 0 {
        lemma_heals_capped(hp, max_hp, amounts, k - 1);
    }
}

/// Halves, rounding toward zero.
pub open spec fn half_toward_zero(v: int) -> int {
    if v >= 0 {
        v / 2
    } else {
        -((-v) / 2)
    }
}

/// `a` with its hit points set to `hp`.
pub open spec fn with_hp(a: Attackable, hp: int) -> Attackable {
    Attackable { hp: hp as i32, ..a }
}

/// `n` is the corpse that the death handler of `kind` leaves of `o`.
pub open spec fn corpse_of(n: Object, o: Object, kind: DeathCallback) -> bool {
    &&& n.alive == o.alive
    &&& n.symbol == '%'
    &&& n.color == (Color { r: 191, g: 0, b: 0 })
    &&& n.x == o.x
    &&& n.y == o.y
    &&& n.item == o.item
    &&& n.always_visible == o.always_visible
    &&& n.level == o.level
    &&& match kind {
        DeathCallback::Player => {
            &&& n.name == o.name
            &&& n.blocks == o.blocks
            &&& n.attackable == o.attackable
            &&& n.ai == o.ai
        },
        DeathCallback::Monster => {
            &&& n.name@ == "remains of "@ + o.name@
            &&& !n.blocks
            &&& n.attackable is None
            &&& n.ai is None
        },
    }
}

/// `n` is what `o` becomes when it dies with combat record `a`.
pub open spec fn died(n: Object, o: Object, a: Attackable) -> bool {
    corpse_of(n, Object { alive: false, attackable: Some(a), ..o }, a.on_death)
}

/// `n` is what `o` becomes after taking `damage`, and `r` is what
/// `Object::get_damage` returns for it.
pub open spec fn damaged(n: Object, o: Object, damage: int, r: Option<i32>) -> bool {
    match o.attackable {
        None => n == o && r is None,
        Some(a) => {
            let h = hp_after(a.hp as int, damage);
            if h <= 0 {
                r == Some(a.xp) && died(n, o, with_hp(a, h))
            } else {
                r is None && n == (Object { attackable: Some(with_hp(a, h)), ..o })
            }
        },
    }
}

impl DeathCallback {
    /// Turns `object` into a corpse of its kind.
    pub fn callback(self, object: &mut Object, game: &mut Game)
        ensures
            log_extended(old(game), final(game)),
            death_entries(final(game), old(game).messages@.len() as int, old(object).name@, self, xp_of(*old(object))),
            corpse_of(*final(object), *old(object), self),
    {
        match self {
            DeathCallback::Player => player_death(object, game),
            DeathCallback::Monster => monster_death(object, game),
        }
    }
}

fn player_death(player: &mut Object, game: &mut Game)
    ensures
        log_extended(old(game), final(game)),
        death_entries(final(game), old(game).messages@.len() as int, old(player).name@, DeathCallback::Player, 0),
        *final(player) == (Object { symbol: '%', color: Color { r: 191, g: 0, b: 0 }, ..*old(player) }),
{
    proof {
        lemma_log_extended_refl(game);
    }
    let ghost g0 = *game;
    game.messages.add(Message::PlayerDied, red());
    game.messages.add(Message::GameOver, red());
    assert(game.messages@.subrange(0, g0.messages@.len() as int) =~= g0.messages@);
    player.symbol = '%';
    player.color = dark_red();
}

fn monster_death(monster: &mut Object, game: &mut Game)
    ensures
        log_extended(old(game), final(game)),
        death_entries(final(game), old(game).messages@.len() as int, old(monster).name@, DeathCallback::Monster, xp_of(*old(monster))),
        final(monster).name@ == "remains of "@ + old(monster).name@,
        *final(monster) == (Object {
            symbol: '%',
            color: Color { r: 191, g: 0, b: 0 },
            blocks: false,
            attackable: None,
            ai: None,
            name: final(monster).name,
            ..*old(monster)
        }),
{
    let ghost g0 = *game;
    let xp = match monster.attackable {
        Some(a) => a.xp,
        None => 0,
    };
    game.messages.add(Message::MonsterDied { name: monster.name.clone(), xp }, orange());
    assert(game.messages@.subrange(0, g0.messages@.len() as int) =~= g0.messages@);
    monster.symbol = '%';
    monster.color = dark_red();
    monster.blocks = false;
    monster.attackable = None;
    monster.ai = None;
    let prefix = String::from_str("remains of ");
    monster.name = prefix.concat(monster.name.as_str());
}

} // verus!

verus! {

impl Object {
    /// A fresh object: not alive, with no combat, behaviour or item.
    pub fn new(x: i32, y: i32, symbol: char, color: Color, name: &str, blocks: bool) -> (o: Self)
        ensures
            o.x == x,
            o.y == y,
            o.symbol == symbol,
            o.color == color,
            o.name@ == name@,
            o.blocks == blocks,
            !o.alive,
            o.attackable is None,
            o.ai is None,
            o.item is None,
            !o.always_visible,
            o.level == 1,
    {
        Object {
            x,
            y,
            symbol,
            color,
            name: String::from_str(name),
            blocks,
            alive: false,
            attackable: None,
            ai: None,
            item: None,
            always_visible: false,
            level: 1,
        }
    }

    pub fn loc(&self) -> (r: (i32, i32))
        ensures
            r == (self.x, self.y),
    {
        (self.x, self.y)
    }

    pub fn set_loc(&mut self, x: i32, y: i32)
        ensures
            *final(self) == (Object { x, y, ..*old(self) }),
    {
        self.x = x;
        self.y = y;
    }

    /// The squared Euclidean distance to `target`; comparing these orders
    /// objects exactly as comparing true distances does.
    pub fn distance_sq_to(&self, target: &Object) -> (r: i128)
        ensures
            r == dist_sq(self.x as int, self.y as int, target.x as int, target.y as int),
    {
        let dx = target.x as i128 - self.x as i128;
        let dy = target.y as i128 - self.y as i128;
        assert(0 <= dx * dx <= 0x1_0000_0000 * 0x1_0000_0000) by (nonlinear_arith)
            requires -0x1_0000_0000 <= dx <= 0x1_0000_0000;
        assert(0 <= dy * dy <= 0x1_0000_0000 * 0x1_0000_0000) by (nonlinear_arith)
            requires -0x1_0000_0000 <= dy <= 0x1_0000_0000;
        dx * dx + dy * dy
    }

    /// Takes `damage` hit points (none unless positive, never below zero).
    /// When hit points are then at or below zero the object dies and the
    /// experience it is worth is returned.
    pub fn get_damage(&mut self, damage: i32, game: &mut Game) -> (r: Option<i32>)
        ensures
            damaged(*final(self), *old(self), damage as int, r),
            log_extended(old(game), final(game)),
            r is None ==> *final(game) == *old(game),
            r matches Some(xp) ==> death_entries(
                final(game),
                old(game).messages@.len() as int,
                old(self).name@,
                old(self).attackable.unwrap().on_death,
                xp,
            ),
    {
        proof {
            lemma_log_extended_refl(game);
        }
        match self.attackable {
            None => None,
            Some(a) => {
                let hp: i32 = if damage > 0 {
                    if a.hp as i64 - damage as i64 > 0 {
                        a.hp - damage
                    } else {
                        0
                    }
                } else {
                    a.hp
                };
                self.attackable = Some(Attackable { hp, ..a });
                if hp <= 0 {
                    self.alive = false;
                    a.on_death.callback(self, game);
                    Some(a.xp)
                } else {
                    None
                }
            },
        }
    }

    /// Hits `target` for this object's damage less the target's armor. When
    /// the blow kills, the experience the target was worth is added to this
    /// object's own.
    pub fn attack(&mut self, target: &mut Object, game: &mut Game)
        ensures
            log_extended(old(game), final(game)),
            ({
                let d = attack_damage(*old(self), *old(target));
                if d > 0 {
                    exists|r: Option<i32>|
                        {
                            &&& #[trigger] damaged(*final(target), *old(target), d, r)
                            &&& *final(self) == awarded(*old(self), r)
                            &&& blow_logged(old(game), final(game), *old(self), *old(target), d, r)
                        }
                } else {
                    &&& *final(target) == *old(target) && *final(self) == *old(self)
                    &&& logged(old(game), final(game), 1)
                    &&& final(game).messages@.last().1 == (Color { r: 255, g: 255, b: 255 })
                    &&& (final(game).messages@.last().0 matches Message::ArmorStronger { attacker, target: t }
                        && attacker@ == old(self).name@ && t@ == old(target).name@)
                }
            }),
    {
        let own = match self.attackable {
            Some(a) => a.damage,
            None => 0,
        };
        let armor = match target.attackable {
            Some(a) => a.armor,
            None => 0,
        };
        let damage: i64 = own as i64 - armor as i64;
        let ghost g0 = *game;
        if damage > 0 {
            let dealt = clamp_to_i32(damage);
            game.messages.add(
                Message::Dealt { attacker: self.name.clone(), damage: dealt, target: target.name.clone() },
                white(),
            );
            assert(game.messages@.subrange(0, g0.messages@.len() as int) =~= g0.messages@);
            let ghost g1 = *game;
            let r = target.get_damage(dealt, game);
            proof {
                lemma_log_extended_trans(&g0, &g1, game);
                lemma_damage_saturates(dealt as int, damage as int, *old(target), *target, r);
                let at = g0.messages@.len() as int;
                assert(game.messages@.subrange(0, g1.messages@.len() as int)[at] == game.messages@[at]);
                assert(g1.messages@[at] == game.messages@[at]);
                assert(blow_logged(&g0, game, *old(self), *old(target), damage as int, r));
            }
            if let Some(xp) = r {
                if let Some(a) = self.attackable {
                    self.attackable = Some(Attackable { xp: add_clamped(a.xp, xp), ..a });
                }
            }
        } else {
            game.messages.add(
                Message::ArmorStronger { attacker: self.name.clone(), target: target.name.clone() },
                white(),
            );
            assert(game.messages@.subrange(0, g0.messages@.len() as int) =~= g0.messages@);
        }
    }

    /// Restores `amount` hit points, never above the maximum.
    pub fn heal(&mut self, amount: i32)
        ensures
            *final(self) == healed(*old(self), amount as int),
    {
        if let Some(a) = self.attackable {
            let raised = add_clamped(a.hp, amount);
            let hp = if raised > a.max_hp {
                a.max_hp
            } else {
                raised
            };
            self.attackable = Some(Attackable { hp, ..a });
        }
    }

    /// Halves armor (toward zero) and doubles damage, for good.
    pub fn use_double_damage(&mut self)
        ensures
            *final(self) == doubled(*old(self)),
    {
        if let Some(a) = self.attackable {
            let armor = if a.armor >= 0 {
                a.armor / 2
            } else {
                -((-(a.armor as i64)) / 2) as i32
            };
            let damage = clamp_to_i32(2 * a.damage as i64);
            self.attackable = Some(Attackable { armor, damage, ..a });
        }
    }
}

/// `o` healed by `amount`.
pub open spec fn healed(o: Object, amount: int) -> Object {
    match o.attackable {
        None => o,
        Some(a) => Object { attackable: Some(with_hp(a, healed_hp(a.hp as int, a.max_hp as int, amount))), ..o },
    }
}

/// `o` with armor halved toward zero and damage doubled (saturating).
pub open spec fn doubled(o: Object) -> Object {
    match o.attackable {
        None => o,
        Some(a) => Object {
            attackable: Some(
                Attackable { armor: half_toward_zero(a.armor as int) as i32, damage: clamp_i32(2 * a.damage) as i32, ..a },
            ),
            ..o
        },
    }
}

/// The log of `ng` is that of `og` with the blow of `attacker` on `target`
/// for `d` recorded in white, followed by the entries of the target's death
/// when the blow killed it (`r` is `Some`).
pub open spec fn blow_logged(og: &Game, ng: &Game, attacker: Object, target: Object, d: int, r: Option<i32>) -> bool {
    let at = og.messages@.len() as int;
    &&& log_extended(og, ng)
    &&& ng.messages@.len() > at
    &&& ng.messages@[at].1 == (Color { r: 255, g: 255, b: 255 })
    &&& (ng.messages@[at].0 matches Message::Dealt { attacker: a, damage: x, target: t } && a@ == attacker.name@ && x
        == clamp_i32(d) && t@ == target.name@)
    &&& match r {
        None => ng.messages@.len() == at + 1,
        Some(xp) => death_entries(ng, at + 1, target.name@, target.attackable.unwrap().on_death, xp),
    }
}

/// Damage of `attacker`'s blow on `target`: its damage less the target's
/// armor, a missing combat record counting as zero.
pub open spec fn attack_damage(attacker: Object, target: Object) -> int {
    let d = match attacker.attackable {
        Some(a) => a.damage as int,
        None => 0,
    };
    let ar = match target.attackable {
        Some(a) => a.armor as int,
        None => 0,
    };
    d - ar
}

/// `o` after being credited with the experience in `r`, if any.
pub open spec fn awarded(o: Object, r: Option<i32>) -> Object {
    match (r, o.attackable) {
        (Some(xp), Some(a)) => Object {
            attackable: Some(Attackable { xp: clamp_i32(a.xp + xp) as i32, ..a }),
            ..o
        },
        _ => o,
    }
}

/// Damage beyond what fits in `i32` has the same effect as the largest `i32`.
proof fn lemma_damage_saturates(dealt: int, damage: int, o: Object, n: Object, r: Option<i32>)
    requires
        damage > 0,
        dealt == clamp_i32(damage),
        damaged(n, o, dealt, r),
    ensures
        damaged(n, o, damage, r),
{
    if let Some(a) = o.attackable {
        assert(hp_after(a.hp as int, dealt) == hp_after(a.hp as int, damage));
    }
}

} // verus!
