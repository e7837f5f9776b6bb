use rand::rngs::StdRng;
use vstd::prelude::*;

use crate::colors::{red, Color};
use crate::config::PLAYER;
use crate::dungeon::{map_wf, move_by, moved_by};
use crate::engine::{attack_between, attack_outcome, monster_move, step_of};
use crate::random::random_in;
use crate::structures::{
    dist_sq, lemma_log_extended_refl, log_extended, logged, Ai, Game, Message, Object,
    TileGrid,
};
use crate::visibility::{in_fov, is_in_fov, FovGrid};

verus! {

/// The behaviour a monster has after one more turn with behaviour `ai`:
/// a confused one counts down while its count is not negative, then gets
/// its previous behaviour back.
pub open spec fn ai_next(ai: Ai) -> Ai {
    match ai {
        Ai::Basic => Ai::Basic,
        Ai::Blind { prev_ai, num_turns } => if num_turns >= 0 {
            Ai::Blind { prev_ai, num_turns: (num_turns - 1) as i32 }
        } else {
            *prev_ai
        },
    }
}

/// The behaviour after `k` turns.
pub open spec fn ai_after(ai: Ai, k: nat) -> Ai
    decreases k,
{
    if k == 0 {
        ai
    } else {
        ai_after(ai_next(ai), (k - 1) as nat)
    }
}

/// A monster confused with count `n` (not negative) counts down by one on
/// each of its next `n + 1` turns, and has its previous behaviour back after
/// `n + 2`.
pub proof fn lemma_confusion_countdown(prev: Ai, n: i32, k: nat)
    requires
        n >= 0,
        k <= n + 1,
    ensures
        ai_after(Ai::Blind { prev_ai: Box::new(prev), num_turns: n }, k) == (Ai::Blind {
            prev_ai: Box::new(prev),
            num_turns: (n - k) as i32,
        }),
        ai_after(Ai::Blind { prev_ai: Box::new(prev), num_turns: n }, (n + 2) as nat) == prev,
{
    lemma_countdown_steps(prev, n as int, k);
    lemma_countdown_ends(prev, n as int);
}

proof fn lemma_countdown_steps(prev: Ai, n: int, k: nat)
    requires
        i32::MIN < n - k,
        n <= i32::MAX,
        n - k >= -1,
    ensures
        ai_after(Ai::Blind { prev_ai: Box::new(prev), num_turns: n as i32 }, k) == (Ai::Blind {
            prev_ai: Box::new(prev),
            num_turns: (n - k) as i32,
        }),
    decreases k,
{
    if k > 0 {
        lemma_countdown_steps(prev, n - 1, (k - 1) as nat);
    }
}

proof fn lemma_countdown_ends(prev: Ai, n: int)
    requires
        -1 <= n <= i32::MAX,
    ensures
        ai_after(Ai::Blind { prev_ai: Box::new(prev), num_turns: n as i32 }, (n + 2) as nat) == prev,
    decreases n + 1,
{
    if n >= 0 {
        lemma_countdown_ends(prev, n - 1);
    } else {
        assert(ai_after(prev, 0) == prev);
    }
}

/// What a chasing monster `id` does: nothing unless it stands in view; at
/// a distance of two or more it steps toward the player; next to a player
/// with hit points left it attacks.
pub open spec fn basic_effect(o: Seq<Object>, n: Seq<Object>, fov: &FovGrid, map: &TileGrid, id: int) -> bool {
    let m = o[id];
    let p = o[PLAYER as int];
    if !in_fov(fov, m.x as int, m.y as int) {
        n == o
    } else if dist_sq(m.x as int, m.y as int, p.x as int, p.y as int) >= 4 {
        moved_by(o, n, map, id, step_of(p.x - m.x, p.y - m.y), step_of(p.y - m.y, p.x - m.x))
    } else if p.attackable is Some && p.attackable.unwrap().hp > 0 {
        attack_outcome(o, n, id, PLAYER as int)
    } else {
        n == o
    }
}

/// What a confused monster `id` with count `num_turns` does: a step of at
/// most one cell each way while the count is not negative, else nothing.
pub open spec fn blind_effect(o: Seq<Object>, n: Seq<Object>, map: &TileGrid, id: int, num_turns: int) -> bool {
    if num_turns >= 0 {
        exists|dx: int, dy: int| -1 <= dx <= 1 && -1 <= dy <= 1 && #[trigger] moved_by(o, n, map, id, dx, dy)
    } else {
        n == o
    }
}

/// What monster `id` with behaviour `ai` does on its turn.
pub open spec fn ai_effect(ai: Ai, o: Seq<Object>, n: Seq<Object>, fov: &FovGrid, map: &TileGrid, id: int) -> bool {
    match ai {
        Ai::Basic => basic_effect(o, n, fov, map, id),
        Ai::Blind { num_turns, .. } => blind_effect(o, n, map, id, num_turns as int),
    }
}

/// One turn of a chasing monster.
pub fn ai_basic(id: usize, fov: &FovGrid, game: &mut Game, objects: &mut Vec<Object>) -> (r: Ai)
    requires
        1 <= id < old(objects)@.len(),
        map_wf(&old(game).map),
    ensures
        r == Ai::Basic,
        log_extended(old(game), final(game)),
        basic_effect(old(objects)@, final(objects)@, fov, &old(game).map, id as int),
        ({
            let m = old(objects)@[id as int];
            let p = old(objects)@[PLAYER as int];
            !in_fov(fov, m.x as int, m.y as int) || dist_sq(m.x as int, m.y as int, p.x as int, p.y as int) >= 4
                || !(p.attackable is Some && p.attackable.unwrap().hp > 0)
        }) ==> *final(game) == *old(game),
{
    proof {
        lemma_log_extended_refl(game);
    }
    let (monster_x, monster_y) = objects[id].loc();
    if is_in_fov(fov, monster_x, monster_y) {
        if objects[id].distance_sq_to(&objects[PLAYER]) >= 4 {
            let (player_x, player_y) = objects[PLAYER].loc();
            monster_move(id, player_x, player_y, &game.map, objects);
        } else {
            let alive = match objects[PLAYER].attackable {
                Some(a) => a.hp > 0,
                None => false,
            };
            if alive {
                attack_between(id, PLAYER, game, objects);
            }
        }
    }
    Ai::Basic
}

/// One turn of a confused monster: a random step while the count lasts,
/// after that its previous behaviour comes back.
pub fn ai_blind(
    id: usize,
    fov: &FovGrid,
    game: &mut Game,
    objects: &mut Vec<Object>,
    previous_ai: Box<Ai>,
    num_turns: i32,
    rng: &mut StdRng,
) -> (r: Ai)
    requires
        id < old(objects)@.len(),
        map_wf(&old(game).map),
    ensures
        r == ai_next(Ai::Blind { prev_ai: previous_ai, num_turns }),
        log_extended(old(game), final(game)),
        num_turns >= 0 ==> *final(game) == *old(game),
        num_turns < 0 ==> logged(old(game), final(game), 1) && final(game).messages@.last().1 == (Color { r: 255, g: 0, b: 0 })
            && (final(game).messages@.last().0 matches Message::NoLongerConfused { name } && name@ == old(objects)@[id as int].name@),
        blind_effect(old(objects)@, final(objects)@, &old(game).map, id as int, num_turns as int),
{
    proof {
        lemma_log_extended_refl(game);
    }
    if num_turns >= 0 {
        let dx = random_in(rng, -1, 2);
        let dy = random_in(rng, -1, 2);
        let ghost o0 = objects@;
        move_by(id, dx, dy, &game.map, objects);
        assert(moved_by(o0, objects@, &game.map, id as int, dx as int, dy as int));
        Ai::Blind { prev_ai: previous_ai, num_turns: num_turns - 1 }
    } else {
        let ghost g0 = *game;
        game.messages.add(Message::NoLongerConfused { name: objects[id].name.clone() }, red());
        assert(game.messages@.subrange(0, g0.messages@.len() as int) =~= g0.messages@);
        *previous_ai
    }
}

/// Object `id` with its behaviour taken out for the length of its turn.
pub open spec fn without_ai(o: Seq<Object>, id: int) -> Seq<Object> {
    o.update(id, Object { ai: None, ..o[id] })
}

/// `n` is `o` after monster `id`'s turn: nothing for an object without
/// behaviour; otherwise its action, with the behaviour moved one turn on.
pub open spec fn ai_step(o: Seq<Object>, n: Seq<Object>, fov: &FovGrid, map: &TileGrid, id: int) -> bool {
    match o[id].ai {
        None => n == o,
        Some(ai) => exists|mid: Seq<Object>|
            #[trigger] ai_effect(ai, without_ai(o, id), mid, fov, map, id) && n == mid.update(
                id,
                Object { ai: Some(ai_next(ai)), ..mid[id] },
            ),
    }
}

/// Lets monster `id` act, and moves its behaviour one turn on.
pub fn ai_turn(id: usize, fov: &FovGrid, game: &mut Game, objects: &mut Vec<Object>, rng: &mut StdRng)
    requires
        1 <= id < old(objects)@.len(),
        map_wf(&old(game).map),
    ensures
        log_extended(old(game), final(game)),
        final(objects)@.len() == old(objects)@.len(),
        ai_step(old(objects)@, final(objects)@, fov, &old(game).map, id as int),
{
    proof {
        lemma_log_extended_refl(game);
    }
    let ghost o0 = objects@;
    let taken = objects[id].ai.take();
    match taken {
        None => {
            assert(objects@ =~= o0);
        },
        Some(ai) => {
            let ghost a0 = ai;
            let ghost t0 = objects@;
            assert(t0 =~= without_ai(o0, id as int));
            let new_ai = match ai {
                Ai::Basic => ai_basic(id, fov, game, objects),
                Ai::Blind { prev_ai, num_turns } => ai_blind(id, fov, game, objects, prev_ai, num_turns, rng),
            };
            let ghost mid = objects@;
            assert(ai_effect(a0, t0, mid, fov, &game.map, id as int));
            objects[id].ai = Some(new_ai);
            assert(objects@ =~= mid.update(id as int, Object { ai: Some(ai_next(a0)), ..mid[id as int] }));
        },
    }
}

} // verus!
