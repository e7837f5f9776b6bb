use vstd::prelude::*;

use crate::colors::{light_blue, light_green, light_orange, light_yellow, red};
use crate::config::{BLIND_NUM_TURNS, BLIND_RANGE, FIRE_DAMAGE, FIRE_RANGE, HEAL_AMOUNT, PLAYER};
use crate::colors::Color;
use crate::structures::{
    death_entries, logged,
    add_clamped, awarded, damaged, dist_sq, doubled, healed, lemma_log_extended_refl,
    lemma_log_extended_trans, log_extended, Ai, Attackable, Game, Message, Object, UseResult,
};
use crate::visibility::{in_fov, is_in_fov, FovGrid};

verus! {

/// Object `i` may be targeted by a spell: not the player, able to fight,
/// acting on its own, and in view.
pub open spec fn eligible_target(objects: Seq<Object>, fov: &FovGrid, i: int) -> bool {
    &&& i != PLAYER
    &&& objects[i].attackable is Some
    &&& objects[i].ai is Some
    &&& in_fov(fov, objects[i].x as int, objects[i].y as int)
}

/// Squared distance from the player to object `i`.
pub open spec fn target_dist(objects: Seq<Object>, i: int) -> int {
    dist_sq(objects[PLAYER as int].x as int, objects[PLAYER as int].y as int, objects[i].x as int, objects[i].y as int)
}

/// Squared distances below this bound are within `range`, i.e. less than
/// `range + 1` away.
pub open spec fn range_bound(range: int) -> int {
    if range + 1 > 0 {
        (range + 1) * (range + 1)
    } else {
        0
    }
}

/// `r` is the nearest eligible target strictly closer than `range + 1`, the
/// first in the list among equals; `None` when there is none.
pub open spec fn nearest_target(objects: Seq<Object>, fov: &FovGrid, range: int, r: Option<usize>) -> bool {
    match r {
        None => forall|i: int|
            0 <= i < objects.len() && #[trigger] eligible_target(objects, fov, i) ==> target_dist(objects, i) >= range_bound(range),
        Some(b) => {
            &&& b < objects.len()
            &&& eligible_target(objects, fov, b as int)
            &&& target_dist(objects, b as int) < range_bound(range)
            &&& forall|i: int|
                0 <= i < objects.len() && #[trigger] eligible_target(objects, fov, i) ==> target_dist(objects, b as int)
                    <= target_dist(objects, i) && (i < b ==> target_dist(objects, b as int) < target_dist(objects, i))
        },
    }
}

/// The nearest monster in view within `max_range`, if any.
pub fn closest_monster(fov: &FovGrid, objects: &[Object], max_range: i32) -> (r: Option<usize>)
    requires
        objects@.len() >= 1,
    ensures
        nearest_target(objects@, fov, max_range as int, r),
{
    let reach: i128 = max_range as i128 + 1;
    let bound: i128 = if reach > 0 {
        assert(reach * reach <= 0x1_0000_0000 * 0x1_0000_0000) by (nonlinear_arith)
            requires 0 < reach <= 0x1_0000_0000;
        reach * reach
    } else {
        0
    };
    let mut closest_enemy: Option<usize> = None;
    let mut closest_dist: i128 = bound;
    let mut id: usize = 0;
    while id < objects.len()
        invariant
            objects@.len() >= 1,
            0 <= id <= objects@.len(),
            bound == range_bound(max_range as int),
            closest_dist <= bound,
            forall|k: int| 0 <= k < id && #[trigger] eligible_target(objects@, fov, k) ==> closest_dist <= target_dist(objects@, k),
            closest_enemy is None ==> closest_dist == bound,
            closest_enemy matches Some(b) ==> {
                &&& b < id
                &&& eligible_target(objects@, fov, b as int)
                &&& closest_dist == target_dist(objects@, b as int)
                &&& closest_dist < bound
                &&& forall|k: int| 0 <= k < b && #[trigger] eligible_target(objects@, fov, k) ==> closest_dist < target_dist(objects@, k)
            },
        decreases objects@.len() - id,
    {
        let object = &objects[id];
        if id != PLAYER && object.attackable.is_some() && object.ai.is_some() && is_in_fov(fov, object.x, object.y) {
            let dist = objects[PLAYER].distance_sq_to(object);
            if dist < closest_dist {
                closest_enemy = Some(id);
                closest_dist = dist;
            }
        }
        id = id + 1;
    }
    closest_enemy
}

/// Heals the player by `HEAL_AMOUNT`, unless already at full health.
pub fn cast_heal(inventory_id: usize, fov: &FovGrid, game: &mut Game, objects: &mut Vec<Object>) -> (r: UseResult)
    requires
        old(objects)@.len() >= 1,
    ensures
        log_extended(old(game), final(game)),
        final(objects)@.len() == old(objects)@.len(),
        match old(objects)@[PLAYER as int].attackable {
            Some(a) if a.hp != a.max_hp => r == UseResult::UsedUp && final(objects)@ == old(objects)@.update(
                PLAYER as int,
                healed(old(objects)@[PLAYER as int], HEAL_AMOUNT as int),
            ),
            _ => r == UseResult::Cancelled && final(objects)@ == old(objects)@,
        },
        match old(objects)@[PLAYER as int].attackable {
            Some(a) if a.hp != a.max_hp => logged(old(game), final(game), 1) && final(game).messages@.last() == (
            Message::Healed { amount: HEAL_AMOUNT }, Color { r: 255, g: 255, b: 63 }),
            Some(a) => logged(old(game), final(game), 1) && final(game).messages@.last() == (
            Message::NoHealNeeded, Color { r: 255, g: 0, b: 0 }),
            None => *final(game) == *old(game),
        },
{
    proof {
        lemma_log_extended_refl(game);
    }
    let ghost g0 = *game;
    if let Some(attackable) = objects[PLAYER].attackable {
        if attackable.hp == attackable.max_hp {
            game.messages.add(Message::NoHealNeeded, red());
            assert(game.messages@.subrange(0, g0.messages@.len() as int) =~= g0.messages@);
            return UseResult::Cancelled;
        }
        game.messages.add(Message::Healed { amount: HEAL_AMOUNT }, light_yellow());
        assert(game.messages@.subrange(0, g0.messages@.len() as int) =~= g0.messages@);
        objects[PLAYER].heal(HEAL_AMOUNT);
        return UseResult::UsedUp;
    }
    UseResult::Cancelled
}

/// Halves the player's armor and doubles their damage, unless the armor is
/// already gone.
pub fn cast_dd(inventory_id: usize, fov: &FovGrid, game: &mut Game, objects: &mut Vec<Object>) -> (r: UseResult)
    requires
        old(objects)@.len() >= 1,
    ensures
        log_extended(old(game), final(game)),
        final(objects)@.len() == old(objects)@.len(),
        match old(objects)@[PLAYER as int].attackable {
            Some(a) if a.armor > 0 => r == UseResult::UsedUp && final(objects)@ == old(objects)@.update(
                PLAYER as int,
                doubled(old(objects)@[PLAYER as int]),
            ),
            _ => r == UseResult::Cancelled && final(objects)@ == old(objects)@,
        },
        match old(objects)@[PLAYER as int].attackable {
            Some(a) if a.armor > 0 => logged(old(game), final(game), 1) && final(game).messages@.last() == (
            Message::DoubleDamageGained, Color { r: 63, g: 63, b: 255 }),
            Some(a) => logged(old(game), final(game), 1) && final(game).messages@.last() == (
            Message::CannotReduceArmor, Color { r: 255, g: 0, b: 0 }),
            None => *final(game) == *old(game),
        },
{
    proof {
        lemma_log_extended_refl(game);
    }
    let ghost g0 = *game;
    if let Some(attackable) = objects[PLAYER].attackable {
        if attackable.armor <= 0 {
            game.messages.add(Message::CannotReduceArmor, red());
            assert(game.messages@.subrange(0, g0.messages@.len() as int) =~= g0.messages@);
            return UseResult::Cancelled;
        }
        game.messages.add(Message::DoubleDamageGained, light_blue());
        assert(game.messages@.subrange(0, g0.messages@.len() as int) =~= g0.messages@);
        objects[PLAYER].use_double_damage();
        return UseResult::UsedUp;
    }
    UseResult::Cancelled
}

/// `n` is `o` after a fire mark burned object `t`, which returned `xr`: the
/// target damaged, the player credited, everything else unchanged.
pub open spec fn burned(o: Seq<Object>, n: Seq<Object>, t: int, xr: Option<i32>) -> bool {
    &&& damaged(n[t], o[t], FIRE_DAMAGE as int, xr)
    &&& n == o.update(t, n[t]).update(PLAYER as int, awarded(o[PLAYER as int], xr))
}

/// Burns the nearest monster in view within `FIRE_RANGE` for `FIRE_DAMAGE`,
/// armor notwithstanding; a kill credits the player with its experience.
pub fn cast_fire(inventory_id: usize, fov: &FovGrid, game: &mut Game, objects: &mut Vec<Object>) -> (r: UseResult)
    requires
        old(objects)@.len() >= 1,
    ensures
        log_extended(old(game), final(game)),
        final(objects)@.len() == old(objects)@.len(),
        nearest_target(old(objects)@, fov, FIRE_RANGE as int, None) ==> r == UseResult::Cancelled && final(objects)@
            == old(objects)@ && logged(old(game), final(game), 1) && final(game).messages@.last() == (
            Message::NoTargetToBurn, Color { r: 255, g: 0, b: 0 }),
        forall|t: usize|
            #[trigger] nearest_target(old(objects)@, fov, FIRE_RANGE as int, Some(t)) ==> r == UseResult::UsedUp
                && exists|xr: Option<i32>| #[trigger] burned(old(objects)@, final(objects)@, t as int, xr)
                && fire_logged(old(game), final(game), old(objects)@[t as int], xr),
{
    proof {
        lemma_log_extended_refl(game);
    }
    let ghost g0 = *game;
    let ghost o0 = objects@;
    let monster_id = closest_monster(fov, objects.as_slice(), FIRE_RANGE);
    proof {
        lemma_nearest_unique(o0, fov, FIRE_RANGE as int, monster_id);
    }
    match monster_id {
        Some(t) => {
            game.messages.add(Message::FireBurns { target: objects[t].name.clone(), damage: FIRE_DAMAGE }, light_orange());
            assert(game.messages@.subrange(0, g0.messages@.len() as int) =~= g0.messages@);
            let ghost g1 = *game;
            let ghost target0 = objects@[t as int];
            let xr = objects[t].get_damage(FIRE_DAMAGE, game);
            proof {
                lemma_log_extended_trans(&g0, &g1, game);
                let at = g0.messages@.len() as int;
                assert(game.messages@.subrange(0, g1.messages@.len() as int)[at] == game.messages@[at]);
                assert(fire_logged(&g0, game, target0, xr));
            }
            let ghost o1 = objects@;
            if let Some(xp) = xr {
                if let Some(a) = objects[PLAYER].attackable {
                    objects[PLAYER].attackable = Some(Attackable { xp: add_clamped(a.xp, xp), ..a });
                }
            }
            assert(objects@ =~= o0.update(t as int, objects@[t as int]).update(PLAYER as int, awarded(o0[PLAYER as int], xr)));
            assert(burned(o0, objects@, t as int, xr));
            UseResult::UsedUp
        },
        None => {
            game.messages.add(Message::NoTargetToBurn, red());
            assert(game.messages@.subrange(0, g0.messages@.len() as int) =~= g0.messages@);
            UseResult::Cancelled
        },
    }
}

/// The log of `ng` is that of `og` with the burn of `target` recorded in
/// light orange, followed by the entries of its death when it died (`xr`
/// is `Some`).
pub open spec fn fire_logged(og: &Game, ng: &Game, target: Object, xr: Option<i32>) -> bool {
    let at = og.messages@.len() as int;
    &&& log_extended(og, ng)
    &&& ng.messages@.len() > at
    &&& ng.messages@[at].1 == (Color { r: 255, g: 159, b: 63 })
    &&& (ng.messages@[at].0 matches Message::FireBurns { target: t, damage } && t@ == target.name@ && damage
        == FIRE_DAMAGE)
    &&& match xr {
        None => ng.messages@.len() == at + 1,
        Some(xp) => death_entries(ng, at + 1, target.name@, target.attackable.unwrap().on_death, xp),
    }
}

/// Confuses the nearest monster in view within `BLIND_RANGE` for
/// `BLIND_NUM_TURNS` turns, keeping its behaviour to come back to.
pub fn cast_blind(inventory_id: usize, fov: &FovGrid, game: &mut Game, objects: &mut Vec<Object>) -> (r: UseResult)
    requires
        old(objects)@.len() >= 1,
    ensures
        log_extended(old(game), final(game)),
        final(objects)@.len() == old(objects)@.len(),
        nearest_target(old(objects)@, fov, BLIND_RANGE as int, None) ==> r == UseResult::Cancelled && final(objects)@
            == old(objects)@ && logged(old(game), final(game), 1) && final(game).messages@.last() == (
            Message::NoTargetToBlind, Color { r: 255, g: 0, b: 0 }),
        forall|t: usize|
            #[trigger] nearest_target(old(objects)@, fov, BLIND_RANGE as int, Some(t)) ==> r == UseResult::UsedUp
                && final(objects)@ == old(objects)@.update(t as int, blinded(old(objects)@[t as int])) && logged(
                old(game),
                final(game),
                1,
            ) && final(game).messages@.last().1 == (Color { r: 63, g: 255, b: 63 })
                && (final(game).messages@.last().0 matches Message::Blinded { target } && target@ == old(objects)@[t as int].name@),
{
    proof {
        lemma_log_extended_refl(game);
    }
    let ghost g0 = *game;
    let ghost o0 = objects@;
    let monster_id = closest_monster(fov, objects.as_slice(), BLIND_RANGE);
    proof {
        lemma_nearest_unique(o0, fov, BLIND_RANGE as int, monster_id);
    }
    match monster_id {
        Some(t) => {
            let old_ai = objects[t].ai.take();
            let prev = match old_ai {
                Some(ai) => ai,
                None => Ai::Basic,
            };
            objects[t].ai = Some(Ai::Blind { prev_ai: Box::new(prev), num_turns: BLIND_NUM_TURNS });
            assert(objects@ =~= o0.update(t as int, blinded(o0[t as int])));
            game.messages.add(Message::Blinded { target: objects[t].name.clone() }, light_green());
            assert(game.messages@.subrange(0, g0.messages@.len() as int) =~= g0.messages@);
            UseResult::UsedUp
        },
        None => {
            game.messages.add(Message::NoTargetToBlind, red());
            assert(game.messages@.subrange(0, g0.messages@.len() as int) =~= g0.messages@);
            UseResult::Cancelled
        },
    }
}

/// `o` confused for `BLIND_NUM_TURNS` turns, its behaviour kept for later.
pub open spec fn blinded(o: Object) -> Object {
    Object {
        ai: Some(
            Ai::Blind {
                prev_ai: Box::new(
                    match o.ai {
                        Some(ai) => ai,
                        None => Ai::Basic,
                    },
                ),
                num_turns: BLIND_NUM_TURNS,
            },
        ),
        ..o
    }
}

/// The nearest target is unique: whatever `r` meets the description is the
/// only value that does.
pub proof fn lemma_nearest_unique(objects: Seq<Object>, fov: &FovGrid, range: int, r: Option<usize>)
    requires
        nearest_target(objects, fov, range, r),
    ensures
        forall|s: Option<usize>| #[trigger] nearest_target(objects, fov, range, s) ==> s == r,
{
    assert forall|s: Option<usize>| #[trigger] nearest_target(objects, fov, range, s) implies s == r by {
        match (r, s) {
            (Some(b), Some(c)) => {
                assert(eligible_target(objects, fov, b as int));
                assert(eligible_target(objects, fov, c as int));
            },
            (Some(b), None) => {
                assert(eligible_target(objects, fov, b as int));
            },
            (None, Some(c)) => {
                assert(eligible_target(objects, fov, c as int));
            },
            (None, None) => {},
        }
    }
}

} // verus!
