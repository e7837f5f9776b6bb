use rand::rngs::StdRng;
use vstd::prelude::*;

use crate::ai::{ai_step, ai_turn};
use crate::config::PLAYER;
use crate::dungeon::map_wf;
use crate::engine::{
    level_transition, move_or_attack_outcome, next_level, pick_item_up, pick_outcome, player_move_or_attack, use_item,
    use_outcome,
};
use crate::structures::{
    lemma_log_extended_refl, lemma_log_extended_trans, log_extended, Game, MonsterConfig, Object,
    PlayerAction, TileGrid,
};
use crate::visibility::FovGrid;

verus! {

/// One action asked for by the player.
#[derive(Clone, Copy, Debug, PartialEq, Eq, Structural)]
pub enum Command {
    Exit,
    Descend,
    ShowInfo,
    Move { dx: i32, dy: i32 },
    PickUp,
    /// Use the inventory item of this index; `None` when nothing was chosen.
    UseItem { index: Option<usize> },
    Unknown,
}

/// Object `i` shares the player's cell.
pub open spec fn at_player(objects: Seq<Object>, i: int) -> bool {
    objects[i].x == objects[PLAYER as int].x && objects[i].y == objects[PLAYER as int].y
}

/// Object `i` is the exit and the player stands on it.
pub open spec fn exit_under_player(objects: Seq<Object>, i: int) -> bool {
    0 <= i < objects.len() && at_player(objects, i) && objects[i].name@ == "door"@
}

/// Object `i` is the first item, after the player, lying on the player's cell.
pub open spec fn first_item_under_player(objects: Seq<Object>, i: int) -> bool {
    &&& 1 <= i < objects.len()
    &&& at_player(objects, i)
    &&& objects[i].item is Some
    &&& forall|k: int| 1 <= k < i ==> !(at_player(objects, k) && (#[trigger] objects[k]).item is Some)
}

/// Whether the player stands on the exit.
pub fn player_on_stairs(objects: &[Object]) -> (r: bool)
    requires
        objects@.len() >= 1,
    ensures
        r == exists|i: int| #[trigger] exit_under_player(objects@, i),
{
    let door = String::from_str("door");
    let mut i: usize = 0;
    while i < objects.len()
        invariant
            0 <= i <= objects@.len(),
            objects@.len() >= 1,
            door@ == "door"@,
            forall|k: int| 0 <= k < i ==> !#[trigger] exit_under_player(objects@, k),
        decreases objects@.len() - i,
    {
        if objects[i].x == objects[PLAYER].x && objects[i].y == objects[PLAYER].y && objects[i].name == door {
            assert(exit_under_player(objects@, i as int));
            return true;
        }
        i = i + 1;
    }
    false
}

/// The first item lying on the player's cell, if any.
pub fn item_at_player(objects: &[Object]) -> (r: Option<usize>)
    requires
        objects@.len() >= 1,
    ensures
        r matches Some(i) ==> first_item_under_player(objects@, i as int),
        r is None ==> forall|i: int| 1 <= i < objects@.len() ==> !(at_player(objects@, i) && (#[trigger] objects@[i]).item is Some),
{
    let mut i: usize = 1;
    while i < objects.len()
        invariant
            1 <= i <= objects@.len(),
            forall|k: int| 1 <= k < i ==> !(at_player(objects@, k) && (#[trigger] objects@[k]).item is Some),
        decreases objects@.len() - i,
    {
        if objects[i].x == objects[PLAYER].x && objects[i].y == objects[PLAYER].y && objects[i].item.is_some() {
            return Some(i);
        }
        i = i + 1;
    }
    None
}

/// What the player's `command` did: objects `o` became `n`, the game `og`
/// became `ng`, and `r` says whether it took a turn.
pub open spec fn command_outcome(
    command: Command,
    fov: &FovGrid,
    o: Seq<Object>,
    n: Seq<Object>,
    og: &Game,
    ng: &Game,
    monsters: Seq<MonsterConfig>,
    r: PlayerAction,
) -> bool {
    let unchanged = n == o && *ng == *og;
    if command == Command::Exit {
        r == PlayerAction::Exit && unchanged
    } else if !o[PLAYER as int].alive {
        r == PlayerAction::DidnotTakeTurn && unchanged
    } else {
        match command {
            Command::Move { dx, dy } => r == PlayerAction::TookTurn && move_or_attack_outcome(
                o,
                n,
                og,
                ng,
                dx as int,
                dy as int,
            ),
            Command::PickUp => {
                &&& (forall|i: int| #[trigger] first_item_under_player(o, i) ==> r == PlayerAction::TookTurn
                    && pick_outcome(o, n, og, ng, i))
                &&& (forall|i: int| 1 <= i < o.len() ==> !(at_player(o, i) && (#[trigger] o[i]).item is Some))
                    ==> r == PlayerAction::DidnotTakeTurn && unchanged
            },
            Command::UseItem { index } => match index {
                Some(i) if i < og.inventory@.len() => r == PlayerAction::TookTurn && use_outcome(
                    o,
                    n,
                    og,
                    ng,
                    fov,
                    i as int,
                ),
                _ => r == PlayerAction::DidnotTakeTurn && unchanged,
            },
            Command::Descend => {
                &&& r == PlayerAction::DidnotTakeTurn
                &&& (exists|i: int| #[trigger] exit_under_player(o, i)) && og.level < u32::MAX
                    ==> level_transition(o, n, og, ng, monsters)
                &&& !((exists|i: int| #[trigger] exit_under_player(o, i)) && og.level < u32::MAX) ==> unchanged
            },
            _ => r == PlayerAction::DidnotTakeTurn && unchanged,
        }
    }
}

/// Carries out one command of the player. Only `Exit` works once the player
/// is dead. Moving, attacking, picking up and using an item take a turn;
/// the rest does not.
pub fn handle_command(
    command: Command,
    fov: &FovGrid,
    game: &mut Game,
    objects: &mut Vec<Object>,
    monsters: &[MonsterConfig],
    rng: &mut StdRng,
) -> (r: PlayerAction)
    requires
        old(objects)@.len() >= 1,
        map_wf(&old(game).map),
    ensures
        final(objects)@.len() >= 1,
        map_wf(&final(game).map),
        command_outcome(command, fov, old(objects)@, final(objects)@, old(game), final(game), monsters@, r),
{
    if command == Command::Exit {
        return PlayerAction::Exit;
    }
    if !objects[PLAYER].alive {
        return PlayerAction::DidnotTakeTurn;
    }
    match command {
        Command::Move { dx, dy } => {
            player_move_or_attack(dx, dy, game, objects);
            PlayerAction::TookTurn
        },
        Command::PickUp => {
            match item_at_player(objects.as_slice()) {
                Some(item_id) => {
                    let ghost o0 = objects@;
                    pick_item_up(item_id, game, objects);
                    proof {
                        assert forall|i: int| #[trigger] first_item_under_player(o0, i) implies i == item_id by {
                            if i < item_id {
                                assert(!(at_player(o0, i) && o0[i].item is Some));
                            } else if i > item_id {
                                assert(!(at_player(o0, item_id as int) && o0[item_id as int].item is Some));
                            }
                        }
                    }
                    PlayerAction::TookTurn
                },
                None => PlayerAction::DidnotTakeTurn,
            }
        },
        Command::UseItem { index } => {
            match index {
                Some(i) => {
                    if i < game.inventory.len() {
                        use_item(i, fov, game, objects);
                        PlayerAction::TookTurn
                    } else {
                        PlayerAction::DidnotTakeTurn
                    }
                },
                None => PlayerAction::DidnotTakeTurn,
            }
        },
        Command::Descend => {
            if player_on_stairs(objects.as_slice()) && game.level < u32::MAX {
                next_level(game, objects, monsters, rng);
            }
            PlayerAction::DidnotTakeTurn
        },
        _ => PlayerAction::DidnotTakeTurn,
    }
}

/// `states` runs through the monsters' turns: `states[i + 1]` is
/// `states[i]` after the turn of object `i`, from object 1 to the last.
pub open spec fn ai_round(states: Seq<Seq<Object>>, fov: &FovGrid, map: &TileGrid, n: int) -> bool {
    &&& states.len() == n + 1
    &&& forall|i: int| 1 <= i < n ==> #[trigger] ai_step(states[i], states[i + 1], fov, map, i)
}

/// Gives every object that acts on its own its turn, in list order.
pub fn run_ai_turns(fov: &FovGrid, game: &mut Game, objects: &mut Vec<Object>, rng: &mut StdRng)
    requires
        old(objects)@.len() >= 1,
        map_wf(&old(game).map),
    ensures
        log_extended(old(game), final(game)),
        final(objects)@.len() == old(objects)@.len(),
        exists|states: Seq<Seq<Object>>|
            #[trigger] ai_round(states, fov, &old(game).map, old(objects)@.len() as int) && states[1] == old(objects)@
                && states[old(objects)@.len() as int] == final(objects)@,
{
    proof {
        lemma_log_extended_refl(game);
    }
    let ghost g0 = *game;
    let ghost n = objects@.len() as int;
    let ghost mut states: Seq<Seq<Object>> = seq![objects@, objects@];
    let mut id: usize = 1;
    while id < objects.len()
        invariant
            1 <= id <= n,
            objects@.len() == n,
            map_wf(&game.map),
            game.map == g0.map,
            log_extended(&g0, game),
            states.len() == id + 1,
            states[1] == old(objects)@,
            states[id as int] == objects@,
            forall|i: int| 1 <= i < id ==> #[trigger] ai_step(states[i], states[i + 1], fov, &g0.map, i),
        decreases n - id,
    {
        let ghost before = *game;
        if objects[id].ai.is_some() {
            ai_turn(id, fov, game, objects, rng);
            proof {
                lemma_log_extended_trans(&g0, &before, game);
            }
        }
        proof {
            states = states.push(objects@);
        }
        id = id + 1;
    }
    proof {
        assert(ai_round(states, fov, &g0.map, n));
    }
}

/// One full turn: the player's command, then, when it took a turn and the
/// player is alive, every monster's turn.
pub fn play_turn(
    command: Command,
    fov: &FovGrid,
    game: &mut Game,
    objects: &mut Vec<Object>,
    monsters: &[MonsterConfig],
    rng: &mut StdRng,
) -> (r: PlayerAction)
    requires
        old(objects)@.len() >= 1,
        map_wf(&old(game).map),
    ensures
        final(objects)@.len() >= 1,
        map_wf(&final(game).map),
        exists|mid: Seq<Object>, mid_game: Game|
            #[trigger] command_outcome(command, fov, old(objects)@, mid, old(game), &mid_game, monsters@, r) && if r
                == PlayerAction::TookTurn && mid[PLAYER as int].alive {
                &&& log_extended(&mid_game, final(game))
                &&& exists|states: Seq<Seq<Object>>|
                    #[trigger] ai_round(states, fov, &mid_game.map, mid.len() as int) && states[1] == mid
                        && states[mid.len() as int] == final(objects)@
            } else {
                final(objects)@ == mid && *final(game) == mid_game
            },
{
    let action = handle_command(command, fov, game, objects, monsters, rng);
    let ghost mid = objects@;
    let ghost mid_game = *game;
    if action == PlayerAction::TookTurn && objects[PLAYER].alive {
        run_ai_turns(fov, game, objects, rng);
    }
    assert(command_outcome(command, fov, old(objects)@, mid, old(game), &mid_game, monsters@, action));
    action
}

} // verus!
