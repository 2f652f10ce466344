//! The built-in opponent: it goes for the nearest food and shoots at the
//! nearest player of another side.

use vstd::prelude::*;
use crate::entity::Entity;
use crate::food::Food;
use crate::game::{Game, PROJECTILE_DEATH_SPEED};
use crate::player::{Action, Player, PROJECTILE_SPEED};
use crate::scalar::{lemma_mul_bounds, UNIT};
use crate::space::{advance, delta_pos, distance, spec_advance, spec_delta_pos, spec_distance, Vec2};

verus! {

/// The radius that a projectile must still have when it arrives.
pub const SHOT_HIT_SIZE: i64 = 300_000;

/// The radius below which a bot does not start to shoot.
pub const MIN_SIZE: i64 = 700_000;

/// The controller of the built-in opponent. It keeps nothing between two
/// steps.
#[derive(Clone, Copy, PartialEq, Eq, Structural, Debug)]
pub struct BotController;

/// The index of the first player with the identity `id`, or the number of
/// players if there is none.
pub open spec fn find_player(players: Seq<Player>, id: usize) -> int
    decreases players.len(),
{
    if players.len() == 0 {
        0
    } else if players.first().entity.owner_id == Some(id) {
        0
    } else {
        1 + find_player(players.drop_first(), id)
    }
}

/// The index of the food nearest to `from`, the first one among several at
/// the same distance; `None` if there is no food.
pub open spec fn nearest_food(from: Vec2, food: Seq<Food>) -> Option<int>
    decreases food.len(),
{
    if food.len() == 0 {
        None
    } else {
        let last = food.len() - 1;
        match nearest_food(from, food.drop_last()) {
            Some(best) => if spec_distance(from, food[last].entity.pos) < spec_distance(
                from,
                food[best].entity.pos,
            ) {
                Some(last)
            } else {
                Some(best)
            },
            None => Some(last),
        }
    }
}

/// The index of the player nearest to `from` among those that are not of
/// the side `team`, the first one among several at the same distance; `None`
/// if there is no such player.
pub open spec fn nearest_enemy(from: Vec2, team: usize, players: Seq<Player>) -> Option<int>
    decreases players.len(),
{
    if players.len() == 0 {
        None
    } else {
        let last = players.len() - 1;
        let before = nearest_enemy(from, team, players.drop_last());
        if players[last].team_id == team {
            before
        } else {
            match before {
                Some(best) => if spec_distance(from, players[last].entity.pos) < spec_distance(
                    from,
                    players[best].entity.pos,
                ) {
                    Some(last)
                } else {
                    Some(best)
                },
                None => Some(last),
            }
        }
    }
}

/// The time that a projectile takes from `from` to `to`.
pub open spec fn flight_time(from: Vec2, to: Vec2) -> int {
    spec_distance(from, to) * UNIT / (PROJECTILE_SPEED as int)
}

/// The radius that a projectile of radius `size` has left after flying for
/// `time`.
pub open spec fn size_on_arrival(size: int, time: int) -> int {
    size - PROJECTILE_DEATH_SPEED * time / (UNIT as int)
}

/// Where the bot `me` aims when `enemy` is the nearest opponent, if it
/// shoots. With a projectile in the making it keeps aiming only while the
/// projectile would arrive larger than `SHOT_HIT_SIZE`, and aims at where
/// the enemy will be on arrival. Without one it starts to aim, at the enemy,
/// unless it is itself smaller than `MIN_SIZE`.
pub open spec fn spec_aim(me: Player, enemy: Entity) -> Option<Vec2> {
    match me.projectile {
        Some(p) => {
            let time = flight_time(p.entity.pos, enemy.pos);
            if size_on_arrival(p.entity.size as int, time) > SHOT_HIT_SIZE {
                Some(spec_advance(enemy.pos, enemy.vel, time))
            } else {
                None
            }
        },
        None => if me.entity.size < MIN_SIZE {
            None
        } else {
            Some(enemy.pos)
        },
    }
}

/// What the bot `me` decides: it heads for the nearest food, or stays where
/// it is if there is none, and deals with the nearest opponent as
/// `spec_aim` says.
pub open spec fn spec_bot_action(me: Player, players: Seq<Player>, food: Seq<Food>) -> Action {
    Action {
        target_vel: match nearest_food(me.entity.pos, food) {
            Some(i) => spec_delta_pos(me.entity.pos, food[i].entity.pos),
            None => Vec2 { x: 0, y: 0 },
        },
        shoot: match nearest_enemy(me.entity.pos, me.team_id, players) {
            Some(j) => spec_aim(me, players[j].entity),
            None => None,
        },
    }
}

/// The nearest food is one of the foods, none is nearer, and none before it
/// is as near.
pub proof fn lemma_nearest_food(from: Vec2, food: Seq<Food>)
    ensures
        nearest_food(from, food).is_none() <==> food.len() == 0,
        nearest_food(from, food) matches Some(best) ==> {
            &&& 0 <= best < food.len()
            &&& forall|j: int|
                0 <= j < food.len() ==> spec_distance(from, food[best].entity.pos) <= spec_distance(
                    from,
                    #[trigger] food[j].entity.pos,
                )
            &&& forall|j: int|
                0 <= j < best ==> spec_distance(from, food[best].entity.pos) < spec_distance(
                    from,
                    #[trigger] food[j].entity.pos,
                )
        },
    decreases food.len(),
{
    if food.len() > 0 {
        lemma_nearest_food(from, food.drop_last());
        let rest = food.drop_last();
        assert forall|j: int| 0 <= j < rest.len() implies rest[j] == food[j] by {}
    }
}

/// The nearest opponent is a player of another side, no player of another
/// side is nearer, and none before it is as near.
pub proof fn lemma_nearest_enemy(from: Vec2, team: usize, players: Seq<Player>)
    ensures
        nearest_enemy(from, team, players).is_none() <==> forall|j: int|
            0 <= j < players.len() ==> (#[trigger] players[j]).team_id == team,
        nearest_enemy(from, team, players) matches Some(best) ==> {
            &&& 0 <= best < players.len()
            &&& players[best].team_id != team
            &&& forall|j: int|
                0 <= j < players.len() && (#[trigger] players[j]).team_id != team ==> spec_distance(
                    from,
                    players[best].entity.pos,
                ) <= spec_distance(from, players[j].entity.pos)
            &&& forall|j: int|
                0 <= j < best && (#[trigger] players[j]).team_id != team ==> spec_distance(
                    from,
                    players[best].entity.pos,
                ) < spec_distance(from, players[j].entity.pos)
        },
    decreases players.len(),
{
    if players.len() > 0 {
        lemma_nearest_enemy(from, team, players.drop_last());
        let rest = players.drop_last();
        assert forall|j: int| 0 <= j < rest.len() implies rest[j] == players[j] by {}
        if nearest_enemy(from, team, rest).is_none() && players.last().team_id == team {
            assert forall|j: int| 0 <= j < players.len() implies (#[trigger] players[j]).team_id
                == team by {
                if j < rest.len() {
                    assert(rest[j] == players[j]);
                }
            }
        }
    }
}

/// The first player with the identity `id` has that identity, and no player
/// before it has.
pub proof fn lemma_find_player(players: Seq<Player>, id: usize)
    ensures
        0 <= find_player(players, id) <= players.len(),
        find_player(players, id) < players.len() ==> players[find_player(
            players,
            id,
        )].entity.owner_id == Some(id),
        forall|j: int|
            0 <= j < find_player(players, id) ==> (#[trigger] players[j]).entity.owner_id != Some(
                id,
            ),
    decreases players.len(),
{
    if players.len() > 0 && players.first().entity.owner_id != Some(id) {
        let rest = players.drop_first();
        lemma_find_player(rest, id);
        assert forall|j: int| 0 <= j < find_player(players, id) implies (
        #[trigger] players[j]).entity.owner_id != Some(id) by {
            if j > 0 {
                assert(rest[j - 1] == players[j]);
            }
        }
    }
}

/// The index of a player is found by going through the players from the
/// front: if none of the first `i` has the identity `id` and the next one
/// has, `i` is the index.
pub proof fn lemma_find_player_at(players: Seq<Player>, id: usize, i: int)
    requires
        0 <= i <= players.len(),
        forall|j: int| 0 <= j < i ==> (#[trigger] players[j]).entity.owner_id != Some(id),
        i < players.len() ==> players[i].entity.owner_id == Some(id),
    ensures
        find_player(players, id) == i,
    decreases players.len(),
{
    if players.len() > 0 && i > 0 {
        let rest = players.drop_first();
        assert(players[0].entity.owner_id != Some(id));
        assert forall|j: int| 0 <= j < i - 1 implies (#[trigger] rest[j]).entity.owner_id != Some(
            id,
        ) by {
            assert(rest[j] == players[j + 1]);
        }
        lemma_find_player_at(rest, id, i - 1);
    }
}

impl BotController {
    /// The index of the food nearest to `from`.
    pub fn closest_food(from: Vec2, food: &Vec<Food>) -> (best: Option<usize>)
        ensures
            match best {
                Some(i) => nearest_food(from, food@) == Some(i as int) && i < food@.len(),
                None => nearest_food(from, food@).is_none(),
            },
    {
        let mut best: Option<usize> = None;
        let mut best_distance: i64 = 0;
        let mut i: usize = 0;
        while i < food.len()
            invariant
                i <= food@.len(),
                match best {
                    Some(b) => nearest_food(from, food@.take(i as int)) == Some(b as int) && b < i
                        && best_distance == spec_distance(from, food@[b as int].entity.pos),
                    None => nearest_food(from, food@.take(i as int)).is_none(),
                },
            decreases food@.len() - i,
        {
            let d = distance(from, food[i].entity.pos);
            proof {
                assert(food@.take(i + 1).drop_last() =~= food@.take(i as int));
            }
            match best {
                Some(_) => {
                    if d < best_distance {
                        best = Some(i);
                        best_distance = d;
                    }
                },
                None => {
                    best = Some(i);
                    best_distance = d;
                },
            }
            i = i + 1;
        }
        proof {
            assert(food@.take(i as int) =~= food@);
        }
        best
    }

    /// The index of the player nearest to `from` among those that are not
    /// of the side `team`.
    pub fn closest_enemy(from: Vec2, team: usize, players: &Vec<Player>) -> (best: Option<usize>)
        ensures
            match best {
                Some(i) => nearest_enemy(from, team, players@) == Some(i as int) && i
                    < players@.len(),
                None => nearest_enemy(from, team, players@).is_none(),
            },
    {
        let mut best: Option<usize> = None;
        let mut best_distance: i64 = 0;
        let mut i: usize = 0;
        while i < players.len()
            invariant
                i <= players@.len(),
                match best {
                    Some(b) => nearest_enemy(from, team, players@.take(i as int)) == Some(b as int)
                        && b < i && best_distance == spec_distance(
                        from,
                        players@[b as int].entity.pos,
                    ),
                    None => nearest_enemy(from, team, players@.take(i as int)).is_none(),
                },
            decreases players@.len() - i,
        {
            proof {
                assert(players@.take(i + 1).drop_last() =~= players@.take(i as int));
            }
            if players[i].team_id != team {
                let d = distance(from, players[i].entity.pos);
                match best {
                    Some(_) => {
                        if d < best_distance {
                            best = Some(i);
                            best_distance = d;
                        }
                    },
                    None => {
                        best = Some(i);
                        best_distance = d;
                    },
                }
            }
            i = i + 1;
        }
        proof {
            assert(players@.take(i as int) =~= players@);
        }
        best
    }

    /// The index of the first player with the identity `id`.
    pub fn index_of(players: &Vec<Player>, id: usize) -> (index: usize)
        ensures
            index == find_player(players@, id),
            index <= players@.len(),
    {
        let mut i: usize = 0;
        while i < players.len()
            invariant
                i <= players@.len(),
                forall|j: int| 0 <= j < i ==> (#[trigger] players@[j]).entity.owner_id != Some(id),
            decreases players@.len() - i,
        {
            if players[i].entity.owner_id == Some(id) {
                proof {
                    lemma_find_player_at(players@, id, i as int);
                }
                return i;
            }
            i = i + 1;
        }
        proof {
            lemma_find_player_at(players@, id, i as int);
        }
        i
    }

    /// Where the bot `me` aims, if it shoots, when `enemy` is the nearest
    /// opponent.
    pub fn aim(me: &Player, enemy: &Entity) -> (target: Option<Vec2>)
        ensures
            target == spec_aim(*me, *enemy),
    {
        match &me.projectile {
            Some(p) => {
                let time = distance(p.entity.pos, enemy.pos) * UNIT / PROJECTILE_SPEED;
                proof {
                    lemma_mul_bounds(
                        PROJECTILE_DEATH_SPEED as int,
                        PROJECTILE_DEATH_SPEED as int,
                        time as int,
                        70_710_679,
                    );
                }
                if (p.entity.size as i128) - ((PROJECTILE_DEATH_SPEED * time / UNIT) as i128)
                    > SHOT_HIT_SIZE as i128 {
                    Some(advance(enemy.pos, enemy.vel, time))
                } else {
                    None
                }
            },
            None => {
                if me.entity.size < MIN_SIZE {
                    None
                } else {
                    Some(enemy.pos)
                }
            },
        }
    }

    /// What the bot decides for the player `self_id`, given the world: it
    /// heads for the nearest food and deals with the nearest opponent.
    pub fn act(&self, self_id: usize, game: &Game) -> (action: Action)
        requires
            find_player(game.players@, self_id) < game.players@.len(),
        ensures
            action == spec_bot_action(
                game.players@[find_player(game.players@, self_id)],
                game.players@,
                game.food@,
            ),
    {
        let me = &game.players[Self::index_of(&game.players, self_id)];
        let target_vel = match Self::closest_food(me.entity.pos, &game.food) {
            Some(i) => delta_pos(me.entity.pos, game.food[i].entity.pos),
            None => Vec2 { x: 0, y: 0 },
        };
        let shoot = match Self::closest_enemy(me.entity.pos, me.team_id, &game.players) {
            Some(j) => Self::aim(me, &game.players[j].entity),
            None => None,
        };
        Action { target_vel, shoot }
    }
}

} // verus!
