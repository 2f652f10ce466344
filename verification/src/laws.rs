//! What holds of the rules of the world, whatever the bodies.

use vstd::prelude::*;
use crate::body::bodies_of;
use crate::entity::{
    lemma_grown_size_bounds, lemma_mass_lost_bounds, mass_lost, penetration, shrunk,
    spec_consumer, spec_hit_attacker, Entity, MASS_MAX,
};
use crate::feeding::{has_substance, timely};
use crate::game::{
    has_local_player, Game, CAMERA_FOV, FOOD_K, FOOD_SPAWN_MAX, MAX_FOOD, PROJECTILE_STRENGTH,
    TIME_BETWEEN_WAVES,
};
use crate::space::{lemma_steer_bounded, spec_advance, spec_distance};
use crate::tick::{has_radius, raised, surviving};
use crate::waves::wave_size;
use crate::combat::decayed;
use crate::pairs::{
    meal_first, meal_one, spec_strike_all, spec_volley, strike_earlier, strike_first, volley_first,
    volley_one, Meal, Volley,
};
use crate::player::{
    lemma_desired_velocity_bounded, spec_desired_velocity, Action, Player, ACCELERATION,
};
use crate::projectile::Projectile;
use crate::scalar::{clamp_int, div_trunc, lemma_div_trunc_bounds, sqrt_floor, UNIT};
use crate::sound::SoundCue;

verus! {

/// A hit takes from the attacker the mass that the target loses, divided
/// by `k`: the attacker's new mass is its old mass less that share, but not
/// less than nothing, rounded down to the square of a radius.
pub proof fn lemma_hit_transfers_mass(attacker: Entity, target: Entity, k: int)
    requires
        attacker.wf(),
        target.wf(),
        k > 0,
    ensures
        ({
            let after = spec_hit_attacker(attacker, target, k);
            let lost = target.spec_mass() - shrunk(attacker, target).spec_mass();
            let left = clamp_int(
                attacker.spec_mass() - div_trunc(lost * UNIT, k),
                0,
                MASS_MAX as int,
            );
            &&& lost == mass_lost(attacker, target)
            &&& 0 <= lost <= target.spec_mass()
            &&& after.spec_mass() <= left < (after.size + 1) * (after.size + 1)
            &&& after.wf()
            &&& shrunk(attacker, target).wf()
        }),
{
    let pen = penetration(attacker, target);
    if pen > 0 {
        lemma_mass_lost_bounds(target.size as int, pen);
        let lost = mass_lost(attacker, target);
        lemma_grown_size_bounds(attacker.size as int, -div_trunc(lost * UNIT, k));
    } else {
        lemma_grown_size_bounds(attacker.size as int, 0);
        crate::scalar::lemma_sqrt_floor_square(attacker.size as int);
        crate::space::lemma_square_bounds(attacker.size as int, crate::entity::SIZE_MAX as int);
        assert(crate::entity::SIZE_MAX * crate::entity::SIZE_MAX == MASS_MAX) by (nonlinear_arith);
        assert(attacker.size * attacker.size < (attacker.size + 1) * (attacker.size + 1))
            by (nonlinear_arith)
            requires
                attacker.size >= 0,
        ;
    }
}

/// Eating gives the eater the mass that the target loses, multiplied by
/// `k`: the eater's new mass is its old mass and that gain, held between
/// nothing and the largest mass, rounded down to the square of a radius.
pub proof fn lemma_consume_transfers_mass(consumer: Entity, target: Entity, k: int)
    requires
        consumer.wf(),
        target.wf(),
    ensures
        ({
            let after = spec_consumer(consumer, target, k);
            let lost = target.spec_mass() - shrunk(consumer, target).spec_mass();
            let grown = clamp_int(
                consumer.spec_mass() + div_trunc(lost * k, UNIT as int),
                0,
                MASS_MAX as int,
            );
            &&& lost == mass_lost(consumer, target)
            &&& 0 <= lost <= target.spec_mass()
            &&& after.spec_mass() <= grown < (after.size + 1) * (after.size + 1)
            &&& after.wf()
            &&& shrunk(consumer, target).wf()
        }),
{
    let pen = penetration(consumer, target);
    if pen > 0 {
        lemma_mass_lost_bounds(target.size as int, pen);
        let lost = mass_lost(consumer, target);
        lemma_grown_size_bounds(consumer.size as int, div_trunc(lost * k, UNIT as int));
    } else {
        lemma_grown_size_bounds(consumer.size as int, 0);
        crate::scalar::lemma_sqrt_floor_square(consumer.size as int);
        crate::space::lemma_square_bounds(consumer.size as int, crate::entity::SIZE_MAX as int);
        assert(crate::entity::SIZE_MAX * crate::entity::SIZE_MAX == MASS_MAX) by (nonlinear_arith);
        assert(consumer.size * consumer.size < (consumer.size + 1) * (consumer.size + 1))
            by (nonlinear_arith)
            requires
                consumer.size >= 0,
        ;
    }
}

/// A player that has aimed and then stops aiming holds no projectile any
/// more: the step in which it does not aim releases the projectile that the
/// step of aiming left, as that step left it, and that projectile is the
/// player's own.
pub proof fn lemma_fire_then_release(
    start: Player,
    aiming: Player,
    target: crate::space::Vec2,
    idle: Action,
    end: Player,
    released: Option<Projectile>,
    dt1: int,
    dt2: int,
)
    requires
        start.wf(),
        start.action.shoot == Some(target),
        start.updated(aiming, None, dt1),
        idle.shoot.is_none(),
        (Player { action: idle, ..aiming }).updated(end, released, dt2),
    ensures
        aiming.projectile.is_some(),
        aiming.aiming,
        end.projectile.is_none(),
        !end.aiming,
        released == aiming.projectile,
        released.unwrap().entity.owner_id == start.entity.owner_id,
{
}

/// A player's velocity is steered, never set at once: in one step of the
/// time `dt` it changes by no more than `ACCELERATION * dt`, each of its
/// coordinates stays between the old one and what the action asks for, and
/// the player moves with the new velocity.
pub proof fn lemma_update_steers(
    before: Player,
    after: Player,
    released: Option<Projectile>,
    dt: int,
)
    requires
        before.wf(),
        0 <= dt,
        before.updated(after, released, dt),
    ensures
        ({
            let old_vel = before.entity.vel;
            let new_vel = after.entity.vel;
            let asked = spec_desired_velocity(before.action);
            &&& sqrt_floor(
                (new_vel.x - old_vel.x) * (new_vel.x - old_vel.x) + (new_vel.y - old_vel.y) * (
                new_vel.y - old_vel.y),
            ) <= ACCELERATION * dt / (UNIT as int)
            &&& old_vel.x <= new_vel.x <= asked.x || asked.x <= new_vel.x <= old_vel.x
            &&& old_vel.y <= new_vel.y <= asked.y || asked.y <= new_vel.y <= old_vel.y
            &&& after.entity.pos == spec_advance(before.entity.pos, new_vel, dt)
            &&& after.entity.owner_id == before.entity.owner_id
            &&& before.action.shoot.is_none() ==> after.entity.size == before.entity.size
        }),
{
    lemma_desired_velocity_bounded(before.action);
    assert(ACCELERATION * dt >= 0) by (nonlinear_arith)
        requires
            dt >= 0,
            ACCELERATION == 15_000_000,
    ;
    lemma_div_trunc_bounds(ACCELERATION * dt, UNIT as int);
    lemma_steer_bounded(
        before.entity.vel,
        spec_desired_velocity(before.action),
        div_trunc(ACCELERATION * dt, UNIT as int),
    );
}

/// A volley leaves every body with its owner.
pub proof fn lemma_volley_one_keeps_owners(v: Volley, a: int, k: int, factor: int)
    requires
        0 <= a < v.attackers.len(),
        0 <= k <= v.targets.len(),
        v.touched.len() == v.attackers.len(),
    ensures
        ({
            let after = volley_one(v, a, k, factor);
            &&& after.attackers.len() == v.attackers.len()
            &&& after.targets.len() == v.targets.len()
            &&& after.touched.len() == v.touched.len()
            &&& forall|i: int|
                0 <= i < v.attackers.len() ==> (#[trigger] after.attackers[i]).owner_id
                    == v.attackers[i].owner_id
            &&& forall|j: int|
                0 <= j < v.targets.len() ==> (#[trigger] after.targets[j]).owner_id
                    == v.targets[j].owner_id
            &&& forall|j: int|
                0 <= j < v.targets.len() && v.targets[j].owner_id == v.attackers[a].owner_id ==> (
                #[trigger] after.targets[j]) == v.targets[j]
            &&& forall|j: int| k <= j < v.targets.len() ==>
                (#[trigger] after.targets[j]) == v.targets[j]
        }),
    decreases k,
{
    if k > 0 {
        lemma_volley_one_keeps_owners(v, a, k - 1, factor);
    }
}

/// A volley leaves every body with its owner.
pub proof fn lemma_volley_keeps_owners(v: Volley, n: int, factor: int)
    requires
        0 <= n <= v.attackers.len(),
        v.touched.len() == v.attackers.len(),
    ensures
        ({
            let after = volley_first(v, n, factor);
            &&& after.attackers.len() == v.attackers.len()
            &&& after.targets.len() == v.targets.len()
            &&& after.touched.len() == v.touched.len()
            &&& forall|i: int|
                0 <= i < v.attackers.len() ==> (#[trigger] after.attackers[i]).owner_id
                    == v.attackers[i].owner_id
            &&& forall|j: int|
                0 <= j < v.targets.len() ==> (#[trigger] after.targets[j]).owner_id
                    == v.targets[j].owner_id
        }),
    decreases n,
{
    if n > 0 {
        lemma_volley_keeps_owners(v, n - 1, factor);
        let before = volley_first(v, n - 1, factor);
        lemma_volley_one_keeps_owners(before, n - 1, v.targets.len() as int, factor);
    }
}

/// Bodies that strike each other keep their owners.
pub proof fn lemma_strike_earlier_keeps_owners(bodies: Seq<Entity>, later: int, k: int, factor: int)
    requires
        0 <= k <= later < bodies.len(),
    ensures
        strike_earlier(bodies, later, k, factor).len() == bodies.len(),
        forall|i: int|
            0 <= i < bodies.len() ==>
                (#[trigger] strike_earlier(bodies, later, k, factor)[i]).owner_id
                == bodies[i].owner_id,
    decreases k,
{
    if k > 0 {
        lemma_strike_earlier_keeps_owners(bodies, later, k - 1, factor);
    }
}

/// Bodies that strike each other, pair by pair, keep their owners.
pub proof fn lemma_strike_keeps_owners(bodies: Seq<Entity>, n: int, factor: int)
    requires
        0 <= n <= bodies.len(),
    ensures
        strike_first(bodies, n, factor).len() == bodies.len(),
        forall|i: int|
            0 <= i < bodies.len() ==> (#[trigger] strike_first(bodies, n, factor)[i]).owner_id
                == bodies[i].owner_id,
    decreases n,
{
    if n > 0 {
        lemma_strike_keeps_owners(bodies, n - 1, factor);
        lemma_strike_earlier_keeps_owners(strike_first(bodies, n - 1, factor), n - 1, n - 1, factor);
    }
}

/// A projectile in flight keeps its owner for as long as it flies: neither
/// its own step nor what it strikes changes to whom it belongs.
pub proof fn lemma_projectiles_keep_their_owner(before: Game, after: Game, dt: int, i: int)
    requires
        before.projectiles_stepped(after, dt) || before.players_struck(after)
            || before.projectiles_struck(after),
        0 <= i < before.projectiles@.len(),
    ensures
        after.projectiles@.len() == before.projectiles@.len(),
        after.projectiles@[i].entity.owner_id == before.projectiles@[i].entity.owner_id,
{
    if before.projectiles_stepped(after, dt) {
        assert(decayed(before.projectiles@[i], dt).stepped(after.projectiles@[i], dt));
    } else if before.players_struck(after) {
        let attackers = bodies_of(before.projectiles@);
        let targets = bodies_of(before.players@);
        let v = Volley { attackers, targets, touched: Seq::new(attackers.len(), |i: int| false) };
        lemma_volley_keeps_owners(v, attackers.len() as int, PROJECTILE_STRENGTH as int);
        let left = spec_volley(attackers, targets, PROJECTILE_STRENGTH as int);
        assert(left.attackers[i].owner_id == attackers[i].owner_id);
    } else {
        let bodies = bodies_of(before.projectiles@);
        lemma_strike_keeps_owners(bodies, bodies.len() as int, UNIT as int);
        assert(spec_strike_all(bodies, UNIT as int)[i].owner_id == bodies[i].owner_id);
    }
}

/// A step never takes an identity back: the identity that the next player
/// gets is never lower after a step than before it, so that, the world
/// being well-formed, no identity is given out twice.
pub proof fn lemma_step_keeps_identities(before: Game, after: Game, cues: Seq<SoundCue>, dt: int)
    requires
        before.ticked(after, cues, dt),
    ensures
        after.next_id >= before.next_id,
        after.background_particles@.len() == before.background_particles@.len(),
        after.camera_pos == before.camera_pos,
        after.mouse_pos == before.mouse_pos,
        after.start == before.start,
        after.music_started == before.music_started,
{
}

/// The score only rises: a step of a well-formed world lowers neither the
/// kills nor the time played, and while the person at the keyboard is out
/// of the game both stand still.
pub proof fn lemma_step_keeps_score(before: Game, after: Game, cues: Seq<SoundCue>, dt: int)
    requires
        before.wf(),
        0 <= dt,
        before.ticked(after, cues, dt),
    ensures
        after.kills >= before.kills,
        after.time_played >= before.time_played,
        !has_local_player(before.players@) ==> after.kills == before.kills && after.time_played
            == before.time_played && after.next_wave == before.next_wave && after.waves_finished
            == before.waves_finished,
{
}

/// The foods stay under the cap: if there are at most `MAX_FOOD` foods
/// before a step, there are at most `MAX_FOOD` after it, however long the
/// step and however many players die in it.
pub proof fn lemma_step_keeps_food_cap(before: Game, after: Game, cues: Seq<SoundCue>, dt: int)
    requires
        before.ticked(after, cues, dt),
        before.food@.len() <= MAX_FOOD,
    ensures
        after.food@.len() <= MAX_FOOD,
{
}

/// When the food timer runs out while there are fewer than `MAX_FOOD`
/// foods, the timer brings at least one food, and every food it brings lies
/// in the world and has a radius from the smallest up to the largest.
pub proof fn lemma_timer_brings_food(before: Game, after: Game, dt: int)
    requires
        before.food_spawned(after, dt),
        before.next_food - dt < 0,
        before.food@.len() < MAX_FOOD,
    ensures
        before.food@.len() < after.food@.len() <= MAX_FOOD,
        timely(after.food@[before.food@.len() as int]),
        0 <= after.next_food < FOOD_SPAWN_MAX,
{
}

/// Where nobody eats, every dish stays as it is.
pub proof fn lemma_meal_without_eaters(dishes: Seq<Entity>, n: int, factor: int)
    requires
        0 <= n <= dishes.len(),
    ensures
        meal_first(Meal { eaters: Seq::empty(), dishes }, n, factor) == (Meal {
            eaters: Seq::empty(),
            dishes,
        }),
    decreases n,
{
    if n > 0 {
        lemma_meal_without_eaters(dishes, n - 1, factor);
        let m = Meal { eaters: Seq::<Entity>::empty(), dishes };
        assert(meal_one(m, n - 1, 0, factor) == m);
    }
}

/// Through a whole step, the food that the timer brings is there at the
/// end where nothing eats it: in a world without players, a step that takes
/// the food timer below zero while there are fewer than `MAX_FOOD` foods
/// ends with at least one food.
pub proof fn lemma_step_brings_food(before: Game, after: Game, cues: Seq<SoundCue>, dt: int)
    requires
        before.ticked(after, cues, dt),
        before.players@.len() == 0,
        before.next_food - dt < 0,
        before.food@.len() < MAX_FOOD,
    ensures
        1 <= after.food@.len() <= MAX_FOOD,
        after.players@.len() == 0,
{
    let alive = has_local_player(before.players@);
    let (s1, s2, s3, s4, s5, s6, s7, s8, s9, s10, s11, s12, s13, shots, heals, deaths, hits) =
        choose|
        s1: Game,
        s2: Game,
        s3: Game,
        s4: Game,
        s5: Game,
        s6: Game,
        s7: Game,
        s8: Game,
        s9: Game,
        s10: Game,
        s11: Game,
        s12: Game,
        s13: Game,
        shots: Seq<SoundCue>,
        heals: Seq<SoundCue>,
        deaths: Seq<SoundCue>,
        hits: Seq<SoundCue>,
    |
        {
            &&& #[trigger] before.decided(s1)
            &&& #[trigger] s1.drifted(s2, dt)
            &&& #[trigger] s2.players_stepped(s3, shots, dt)
            &&& #[trigger] s3.projectiles_stepped(s4, dt)
            &&& #[trigger] s4.players_collided(s5)
            &&& #[trigger] s5.players_struck(s6)
            &&& #[trigger] s6.projectiles_struck(s7)
            &&& #[trigger] s7.food_spawned(s8, dt)
            &&& #[trigger] s8.food_stepped(s9, dt)
            &&& #[trigger] s9.players_fed(s10, heals)
            &&& #[trigger] s10.players_buried(s11, deaths, alive)
            &&& #[trigger] s11.projectiles_buried(s12, hits)
            &&& #[trigger] s12.food_cleared(s13)
            &&& #[trigger] s13.waves_run(after, dt, alive)
            &&& cues == shots + heals + deaths + hits
        };
    assert(!alive);
    assert(s7.food@ == before.food@);
    let fresh = before.food@.len() as int;
    assert(timely(s8.food@[fresh]));
    assert(s8.food@[fresh].stepped(s9.food@[fresh], dt));
    assert(s9.players@.len() == 0);
    let dishes = bodies_of(s9.food@);
    assert(bodies_of(s9.players@) =~= Seq::<Entity>::empty());
    lemma_meal_without_eaters(dishes, dishes.len() as int, FOOD_K as int);
    assert(s10.food@ =~= s9.food@);
    assert(s10.players@.len() == 0);
    assert(s11.food@.len() == s10.food@.len());
    assert(s11.food@ =~= s10.food@) by {
        assert(s11.food@.take(s10.food@.len() as int) =~= s11.food@);
    }
    assert(s12.food@ == s11.food@);
    s12.food@.lemma_filter_contains(has_substance(), fresh);
    assert(s13.food@.len() >= 1);
    assert(surviving(s10.players@) =~= Seq::<Player>::empty()) by {
        s10.players@.lemma_filter_len(has_radius());
    }
}

/// The wave comes with the step that passes its time, however long the
/// step: in the game that has begun, with the person at the keyboard in it,
/// a step that takes the wave timer below zero sets the timer to
/// `TIME_BETWEEN_WAVES`, counts the wave, and gives out as many identities
/// as the wave has opponents.
pub proof fn lemma_step_sends_the_wave(before: Game, after: Game, cues: Seq<SoundCue>, dt: int)
    requires
        before.wf(),
        before.ticked(after, cues, dt),
        has_local_player(before.players@),
        before.begun(),
        0 <= dt,
        before.next_wave_timer - dt < 0,
    ensures
        after.next_wave_timer == TIME_BETWEEN_WAVES,
        after.next_wave == raised(before.next_wave, 1),
        after.waves_finished == if before.next_wave >= 1 {
            before.next_wave - 1
        } else {
            0
        },
        after.next_id == before.next_id + wave_size(before.next_wave, before.next_id),
{
}

/// The wave that enters brings opponents only, as many as its number says
/// while identities are left, each out of the camera's sight.
pub proof fn lemma_wave_brings_opponents(before: Game, after: Game, dt: int, k: int)
    requires
        before.waves_run(after, dt, true),
        before.begun(),
        before.next_wave_timer - dt < 0,
        0 <= dt,
        before.next_wave_timer >= 0,
        before.next_wave <= usize::MAX - before.next_id,
        before.players@.len() <= k < before.players@.len() + before.next_wave,
    ensures
        after.players@.len() == before.players@.len() + before.next_wave,
        after.players@.take(before.players@.len() as int) == before.players@,
        after.players@[k].team_id == 1,
        after.players@[k].controller is Bot,
        after.players@[k].entity.owner_id == Some(
            (before.next_id + (k - before.players@.len())) as usize,
        ),
        spec_distance(before.camera_pos, after.players@[k].entity.pos) > 2 * CAMERA_FOV,
{
}

} // verus!
