//! Whom a volley spares. A projectile passes over the bodies of its own
//! owner, and leaves alone what it does not touch; since bodies neither move
//! nor grow while projectiles strike, what is spared at the beginning of a
//! volley is spared to its end.

use vstd::prelude::*;
use crate::body::{bodies_of, with_bodies};
use crate::entity::{
    lemma_grown_size_bounds, lemma_mass_lost_bounds, lemma_shrinking, mass_lost, penetration,
    shrunk, spec_hit_attacker, Entity,
};
use crate::combat::decayed;
use crate::game::{has_local_player, Game, FOOD_K, PROJECTILE_STRENGTH};
use crate::pairs::{collide_first, collide_with_earlier, meal_first, spec_collide_all, Meal};
use crate::player::Player;
use crate::projectile::Projectile;
use crate::sound::SoundCue;
use crate::tick::{has_radius, player_stepped, remains_count, shots_of};
use crate::pairs::{bodies_wf, spec_volley, volley_first, volley_one, Volley};
use crate::scalar::{div_trunc, lemma_div_trunc_bounds, UNIT};

verus! {

/// `after` holds the bodies of `before`, each where it was, of the same
/// owner, and no larger.
pub open spec fn lessened(before: Seq<Entity>, after: Seq<Entity>) -> bool {
    &&& after.len() == before.len()
    &&& forall|i: int|
        0 <= i < before.len() ==> {
            &&& (#[trigger] after[i]).pos == before[i].pos
            &&& after[i].owner_id == before[i].owner_id
            &&& 0 <= after[i].size <= before[i].size
        }
}

/// The attacker leaves the target alone: it is of the target's owner, or it
/// does not touch the target.
pub open spec fn spares(attacker: Entity, target: Entity) -> bool {
    attacker.owner_id == target.owner_id || penetration(attacker, target) <= 0
}

/// Two bodies that do not touch do not come to touch by shrinking where
/// they are.
pub proof fn lemma_no_touch_persists(a: Entity, t: Entity, a2: Entity, t2: Entity)
    requires
        penetration(a, t) <= 0,
        a2.pos == a.pos,
        t2.pos == t.pos,
        0 <= a2.size <= a.size,
        0 <= t2.size <= t.size,
    ensures
        penetration(a2, t2) <= 0,
{
}

/// A hit leaves both bodies where they were, with their owners, well-formed
/// and no larger; and it leaves them as they were if they do not touch.
pub proof fn lemma_hit_lessens(attacker: Entity, target: Entity, k: int)
    requires
        attacker.wf(),
        target.wf(),
        k > 0,
    ensures
        ({
            let a2 = spec_hit_attacker(attacker, target, k);
            let t2 = shrunk(attacker, target);
            &&& a2.wf()
            &&& t2.wf()
            &&& a2.pos == attacker.pos
            &&& a2.owner_id == attacker.owner_id
            &&& a2.size <= attacker.size
            &&& t2.pos == target.pos
            &&& t2.owner_id == target.owner_id
            &&& t2.size <= target.size
            &&& penetration(attacker, target) <= 0 ==> a2 == attacker && t2 == target
        }),
{
    let pen = penetration(attacker, target);
    if pen > 0 {
        lemma_mass_lost_bounds(target.size as int, pen);
        let lost = mass_lost(attacker, target);
        assert(lost * UNIT >= 0) by (nonlinear_arith)
            requires
                lost >= 0,
                UNIT == 1_000_000,
        ;
        lemma_div_trunc_bounds(lost * UNIT, k);
        lemma_grown_size_bounds(attacker.size as int, -div_trunc(lost * UNIT, k));
        lemma_shrinking(attacker.size as int, -div_trunc(lost * UNIT, k));
    }
}

/// What one attacker does to the first `k` targets. All bodies stay where
/// they were, with their owners, well-formed and no larger. The other
/// attackers and the targets that were not reached stay as they were, and so
/// does every target that the attacker spares. If the attacker spares all
/// the targets it reaches, it stays as it was itself and is not marked.
pub proof fn lemma_volley_one_lessens(v: Volley, a: int, k: int, factor: int)
    requires
        bodies_wf(v.attackers),
        bodies_wf(v.targets),
        v.touched.len() == v.attackers.len(),
        0 <= a < v.attackers.len(),
        0 <= k <= v.targets.len(),
        factor > 0,
    ensures
        ({
            let after = volley_one(v, a, k, factor);
            &&& bodies_wf(after.attackers)
            &&& bodies_wf(after.targets)
            &&& after.touched.len() == v.touched.len()
            &&& lessened(v.attackers, after.attackers)
            &&& lessened(v.targets, after.targets)
            &&& forall|i: int|
                0 <= i < v.attackers.len() && i != a ==> (#[trigger] after.attackers[i])
                    == v.attackers[i] && after.touched[i] == v.touched[i]
            &&& forall|j: int|
                k <= j < v.targets.len() ==> (#[trigger] after.targets[j]) == v.targets[j]
            &&& forall|j: int|
                0 <= j < k && spares(v.attackers[a], v.targets[j]) ==> (#[trigger] after.targets[j])
                    == v.targets[j]
            &&& (forall|j: int| 0 <= j < k ==> #[trigger] spares(v.attackers[a], v.targets[j]))
                ==> after.attackers[a] == v.attackers[a] && after.touched[a] == v.touched[a]
        }),
    decreases k,
{
    if k > 0 {
        lemma_volley_one_lessens(v, a, k - 1, factor);
        let before = volley_one(v, a, k - 1, factor);
        let attacker = before.attackers[a];
        let target = before.targets[k - 1];
        assert(attacker.wf());
        assert(target.wf());
        assert(target == v.targets[k - 1]);
        lemma_hit_lessens(attacker, target, factor);
        if spares(v.attackers[a], v.targets[k - 1]) && attacker.owner_id != target.owner_id {
            lemma_no_touch_persists(v.attackers[a], v.targets[k - 1], attacker, target);
        }
        let after = volley_one(v, a, k, factor);
        assert forall|i: int| 0 <= i < v.attackers.len() implies (#[trigger] after.attackers[i]).wf()
            && after.attackers[i].pos == v.attackers[i].pos && after.attackers[i].owner_id
            == v.attackers[i].owner_id && after.attackers[i].size <= v.attackers[i].size by {
            assert(before.attackers[i].wf());
        }
        assert forall|j: int| 0 <= j < v.targets.len() implies (#[trigger] after.targets[j]).wf()
            && after.targets[j].pos == v.targets[j].pos && after.targets[j].owner_id
            == v.targets[j].owner_id && after.targets[j].size <= v.targets[j].size by {
            assert(before.targets[j].wf());
        }
        if forall|j: int| 0 <= j < k ==> #[trigger] spares(v.attackers[a], v.targets[j]) {
            assert(spares(v.attackers[a], v.targets[k - 1]));
            assert forall|j: int| 0 <= j < k - 1 implies #[trigger] spares(
                v.attackers[a],
                v.targets[j],
            ) by {}
            assert(attacker == v.attackers[a]);
        }
    }
}

/// What the first `n` attackers do to the targets. All bodies stay where
/// they were, with their owners, well-formed and no larger, and the
/// attackers whose turn has not come stay as they were.
pub proof fn lemma_volley_lessens(v: Volley, n: int, factor: int)
    requires
        bodies_wf(v.attackers),
        bodies_wf(v.targets),
        v.touched.len() == v.attackers.len(),
        0 <= n <= v.attackers.len(),
        factor > 0,
    ensures
        ({
            let after = volley_first(v, n, factor);
            &&& bodies_wf(after.attackers)
            &&& bodies_wf(after.targets)
            &&& after.touched.len() == v.touched.len()
            &&& lessened(v.attackers, after.attackers)
            &&& lessened(v.targets, after.targets)
            &&& forall|i: int|
                n <= i < v.attackers.len() ==> (#[trigger] after.attackers[i]) == v.attackers[i]
                    && after.touched[i] == v.touched[i]
        }),
    decreases n,
{
    if n > 0 {
        lemma_volley_lessens(v, n - 1, factor);
        let before = volley_first(v, n - 1, factor);
        lemma_volley_one_lessens(before, n - 1, v.targets.len() as int, factor);
        let after = volley_first(v, n, factor);
        assert forall|i: int| 0 <= i < v.attackers.len() implies (#[trigger] after.attackers[i]).pos
            == v.attackers[i].pos && after.attackers[i].owner_id == v.attackers[i].owner_id && 0
            <= after.attackers[i].size <= v.attackers[i].size by {
            assert(before.attackers[i].pos == v.attackers[i].pos);
            assert(after.attackers[i].wf());
        }
        assert forall|j: int| 0 <= j < v.targets.len() implies (#[trigger] after.targets[j]).pos
            == v.targets[j].pos && after.targets[j].owner_id == v.targets[j].owner_id && 0
            <= after.targets[j].size <= v.targets[j].size by {
            assert(before.targets[j].pos == v.targets[j].pos);
            assert(after.targets[j].wf());
        }
    }
}

/// A target that each of the first `n` attackers spares comes out of their
/// volley as it went in, whatever they do to the other targets.
pub proof fn lemma_volley_spares_target(v: Volley, n: int, factor: int, own: int)
    requires
        bodies_wf(v.attackers),
        bodies_wf(v.targets),
        v.touched.len() == v.attackers.len(),
        0 <= n <= v.attackers.len(),
        factor > 0,
        0 <= own < v.targets.len(),
        forall|i: int| 0 <= i < n ==> #[trigger] spares(v.attackers[i], v.targets[own]),
    ensures
        volley_first(v, n, factor).targets[own] == v.targets[own],
    decreases n,
{
    if n > 0 {
        lemma_volley_spares_target(v, n - 1, factor, own);
        lemma_volley_lessens(v, n - 1, factor);
        let before = volley_first(v, n - 1, factor);
        assert(before.attackers[n - 1] == v.attackers[n - 1]);
        assert(spares(v.attackers[n - 1], v.targets[own]));
        lemma_volley_one_lessens(before, n - 1, v.targets.len() as int, factor);
    }
}

/// An attacker that spares every target comes out of the volley as it went
/// in, and is not marked as having touched one, whatever the other
/// attackers do.
pub proof fn lemma_volley_spares_attacker(v: Volley, n: int, factor: int, a: int)
    requires
        bodies_wf(v.attackers),
        bodies_wf(v.targets),
        v.touched.len() == v.attackers.len(),
        0 <= n <= v.attackers.len(),
        factor > 0,
        0 <= a < v.attackers.len(),
        forall|j: int| 0 <= j < v.targets.len() ==> #[trigger] spares(v.attackers[a], v.targets[j]),
    ensures
        volley_first(v, n, factor).attackers[a] == v.attackers[a],
        volley_first(v, n, factor).touched[a] == v.touched[a],
    decreases n,
{
    if n > 0 {
        lemma_volley_spares_attacker(v, n - 1, factor, a);
        lemma_volley_lessens(v, n - 1, factor);
        let before = volley_first(v, n - 1, factor);
        lemma_volley_one_lessens(before, n - 1, v.targets.len() as int, factor);
        if a == n - 1 {
            assert forall|j: int| 0 <= j < before.targets.len() implies #[trigger] spares(
                before.attackers[a],
                before.targets[j],
            ) by {
                assert(spares(v.attackers[a], v.targets[j]));
                assert(before.targets[j].pos == v.targets[j].pos);
                if v.attackers[a].owner_id != v.targets[j].owner_id {
                    lemma_no_touch_persists(
                        v.attackers[a],
                        v.targets[j],
                        before.attackers[a],
                        before.targets[j],
                    );
                }
            }
        }
    }
}

/// In the world, no projectile hurts its owner, and none hurts what it does
/// not touch: a player whom every projectile in flight spares comes out of
/// the phase in which the projectiles strike as it went in, whatever the
/// projectiles do to the other players. The bodies are to be well-formed,
/// as they are in a well-formed world.
pub proof fn lemma_projectiles_spare_their_owner(before: Game, after: Game, own: int)
    requires
        bodies_wf(bodies_of(before.players@)),
        bodies_wf(bodies_of(before.projectiles@)),
        before.players_struck(after),
        0 <= own < before.players@.len(),
        forall|i: int|
            0 <= i < before.projectiles@.len() ==> #[trigger] spares(
                before.projectiles@[i].entity,
                before.players@[own].entity,
            ),
    ensures
        after.players@.len() == before.players@.len(),
        after.players@[own] == before.players@[own],
{
    let attackers = bodies_of(before.projectiles@);
    let targets = bodies_of(before.players@);
    let v = Volley { attackers, targets, touched: Seq::new(attackers.len(), |i: int| false) };
    assert forall|i: int| 0 <= i < attackers.len() implies #[trigger] spares(
        v.attackers[i],
        v.targets[own],
    ) by {
        assert(spares(before.projectiles@[i].entity, before.players@[own].entity));
    }
    lemma_volley_spares_target(v, attackers.len() as int, PROJECTILE_STRENGTH as int, own);
    lemma_volley_lessens(v, attackers.len() as int, PROJECTILE_STRENGTH as int);
    let left = spec_volley(attackers, targets, PROJECTILE_STRENGTH as int);
    assert(after.players@ == with_bodies(before.players@, left.targets));
    assert(after.players@[own] == (crate::player::Player {
        entity: left.targets[own],
        ..before.players@[own]
    }));
}

/// In the world, a projectile that spares every player, because the
/// players are its owner's or out of its reach, comes out of the phase in
/// which the projectiles strike as it went in: it pays nothing and counts
/// no hit.
pub proof fn lemma_sparing_projectile_stays(before: Game, after: Game, i: int)
    requires
        bodies_wf(bodies_of(before.players@)),
        bodies_wf(bodies_of(before.projectiles@)),
        before.players_struck(after),
        0 <= i < before.projectiles@.len(),
        forall|j: int|
            0 <= j < before.players@.len() ==> #[trigger] spares(
                before.projectiles@[i].entity,
                before.players@[j].entity,
            ),
    ensures
        after.projectiles@.len() == before.projectiles@.len(),
        after.projectiles@[i].entity == before.projectiles@[i].entity,
        after.projectiles@[i].actually_hit == before.projectiles@[i].actually_hit,
        after.projectiles@[i].sparks == before.projectiles@[i].sparks,
{
    let attackers = bodies_of(before.projectiles@);
    let targets = bodies_of(before.players@);
    let v = Volley { attackers, targets, touched: Seq::new(attackers.len(), |i: int| false) };
    assert forall|j: int| 0 <= j < targets.len() implies #[trigger] spares(
        v.attackers[i],
        v.targets[j],
    ) by {
        assert(spares(before.projectiles@[i].entity, before.players@[j].entity));
    }
    lemma_volley_spares_attacker(v, attackers.len() as int, PROJECTILE_STRENGTH as int, i);
    lemma_volley_lessens(v, attackers.len() as int, PROJECTILE_STRENGTH as int);
}

/// Through a whole step, a player alone in the world is not hurt by its
/// own projectiles, however they lie on it: if it stands idle, the game has
/// not begun, nobody holds a projectile, every projectile in flight is its
/// own, and there is no food nor any due, then after the step it is still
/// there with the radius it had.
pub proof fn lemma_step_spares_the_owner(before: Game, after: Game, cues: Seq<SoundCue>, dt: int)
    requires
        before.wf(),
        0 <= dt,
        before.ticked(after, cues, dt),
        !before.begun(),
        before.players@.len() == 1,
        before.players@[0].controller is Idle,
        before.players@[0].projectile.is_none(),
        before.players@[0].entity.size > 0,
        forall|i: int|
            0 <= i < before.projectiles@.len() ==> (#[trigger] before.projectiles@[i]).entity.owner_id
                == before.players@[0].entity.owner_id,
        before.food@.len() == 0,
        before.next_food - dt >= 0,
    ensures
        after.players@.len() == 1,
        after.players@[0].entity.size == before.players@[0].entity.size,
        after.players@[0].entity.owner_id == before.players@[0].entity.owner_id,
        after.food@.len() == 0,
{
    let alive = has_local_player(before.players@);
    let (s1, s2, s3, s4, s5, s6, s7, s8, s9, s10, s11, s12, s13, shots, heals, deaths, hits) =
        choose|
        s1: Game,
        s2: Game,
        s3: Game,
        s4: Game,
        s5: Game,
        s6: Game,
        s7: Game,
        s8: Game,
        s9: Game,
        s10: Game,
        s11: Game,
        s12: Game,
        s13: Game,
        shots: Seq<SoundCue>,
        heals: Seq<SoundCue>,
        deaths: Seq<SoundCue>,
        hits: Seq<SoundCue>,
    |
        {
            &&& #[trigger] before.decided(s1)
            &&& #[trigger] s1.drifted(s2, dt)
            &&& #[trigger] s2.players_stepped(s3, shots, dt)
            &&& #[trigger] s3.projectiles_stepped(s4, dt)
            &&& #[trigger] s4.players_collided(s5)
            &&& #[trigger] s5.players_struck(s6)
            &&& #[trigger] s6.projectiles_struck(s7)
            &&& #[trigger] s7.food_spawned(s8, dt)
            &&& #[trigger] s8.food_stepped(s9, dt)
            &&& #[trigger] s9.players_fed(s10, heals)
            &&& #[trigger] s10.players_buried(s11, deaths, alive)
            &&& #[trigger] s11.projectiles_buried(s12, hits)
            &&& #[trigger] s12.food_cleared(s13)
            &&& #[trigger] s13.waves_run(after, dt, alive)
            &&& cues == shots + heals + deaths + hits
        };
    let alone_before = before.players@[0];
    let owner = alone_before.entity.owner_id;
    // the player decides to stand still, takes its step and lets nothing go
    assert(s1.players@[0].action.shoot.is_none());
    assert(player_stepped(s2.players@[0], s3.players@[0], dt, s2.begun()));
    let moved_on = s3.players@[0];
    assert(moved_on.entity.size == alone_before.entity.size && moved_on.entity.owner_id == owner);
    assert(shots_of(s2.players@.drop_last()) =~= Seq::<Projectile>::empty());
    assert(s3.projectiles@ =~= before.projectiles@);
    // the projectiles fly on and stay its own
    assert forall|i: int| 0 <= i < s4.projectiles@.len() implies (
    #[trigger] s4.projectiles@[i]).entity.owner_id == owner by {
        assert(decayed(s3.projectiles@[i], dt).stepped(s4.projectiles@[i], dt));
    }
    // a body alone is pushed by nobody
    let bodies = bodies_of(s4.players@);
    assert(collide_first(bodies, 0) == bodies);
    assert(collide_with_earlier(bodies, 0, 0) == bodies);
    assert(spec_collide_all(bodies) == bodies);
    assert(s5.players@ =~= s4.players@);
    // its own projectiles spare it
    assert forall|i: int| 0 <= i < s5.projectiles@.len() implies #[trigger] spares(
        s5.projectiles@[i].entity,
        s5.players@[0].entity,
    ) by {
        assert(s5.projectiles@[i].entity.owner_id == owner);
    }
    assert(bodies_wf(bodies_of(s5.players@)));
    assert forall|i: int| 0 <= i < s5.projectiles@.len() implies (#[trigger] bodies_of(
        s5.projectiles@,
    )[i]).wf() by {
        assert(before.projectiles@[i].wf());
        assert(decayed(s3.projectiles@[i], dt).stepped(s4.projectiles@[i], dt));
    }
    lemma_projectiles_spare_their_owner(s5, s6, 0);
    // no food comes, and none is there to eat
    assert(s8.food@.len() == 0);
    assert(s9.food@.len() == 0);
    let eaters = bodies_of(s9.players@);
    let dishes = bodies_of(s9.food@);
    assert(meal_first(Meal { eaters, dishes }, 0, FOOD_K as int) == (Meal { eaters, dishes }));
    assert(s10.players@ =~= s9.players@);
    assert(s10.food@.len() == 0);
    // the player has its radius and stays
    let alone = s10.players@;
    assert(alone[0].entity.size > 0);
    assert(alone.drop_last() =~= Seq::<Player>::empty());
    assert(alone =~= Seq::<Player>::empty().push(alone[0]));
    Seq::<Player>::empty().lemma_filter_push(alone[0], has_radius());
    assert(Seq::<Player>::empty().filter(has_radius()) =~= Seq::<Player>::empty()) by {
        Seq::<Player>::empty().lemma_filter_len(has_radius());
    }
    assert(s11.players@ =~= alone);
    assert(remains_count(alone.drop_last(), 0) == 0);
    assert(remains_count(alone, 0) == 0);
    assert(s11.food@.len() == 0);
    assert(s13.food@.len() == 0);
}

} // verus!
