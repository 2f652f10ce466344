//! What bodies do to each other, pair by pair: they push each other apart,
//! strike each other, and eat each other. Every pair meets once in a step,
//! in a fixed order.

use vstd::prelude::*;
use crate::entity::{
    penetration, shrunk, spec_collide, spec_consumer, spec_hit_attacker, Entity,
};

verus! {

/// All bodies of the sequence are well-formed.
pub open spec fn bodies_wf(bodies: Seq<Entity>) -> bool {
    forall|i: int| 0 <= i < bodies.len() ==> (#[trigger] bodies[i]).wf()
}

/// `after` holds the bodies of `before` with nothing changed but positions
/// and radii: each body keeps its owner, its colour and its velocity.
pub open spec fn same_bodies(before: Seq<Entity>, after: Seq<Entity>) -> bool {
    &&& after.len() == before.len()
    &&& forall|i: int|
        0 <= i < before.len() ==> (#[trigger] after[i]).owner_id == before[i].owner_id
            && after[i].color == before[i].color && after[i].vel == before[i].vel
}

/// The bodies after the body `later` has been pushed apart from each of the
/// first `k` bodies, in their order.
pub open spec fn collide_with_earlier(bodies: Seq<Entity>, later: int, k: int) -> Seq<Entity>
    decreases k,
{
    if k <= 0 {
        bodies
    } else {
        let before = collide_with_earlier(bodies, later, k - 1);
        let pair = spec_collide(before[k - 1], before[later]);
        before.update(k - 1, pair.0).update(later, pair.1)
    }
}

/// The bodies after each of the first `n` has been pushed apart from all
/// that stand before it.
pub open spec fn collide_first(bodies: Seq<Entity>, n: int) -> Seq<Entity>
    decreases n,
{
    if n <= 0 {
        bodies
    } else {
        collide_with_earlier(collide_first(bodies, n - 1), n - 1, n - 1)
    }
}

/// The bodies after every pair of them has been pushed apart once: each
/// body, in its turn, from all that stand before it.
pub open spec fn spec_collide_all(bodies: Seq<Entity>) -> Seq<Entity> {
    collide_first(bodies, bodies.len() as int)
}

/// The bodies after the body `later` has struck each of the first `k`
/// bodies, in their order, paying the damage done divided by `factor`.
pub open spec fn strike_earlier(bodies: Seq<Entity>, later: int, k: int, factor: int) -> Seq<
    Entity,
>
    decreases k,
{
    if k <= 0 {
        bodies
    } else {
        let before = strike_earlier(bodies, later, k - 1, factor);
        before.update(k - 1, shrunk(before[later], before[k - 1])).update(
            later,
            spec_hit_attacker(before[later], before[k - 1], factor),
        )
    }
}

/// The bodies after each of the first `n` has struck all that stand before
/// it.
pub open spec fn strike_first(bodies: Seq<Entity>, n: int, factor: int) -> Seq<Entity>
    decreases n,
{
    if n <= 0 {
        bodies
    } else {
        strike_earlier(strike_first(bodies, n - 1, factor), n - 1, n - 1, factor)
    }
}

/// The bodies after every pair of them has met once: each body, in its
/// turn, strikes all that stand before it.
pub open spec fn spec_strike_all(bodies: Seq<Entity>, factor: int) -> Seq<Entity> {
    strike_first(bodies, bodies.len() as int, factor)
}

/// What a volley leaves: the attackers, the targets, and for each attacker
/// whether it touched a target.
pub struct Volley {
    pub attackers: Seq<Entity>,
    pub targets: Seq<Entity>,
    pub touched: Seq<bool>,
}

/// The volley after the attacker `a` has struck the first `k` targets, in
/// their order. A target of the same owner as the attacker is passed over.
pub open spec fn volley_one(v: Volley, a: int, k: int, factor: int) -> Volley
    decreases k,
{
    if k <= 0 {
        v
    } else {
        let before = volley_one(v, a, k - 1, factor);
        let attacker = before.attackers[a];
        let target = before.targets[k - 1];
        if attacker.owner_id != target.owner_id {
            Volley {
                attackers: before.attackers.update(a, spec_hit_attacker(attacker, target, factor)),
                targets: before.targets.update(k - 1, shrunk(attacker, target)),
                touched: before.touched.update(
                    a,
                    before.touched[a] || penetration(attacker, target) > 0,
                ),
            }
        } else {
            before
        }
    }
}

/// The volley after each of the first `n` attackers has struck all targets.
pub open spec fn volley_first(v: Volley, n: int, factor: int) -> Volley
    decreases n,
{
    if n <= 0 {
        v
    } else {
        volley_one(volley_first(v, n - 1, factor), n - 1, v.targets.len() as int, factor)
    }
}

/// What is left after each attacker, in its turn, has struck every target
/// that is not of its own owner: the attackers, the targets, and for each
/// attacker whether it touched a target.
pub open spec fn spec_volley(attackers: Seq<Entity>, targets: Seq<Entity>, factor: int) -> Volley {
    volley_first(
        Volley { attackers, targets, touched: Seq::new(attackers.len(), |i: int| false) },
        attackers.len() as int,
        factor,
    )
}

/// What a meal leaves: the eaters and the dishes.
pub struct Meal {
    pub eaters: Seq<Entity>,
    pub dishes: Seq<Entity>,
}

/// The meal after the first `k` eaters have eaten from the dish `d`, in
/// their order.
pub open spec fn meal_one(m: Meal, d: int, k: int, factor: int) -> Meal
    decreases k,
{
    if k <= 0 {
        m
    } else {
        let before = meal_one(m, d, k - 1, factor);
        let eater = before.eaters[k - 1];
        let dish = before.dishes[d];
        Meal {
            eaters: before.eaters.update(k - 1, spec_consumer(eater, dish, factor)),
            dishes: before.dishes.update(d, shrunk(eater, dish)),
        }
    }
}

/// The meal after all eaters have eaten from each of the first `n` dishes.
pub open spec fn meal_first(m: Meal, n: int, factor: int) -> Meal
    decreases n,
{
    if n <= 0 {
        m
    } else {
        meal_one(meal_first(m, n - 1, factor), n - 1, m.eaters.len() as int, factor)
    }
}

/// What is left after every eater has eaten from every dish, dish by dish
/// and, at each dish, eater by eater. An eater gains what the dish loses,
/// multiplied by `factor`.
pub open spec fn spec_meal(eaters: Seq<Entity>, dishes: Seq<Entity>, factor: int) -> Meal {
    meal_first(Meal { eaters, dishes }, dishes.len() as int, factor)
}

/// Pushes every pair of bodies apart once: each body, in its turn, from all
/// that stand before it.
pub fn collide_all(bodies: &mut Vec<Entity>)
    requires
        bodies_wf(old(bodies)@),
    ensures
        final(bodies)@ == spec_collide_all(old(bodies)@),
        bodies_wf(final(bodies)@),
        same_bodies(old(bodies)@, final(bodies)@),
        forall|i: int|
            0 <= i < old(bodies)@.len() ==>
                (#[trigger] final(bodies)@[i]).size == old(bodies)@[i].size,
{
    let n = bodies.len();
    let mut i: usize = 0;
    while i < n
        invariant
            i <= n,
            n == bodies@.len(),
            bodies@ == collide_first(old(bodies)@, i as int),
            bodies_wf(bodies@),
            same_bodies(old(bodies)@, bodies@),
            forall|m: int|
                0 <= m < n ==> (#[trigger] bodies@[m]).size == old(bodies)@[m].size,
        decreases n - i,
    {
        let ghost round = bodies@;
        let mut j: usize = 0;
        while j < i
            invariant
                j <= i < n,
                n == bodies@.len(),
                round.len() == n,
                bodies@ == collide_with_earlier(round, i as int, j as int),
                bodies_wf(bodies@),
                same_bodies(old(bodies)@, bodies@),
                forall|m: int|
                    0 <= m < n ==> (#[trigger] bodies@[m]).size == old(bodies)@[m].size,
            decreases i - j,
        {
            let mut a = bodies[j];
            let mut b = bodies[i];
            Entity::collide(&mut a, &mut b);
            bodies.set(j, a);
            bodies.set(i, b);
            j = j + 1;
        }
        i = i + 1;
    }
}

/// Lets every pair of bodies meet once: each body, in its turn, strikes all
/// that stand before it and pays the damage done divided by `factor`.
pub fn strike_all(bodies: &mut Vec<Entity>, factor: i64)
    requires
        bodies_wf(old(bodies)@),
        factor > 0,
    ensures
        final(bodies)@ == spec_strike_all(old(bodies)@, factor as int),
        bodies_wf(final(bodies)@),
        same_bodies(old(bodies)@, final(bodies)@),
        forall|i: int|
            0 <= i < old(bodies)@.len() ==>
                (#[trigger] final(bodies)@[i]).size <= old(bodies)@[i].size
                    && final(bodies)@[i].pos == old(bodies)@[i].pos,
{
    let n = bodies.len();
    let mut i: usize = 0;
    while i < n
        invariant
            i <= n,
            n == bodies@.len(),
            factor > 0,
            bodies@ == strike_first(old(bodies)@, i as int, factor as int),
            bodies_wf(bodies@),
            same_bodies(old(bodies)@, bodies@),
            forall|m: int|
                0 <= m < n ==> (#[trigger] bodies@[m]).size <= old(bodies)@[m].size
                    && bodies@[m].pos == old(bodies)@[m].pos,
        decreases n - i,
    {
        let ghost round = bodies@;
        let mut j: usize = 0;
        while j < i
            invariant
                j <= i < n,
                n == bodies@.len(),
                round.len() == n,
                factor > 0,
                bodies@ == strike_earlier(round, i as int, j as int, factor as int),
                bodies_wf(bodies@),
                same_bodies(old(bodies)@, bodies@),
                forall|m: int|
                    0 <= m < n ==> (#[trigger] bodies@[m]).size <= old(bodies)@[m].size
                        && bodies@[m].pos == old(bodies)@[m].pos,
            decreases i - j,
        {
            let mut target = bodies[j];
            let mut attacker = bodies[i];
            attacker.hit(&mut target, factor);
            bodies.set(j, target);
            bodies.set(i, attacker);
            j = j + 1;
        }
        i = i + 1;
    }
}

/// Lets each attacker, in its turn, strike every target that is not of its
/// own owner. An attacker pays the damage done divided by `factor`. Returns
/// for each attacker whether it touched a target.
pub fn volley(attackers: &mut Vec<Entity>, targets: &mut Vec<Entity>, factor: i64) -> (touched:
    Vec<bool>)
    requires
        bodies_wf(old(attackers)@),
        bodies_wf(old(targets)@),
        factor > 0,
    ensures
        spec_volley(old(attackers)@, old(targets)@, factor as int) == (Volley {
            attackers: final(attackers)@,
            targets: final(targets)@,
            touched: touched@,
        }),
        bodies_wf(final(attackers)@),
        bodies_wf(final(targets)@),
        same_bodies(old(attackers)@, final(attackers)@),
        same_bodies(old(targets)@, final(targets)@),
        touched@.len() == old(attackers)@.len(),
        forall|i: int|
            0 <= i < old(attackers)@.len() ==>
                (#[trigger] final(attackers)@[i]).size <= old(attackers)@[i].size
                    && final(attackers)@[i].pos == old(attackers)@[i].pos,
        forall|i: int|
            0 <= i < old(targets)@.len() ==>
                (#[trigger] final(targets)@[i]).size <= old(targets)@[i].size
                    && final(targets)@[i].pos == old(targets)@[i].pos,
{
    let n = attackers.len();
    let m = targets.len();
    let mut touched: Vec<bool> = Vec::new();
    let mut t: usize = 0;
    while t < n
        invariant
            t <= n,
            touched@.len() == t,
            forall|k: int| 0 <= k < t ==> !(#[trigger] touched@[k]),
        decreases n - t,
    {
        touched.push(false);
        t = t + 1;
    }
    let ghost start = Volley { attackers: attackers@, targets: targets@, touched: touched@ };
    proof {
        assert(touched@ =~= Seq::new(attackers@.len(), |i: int| false));
    }
    let mut i: usize = 0;
    while i < n
        invariant
            i <= n,
            n == attackers@.len(),
            m == targets@.len(),
            touched@.len() == n,
            factor > 0,
            start.targets.len() == m,
            start.attackers == old(attackers)@,
            start.targets == old(targets)@,
            volley_first(start, i as int, factor as int) == (Volley {
                attackers: attackers@,
                targets: targets@,
                touched: touched@,
            }),
            bodies_wf(attackers@),
            bodies_wf(targets@),
            same_bodies(old(attackers)@, attackers@),
            same_bodies(old(targets)@, targets@),
            forall|k: int|
                0 <= k < n ==> (#[trigger] attackers@[k]).size <= old(attackers)@[k].size
                    && attackers@[k].pos == old(attackers)@[k].pos,
            forall|k: int|
                0 <= k < m ==> (#[trigger] targets@[k]).size <= old(targets)@[k].size
                    && targets@[k].pos == old(targets)@[k].pos,
        decreases n - i,
    {
        let ghost round = Volley { attackers: attackers@, targets: targets@, touched: touched@ };
        let mut j: usize = 0;
        while j < m
            invariant
                j <= m,
                i < n,
                n == attackers@.len(),
                m == targets@.len(),
                touched@.len() == n,
                factor > 0,
                volley_one(round, i as int, j as int, factor as int) == (Volley {
                    attackers: attackers@,
                    targets: targets@,
                    touched: touched@,
                }),
                bodies_wf(attackers@),
                bodies_wf(targets@),
                same_bodies(old(attackers)@, attackers@),
                same_bodies(old(targets)@, targets@),
                forall|k: int|
                    0 <= k < n ==> (#[trigger] attackers@[k]).size <= old(attackers)@[k].size
                        && attackers@[k].pos == old(attackers)@[k].pos,
                forall|k: int|
                    0 <= k < m ==> (#[trigger] targets@[k]).size <= old(targets)@[k].size
                        && targets@[k].pos == old(targets)@[k].pos,
            decreases m - j,
        {
            let mut attacker = attackers[i];
            let mut target = targets[j];
            if !same_owner(&attacker, &target) {
                let contact = attacker.hit(&mut target, factor);
                let seen = touched[i];
                attackers.set(i, attacker);
                targets.set(j, target);
                touched.set(i, seen || contact);
            }
            j = j + 1;
        }
        i = i + 1;
    }
    touched
}

/// Whether two bodies have the same owner, or both none.
pub fn same_owner(a: &Entity, b: &Entity) -> (same: bool)
    ensures
        same == (a.owner_id == b.owner_id),
{
    match (a.owner_id, b.owner_id) {
        (Some(x), Some(y)) => x == y,
        (None, None) => true,
        _ => false,
    }
}

/// Lets every eater eat from every dish, dish by dish and, at each dish,
/// eater by eater. An eater gains what the dish loses, multiplied by
/// `factor`.
pub fn meal(eaters: &mut Vec<Entity>, dishes: &mut Vec<Entity>, factor: i64)
    requires
        bodies_wf(old(eaters)@),
        bodies_wf(old(dishes)@),
    ensures
        spec_meal(old(eaters)@, old(dishes)@, factor as int) == (Meal {
            eaters: final(eaters)@,
            dishes: final(dishes)@,
        }),
        bodies_wf(final(eaters)@),
        bodies_wf(final(dishes)@),
        same_bodies(old(eaters)@, final(eaters)@),
        same_bodies(old(dishes)@, final(dishes)@),
        forall|i: int|
            0 <= i < old(eaters)@.len() ==>
                (#[trigger] final(eaters)@[i]).pos == old(eaters)@[i].pos,
        forall|i: int|
            0 <= i < old(dishes)@.len() ==>
                (#[trigger] final(dishes)@[i]).size <= old(dishes)@[i].size
                    && final(dishes)@[i].pos == old(dishes)@[i].pos,
{
    let n = dishes.len();
    let m = eaters.len();
    let ghost start = Meal { eaters: eaters@, dishes: dishes@ };
    let mut i: usize = 0;
    while i < n
        invariant
            i <= n,
            n == dishes@.len(),
            m == eaters@.len(),
            start.eaters.len() == m,
            start.eaters == old(eaters)@,
            start.dishes == old(dishes)@,
            meal_first(start, i as int, factor as int) == (Meal {
                eaters: eaters@,
                dishes: dishes@,
            }),
            bodies_wf(eaters@),
            bodies_wf(dishes@),
            same_bodies(old(eaters)@, eaters@),
            same_bodies(old(dishes)@, dishes@),
            forall|k: int| 0 <= k < m ==> (#[trigger] eaters@[k]).pos == old(eaters)@[k].pos,
            forall|k: int|
                0 <= k < n ==> (#[trigger] dishes@[k]).size <= old(dishes)@[k].size
                    && dishes@[k].pos == old(dishes)@[k].pos,
        decreases n - i,
    {
        let ghost round = Meal { eaters: eaters@, dishes: dishes@ };
        let mut j: usize = 0;
        while j < m
            invariant
                j <= m,
                i < n,
                n == dishes@.len(),
                m == eaters@.len(),
                meal_one(round, i as int, j as int, factor as int) == (Meal {
                    eaters: eaters@,
                    dishes: dishes@,
                }),
                bodies_wf(eaters@),
                bodies_wf(dishes@),
                same_bodies(old(eaters)@, eaters@),
                same_bodies(old(dishes)@, dishes@),
                forall|k: int| 0 <= k < m ==> (#[trigger] eaters@[k]).pos == old(eaters)@[k].pos,
                forall|k: int|
                    0 <= k < n ==> (#[trigger] dishes@[k]).size <= old(dishes)@[k].size
                        && dishes@[k].pos == old(dishes)@[k].pos,
            decreases m - j,
        {
            let mut eater = eaters[j];
            let mut dish = dishes[i];
            eater.consume(&mut dish, factor);
            eaters.set(j, eater);
            dishes.set(i, dish);
            j = j + 1;
        }
        i = i + 1;
    }
}

} // verus!
