//! Things that have a body, and how the bodies of a list of them are taken
//! out, worked on, and put back.

use vstd::prelude::*;
use crate::entity::Entity;
use crate::food::Food;
use crate::player::Player;
use crate::projectile::Projectile;

verus! {

/// A thing of the world that has a body.
pub trait Body: Sized {
    /// The body.
    spec fn spec_body(&self) -> Entity;

    /// The same thing with another body.
    spec fn with_body(&self, body: Entity) -> Self;

    /// The body.
    fn body(&self) -> (e: Entity)
        ensures
            e == self.spec_body(),
    ;

    /// Gives the thing another body.
    fn set_body(&mut self, body: Entity)
        ensures
            *final(self) == old(self).with_body(body),
    ;
}

impl Body for Player {
    open spec fn spec_body(&self) -> Entity {
        self.entity
    }

    open spec fn with_body(&self, body: Entity) -> Self {
        Player { entity: body, ..*self }
    }

    fn body(&self) -> (e: Entity) {
        self.entity
    }

    fn set_body(&mut self, body: Entity) {
        self.entity = body;
    }
}

impl Body for Projectile {
    open spec fn spec_body(&self) -> Entity {
        self.entity
    }

    open spec fn with_body(&self, body: Entity) -> Self {
        Projectile { entity: body, ..*self }
    }

    fn body(&self) -> (e: Entity) {
        self.entity
    }

    fn set_body(&mut self, body: Entity) {
        self.entity = body;
    }
}

impl Body for Food {
    open spec fn spec_body(&self) -> Entity {
        self.entity
    }

    open spec fn with_body(&self, body: Entity) -> Self {
        Food { entity: body, ..*self }
    }

    fn body(&self) -> (e: Entity) {
        self.entity
    }

    fn set_body(&mut self, body: Entity) {
        self.entity = body;
    }
}

/// The bodies of the things, in their order.
pub open spec fn bodies_of<T: Body>(things: Seq<T>) -> Seq<Entity> {
    Seq::new(things.len(), |i: int| things[i].spec_body())
}

/// The things, each with the body that stands at its place in `bodies`.
pub open spec fn with_bodies<T: Body>(things: Seq<T>, bodies: Seq<Entity>) -> Seq<T> {
    Seq::new(things.len(), |i: int| things[i].with_body(bodies[i]))
}

/// The bodies of the things, in their order.
pub fn gather<T: Body>(things: &Vec<T>) -> (bodies: Vec<Entity>)
    ensures
        bodies@ == bodies_of(things@),
{
    let mut bodies: Vec<Entity> = Vec::new();
    let mut i: usize = 0;
    while i < things.len()
        invariant
            i <= things@.len(),
            bodies@.len() == i,
            forall|j: int| 0 <= j < i ==> bodies@[j] == (#[trigger] things@[j]).spec_body(),
        decreases things@.len() - i,
    {
        bodies.push(things[i].body());
        i = i + 1;
    }
    proof {
        assert(bodies@ =~= bodies_of(things@));
    }
    bodies
}

/// Gives each thing the body that stands at its place in `bodies`.
pub fn scatter<T: Body>(things: &mut Vec<T>, bodies: &Vec<Entity>)
    requires
        bodies@.len() == old(things)@.len(),
    ensures
        final(things)@ == with_bodies(old(things)@, bodies@),
{
    let mut i: usize = 0;
    while i < things.len()
        invariant
            i <= things@.len(),
            things@.len() == old(things)@.len(),
            bodies@.len() == things@.len(),
            forall|j: int| 0 <= j < i ==>
                things@[j] == (#[trigger] old(things)@[j]).with_body(bodies@[j]),
            forall|j: int| i <= j < things@.len() ==> things@[j] == old(things)@[j],
        decreases things@.len() - i,
    {
        let thing = &mut things[i];
        thing.set_body(bodies[i]);
        i = i + 1;
    }
    proof {
        assert(things@ =~= with_bodies(old(things)@, bodies@));
    }
}

} // verus!
