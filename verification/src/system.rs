use vstd::prelude::*;
use crate::geom::Vec2;
use crate::particle::Particle;

verus! {

/// A bounded, ordered collection of particles together with the fixed spawn
/// origin. `capacity` is the hard limit chosen at construction: adding to a
/// full system silently drops the new particle (drop-newest backpressure).
pub struct ParticleSystem {
    pub particles: Vec<Particle>,
    pub origin: Vec2,
    pub capacity: usize,
}

impl ParticleSystem {
    /// Whether every particle can take one more advance step without
    /// leaving `i64` range.
    pub open spec fn all_can_advance(self) -> bool {
        forall|j: int|
            0 <= j < self.particles@.len() ==> (#[trigger] self.particles@[j]).can_advance()
    }

    /// An empty system with the given spawn origin and capacity.
    pub fn new(origin: Vec2, max_particles: usize) -> (s: ParticleSystem)
        ensures
            s.particles@ == Seq::<Particle>::empty(),
            s.origin == origin,
            s.capacity == max_particles,
    {
        ParticleSystem { particles: Vec::new(), origin, capacity: max_particles }
    }

    pub fn len(&self) -> (n: usize)
        ensures
            n == self.particles@.len(),
    {
        self.particles.len()
    }

    /// Read-only access in insertion order, for the host's renderer.
    pub fn get(&self, i: usize) -> (p: Particle)
        requires
            i < self.particles@.len(),
        ensures
            p == self.particles@[i as int],
    {
        self.particles[i]
    }

    /// Law: the count never grows past the capacity. A particle added to a
    /// full system is dropped and the contents stay exactly as they were;
    /// otherwise it is appended, preserving insertion order.
    pub fn add_particle(&mut self, p: Particle)
        ensures
            old(self).particles@.len() < old(self).capacity ==> final(self).particles@ == old(self).particles@.push(p),
            old(self).particles@.len() >= old(self).capacity ==> final(self).particles@ == old(self).particles@,
            old(self).particles@.len() <= old(self).capacity ==> final(self).particles@.len() <= old(self).capacity,
            final(self).origin == old(self).origin,
            final(self).capacity == old(self).capacity,
    {
        if self.particles.len() >= self.capacity {
            return ;
        }
        self.particles.push(p);
    }

    /// Law: removal takes out exactly the particle at `index`, the count
    /// drops by exactly one, and every other particle keeps its relative
    /// order (entries after `index` shift down by one).
    pub fn remove_at(&mut self, index: usize) -> (p: Particle)
        requires
            index < old(self).particles@.len(),
        ensures
            p == old(self).particles@[index as int],
            final(self).particles@ == old(self).particles@.remove(index as int),
            final(self).particles@.len() == old(self).particles@.len() - 1,
            forall|j: int|
                0 <= j < index ==> final(self).particles@[j] == old(self).particles@[j],
            forall|j: int|
                index <= j < final(self).particles@.len() ==> final(self).particles@[j] == old(self).particles@[j + 1],
            final(self).origin == old(self).origin,
            final(self).capacity == old(self).capacity,
    {
        self.particles.remove(index)
    }

    /// Advance every particle exactly once; indices stay stable.
    pub fn advance_all(&mut self)
        requires
            old(self).all_can_advance(),
        ensures
            final(self).particles@.len() == old(self).particles@.len(),
            forall|j: int|
                0 <= j < old(self).particles@.len() ==> final(self).particles@[j] == (
                #[trigger] old(self).particles@[j]).advanced(),
            final(self).origin == old(self).origin,
            final(self).capacity == old(self).capacity,
    {
        let ghost s0 = self.particles@;
        let ghost o0 = self.origin;
        let ghost c0 = self.capacity;
        let n = self.particles.len();
        let mut i: usize = 0;
        while i < n
            invariant
                i <= n,
                n == s0.len(),
                self.particles@.len() == s0.len(),
                self.origin == o0,
                self.capacity == c0,
                forall|j: int| 0 <= j < i ==> self.particles@[j] == (#[trigger] s0[j]).advanced(),
                forall|j: int| i <= j < n ==> self.particles@[j] == #[trigger] s0[j],
                forall|j: int| 0 <= j < s0.len() ==> (#[trigger] s0[j]).can_advance(),
            decreases n - i,
        {
            let mut p = self.particles[i];
            assert(p == s0[i as int]);
            p.advance();
            self.particles[i] = p;
            i = i + 1;
        }
    }
}

} // verus!
