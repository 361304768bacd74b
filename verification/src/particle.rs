use vstd::prelude::*;
use vstd::arithmetic::div_mod::lemma_div_is_ordered;
use vstd::arithmetic::div_mod::lemma_div_multiples_vanish;
use vstd::arithmetic::div_mod::lemma_div_pos_is_pos;
use vstd::arithmetic::mul::lemma_mul_inequality;
use crate::config::MAX_HALF_EXTENT;
use crate::geom::Vec2;
use crate::geom::UNIT;
use crate::geom::sq_dist;

verus! {

/// A display color; each channel is scaled by `UNIT` (so `UNIT` is full
/// intensity and `0` is none).
#[derive(Clone, Copy, Debug, PartialEq, Eq, Structural)]
pub struct Color {
    pub red: i64,
    pub green: i64,
    pub blue: i64,
    pub alpha: i64,
}

/// The green channel for a particle at squared distance `d` from its spawn
/// point, with `max_d` the squared viewport half-width: full at the spawn
/// point, fading linearly to zero as `d` reaches `max_d`, clamped there.
pub open spec fn green_level(d: int, max_d: int) -> int
    recommends
        max_d > 0,
{
    UNIT - (if d <= max_d {
        d
    } else {
        max_d
    }) * UNIT / max_d
}

/// One particle: where it was spawned, where it is now, and its constant
/// per-tick displacement.
#[derive(Clone, Copy, Debug, PartialEq, Eq, Structural)]
pub struct Particle {
    pub origin: Vec2,
    pub position: Vec2,
    pub velocity: Vec2,
}

impl Particle {
    /// Whether one more advance step stays within `i64` on both axes.
    pub open spec fn can_advance(self) -> bool {
        self.position.plus_fits(self.velocity)
    }

    /// The particle after one advance step.
    pub open spec fn advanced(self) -> Particle {
        Particle { position: self.position.spec_plus(self.velocity), ..self }
    }

    /// A new particle starts exactly at its spawn point.
    pub fn new(position: Vec2, velocity: Vec2) -> (p: Particle)
        ensures
            p == (Particle { origin: position, position, velocity }),
    {
        Particle { origin: position, position, velocity }
    }

    /// One integration step: the position moves by the velocity; the spawn
    /// point and the velocity never change.
    pub fn advance(&mut self)
        requires
            old(self).can_advance(),
        ensures
            *final(self) == old(self).advanced(),
            final(self).position.x == old(self).position.x + old(self).velocity.x,
            final(self).position.y == old(self).position.y + old(self).velocity.y,
            final(self).origin == old(self).origin,
            final(self).velocity == old(self).velocity,
    {
        self.position = self.position.plus(self.velocity);
    }

    /// The color an external renderer should draw this particle with:
    /// always full red and alpha, never any blue, and a green channel that
    /// fades with the squared distance from the particle's own spawn point,
    /// relative to the squared viewport half-width. Pure: no drawing here.
    pub fn color_for_display(&self, half_width: i64) -> (c: Color)
        requires
            0 < half_width <= MAX_HALF_EXTENT,
            -2 * MAX_HALF_EXTENT <= self.position.x - self.origin.x <= 2 * MAX_HALF_EXTENT,
            -2 * MAX_HALF_EXTENT <= self.position.y - self.origin.y <= 2 * MAX_HALF_EXTENT,
        ensures
            c.red == UNIT,
            c.blue == 0,
            c.alpha == UNIT,
            c.green == green_level(sq_dist(self.position, self.origin), half_width * half_width),
            0 <= c.green <= UNIT,
    {
        let dx: i128 = self.position.x as i128 - self.origin.x as i128;
        let dy: i128 = self.position.y as i128 - self.origin.y as i128;
        proof {
            assert(0 <= dx * dx <= 4_000_000_000_000_000_000_000_000) by (nonlinear_arith)
                requires -2_000_000_000_000 <= dx <= 2_000_000_000_000;
            assert(0 <= dy * dy <= 4_000_000_000_000_000_000_000_000) by (nonlinear_arith)
                requires -2_000_000_000_000 <= dy <= 2_000_000_000_000;
            assert(0 < (half_width as int) * (half_width as int)
                <= 1_000_000_000_000_000_000_000_000) by (nonlinear_arith)
                requires 0 < half_width <= 1_000_000_000_000;
        }
        let d: i128 = dx * dx + dy * dy;
        let max_d: i128 = (half_width as i128) * (half_width as i128);
        let clamped: u128 = if d <= max_d {
            d as u128
        } else {
            max_d as u128
        };
        proof {
            assert(clamped <= 8_000_000_000_000_000_000_000_000);
            assert(clamped * (UNIT as u128) <= 8_000_000_000_000_000_000_000_000_000_000)
                by (nonlinear_arith)
                requires clamped <= 8_000_000_000_000_000_000_000_000, UNIT == 1_000_000int;
        }
        let scaled: u128 = clamped * (UNIT as u128) / (max_d as u128);
        proof {
            let ci = clamped as int;
            let mi = max_d as int;
            lemma_mul_inequality(ci, mi, UNIT as int);
            lemma_div_is_ordered(ci * UNIT, mi * UNIT, mi);
            lemma_div_multiples_vanish(UNIT as int, mi);
            lemma_div_pos_is_pos(ci * UNIT, mi);
        }
        let green: i64 = (UNIT as u128 - scaled) as i64;
        Color { red: UNIT, green, blue: 0, alpha: UNIT }
    }
}

/// Law: the green channel never rises as the squared distance from the
/// spawn point grows, and it always lies between zero and full intensity.
pub proof fn lemma_green_monotone(d1: int, d2: int, max_d: int)
    requires
        0 <= d1 <= d2,
        0 < max_d,
    ensures
        green_level(d2, max_d) <= green_level(d1, max_d),
        0 <= green_level(d2, max_d) <= UNIT,
        0 <= green_level(d1, max_d) <= UNIT,
{
    let c1 = if d1 <= max_d { d1 } else { max_d };
    let c2 = if d2 <= max_d { d2 } else { max_d };
    assert(0 <= c1 <= c2 <= max_d);
    lemma_mul_inequality(c1, c2, UNIT as int);
    lemma_div_is_ordered(c1 * UNIT, c2 * UNIT, max_d);
    lemma_mul_inequality(c2, max_d, UNIT as int);
    lemma_div_is_ordered(c2 * UNIT, max_d * UNIT, max_d);
    lemma_div_multiples_vanish(UNIT as int, max_d);
    lemma_mul_inequality(0, c1, UNIT as int);
    lemma_div_pos_is_pos(c1 * UNIT, max_d);
    lemma_div_pos_is_pos(c2 * UNIT, max_d);
}

/// The particle after `n` advance steps.
pub open spec fn stepped(p: Particle, n: nat) -> Particle
    decreases n,
{
    if n == 0 {
        p
    } else {
        stepped(p, (n - 1) as nat).advanced()
    }
}

/// Whether every one of the first `n` advance steps stays within `i64`.
pub open spec fn steps_fit(p: Particle, n: nat) -> bool {
    forall|k: nat| k < n ==> (#[trigger] stepped(p, k)).can_advance()
}

/// Law: motion is exactly linear. After `n` advance steps the position is
/// the spawn-time position plus `n` times the velocity, and the spawn point
/// and velocity are untouched.
pub proof fn lemma_linear_motion(p: Particle, n: nat)
    requires
        steps_fit(p, n),
    ensures
        stepped(p, n).origin == p.origin,
        stepped(p, n).velocity == p.velocity,
        stepped(p, n).position.x == p.position.x + n * p.velocity.x,
        stepped(p, n).position.y == p.position.y + n * p.velocity.y,
    decreases n,
{
    if n > 0 {
        let m = (n - 1) as nat;
        lemma_linear_motion(p, m);
        assert(stepped(p, m).can_advance());
        assert(m * p.velocity.x + p.velocity.x == n * p.velocity.x) by (nonlinear_arith)
            requires m + 1 == n;
        assert(m * p.velocity.y + p.velocity.y == n * p.velocity.y) by (nonlinear_arith)
            requires m + 1 == n;
    }
}

} // verus!
