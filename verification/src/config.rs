use vstd::prelude::*;
use crate::geom::Vec2;
use crate::geom::UNIT;

verus! {

/// Number of entries in the direction table: one per whole degree.
pub const DIR_COUNT: usize = 360;

/// How many particles an explosion fans out into.
pub const FAN_OUT: usize = 36;

/// Angular spacing of the fan, in whole degrees.
pub const FAN_STEP: usize = 10;

/// Largest half-extent a viewport may have, in raw coordinate steps. Keeps
/// every coordinate the simulation produces far from `i64` overflow.
pub const MAX_HALF_EXTENT: i64 = 1_000_000_000_000;

/// Default viewport half-width: a 640-unit-wide window.
pub const STD_HALF_WIDTH: i64 = 320 * UNIT;

/// Default viewport half-height: a 360-unit-tall window.
pub const STD_HALF_HEIGHT: i64 = 180 * UNIT;

/// Default spawn cadence: one particle every 5 ticks.
pub const STD_SPAWN_PERIOD: u64 = 5;

/// Default explosion odds: one in 10000 per particle per tick.
pub const STD_EXPLODE_ONE_IN: u32 = 10_000;

/// Everything a host must supply to drive the simulation: the viewport
/// half-extents (the viewport is centred on the coordinate origin), the
/// spawn cadence, the explosion odds, and the direction table, which maps a
/// whole-degree angle to the fixed-point unit vector pointing that way.
pub struct SimConfig {
    pub half_width: i64,
    pub half_height: i64,
    pub spawn_period: u64,
    pub explode_one_in: u32,
    pub directions: Vec<Vec2>,
}

/// Whether a direction entry has both components within one spatial unit,
/// as any unit vector scaled by `UNIT` does.
pub open spec fn dir_bounded(v: Vec2) -> bool {
    &&& -UNIT <= v.x <= UNIT
    &&& -UNIT <= v.y <= UNIT
}

impl SimConfig {
    /// Well-formedness: positive bounded half-extents, a positive cadence
    /// and odds, and a full direction table of bounded entries.
    pub open spec fn wf(self) -> bool {
        &&& 0 < self.half_width <= MAX_HALF_EXTENT
        &&& 0 < self.half_height <= MAX_HALF_EXTENT
        &&& self.spawn_period > 0
        &&& self.explode_one_in > 0
        &&& self.directions@.len() == DIR_COUNT
        &&& forall|k: int| 0 <= k < DIR_COUNT ==> dir_bounded(#[trigger] self.directions@[k])
    }

    /// The viewport containment predicate: both coordinates within the
    /// half-extents, edges included.
    pub open spec fn spec_contains(self, p: Vec2) -> bool {
        &&& -self.half_width <= p.x <= self.half_width
        &&& -self.half_height <= p.y <= self.half_height
    }

    pub fn contains(&self, p: Vec2) -> (r: bool)
        requires
            self.wf(),
        ensures
            r == self.spec_contains(p),
    {
        -self.half_width <= p.x && p.x <= self.half_width && -self.half_height <= p.y && p.y
            <= self.half_height
    }

    /// Validating constructor: yields a configuration exactly when the
    /// given pieces are well-formed, and rejects them otherwise.
    pub fn checked(
        half_width: i64,
        half_height: i64,
        spawn_period: u64,
        explode_one_in: u32,
        directions: Vec<Vec2>,
    ) -> (r: Option<SimConfig>)
        ensures
            r matches Some(c) ==> c == (SimConfig {
                half_width,
                half_height,
                spawn_period,
                explode_one_in,
                directions,
            }) && c.wf(),
            r is None ==> !(SimConfig {
                half_width,
                half_height,
                spawn_period,
                explode_one_in,
                directions,
            }).wf(),
    {
        let scalars_ok = 0 < half_width && half_width <= MAX_HALF_EXTENT && 0 < half_height
            && half_height <= MAX_HALF_EXTENT && spawn_period > 0 && explode_one_in > 0;
        if !scalars_ok {
            return None;
        }
        if !directions_ok(&directions) {
            return None;
        }
        Some(SimConfig { half_width, half_height, spawn_period, explode_one_in, directions })
    }

    /// The documented defaults (640 by 360 viewport, cadence 5, odds one in
    /// 10000) around a host-supplied direction table.
    pub fn standard(directions: Vec<Vec2>) -> (r: Option<SimConfig>)
        ensures
            r matches Some(c) ==> c == (SimConfig {
                half_width: STD_HALF_WIDTH,
                half_height: STD_HALF_HEIGHT,
                spawn_period: STD_SPAWN_PERIOD,
                explode_one_in: STD_EXPLODE_ONE_IN,
                directions,
            }) && c.wf(),
            r is None ==> !(SimConfig {
                half_width: STD_HALF_WIDTH,
                half_height: STD_HALF_HEIGHT,
                spawn_period: STD_SPAWN_PERIOD,
                explode_one_in: STD_EXPLODE_ONE_IN,
                directions,
            }).wf(),
    {
        SimConfig::checked(
            STD_HALF_WIDTH,
            STD_HALF_HEIGHT,
            STD_SPAWN_PERIOD,
            STD_EXPLODE_ONE_IN,
            directions,
        )
    }
}

/// Whether the vector is a complete, bounded direction table.
fn directions_ok(directions: &Vec<Vec2>) -> (r: bool)
    ensures
        r == (directions@.len() == DIR_COUNT && forall|k: int|
            0 <= k < DIR_COUNT ==> dir_bounded(#[trigger] directions@[k])),
{
    if directions.len() != DIR_COUNT {
        return false;
    }
    let mut k: usize = 0;
    while k < DIR_COUNT
        invariant
            k <= DIR_COUNT,
            directions@.len() == DIR_COUNT,
            forall|j: int| 0 <= j < k ==> dir_bounded(#[trigger] directions@[j]),
        decreases DIR_COUNT - k,
    {
        let v = directions[k];
        if !(-UNIT <= v.x && v.x <= UNIT && -UNIT <= v.y && v.y <= UNIT) {
            return false;
        }
        k = k + 1;
    }
    true
}

} // verus!
