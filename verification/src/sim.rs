use vstd::prelude::*;
use crate::config::SimConfig;
use crate::config::FAN_OUT;
use crate::config::dir_bounded;
use crate::config::FAN_STEP;
use crate::geom::Vec2;
use crate::particle::Particle;
use crate::system::ParticleSystem;

verus! {

/// Relies on rand's `RngExt::random_range` over `0..n` on the thread rng:
/// it returns a uniformly sampled value strictly below `n`, and the range
/// is nonempty because `n > 0`.
#[verifier::external_body]
fn random_below(n: u32) -> (r: u32)
    requires
        n > 0,
    ensures
        r < n,
{
    rand::RngExt::random_range(&mut rand::rng(), 0..n)
}

/// A freshly sampled spawn direction: any whole degree, uniformly.
pub fn random_angle() -> (r: u32)
    ensures
        r < 360,
{
    random_below(360)
}

/// The particle a spawn at `origin` with direction-table entry `angle`
/// creates: it starts at `origin` and keeps that as its spawn point.
pub open spec fn spawn_particle(origin: Vec2, cfg: SimConfig, angle: int) -> Particle {
    Particle { origin, position: origin, velocity: cfg.directions@[angle] }
}

/// Add one particle at the system origin heading along the direction-table
/// entry for `angle` (dropped when the system is full).
pub fn spawn_at(sys: &mut ParticleSystem, cfg: &SimConfig, angle: u32)
    requires
        cfg.wf(),
        angle < 360,
    ensures
        old(sys).particles@.len() < old(sys).capacity ==> final(sys).particles@ == old(sys).particles@.push(spawn_particle(old(sys).origin, *cfg, angle as int)),
        old(sys).particles@.len() >= old(sys).capacity ==> final(sys).particles@ == old(sys).particles@,
        final(sys).origin == old(sys).origin,
        final(sys).capacity == old(sys).capacity,
{
    let v = cfg.directions[angle as usize];
    let p = Particle::new(sys.origin, v);
    sys.add_particle(p);
}

/// Spawn one particle at the system origin with a random direction; which
/// direction comes out is not pinned, only that it is one table entry.
pub fn spawn_random(sys: &mut ParticleSystem, cfg: &SimConfig)
    requires
        cfg.wf(),
    ensures
        final(sys).origin == old(sys).origin,
        final(sys).capacity == old(sys).capacity,
        old(sys).particles@.len() >= old(sys).capacity ==> final(sys).particles@ == old(sys).particles@,
        old(sys).particles@.len() < old(sys).capacity ==> exists|a: int|
            0 <= a < 360 && final(sys).particles@ == old(sys).particles@.push(
                #[trigger] spawn_particle(old(sys).origin, *cfg, a),
            ),
{
    let a = random_angle();
    spawn_at(sys, cfg, a);
}

/// Law: the spawn cadence. A spawn is due exactly when the tick counter is
/// a multiple of the spawn period (so with period 5: at ticks 0, 5, 10, ...
/// and never in between).
pub open spec fn spec_spawn_due(tick_no: u64, period: u64) -> bool
    recommends
        period > 0,
{
    tick_no % period == 0
}

pub fn spawn_due(tick_no: u64, period: u64) -> (r: bool)
    requires
        period > 0,
    ensures
        r == spec_spawn_due(tick_no, period),
{
    tick_no % period == 0
}

/// One particle offered to a system of capacity `cap`: appended when there
/// is room, silently dropped when there is not.
pub open spec fn add_capped(s: Seq<Particle>, cap: nat, p: Particle) -> Seq<Particle> {
    if s.len() < cap {
        s.push(p)
    } else {
        s
    }
}

/// The `k`-th particle of an explosion fan at `pos`: spawned there, heading
/// along the table entry for `k * FAN_STEP` degrees.
pub open spec fn burst_particle(pos: Vec2, cfg: SimConfig, k: int) -> Particle {
    Particle { origin: pos, position: pos, velocity: cfg.directions@[k * (FAN_STEP as int)] }
}

/// The particle list after the first `k` fan particles were offered to the
/// system, in increasing-angle order.
pub open spec fn with_burst(
    s: Seq<Particle>,
    cap: nat,
    pos: Vec2,
    cfg: SimConfig,
    k: nat,
) -> Seq<Particle>
    decreases k,
{
    if k == 0 {
        s
    } else {
        add_capped(
            with_burst(s, cap, pos, cfg, (k - 1) as nat),
            cap,
            burst_particle(pos, cfg, k - 1),
        )
    }
}

/// What resolving index `i` as an explosion leaves: all `FAN_OUT` fan
/// particles offered at the exploding particle's position, then the
/// exploding particle itself removed.
pub open spec fn explode_result(s: Seq<Particle>, cap: nat, cfg: SimConfig, i: int) -> Seq<
    Particle,
> {
    with_burst(s, cap, s[i].position, cfg, FAN_OUT as nat).remove(i)
}

/// Shape of `with_burst`: the original entries are untouched, the length
/// neither shrinks nor passes the capacity, and everything appended is one
/// of the first `k` fan particles.
pub proof fn lemma_with_burst_shape(s: Seq<Particle>, cap: nat, pos: Vec2, cfg: SimConfig, k: nat)
    ensures
        s.len() <= with_burst(s, cap, pos, cfg, k).len() <= s.len() + k,
        s.len() <= cap ==> with_burst(s, cap, pos, cfg, k).len() <= cap,
        forall|j: int| 0 <= j < s.len() ==> with_burst(s, cap, pos, cfg, k)[j] == s[j],
        forall|j: int|
            s.len() <= j < with_burst(s, cap, pos, cfg, k).len() ==> exists|m: int|
                0 <= m < k && #[trigger] with_burst(s, cap, pos, cfg, k)[j]
                    == #[trigger] burst_particle(pos, cfg, m),
    decreases k,
{
    if k > 0 {
        lemma_with_burst_shape(s, cap, pos, cfg, (k - 1) as nat);
        let prev = with_burst(s, cap, pos, cfg, (k - 1) as nat);
        let cur = with_burst(s, cap, pos, cfg, k);
        assert forall|j: int| s.len() <= j < cur.len() implies exists|m: int|
            0 <= m < k && #[trigger] cur[j] == #[trigger] burst_particle(pos, cfg, m) by {
            if j < prev.len() {
                assert(exists|m: int|
                    0 <= m < k - 1 && prev[j] == #[trigger] burst_particle(pos, cfg, m));
                let m = choose|m: int|
                    0 <= m < k - 1 && prev[j] == #[trigger] burst_particle(pos, cfg, m);
                assert(cur[j] == burst_particle(pos, cfg, m));
            } else {
                assert(cur[j] == burst_particle(pos, cfg, k - 1));
            }
        }
    }
}

/// Exact shape of `with_burst` when the system has room for all `k` fan
/// particles: none is dropped and they sit in increasing-angle order right
/// after the original entries.
pub proof fn lemma_with_burst_exact(s: Seq<Particle>, cap: nat, pos: Vec2, cfg: SimConfig, k: nat)
    requires
        s.len() + k <= cap,
    ensures
        with_burst(s, cap, pos, cfg, k).len() == s.len() + k,
        forall|j: int| 0 <= j < s.len() ==> #[trigger] with_burst(s, cap, pos, cfg, k)[j] == s[j],
        forall|m: int|
            0 <= m < k ==> #[trigger] with_burst(s, cap, pos, cfg, k)[s.len() + m]
                == burst_particle(pos, cfg, m),
    decreases k,
{
    if k > 0 {
        lemma_with_burst_exact(s, cap, pos, cfg, (k - 1) as nat);
    }
}

/// Resolve one particle of the post-advance scan, given that particle's
/// explosion roll. An out-of-bounds particle is removed and never rolls; an
/// in-bounds particle whose roll came up zero explodes into the fan and is
/// removed; any other particle is left untouched.
pub fn scan_step(sys: &mut ParticleSystem, cfg: &SimConfig, i: usize, roll: u32)
    requires
        cfg.wf(),
        i < old(sys).particles@.len(),
    ensures
        final(sys).origin == old(sys).origin,
        final(sys).capacity == old(sys).capacity,
        !cfg.spec_contains(old(sys).particles@[i as int].position) ==> final(sys).particles@
            == old(sys).particles@.remove(i as int),
        cfg.spec_contains(old(sys).particles@[i as int].position) && roll == 0 ==> final(sys).particles@ == explode_result(
            old(sys).particles@,
            old(sys).capacity as nat,
            *cfg,
            i as int,
        ),
        cfg.spec_contains(old(sys).particles@[i as int].position) && roll != 0 ==> final(sys).particles@ == old(sys).particles@,
{
    let p = sys.get(i);
    if !cfg.contains(p.position) {
        sys.remove_at(i);
        return ;
    }
    if roll == 0 {
        let ghost s0 = sys.particles@;
        let ghost cap0 = sys.capacity as nat;
        let ghost o0 = sys.origin;
        let ghost c0 = sys.capacity;
        let mut k: usize = 0;
        while k < FAN_OUT
            invariant
                k <= FAN_OUT,
                cfg.wf(),
                i < s0.len(),
                p == s0[i as int],
                sys.origin == o0,
                sys.capacity == c0,
                cap0 == c0 as nat,
                sys.particles@ == with_burst(s0, cap0, p.position, *cfg, k as nat),
            decreases FAN_OUT - k,
        {
            let v = cfg.directions[k * FAN_STEP];
            sys.add_particle(Particle::new(p.position, v));
            k = k + 1;
            assert(sys.particles@ == with_burst(s0, cap0, p.position, *cfg, k as nat));
        }
        proof {
            lemma_with_burst_shape(s0, cap0, p.position, *cfg, FAN_OUT as nat);
        }
        sys.remove_at(i);
    }
}

/// Law: the explosion fan-out. When the system has room for the whole fan,
/// resolving index `i` as an explosion leaves exactly `FAN_OUT - 1` more
/// particles than before: every other particle keeps its relative order,
/// the exploding particle itself is gone, and the `m`-th new particle
/// stands at the exploding particle's position `P` with the table direction
/// for `m * FAN_STEP` degrees, so one advance step later it stands exactly
/// at `P` plus that direction.
pub proof fn lemma_explosion_fanout(s: Seq<Particle>, cap: nat, cfg: SimConfig, i: int)
    requires
        cfg.wf(),
        0 <= i < s.len(),
        s.len() + FAN_OUT <= cap,
        cfg.spec_contains(s[i].position),
    ensures
        explode_result(s, cap, cfg, i).len() == s.len() + FAN_OUT - 1,
        forall|j: int| 0 <= j < i ==> #[trigger] explode_result(s, cap, cfg, i)[j] == s[j],
        forall|j: int|
            i <= j < s.len() - 1 ==> #[trigger] explode_result(s, cap, cfg, i)[j] == s[j + 1],
        forall|m: int|
            0 <= m < FAN_OUT ==> #[trigger] explode_result(s, cap, cfg, i)[s.len() - 1 + m]
                == burst_particle(s[i].position, cfg, m),
        forall|m: int|
            0 <= m < FAN_OUT ==> (#[trigger] burst_particle(s[i].position, cfg, m)).can_advance()
                && burst_particle(s[i].position, cfg, m).advanced().position.x == s[i].position.x
                + cfg.directions@[m * (FAN_STEP as int)].x && burst_particle(
                s[i].position,
                cfg,
                m,
            ).advanced().position.y == s[i].position.y + cfg.directions@[m * (FAN_STEP as int)].y,
{
    let pos = s[i].position;
    let wb = with_burst(s, cap, pos, cfg, FAN_OUT as nat);
    lemma_with_burst_exact(s, cap, pos, cfg, FAN_OUT as nat);
    wb.remove_ensures(i);
    assert forall|m: int|
        0 <= m < FAN_OUT implies #[trigger] explode_result(s, cap, cfg, i)[s.len() - 1 + m]
        == burst_particle(pos, cfg, m) by {
        assert(wb.remove(i)[s.len() - 1 + m] == wb[s.len() + m]);
    }
    assert forall|m: int|
        0 <= m < FAN_OUT implies (#[trigger] burst_particle(pos, cfg, m)).can_advance() by {
        assert(dir_bounded(cfg.directions@[m * (FAN_STEP as int)]));
    }
}

/// A particle whose constant state the simulation keeps healthy: velocity
/// within one spatial unit per axis and spawn point inside the viewport.
pub open spec fn kinematics_ok(p: Particle, cfg: SimConfig) -> bool {
    &&& dir_bounded(p.velocity)
    &&& cfg.spec_contains(p.origin)
}

/// A particle at rest between ticks: healthy and inside the viewport.
pub open spec fn settled(p: Particle, cfg: SimConfig) -> bool {
    &&& kinematics_ok(p, cfg)
    &&& cfg.spec_contains(p.position)
}

/// The system's invariant between ticks: never over capacity, and every
/// particle settled.
pub open spec fn sys_settled(sys: ParticleSystem, cfg: SimConfig) -> bool {
    &&& sys.particles@.len() <= sys.capacity
    &&& forall|j: int|
        0 <= j < sys.particles@.len() ==> settled(#[trigger] sys.particles@[j], cfg)
}

/// One scan decision on the list: what resolving index `j` with explosion
/// roll `roll` leaves, exactly as `scan_step` does it.
pub open spec fn step_at(s: Seq<Particle>, cap: nat, cfg: SimConfig, j: int, roll: u32) -> Seq<
    Particle,
> {
    if !(0 <= j < s.len()) {
        s
    } else if !cfg.spec_contains(s[j].position) {
        s.remove(j)
    } else if roll == 0 {
        explode_result(s, cap, cfg, j)
    } else {
        s
    }
}

/// Whether resolving indices `i - 1` down to `0` in turn, each with some
/// explosion roll, can take the list from `s` to `t`.
pub open spec fn scan_reachable(
    s: Seq<Particle>,
    cap: nat,
    cfg: SimConfig,
    i: nat,
    t: Seq<Particle>,
) -> bool
    decreases i,
{
    if i == 0 {
        t == s
    } else {
        exists|roll: u32|
            scan_reachable(#[trigger] step_at(s, cap, cfg, i - 1, roll), cap, cfg, (i - 1) as nat, t)
    }
}

/// The post-advance scan, from the highest index down to zero so that a
/// removal never disturbs the indices still to be visited. Each particle
/// rolls its own explosion odds; the result is one the per-index decisions
/// of `scan_step` can reach, and whatever the rolls, afterwards every
/// particle is settled and the count is within capacity.
pub fn resolve_all(sys: &mut ParticleSystem, cfg: &SimConfig)
    requires
        cfg.wf(),
        old(sys).particles@.len() <= old(sys).capacity,
        forall|j: int|
            0 <= j < old(sys).particles@.len() ==> kinematics_ok(
                #[trigger] old(sys).particles@[j],
                *cfg,
            ),
    ensures
        final(sys).origin == old(sys).origin,
        final(sys).capacity == old(sys).capacity,
        sys_settled(*final(sys), *cfg),
        scan_reachable(
            old(sys).particles@,
            old(sys).capacity as nat,
            *cfg,
            old(sys).particles@.len(),
            final(sys).particles@,
        ),
{
    let ghost o0 = sys.origin;
    let ghost c0 = sys.capacity;
    let ghost s0 = sys.particles@;
    let mut i: usize = sys.particles.len();
    while i > 0
        invariant
            cfg.wf(),
            sys.origin == o0,
            sys.capacity == c0,
            i <= sys.particles@.len(),
            sys.particles@.len() <= c0,
            i <= s0.len(),
            forall|j: int| 0 <= j < i ==> #[trigger] sys.particles@[j] == s0[j],
            forall|j: int| 0 <= j < s0.len() ==> kinematics_ok(#[trigger] s0[j], *cfg),
            forall|j: int|
                i <= j < sys.particles@.len() ==> settled(#[trigger] sys.particles@[j], *cfg),
            forall|t: Seq<Particle>|
                #[trigger] scan_reachable(sys.particles@, c0 as nat, *cfg, i as nat, t)
                    ==> scan_reachable(s0, c0 as nat, *cfg, s0.len(), t),
        decreases i,
    {
        i = i - 1;
        let roll = random_below(cfg.explode_one_in);
        let ghost pre = sys.particles@;
        scan_step(sys, cfg, i, roll);
        proof {
            let p = pre[i as int];
            assert(p == s0[i as int]);
            assert(sys.particles@ == step_at(pre, c0 as nat, *cfg, i as int, roll));
            assert forall|t: Seq<Particle>|
                #[trigger] scan_reachable(sys.particles@, c0 as nat, *cfg, i as nat, t) implies
                scan_reachable(s0, c0 as nat, *cfg, s0.len(), t) by {
                assert(scan_reachable(
                    step_at(pre, c0 as nat, *cfg, i as int, roll),
                    c0 as nat,
                    *cfg,
                    i as nat,
                    t,
                ));
                assert(scan_reachable(pre, c0 as nat, *cfg, (i + 1) as nat, t));
            }
            if !cfg.spec_contains(p.position) {
                pre.remove_ensures(i as int);
                assert forall|j: int|
                    i <= j < sys.particles@.len() implies settled(
                    #[trigger] sys.particles@[j],
                    *cfg,
                ) by {
                    assert(sys.particles@[j] == pre[j + 1]);
                }
                assert forall|j: int| 0 <= j < i implies #[trigger] sys.particles@[j] == s0[j] by {
                    assert(sys.particles@[j] == pre[j]);
                }
            } else if roll == 0 {
                let wb = with_burst(pre, c0 as nat, p.position, *cfg, FAN_OUT as nat);
                lemma_with_burst_shape(pre, c0 as nat, p.position, *cfg, FAN_OUT as nat);
                wb.remove_ensures(i as int);
                assert forall|j: int|
                    i <= j < sys.particles@.len() implies settled(
                    #[trigger] sys.particles@[j],
                    *cfg,
                ) by {
                    assert(sys.particles@[j] == wb[j + 1]);
                    if j + 1 < pre.len() {
                        assert(wb[j + 1] == pre[j + 1]);
                    } else {
                        let m = choose|m: int|
                            0 <= m < FAN_OUT && wb[j + 1] == #[trigger] burst_particle(
                                p.position,
                                *cfg,
                                m,
                            );
                        assert(dir_bounded(cfg.directions@[m * (FAN_STEP as int)]));
                    }
                }
                assert forall|j: int| 0 <= j < i implies #[trigger] sys.particles@[j] == s0[j] by {
                    assert(sys.particles@[j] == wb[j]);
                    assert(wb[j] == pre[j]);
                }
            }
        }
    }
    proof {
        assert(scan_reachable(sys.particles@, c0 as nat, *cfg, 0, sys.particles@));
    }
}

/// The spawn phase's effect on the particle list: nothing when no spawn is
/// due, nothing when the system is full, else one particle at the origin
/// with some direction-table entry appended.
pub open spec fn spawn_outcome(
    s: Seq<Particle>,
    origin: Vec2,
    cfg: SimConfig,
    tick_no: u64,
    cap: nat,
    m: Seq<Particle>,
) -> bool {
    if !spec_spawn_due(tick_no, cfg.spawn_period) {
        m == s
    } else if s.len() >= cap {
        m == s
    } else {
        exists|a: int| 0 <= a < 360 && m == s.push(#[trigger] spawn_particle(origin, cfg, a))
    }
}

/// Every particle one advance step later.
pub open spec fn advanced_all(s: Seq<Particle>) -> Seq<Particle> {
    Seq::new(s.len(), |j: int| s[j].advanced())
}

/// One full simulation tick: spawn on cadence, advance every particle
/// exactly once, then scan and resolve from the highest index down. The
/// result is pinned up to the random draws: it is what the scan decisions
/// can reach from the advanced post-spawn list, and whatever the draws, a
/// settled system stays settled.
pub fn tick(sys: &mut ParticleSystem, cfg: &SimConfig, tick_no: u64)
    requires
        cfg.wf(),
        cfg.spec_contains(old(sys).origin),
        sys_settled(*old(sys), *cfg),
    ensures
        final(sys).origin == old(sys).origin,
        final(sys).capacity == old(sys).capacity,
        sys_settled(*final(sys), *cfg),
        exists|m: Seq<Particle>|
            #[trigger] spawn_outcome(
                old(sys).particles@,
                old(sys).origin,
                *cfg,
                tick_no,
                old(sys).capacity as nat,
                m,
            ) && scan_reachable(
                advanced_all(m),
                old(sys).capacity as nat,
                *cfg,
                m.len(),
                final(sys).particles@,
            ),
{
    let ghost cfgv = *cfg;
    if spawn_due(tick_no, cfg.spawn_period) {
        let ghost pre = sys.particles@;
        let ghost org = sys.origin;
        spawn_random(sys, cfg);
        proof {
            if pre.len() < sys.capacity {
                let a = choose|a: int|
                    0 <= a < 360 && sys.particles@ == pre.push(
                        #[trigger] spawn_particle(org, cfgv, a),
                    );
                assert(settled(spawn_particle(org, cfgv, a), cfgv));
            }
        }
    }
    let ghost mid = sys.particles@;
    proof {
        assert(spawn_outcome(
            old(sys).particles@,
            old(sys).origin,
            cfgv,
            tick_no,
            old(sys).capacity as nat,
            mid,
        ));
        assert forall|j: int|
            0 <= j < sys.particles@.len() implies (#[trigger] sys.particles@[j]).can_advance() by {
            assert(settled(sys.particles@[j], cfgv));
        }
    }
    sys.advance_all();
    proof {
        assert forall|j: int|
            0 <= j < sys.particles@.len() implies kinematics_ok(
            #[trigger] sys.particles@[j],
            cfgv,
        ) by {
            assert(sys.particles@[j] == mid[j].advanced());
            assert(kinematics_ok(mid[j], cfgv));
        }
        assert(sys.particles@ =~= advanced_all(mid));
    }
    resolve_all(sys, cfg);
    proof {
        assert(scan_reachable(
            advanced_all(mid),
            old(sys).capacity as nat,
            cfgv,
            mid.len(),
            sys.particles@,
        ));
    }
}

} // verus!
