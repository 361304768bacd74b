use particle_sim::config::SimConfig;
use particle_sim::config::STD_HALF_HEIGHT;
use particle_sim::config::STD_HALF_WIDTH;
use particle_sim::geom::Vec2;
use particle_sim::geom::UNIT;
use particle_sim::particle::Particle;
use particle_sim::sim::random_angle;
use particle_sim::sim::scan_step;
use particle_sim::sim::spawn_at;
use particle_sim::sim::spawn_due;
use particle_sim::sim::tick;
use particle_sim::system::ParticleSystem;

/// The direction table a host supplies: for each whole degree, the unit
/// vector pointing that way, scaled to fixed point.
fn direction_table() -> Vec<Vec2> {
    let mut v: Vec<Vec2> = Vec::new();
    for d in 0..360 {
        let rad = (d as f32).to_radians();
        let x = (rad.cos() * UNIT as f32).round() as i64;
        let y = (rad.sin() * UNIT as f32).round() as i64;
        v.push(Vec2::new(x, y));
    }
    v
}

fn standard_config() -> SimConfig {
    SimConfig::standard(direction_table()).expect("the standard configuration is well-formed")
}

#[test]
fn checked_config_accepts_good_pieces() {
    let cfg = SimConfig::checked(STD_HALF_WIDTH, STD_HALF_HEIGHT, 5, 10_000, direction_table());
    assert!(cfg.is_some());
}

#[test]
fn checked_config_rejects_bad_scalars() {
    assert!(SimConfig::checked(0, STD_HALF_HEIGHT, 5, 10_000, direction_table()).is_none());
    assert!(SimConfig::checked(STD_HALF_WIDTH, -3, 5, 10_000, direction_table()).is_none());
    assert!(SimConfig::checked(STD_HALF_WIDTH, STD_HALF_HEIGHT, 0, 10_000, direction_table()).is_none());
    assert!(SimConfig::checked(STD_HALF_WIDTH, STD_HALF_HEIGHT, 5, 0, direction_table()).is_none());
}

#[test]
fn checked_config_rejects_a_short_or_wild_table() {
    let mut short = direction_table();
    short.pop();
    assert!(SimConfig::checked(STD_HALF_WIDTH, STD_HALF_HEIGHT, 5, 10_000, short).is_none());
    let mut wild = direction_table();
    wild[17] = Vec2::new(2 * UNIT, 0);
    assert!(SimConfig::checked(STD_HALF_WIDTH, STD_HALF_HEIGHT, 5, 10_000, wild).is_none());
}

#[test]
fn contains_is_the_inclusive_viewport_box() {
    let cfg = standard_config();
    assert!(cfg.contains(Vec2::new(0, 0)));
    assert!(cfg.contains(Vec2::new(STD_HALF_WIDTH, -STD_HALF_HEIGHT)));
    assert!(!cfg.contains(Vec2::new(STD_HALF_WIDTH + 1, 0)));
    assert!(!cfg.contains(Vec2::new(0, -STD_HALF_HEIGHT - 1)));
}

#[test]
fn spawn_happens_exactly_on_the_cadence() {
    // Over tick counters 0..=5 with period 5, a spawn is due at 0 and 5 only.
    let due: Vec<bool> = (0u64..=5).map(|t| spawn_due(t, 5)).collect();
    assert_eq!(due, vec![true, false, false, false, false, true]);

    let cfg = standard_config();
    let mut sys = ParticleSystem::new(Vec2::new(0, 0), 1000);
    for t in 0u64..=5 {
        if spawn_due(t, cfg.spawn_period) {
            spawn_at(&mut sys, &cfg, 45);
        }
    }
    assert_eq!(sys.len(), 2);
}

#[test]
fn spawned_particle_starts_at_the_origin_with_a_table_direction() {
    let cfg = standard_config();
    let table = direction_table();
    let mut sys = ParticleSystem::new(Vec2::new(3 * UNIT, -2 * UNIT), 1000);
    spawn_at(&mut sys, &cfg, 200);
    assert_eq!(sys.len(), 1);
    let p = sys.get(0);
    assert_eq!(p.position, Vec2 { x: 3 * UNIT, y: -2 * UNIT });
    assert_eq!(p.origin, p.position);
    assert_eq!(p.velocity, table[200]);
}

#[test]
fn out_of_bounds_particle_is_removed_by_the_scan() {
    let cfg = standard_config();
    let mut sys = ParticleSystem::new(Vec2::new(0, 0), 1000);
    sys.add_particle(Particle::new(Vec2::new(STD_HALF_WIDTH + 5, 0), Vec2::new(1, 0)));
    sys.add_particle(Particle::new(Vec2::new(0, 0), Vec2::new(1, 0)));
    scan_step(&mut sys, &cfg, 1, 7);
    scan_step(&mut sys, &cfg, 0, 7);
    assert_eq!(sys.len(), 1);
    assert_eq!(sys.get(0).position, Vec2 { x: 0, y: 0 });
}

#[test]
fn explosion_fans_out_into_36_particles() {
    let cfg = standard_config();
    let table = direction_table();
    let pos = Vec2::new(UNIT, 2 * UNIT);
    let mut sys = ParticleSystem::new(Vec2::new(0, 0), 1000);
    sys.add_particle(Particle::new(pos, Vec2::new(9, 9)));
    scan_step(&mut sys, &cfg, 0, 0);
    assert_eq!(sys.len(), 36);
    for k in 0..36 {
        let q = sys.get(k);
        assert_eq!(q.position, pos);
        assert_eq!(q.origin, pos);
        assert_eq!(q.velocity, table[k * 10]);
        // The exploding particle itself is gone.
        assert_ne!(q.velocity, Vec2 { x: 9, y: 9 });
    }
    // One advance later each fan particle stands at pos + its direction.
    sys.advance_all();
    for k in 0..36 {
        let q = sys.get(k);
        assert_eq!(q.position, Vec2 { x: pos.x + table[k * 10].x, y: pos.y + table[k * 10].y });
    }
}

#[test]
fn explosion_respects_the_capacity_drop_policy() {
    let cfg = standard_config();
    let mut sys = ParticleSystem::new(Vec2::new(0, 0), 10);
    sys.add_particle(Particle::new(Vec2::new(0, 0), Vec2::new(1, 1)));
    scan_step(&mut sys, &cfg, 0, 0);
    // Only 9 of the 36 fan particles fit before the cap; then the exploding
    // particle is removed.
    assert_eq!(sys.len(), 9);
}

#[test]
fn surviving_particle_is_left_untouched() {
    let cfg = standard_config();
    let mut sys = ParticleSystem::new(Vec2::new(0, 0), 1000);
    sys.add_particle(Particle::new(Vec2::new(5, 6), Vec2::new(7, 8)));
    scan_step(&mut sys, &cfg, 0, 1);
    assert_eq!(sys.len(), 1);
    assert_eq!(sys.get(0), Particle::new(Vec2::new(5, 6), Vec2::new(7, 8)));
}

#[test]
fn end_to_end_first_six_ticks() {
    let cfg = standard_config();
    let table = direction_table();
    let angle = 30usize;
    let mut sys = ParticleSystem::new(Vec2::new(0, 0), 1000);

    // Tick 0: the spawn is due; drive the phases with a chosen angle and a
    // surviving roll so the run is deterministic.
    assert!(spawn_due(0, cfg.spawn_period));
    spawn_at(&mut sys, &cfg, angle as u32);
    assert_eq!(sys.len(), 1);
    assert_eq!(sys.get(0).position, Vec2 { x: 0, y: 0 });
    sys.advance_all();
    let v = table[angle];
    assert_ne!(v, Vec2 { x: 0, y: 0 });
    assert_eq!(sys.get(0).position, v);
    scan_step(&mut sys, &cfg, 0, 1);
    assert_eq!(sys.len(), 1);

    // Ticks 1 through 4: no spawn is due; the one particle moves one
    // direction step per tick and survives the scan.
    for t in 1u64..=4 {
        assert!(!spawn_due(t, cfg.spawn_period));
        sys.advance_all();
        scan_step(&mut sys, &cfg, 0, 1);
        assert_eq!(sys.len(), 1);
        let steps = (t + 1) as i64;
        assert_eq!(sys.get(0).position, Vec2 { x: steps * v.x, y: steps * v.y });
    }

    // Tick 5: the spawn is due again.
    assert!(spawn_due(5, cfg.spawn_period));
}

#[test]
fn certain_odds_always_explode() {
    // With explosion odds of one-in-one, the tick's own random roll must
    // come up zero, so the lone particle always fans out into 36.
    let cfg = SimConfig::checked(STD_HALF_WIDTH, STD_HALF_HEIGHT, 5, 1, direction_table())
        .expect("well-formed");
    let mut sys = ParticleSystem::new(Vec2::new(0, 0), 1000);
    sys.add_particle(Particle::new(Vec2::new(0, 0), Vec2::new(0, 0)));
    tick(&mut sys, &cfg, 1);
    assert_eq!(sys.len(), 36);
}

#[test]
fn random_angle_always_hits_the_table() {
    for _ in 0..1000 {
        assert!(random_angle() < 360);
    }
}

#[test]
fn random_ticks_keep_the_system_settled() {
    let cfg = standard_config();
    let mut sys = ParticleSystem::new(Vec2::new(0, 0), 1000);
    for t in 0u64..300 {
        tick(&mut sys, &cfg, t);
        assert!(sys.len() <= 1000);
        for i in 0..sys.len() {
            let p = sys.get(i);
            assert!(cfg.contains(p.position));
            assert!(cfg.contains(p.origin));
            assert!(p.velocity.x.abs() <= UNIT && p.velocity.y.abs() <= UNIT);
        }
    }
}
