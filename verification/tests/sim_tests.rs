use square_engine::sim::fresh_spawn_time_left;
use square_engine::sim::BASE_TIME_LEFT;
use square_engine::sim::MAX_SQUARES;
use square_engine::sim::SPAWN_COOLDOWN;
use square_engine::MyApp;
use square_engine::Renderer;
use square_engine::SpawnParams;

struct FloatSpawn {
    position: (f32, f32),
    rotation: f32,
    scale: f32,
    velocity: (f32, f32),
    rotation_velocity: f32,
    scale_velocity: f32,
    time_left: u32,
}

impl FloatSpawn {
    fn params(&self) -> SpawnParams {
        SpawnParams {
            position_x: self.position.0.to_bits(),
            position_y: self.position.1.to_bits(),
            rotation: self.rotation.to_bits(),
            scale: self.scale.to_bits(),
            velocity_x: self.velocity.0.to_bits(),
            velocity_y: self.velocity.1.to_bits(),
            rotation_velocity: self.rotation_velocity.to_bits(),
            scale_velocity: self.scale_velocity.to_bits(),
            time_left: self.time_left,
        }
    }
}

fn record_of(position: (f32, f32), rotation: f32, scale: f32) -> Vec<u8> {
    let mut out = Vec::new();
    out.extend_from_slice(&position.0.to_le_bytes());
    out.extend_from_slice(&position.1.to_le_bytes());
    out.extend_from_slice(&rotation.to_le_bytes());
    out.extend_from_slice(&scale.to_le_bytes());
    out.extend_from_slice(&scale.to_le_bytes());
    out
}

#[test]
fn spawn_and_expire_over_three_ticks() {
    let mut app = MyApp::new();
    let mut renderer = Renderer::new();
    let spawn = FloatSpawn {
        position: (0.25, -0.5),
        rotation: 0.5,
        scale: 0.75,
        velocity: (0.125, 0.0625),
        rotation_velocity: 0.03125,
        scale_velocity: -0.015625,
        time_left: 3,
    };
    let idle = FloatSpawn { time_left: 1, ..spawn_defaults() };

    // Tick 0: the initial cooldown of one expires and the square spawns.
    let spawned = app.update(&mut renderer, &spawn.params());
    assert!(spawned.is_some());
    assert_eq!(app.population(), 1);
    renderer.compact();
    let (bytes, live) = renderer.serialize();
    assert_eq!(live, 1);
    assert_eq!(bytes, record_of((0.25, -0.5), 0.5, 0.75));

    // Ticks 1 and 2: the pose integrates, the lifetime counts down.
    assert!(app.update(&mut renderer, &idle.params()).is_none());
    assert_eq!(app.population(), 1);
    renderer.compact();
    let (bytes, live) = renderer.serialize();
    assert_eq!(live, 1);
    assert_eq!(
        bytes,
        record_of((0.25 + 0.125, -0.5 + 0.0625), 0.5 + 0.03125, 0.75 - 0.015625)
    );

    assert!(app.update(&mut renderer, &idle.params()).is_none());
    assert_eq!(app.population(), 1);
    renderer.compact();
    let (_, live) = renderer.serialize();
    assert_eq!(live, 1);

    // Tick 3: the lifetime reaches zero and the square leaves; after the
    // next compaction its record is gone.
    assert!(app.update(&mut renderer, &idle.params()).is_none());
    assert_eq!(app.population(), 0);
    renderer.compact();
    let (bytes, live) = renderer.serialize();
    assert_eq!(live, 0);
    assert_eq!(bytes.len(), 0);
}

fn spawn_defaults() -> FloatSpawn {
    FloatSpawn {
        position: (0.0, 0.0),
        rotation: 0.0,
        scale: 1.0,
        velocity: (0.0, 0.0),
        rotation_velocity: 0.0,
        scale_velocity: 0.0,
        time_left: 1,
    }
}

#[test]
fn motion_integration_matches_hardware_floats() {
    let mut app = MyApp::new();
    let mut renderer = Renderer::new();
    let spawn = FloatSpawn {
        position: (0.1, 0.2),
        rotation: 1.0,
        scale: 0.9,
        velocity: (0.005, -0.0025),
        rotation_velocity: 0.01,
        scale_velocity: 0.001,
        time_left: 10,
    };
    app.update(&mut renderer, &spawn.params());
    let idle = spawn_defaults();
    for tick in 1..=4u32 {
        app.update(&mut renderer, &idle.params());
        let (bytes, live) = renderer.serialize();
        assert_eq!(live, 1);
        let mut expected = (0.1f32, 0.2f32, 1.0f32, 0.9f32);
        for _ in 0..tick {
            expected.0 += 0.005;
            expected.1 += -0.0025;
            expected.2 += 0.01;
            expected.3 += 0.001;
        }
        assert_eq!(bytes, record_of((expected.0, expected.1), expected.2, expected.3));
    }
}

#[test]
fn cooldown_resets_after_a_spawn_opportunity() {
    let mut app = MyApp::new();
    let mut renderer = Renderer::new();
    assert_eq!(app.cooldown_remaining(), 1);
    let spawn = FloatSpawn { time_left: 5, ..spawn_defaults() };
    app.update(&mut renderer, &spawn.params());
    assert_eq!(app.cooldown_remaining(), SPAWN_COOLDOWN);
    app.update(&mut renderer, &spawn.params());
    assert_eq!(app.cooldown_remaining(), SPAWN_COOLDOWN - 1);
}

#[test]
fn population_never_exceeds_the_cap() {
    let mut app = MyApp::new();
    let mut renderer = Renderer::new();
    let spawn = FloatSpawn { time_left: 1_000_000, ..spawn_defaults() };
    let mut spawned_count = 0usize;
    // Spawns come one cooldown apart and nothing dies, so the population
    // climbs to the cap and the next opportunity must be refused.
    let ticks = (MAX_SQUARES as u32 + 2) * SPAWN_COOLDOWN;
    for _ in 0..ticks {
        if app.update(&mut renderer, &spawn.params()).is_some() {
            spawned_count += 1;
        }
        assert!(app.population() <= MAX_SQUARES);
    }
    assert_eq!(app.population(), MAX_SQUARES);
    assert_eq!(spawned_count, MAX_SQUARES);
}

#[test]
fn square_with_one_tick_left_expires_at_once() {
    let mut app = MyApp::new();
    let mut renderer = Renderer::new();
    let spawn = FloatSpawn { time_left: 1, ..spawn_defaults() };
    app.update(&mut renderer, &spawn.params());
    assert_eq!(app.population(), 1);
    app.update(&mut renderer, &spawn.params());
    assert_eq!(app.population(), 0);
}

#[test]
fn fresh_lifetimes_stay_in_their_band() {
    for _ in 0..200 {
        let t = fresh_spawn_time_left();
        assert!(t >= BASE_TIME_LEFT);
        assert!(t <= BASE_TIME_LEFT + 15);
    }
}

fn tick_generically<A: square_engine::Application>(
    app: &mut A,
    renderer: &mut Renderer,
    params: &SpawnParams,
) -> bool {
    app.update(renderer, params).is_some()
}

#[test]
fn the_application_trait_drives_the_same_simulation() {
    let mut app = MyApp::new();
    let mut renderer = Renderer::new();
    let spawn = FloatSpawn { time_left: 2, ..spawn_defaults() };
    assert!(tick_generically(&mut app, &mut renderer, &spawn.params()));
    assert_eq!(app.population(), 1);
    assert!(!tick_generically(&mut app, &mut renderer, &spawn.params()));
    assert_eq!(app.population(), 1);
    assert!(!tick_generically(&mut app, &mut renderer, &spawn.params()));
    assert_eq!(app.population(), 0);
}

#[test]
fn a_death_on_the_spawn_tick_frees_no_room() {
    let mut app = MyApp::new();
    let mut renderer = Renderer::new();
    let lifetime = 16 * SPAWN_COOLDOWN;
    let short = FloatSpawn { time_left: lifetime, ..spawn_defaults() };
    let long = FloatSpawn { time_left: 1_000_000, ..spawn_defaults() };
    // Tick 0 spawns a square that expires exactly when the seventeenth
    // spawn opportunity comes, with the population at the cap.
    assert!(app.update(&mut renderer, &short.params()).is_some());
    for tick in 1..=lifetime {
        let spawned = app.update(&mut renderer, &long.params());
        if tick == lifetime {
            // The tick began at the cap; the square expiring this very
            // tick frees no room, so the opportunity is refused.
            assert!(spawned.is_none());
            assert_eq!(app.population(), MAX_SQUARES - 1);
        } else if tick % SPAWN_COOLDOWN == 0 {
            assert!(spawned.is_some());
        } else {
            assert!(spawned.is_none());
        }
    }
    // The next opportunity, with room again, spawns.
    let mut spawned_again = false;
    for _ in (lifetime + 1)..=(lifetime + SPAWN_COOLDOWN) {
        spawned_again = spawned_again || app.update(&mut renderer, &long.params()).is_some();
    }
    assert!(spawned_again);
    assert_eq!(app.population(), MAX_SQUARES);
}
