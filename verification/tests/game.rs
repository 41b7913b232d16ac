use blackfriday::game::tick;
use blackfriday::game::TickInput;
use blackfriday::game::World;
use blackfriday::math::Vec3;
use blackfriday::parcels::Parcel;
use blackfriday::parcels::ParcelPhase;
use blackfriday::player::MoveKeys;
use blackfriday::player::PopParcelFromStack;
use blackfriday::warehouse::AgentServiceCode;
use blackfriday::warehouse::Collision;
use blackfriday::warehouse::ScoreEvent;

const MILLI: u128 = 1_000_000;
const FRAME: u128 = 16 * MILLI;

fn world() -> World {
    World::new(1, [100, 101, 102, 103], [200, 201, 202, 203])
}

fn parcel(id: u64, agent: AgentServiceCode, x: i32, z: i32) -> Parcel {
    Parcel {
        id,
        agent,
        position: Vec3::new(x, 500, z),
        velocity: Vec3::new(0, 0, 0),
        angular_velocity: Vec3::new(0, 0, 0),
        highlighted: false,
        phase: ParcelPhase::Free,
        collides: true,
        despawn: None,
    }
}

fn idle(delta: u128) -> TickInput {
    TickInput {
        delta,
        keys: MoveKeys { up: false, down: false, left: false, right: false },
        pickup: false,
        throw: false,
        ray: None,
        collisions: Vec::new(),
    }
}

fn run(world: &mut World, input: &TickInput) -> blackfriday::game::TickOutcome {
    assert!(world.is_wf());
    assert!(world.has_room(input));
    let outcome = tick(world, input);
    assert!(world.is_wf());
    outcome
}

#[test]
fn new_world_is_ready_to_play() {
    let world = world();
    assert!(world.is_wf());
    assert!(world.has_room(&idle(FRAME)));
    assert!(world.has_room(&idle(u128::MAX)));
    assert_eq!(world.spawner.parent, 1);
    assert_eq!(world.spawner.count, 0);
    assert_eq!(world.player.position, Vec3::new(0, 0, 0));
    assert_eq!(world.stack.len(), 0);
    assert!(world.parcels.is_empty());
    assert_eq!(world.closest_parcel.0, None);
    assert_eq!(world.mouse_pos.0, None);
    assert_eq!(world.score.score, 0);
    assert_eq!(world.shipping_areas.len(), 4);
    assert_eq!(world.trucks.len(), 4);
    assert_eq!(world.time_remaining.timer.duration(), 128_000 * MILLI);
}

#[test]
fn full_spawn_counter_needs_room_only_when_a_spawn_is_due() {
    let mut world = world();
    world.spawner.count = u64::MAX;
    world.spawner.timer = blackfriday::timer::Timer::from_millis(
        blackfriday::parcels::spawn_interval_millis(u64::MAX),
        blackfriday::timer::TimerMode::Repeating,
    );
    assert!(world.is_wf());
    assert!(world.has_room(&idle(FRAME)));
    assert!(!world.has_room(&idle(700 * MILLI)));
    let outcome = run(&mut world, &idle(FRAME));
    assert!(outcome.spawned.is_none());
    assert_eq!(world.spawner.count, u64::MAX);
    assert_eq!(world.spawner.timer.elapsed(), FRAME);
}

#[test]
fn idle_tick_only_advances_the_clocks() {
    let mut world = world();
    let outcome = run(&mut world, &idle(FRAME));
    assert!(!outcome.game_over);
    assert_eq!(outcome.player_velocity, Vec3::new(0, 0, 0));
    assert!(outcome.fallen.is_empty());
    assert!(outcome.expired.is_empty());
    assert!(outcome.score_events.is_empty());
    assert!(outcome.spawned.is_none());
    assert_eq!(world.time_remaining.timer.elapsed(), FRAME);
    assert_eq!(world.spawner.timer.elapsed(), FRAME);
    assert_eq!(world.score.score, 0);
    assert_eq!(world.mouse_pos.0, None);
}

#[test]
fn spawner_hands_out_a_parcel_when_it_is_due() {
    let mut world = world();
    assert!(run(&mut world, &idle(2999 * MILLI)).spawned.is_none());
    let outcome = run(&mut world, &idle(MILLI));
    let spawn = outcome.spawned.unwrap();
    assert_eq!(spawn.position.y, 14_000);
    assert_eq!(world.spawner.count, 1);
    assert!(world.parcels.is_empty());
    world.parcels.push(spawn.parcel(7));
    assert!(world.is_wf());
    assert_eq!(world.parcels[0].id, 7);
}

#[test]
fn a_parcel_is_picked_up_thrown_and_delivered() {
    let mut world = world();
    world.parcels.push(parcel(7, AgentServiceCode::DHL, 1000, 0));
    world.parcels.push(parcel(8, AgentServiceCode::DHL, 2000, 0));

    let outcome = run(&mut world, &idle(FRAME));
    assert!(outcome.score_events.is_empty());
    assert_eq!(world.closest_parcel.0, Some(7));
    assert!(world.parcels[0].highlighted);
    assert!(!world.parcels[1].highlighted);

    let mut input = idle(FRAME);
    input.pickup = true;
    run(&mut world, &input);
    assert_eq!(world.stack.len(), 1);
    assert_eq!(world.stack.get(0).unwrap().id, 7);
    assert_eq!(world.parcels[0].phase, ParcelPhase::Held);
    assert!(!world.parcels[0].highlighted);
    assert_eq!(world.closest_parcel.0, None);

    run(&mut world, &idle(FRAME));
    assert_eq!(world.closest_parcel.0, Some(8));
    assert!(world.parcels[1].highlighted);

    let mut input = idle(FRAME);
    input.throw = true;
    input.ray = Some((Vec3::new(20_000, 10_000, 0), Vec3::new(0, -10_000, 0)));
    run(&mut world, &input);
    assert_eq!(world.mouse_pos.0, Some(Vec3::new(20_000, 0, 0)));
    assert_eq!(world.stack.len(), 0);
    let thrown = world.parcels[0];
    assert_eq!(thrown.phase, ParcelPhase::Released);
    assert_eq!(thrown.position, Vec3::new(0, 1450, 0));
    assert_eq!(thrown.velocity, Vec3::new(11_968, -867, 0));

    world.parcels[0].position = Vec3::new(12_000, 0, 0);
    let mut input = idle(FRAME);
    input.collisions = vec![Collision(7, 101), Collision(7, 101)];
    let outcome = run(&mut world, &input);
    assert_eq!(outcome.score_events, vec![ScoreEvent { score: 1 }]);
    assert_eq!(world.score.score, 1);
    assert_eq!(world.shipping_areas[1].score, 1);
    assert_eq!(world.shipping_areas[1].received_parcels, 1);
    assert!(world.parcels[0].despawn.is_some());
    let trip = world.trucks[1].move_truck.unwrap();
    assert_eq!(trip.timer.elapsed(), FRAME);
    assert_eq!(world.trucks[1].position, Vec3::new(15_000, 5000, 160));

    let outcome = run(&mut world, &idle(600 * MILLI - 1));
    assert!(outcome.expired.is_empty());
    assert_eq!(world.parcels.len(), 2);
    let outcome = run(&mut world, &idle(1));
    assert_eq!(
        outcome.expired,
        vec![PopParcelFromStack { parcel_entry: 7, despawning: true }]
    );
    assert_eq!(world.parcels.len(), 1);
    assert_eq!(world.parcels[0].id, 8);
    assert_eq!(world.score.score, 1);
}

#[test]
fn pickup_is_met_before_throw_within_a_tick() {
    let mut world = world();
    world.parcels.push(parcel(7, AgentServiceCode::DHL, 1000, 0));
    run(&mut world, &idle(FRAME));
    assert_eq!(world.closest_parcel.0, Some(7));
    let mut input = idle(FRAME);
    input.pickup = true;
    input.throw = true;
    run(&mut world, &input);
    assert_eq!(world.stack.len(), 1);
    assert_eq!(world.parcels[0].phase, ParcelPhase::Held);

    world.parcels.push(parcel(8, AgentServiceCode::DHL, 500, 0));
    let mut input = idle(FRAME);
    input.pickup = true;
    input.throw = true;
    run(&mut world, &input);
    assert_eq!(world.stack.len(), 1);
    assert_eq!(world.stack.get(0).unwrap().id, 8);
    assert_eq!(world.parcels[0].phase, ParcelPhase::Released);
    assert_eq!(world.parcels[1].phase, ParcelPhase::Held);
}

#[test]
fn fallen_parcels_are_reported() {
    let mut world = world();
    world.parcels.push(parcel(7, AgentServiceCode::DHL, 1000, 0));
    world.parcels.push(parcel(8, AgentServiceCode::DHL, 2000, 0));
    world.parcels[0].position = Vec3::new(50_000, -30_000, 0);
    world.parcels[1].position = Vec3::new(50_000, -6000, 0);
    let outcome = run(&mut world, &idle(FRAME));
    assert_eq!(outcome.fallen, vec![7]);
    assert_eq!(world.parcels.len(), 1);
    assert_eq!(world.parcels[0].id, 8);
    assert!(!world.parcels[0].collides);
}

#[test]
fn keys_move_the_player() {
    let mut world = world();
    let mut input = idle(FRAME);
    input.keys.right = true;
    let outcome = run(&mut world, &input);
    assert_eq!(outcome.player_velocity, Vec3::new(1_000_000, 0, 0));
    assert!(world.player_gfx.turned);
    world.player.position = Vec3::new(7500, 0, 0);
    let outcome = run(&mut world, &input);
    assert_eq!(outcome.player_velocity, Vec3::new(0, 0, 0));
    assert!(world.player_gfx.turned);
}

#[test]
fn session_ends_after_its_time() {
    let mut world = world();
    assert!(!run(&mut world, &idle(127_999 * MILLI)).game_over);
    assert!(run(&mut world, &idle(MILLI)).game_over);
    assert!(!run(&mut world, &idle(MILLI)).game_over);
}

#[test]
fn held_parcel_that_expires_leaves_the_stack_in_the_same_tick() {
    let mut world = world();
    world.parcels.push(parcel(7, AgentServiceCode::Bring, 1000, 0));
    run(&mut world, &idle(FRAME));
    let mut input = idle(FRAME);
    input.pickup = true;
    run(&mut world, &input);
    assert_eq!(world.stack.len(), 1);
    let mut input = idle(FRAME);
    input.collisions = vec![Collision(100, 7)];
    let outcome = run(&mut world, &input);
    assert_eq!(outcome.score_events, vec![ScoreEvent { score: -1 }]);
    assert_eq!(world.score.score, -1);
    assert_eq!(world.stack.len(), 1);
    assert_eq!(world.parcels[0].phase, ParcelPhase::Held);
    let mut input = idle(600 * MILLI);
    input.throw = false;
    let outcome = run(&mut world, &input);
    assert_eq!(
        outcome.expired,
        vec![PopParcelFromStack { parcel_entry: 7, despawning: true }]
    );
    assert_eq!(world.stack.len(), 0);
    assert!(world.parcels.is_empty());
    assert_eq!(world.closest_parcel.0, None);
}
