use blackfriday::math::Vec3;
use blackfriday::parcels::despawn_out_of_bounds;
use blackfriday::parcels::despawn_with_timer;
use blackfriday::parcels::expire_parcels;
use blackfriday::parcels::Despawn;
use blackfriday::parcels::Parcel;
use blackfriday::parcels::ParcelPhase;
use blackfriday::player::add_parcel_to_stack;
use blackfriday::player::player_movement;
use blackfriday::player::pop_despawning_parcels_from_pick;
use blackfriday::player::ClosestParcel;
use blackfriday::player::MoveKeys;
use blackfriday::player::ParcelStack;
use blackfriday::player::Player;
use blackfriday::player::PlayerGfx;
use blackfriday::player::PopParcelFromStack;
use blackfriday::session::check_game_over;
use blackfriday::session::TimeRemaining;
use blackfriday::warehouse::collect_parcel;
use blackfriday::warehouse::setup_ground;
use blackfriday::warehouse::AgentServiceCode;
use blackfriday::warehouse::Collision;
use blackfriday::warehouse::ScoreEvent;

const MILLI: u128 = 1_000_000;

fn parcel(id: u64, y: i32) -> Parcel {
    Parcel {
        id,
        agent: AgentServiceCode::Budbee,
        position: Vec3::new(0, y, 0),
        velocity: Vec3::new(0, 0, 0),
        angular_velocity: Vec3::new(0, 0, 0),
        highlighted: true,
        phase: ParcelPhase::Free,
        collides: true,
        despawn: None,
    }
}

fn ids(parcels: &Vec<Parcel>) -> Vec<u64> {
    let mut all = Vec::new();
    for p in parcels {
        all.push(p.id);
    }
    all
}

#[test]
fn removal_timer_destroys_its_parcel() {
    let mut parcels = vec![parcel(1, 0), parcel(2, 0), parcel(3, 0)];
    parcels[1].despawn = Some(Despawn::from_millis(600));
    parcels[2].despawn = Some(Despawn::from_millis(1000));
    let events = expire_parcels(&mut parcels, 599 * MILLI);
    assert!(events.is_empty());
    assert_eq!(ids(&parcels), vec![1, 2, 3]);
    assert!(parcels[0].highlighted);
    assert!(!parcels[1].highlighted);
    assert!(!parcels[2].highlighted);
    assert_eq!(parcels[1].despawn.unwrap().timer.elapsed(), 599 * MILLI);
    assert!(parcels[0].despawn.is_none());
    let events = expire_parcels(&mut parcels, MILLI);
    assert_eq!(events, vec![PopParcelFromStack { parcel_entry: 2, despawning: true }]);
    assert_eq!(ids(&parcels), vec![1, 3]);
    assert_eq!(parcels[1].despawn.unwrap().timer.elapsed(), 600 * MILLI);
    let events = expire_parcels(&mut parcels, 400 * MILLI);
    assert_eq!(events, vec![PopParcelFromStack { parcel_entry: 3, despawning: true }]);
    assert_eq!(ids(&parcels), vec![1]);
    let events = expire_parcels(&mut parcels, 10_000 * MILLI);
    assert!(events.is_empty());
    assert_eq!(ids(&parcels), vec![1]);
}

#[test]
fn several_parcels_can_expire_in_one_tick() {
    let mut parcels = vec![parcel(1, 0), parcel(2, 0), parcel(3, 0), parcel(4, 0)];
    parcels[0].despawn = Some(Despawn::from_secs(1));
    parcels[2].despawn = Some(Despawn::from_secs(5));
    parcels[3].despawn = Some(Despawn::from_secs(2));
    let events = expire_parcels(&mut parcels, 2000 * MILLI);
    assert_eq!(
        events,
        vec![
            PopParcelFromStack { parcel_entry: 1, despawning: true },
            PopParcelFromStack { parcel_entry: 4, despawning: true },
        ]
    );
    assert_eq!(ids(&parcels), vec![2, 3]);
}

#[test]
fn held_parcel_that_expires_is_taken_off_the_stack() {
    let (mut areas, mut trucks) = setup_ground([100, 101, 102, 103], [200, 201, 202, 203]);
    let mut parcels = vec![parcel(1, 0), parcel(2, 0), parcel(3, 0)];
    let mut stack = ParcelStack::new();
    let mut closest = ClosestParcel(None);
    let mut score_events: Vec<ScoreEvent> = Vec::new();
    add_parcel_to_stack(&mut stack, &mut parcels, 1);
    add_parcel_to_stack(&mut stack, &mut parcels, 2);
    add_parcel_to_stack(&mut stack, &mut parcels, 3);
    collect_parcel(
        &Collision(2, 103),
        &mut score_events,
        &mut closest,
        &mut parcels,
        &mut trucks,
        &mut areas,
    );
    assert_eq!(parcels[1].phase, ParcelPhase::Held);
    assert!(parcels[1].despawn.is_some());
    closest = ClosestParcel(Some(2));
    let events = despawn_with_timer(&mut parcels, &mut stack, &mut closest, 599 * MILLI);
    assert!(events.is_empty());
    assert_eq!(stack.len(), 3);
    assert_eq!(closest.0, Some(2));
    let events = despawn_with_timer(&mut parcels, &mut stack, &mut closest, MILLI);
    assert_eq!(events, vec![PopParcelFromStack { parcel_entry: 2, despawning: true }]);
    assert_eq!(ids(&parcels), vec![1, 3]);
    assert_eq!(stack.len(), 2);
    assert_eq!(stack.get(0).unwrap().id, 1);
    assert_eq!(stack.get(0).unwrap().position, Vec3::new(0, 0, 0));
    assert_eq!(stack.get(1).unwrap().id, 3);
    assert_eq!(stack.get(1).unwrap().position, Vec3::new(0, 950, 0));
    assert_eq!(closest.0, None);
    for p in &parcels {
        assert_eq!(p.phase, ParcelPhase::Held);
        assert_eq!(p.velocity, Vec3::new(0, 0, 0));
    }
}

#[test]
fn free_parcel_that_expires_leaves_the_stack_alone() {
    let mut parcels = vec![parcel(1, 0), parcel(2, 0)];
    let mut stack = ParcelStack::new();
    let mut closest = ClosestParcel(Some(1));
    add_parcel_to_stack(&mut stack, &mut parcels, 1);
    parcels[1].despawn = Some(Despawn::from_millis(1));
    let events = despawn_with_timer(&mut parcels, &mut stack, &mut closest, MILLI);
    assert_eq!(events, vec![PopParcelFromStack { parcel_entry: 2, despawning: true }]);
    assert_eq!(ids(&parcels), vec![1]);
    assert_eq!(stack.len(), 1);
    assert_eq!(closest.0, Some(1));
}

#[test]
fn forced_pops_pass_over_other_requests() {
    let mut parcels = vec![parcel(1, 0), parcel(2, 0), parcel(3, 0)];
    let mut stack = ParcelStack::new();
    add_parcel_to_stack(&mut stack, &mut parcels, 1);
    add_parcel_to_stack(&mut stack, &mut parcels, 2);
    add_parcel_to_stack(&mut stack, &mut parcels, 3);
    let mut closest = ClosestParcel(Some(1));
    let events = vec![
        PopParcelFromStack { parcel_entry: 1, despawning: false },
        PopParcelFromStack { parcel_entry: 3, despawning: true },
        PopParcelFromStack { parcel_entry: 9, despawning: true },
    ];
    pop_despawning_parcels_from_pick(&mut stack, &mut closest, &events);
    assert_eq!(stack.len(), 2);
    assert_eq!(stack.get(0).unwrap().id, 1);
    assert_eq!(stack.get(1).unwrap().id, 2);
    assert_eq!(stack.get(1).unwrap().position, Vec3::new(0, 950, 0));
    assert_eq!(closest.0, Some(1));
}

#[test]
fn parcels_that_fall_stop_colliding_and_are_destroyed() {
    let mut parcels = vec![
        parcel(1, -4999),
        parcel(2, -5000),
        parcel(3, -29_999),
        parcel(4, -30_000),
        parcel(5, -30_001),
        parcel(6, -40_000),
        parcel(7, 14_000),
    ];
    parcels[5].despawn = Some(Despawn::from_secs(1));
    let gone = despawn_out_of_bounds(&mut parcels);
    assert_eq!(gone, vec![4, 5]);
    assert_eq!(ids(&parcels), vec![1, 2, 3, 6, 7]);
    assert!(parcels[0].collides);
    assert!(!parcels[1].collides);
    assert!(!parcels[2].collides);
    assert!(parcels[3].collides);
    assert!(parcels[4].collides);
    let gone = despawn_out_of_bounds(&mut parcels);
    assert!(gone.is_empty());
    assert_eq!(ids(&parcels), vec![1, 2, 3, 6, 7]);
}

#[test]
fn session_ends_when_its_time_is_up() {
    let mut time_remaining = TimeRemaining::new();
    assert_eq!(time_remaining.timer.duration(), 128_000 * MILLI);
    assert!(!check_game_over(&mut time_remaining, 127_999 * MILLI));
    assert_eq!(time_remaining.timer.remaining(), MILLI);
    assert!(check_game_over(&mut time_remaining, MILLI));
    assert!(!check_game_over(&mut time_remaining, MILLI));
    assert!(time_remaining.timer.finished());
}

fn keys(up: bool, down: bool, left: bool, right: bool) -> MoveKeys {
    MoveKeys { up, down, left, right }
}

#[test]
fn player_walks_where_the_keys_point() {
    let player = Player { position: Vec3::new(0, 0, 0) };
    let mut gfx = PlayerGfx { turned: false };
    assert_eq!(
        player_movement(&keys(false, false, false, false), &player, &mut gfx),
        Vec3::new(0, 0, 0)
    );
    assert!(!gfx.turned);
    assert_eq!(
        player_movement(&keys(true, false, false, false), &player, &mut gfx),
        Vec3::new(0, 0, -1_000_000)
    );
    assert!(!gfx.turned);
    assert_eq!(
        player_movement(&keys(false, true, false, true), &player, &mut gfx),
        Vec3::new(707_107, 0, 707_107)
    );
    assert!(gfx.turned);
    assert_eq!(
        player_movement(&keys(false, true, false, false), &player, &mut gfx),
        Vec3::new(0, 0, 1_000_000)
    );
    assert!(gfx.turned);
    assert_eq!(
        player_movement(&keys(true, false, true, false), &player, &mut gfx),
        Vec3::new(-707_107, 0, -707_107)
    );
    assert!(!gfx.turned);
    assert_eq!(
        player_movement(&keys(true, true, true, true), &player, &mut gfx),
        Vec3::new(0, 0, 0)
    );
    assert_eq!(
        player_movement(&keys(true, true, false, true), &player, &mut gfx),
        Vec3::new(1_000_000, 0, 0)
    );
}

#[test]
fn player_does_not_walk_out_of_bounds() {
    let mut gfx = PlayerGfx { turned: false };
    let edge = Player { position: Vec3::new(7000, 0, 0) };
    assert_eq!(
        player_movement(&keys(false, false, false, true), &edge, &mut gfx),
        Vec3::new(0, 0, 0)
    );
    assert!(!gfx.turned);
    assert_eq!(
        player_movement(&keys(false, false, true, false), &edge, &mut gfx),
        Vec3::new(-1_000_000, 0, 0)
    );
    let near = Player { position: Vec3::new(6999, 0, -6999) };
    assert_eq!(
        player_movement(&keys(false, false, false, true), &near, &mut gfx),
        Vec3::new(1_000_000, 0, 0)
    );
    assert_eq!(
        player_movement(&keys(true, false, false, true), &near, &mut gfx),
        Vec3::new(707_107, 0, -707_107)
    );
    let corner = Player { position: Vec3::new(6999, 0, -7000) };
    assert_eq!(
        player_movement(&keys(true, false, false, true), &corner, &mut gfx),
        Vec3::new(0, 0, 0)
    );
    let outside = Player { position: Vec3::new(i32::MAX, 0, i32::MIN) };
    assert_eq!(
        player_movement(&keys(false, true, true, false), &outside, &mut gfx),
        Vec3::new(0, 0, 0)
    );
}
