use blackfriday::math::Vec3;
use blackfriday::parcels::Parcel;
use blackfriday::parcels::ParcelPhase;
use blackfriday::player::ClosestParcel;
use blackfriday::timer::TimerMode;
use blackfriday::warehouse::collect_parcel;
use blackfriday::warehouse::collect_parcels;
use blackfriday::warehouse::move_truck;
use blackfriday::warehouse::setup_ground;
use blackfriday::warehouse::update_score;
use blackfriday::warehouse::AgentServiceCode;
use blackfriday::warehouse::Collision;
use blackfriday::warehouse::Color;
use blackfriday::warehouse::Score;
use blackfriday::warehouse::ScoreEvent;
use blackfriday::warehouse::ShippingArea;
use blackfriday::warehouse::Truck;

const SECOND: u128 = 1_000_000_000;

fn parcel(id: u64, agent: AgentServiceCode) -> Parcel {
    Parcel {
        id,
        agent,
        position: Vec3::new(0, 0, 0),
        velocity: Vec3::new(1, 2, 3),
        angular_velocity: Vec3::new(0, 0, 0),
        highlighted: true,
        phase: ParcelPhase::Free,
        collides: true,
        despawn: None,
    }
}

struct World {
    parcels: Vec<Parcel>,
    areas: Vec<ShippingArea>,
    trucks: Vec<Truck>,
    closest: ClosestParcel,
    events: Vec<ScoreEvent>,
}

fn world() -> World {
    let (areas, trucks) = setup_ground([100, 101, 102, 103], [200, 201, 202, 203]);
    World {
        parcels: vec![
            parcel(1, AgentServiceCode::PostNord),
            parcel(2, AgentServiceCode::DHL),
            parcel(3, AgentServiceCode::PostNord),
        ],
        areas,
        trucks,
        closest: ClosestParcel(Some(1)),
        events: Vec::new(),
    }
}

fn collide(w: &mut World, first: u64, second: u64) {
    collect_parcel(
        &Collision(first, second),
        &mut w.events,
        &mut w.closest,
        &mut w.parcels,
        &mut w.trucks,
        &mut w.areas,
    );
}

#[test]
fn carriers_have_their_colours() {
    assert_eq!(AgentServiceCode::PostNord.color(), Color { r: 0, g: 620, b: 840 });
    assert_eq!(AgentServiceCode::DHL.color(), Color { r: 1000, g: 800, b: 0 });
    assert_eq!(AgentServiceCode::Bring.color(), Color { r: 1000, g: 1000, b: 1000 });
    assert_eq!(AgentServiceCode::Budbee.color(), Color { r: 320, g: 750, b: 620 });
}

#[test]
fn ground_has_a_zone_and_a_truck_for_each_carrier() {
    let (areas, trucks) = setup_ground([100, 101, 102, 103], [200, 201, 202, 203]);
    assert_eq!(areas.len(), 4);
    assert_eq!(trucks.len(), 4);
    let agents = [
        AgentServiceCode::PostNord,
        AgentServiceCode::DHL,
        AgentServiceCode::Bring,
        AgentServiceCode::Budbee,
    ];
    let stations = [
        Vec3::new(0, 5000, -15_000),
        Vec3::new(15_000, 5000, 0),
        Vec3::new(0, 5000, 15_000),
        Vec3::new(-15_000, 5000, 0),
    ];
    let headings = [
        Vec3::new(1000, 0, 0),
        Vec3::new(0, 0, 1000),
        Vec3::new(-1000, 0, 0),
        Vec3::new(-174, 0, -985),
    ];
    let centers = [
        Vec3::new(0, -500, -12_000),
        Vec3::new(12_000, -500, 0),
        Vec3::new(0, -500, 12_000),
        Vec3::new(-12_000, -500, 0),
    ];
    let mut i = 0;
    while i < 4 {
        assert_eq!(areas[i].id, 100 + i as u64);
        assert_eq!(areas[i].agent, agents[i]);
        assert_eq!(areas[i].score, 0);
        assert_eq!(areas[i].received_parcels, 0);
        assert_eq!(areas[i].truck, 200 + i as u64);
        assert_eq!(trucks[i].id, 200 + i as u64);
        assert_eq!(trucks[i].position, stations[i]);
        assert_eq!(trucks[i].heading, headings[i]);
        assert!(trucks[i].move_truck.is_none());
        assert_eq!(agents[i].zone_center(), centers[i]);
        assert_eq!(agents[i].truck_station(), stations[i]);
        i += 1;
    }
}

#[test]
fn matching_delivery_scores_a_point() {
    let mut w = world();
    collide(&mut w, 1, 100);
    assert_eq!(w.events, vec![ScoreEvent { score: 1 }]);
    assert_eq!(w.areas[0].score, 1);
    assert_eq!(w.areas[0].received_parcels, 1);
    let truck = w.trucks[0];
    let trip = truck.move_truck.unwrap();
    assert_eq!(trip.origin, Vec3::new(0, 5000, -15_000));
    assert_eq!(trip.timer.duration(), 3 * SECOND);
    assert_eq!(trip.timer.elapsed(), 0);
    assert_eq!(trip.timer.mode(), TimerMode::Once);
    let delivered = w.parcels[0];
    assert!(!delivered.is_active());
    assert!(!delivered.is_eligible());
    assert!(delivered.is_sensor());
    assert!(!delivered.highlighted);
    let despawn = delivered.despawn.unwrap();
    assert_eq!(despawn.timer.duration(), 600_000_000);
    assert!(despawn.timer.duration() > 0);
    assert_eq!(despawn.timer.elapsed(), 0);
    assert_eq!(delivered.velocity, Vec3::new(1, 2, 3));
    assert_eq!(w.closest.0, None);
    let mut score = Score { score: 0 };
    update_score(&mut score, &w.events);
    assert_eq!(score.score, 1);
    let mut i = 1;
    while i < 4 {
        assert_eq!(w.areas[i].score, 0);
        assert_eq!(w.areas[i].received_parcels, 0);
        assert!(w.trucks[i].move_truck.is_none());
        i += 1;
    }
    assert!(w.parcels[1].is_active());
    assert!(w.parcels[1].highlighted);
    assert!(w.parcels[2].is_active());
}

#[test]
fn mismatching_delivery_costs_a_point() {
    let mut w = world();
    w.closest = ClosestParcel(Some(1));
    collide(&mut w, 2, 100);
    assert_eq!(w.events, vec![ScoreEvent { score: -1 }]);
    assert_eq!(w.areas[0].score, -1);
    assert_eq!(w.areas[0].received_parcels, 1);
    assert!(w.trucks[0].move_truck.is_some());
    assert_eq!(w.areas[1].score, 0);
    assert_eq!(w.areas[1].received_parcels, 0);
    assert!(w.trucks[1].move_truck.is_none());
    assert!(!w.parcels[1].is_active());
    assert_eq!(w.closest.0, Some(1));
    let mut score = Score { score: 10 };
    update_score(&mut score, &w.events);
    assert_eq!(score.score, 9);
}

#[test]
fn zone_may_come_first_in_a_collision() {
    let mut w = world();
    collide(&mut w, 101, 2);
    assert_eq!(w.events, vec![ScoreEvent { score: 1 }]);
    assert_eq!(w.areas[1].score, 1);
    assert_eq!(w.areas[1].received_parcels, 1);
    assert!(w.trucks[1].move_truck.is_some());
    assert!(!w.parcels[1].is_active());
}

#[test]
fn other_collisions_are_ignored() {
    let mut w = world();
    collide(&mut w, 1, 2);
    collide(&mut w, 1, 999);
    collide(&mut w, 100, 101);
    collide(&mut w, 100, 200);
    collide(&mut w, 998, 999);
    collide(&mut w, 1, 200);
    assert!(w.events.is_empty());
    assert_eq!(w.closest.0, Some(1));
    for p in &w.parcels {
        assert!(p.is_active());
        assert!(p.highlighted);
    }
    for a in &w.areas {
        assert_eq!(a.score, 0);
        assert_eq!(a.received_parcels, 0);
    }
    for t in &w.trucks {
        assert!(t.move_truck.is_none());
    }
}

#[test]
fn delivered_parcel_is_not_scored_again() {
    let mut w = world();
    collide(&mut w, 1, 100);
    collide(&mut w, 1, 100);
    collide(&mut w, 1, 101);
    assert_eq!(w.events.len(), 1);
    assert_eq!(w.areas[0].received_parcels, 1);
    assert_eq!(w.areas[1].received_parcels, 0);
}

#[test]
fn truck_on_a_trip_is_not_sent_again() {
    let mut w = world();
    collide(&mut w, 1, 100);
    move_truck(&mut w.trucks, SECOND);
    let before = w.trucks[0];
    collide(&mut w, 3, 100);
    assert_eq!(w.areas[0].score, 2);
    assert_eq!(w.areas[0].received_parcels, 2);
    let after = w.trucks[0];
    assert_eq!(after.position, before.position);
    assert_eq!(after.move_truck.unwrap().timer.elapsed(), SECOND);
    assert_eq!(after.move_truck.unwrap().origin, Vec3::new(0, 5000, -15_000));
}

#[test]
fn truck_leaves_again_after_it_came_back() {
    let mut w = world();
    collide(&mut w, 1, 100);
    move_truck(&mut w.trucks, 3 * SECOND);
    assert!(w.trucks[0].move_truck.is_none());
    collide(&mut w, 3, 100);
    let trip = w.trucks[0].move_truck.unwrap();
    assert_eq!(trip.timer.elapsed(), 0);
    assert_eq!(trip.origin, Vec3::new(0, 5000, -15_000));
}

#[test]
fn zone_without_a_truck_still_takes_parcels() {
    let mut w = world();
    w.trucks.clear();
    collide(&mut w, 1, 100);
    assert_eq!(w.events, vec![ScoreEvent { score: 1 }]);
    assert_eq!(w.areas[0].received_parcels, 1);
    assert!(w.trucks.is_empty());
}

#[test]
fn held_parcel_can_be_delivered() {
    let mut w = world();
    w.parcels[0].phase = ParcelPhase::Held;
    collide(&mut w, 1, 100);
    assert_eq!(w.parcels[0].phase, ParcelPhase::Held);
    assert!(w.parcels[0].despawn.is_some());
    assert_eq!(w.areas[0].score, 1);
}

#[test]
fn collisions_of_a_tick_are_handled_in_their_order() {
    let mut w = world();
    let collisions = vec![
        Collision(1, 2),
        Collision(2, 100),
        Collision(101, 2),
        Collision(1, 100),
        Collision(3, 103),
    ];
    collect_parcels(
        &collisions,
        &mut w.events,
        &mut w.closest,
        &mut w.parcels,
        &mut w.trucks,
        &mut w.areas,
    );
    assert_eq!(
        w.events,
        vec![ScoreEvent { score: -1 }, ScoreEvent { score: 1 }, ScoreEvent { score: -1 }]
    );
    assert_eq!(w.areas[0].score, 0);
    assert_eq!(w.areas[0].received_parcels, 2);
    assert_eq!(w.areas[1].received_parcels, 0);
    assert_eq!(w.areas[3].score, -1);
    assert_eq!(w.areas[3].received_parcels, 1);
    assert_eq!(w.closest.0, None);
    assert!(w.trucks[0].move_truck.is_some());
    assert!(w.trucks[1].move_truck.is_none());
    assert!(w.trucks[3].move_truck.is_some());
    let mut score = Score { score: 0 };
    update_score(&mut score, &w.events);
    assert_eq!(score.score, -1);
}

#[test]
fn score_is_the_sum_of_its_changes() {
    let mut score = Score { score: 5 };
    let events = vec![
        ScoreEvent { score: 1 },
        ScoreEvent { score: -1 },
        ScoreEvent { score: -1 },
        ScoreEvent { score: 7 },
    ];
    update_score(&mut score, &events);
    assert_eq!(score.score, 11);
    update_score(&mut score, &Vec::new());
    assert_eq!(score.score, 11);
}

#[test]
fn score_may_pass_through_values_out_of_range() {
    let mut score = Score { score: 1 };
    let events = vec![ScoreEvent { score: i32::MAX }, ScoreEvent { score: -2 }];
    update_score(&mut score, &events);
    assert_eq!(score.score, i32::MAX - 1);
}

#[test]
fn truck_drives_off_and_is_put_back() {
    let (_, mut trucks) = setup_ground([100, 101, 102, 103], [200, 201, 202, 203]);
    trucks[0] = trucks[0].departing();
    trucks[3] = trucks[3].departing();
    move_truck(&mut trucks, SECOND);
    assert_eq!(trucks[0].position, Vec3::new(10_000, 5000, -15_000));
    assert_eq!(trucks[3].position, Vec3::new(-15_000 - 1740, 5000, -9850));
    assert_eq!(trucks[1].position, Vec3::new(15_000, 5000, 0));
    assert!(trucks[1].move_truck.is_none());
    move_truck(&mut trucks, SECOND / 2);
    assert_eq!(trucks[0].position, Vec3::new(15_000, 5000, -15_000));
    assert_eq!(trucks[3].position, Vec3::new(-15_000 - 2610, 5000, -14_775));
    assert_eq!(trucks[0].move_truck.unwrap().timer.elapsed(), 3 * SECOND / 2);
    move_truck(&mut trucks, 3 * SECOND / 2 - 1);
    assert_eq!(trucks[0].position, Vec3::new(29_999, 5000, -15_000));
    assert!(trucks[0].move_truck.is_some());
    move_truck(&mut trucks, 1);
    assert_eq!(trucks[0].position, Vec3::new(0, 5000, -15_000));
    assert!(trucks[0].move_truck.is_none());
    assert_eq!(trucks[3].position, Vec3::new(-15_000, 5000, 0));
    assert!(trucks[3].move_truck.is_none());
    move_truck(&mut trucks, SECOND);
    assert_eq!(trucks[0].position, Vec3::new(0, 5000, -15_000));
}

#[test]
fn truck_drives_on_from_where_it_stands() {
    let (_, trucks) = setup_ground([100, 101, 102, 103], [200, 201, 202, 203]);
    let mut truck = trucks[0].departing().moved(SECOND);
    assert_eq!(truck.position, Vec3::new(10_000, 5000, -15_000));
    truck.position = Vec3::new(9000, 5100, -15_000);
    assert!(truck.is_wf());
    let truck = truck.moved(SECOND);
    assert_eq!(truck.position, Vec3::new(19_000, 5100, -15_000));
    assert_eq!(truck.move_truck.unwrap().origin, Vec3::new(0, 5000, -15_000));
    assert_eq!(truck.move_truck.unwrap().timer.elapsed(), 2 * SECOND);
    assert_eq!(truck.heading, Vec3::new(1000, 0, 0));
    let back = truck.moved(SECOND);
    assert_eq!(back.position, Vec3::new(0, 5000, -15_000));
    assert!(back.move_truck.is_none());
}

#[test]
fn truck_further_away_than_it_can_have_driven_is_not_valid() {
    let (_, trucks) = setup_ground([100, 101, 102, 103], [200, 201, 202, 203]);
    let mut truck = trucks[0].departing().moved(SECOND);
    assert!(truck.is_wf());
    truck.position = Vec3::new(10_001, 5000, -15_000);
    assert!(!truck.is_wf());
    truck.position = Vec3::new(0, 5000, -25_001);
    assert!(!truck.is_wf());
}

#[test]
fn new_trip_replaces_the_old_one() {
    let (_, mut trucks) = setup_ground([100, 101, 102, 103], [200, 201, 202, 203]);
    let mut truck = trucks[1].departing();
    truck = truck.moved(SECOND);
    assert_eq!(truck.position, Vec3::new(15_000, 5000, 10_000));
    let again = truck.departing();
    let trip = again.move_truck.unwrap();
    assert_eq!(trip.origin, Vec3::new(15_000, 5000, 10_000));
    assert_eq!(trip.timer.elapsed(), 0);
    trucks[1] = again;
    assert!(trucks[1].move_truck.is_some());
}
