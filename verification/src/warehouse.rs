//! Delivery zones, their trucks and the score.

use vstd::prelude::*;
use crate::config;
use crate::entity::find;
use crate::entity::index_of;
use crate::entity::lemma_index_of;
use crate::entity::Entity;
use crate::entity::Identified;
use crate::math::magnitude;
use crate::math::shrink;
use crate::math::signed;
use crate::math::Vec3;
use crate::parcels::parcels_wf;
use crate::parcels::Parcel;
use crate::player::ClosestParcel;
use crate::timer::Timer;
use crate::timer::TimerMode;

verus! {

/// The carrier that a parcel travels with and that a delivery zone accepts.
#[derive(Clone, Copy, Debug, PartialEq, Eq, Hash, Structural)]
pub enum AgentServiceCode {
    PostNord,
    DHL,
    Bring,
    Budbee,
}

/// A colour by its red, green and blue parts, each in thousandths of full
/// intensity.
#[derive(Clone, Copy, Debug, PartialEq, Eq, Structural)]
pub struct Color {
    pub r: u16,
    pub g: u16,
    pub b: u16,
}

impl AgentServiceCode {
    /// The colour of the carrier's livery.
    pub open spec fn spec_color(self) -> Color {
        match self {
            AgentServiceCode::PostNord => Color { r: 0, g: 620, b: 840 },
            AgentServiceCode::DHL => Color { r: 1000, g: 800, b: 0 },
            AgentServiceCode::Bring => Color { r: 1000, g: 1000, b: 1000 },
            AgentServiceCode::Budbee => Color { r: 320, g: 750, b: 620 },
        }
    }

    /// The colour of the carrier's livery.
    pub fn color(&self) -> (c: Color)
        ensures
            c == self.spec_color(),
    {
        match self {
            AgentServiceCode::PostNord => Color { r: 0, g: 620, b: 840 },
            AgentServiceCode::DHL => Color { r: 1000, g: 800, b: 0 },
            AgentServiceCode::Bring => Color { r: 1000, g: 1000, b: 1000 },
            AgentServiceCode::Budbee => Color { r: 320, g: 750, b: 620 },
        }
    }

    /// The carrier with the given number, counted modulo four.
    pub open spec fn spec_from_index(index: nat) -> AgentServiceCode {
        if index % 4 == 0 {
            AgentServiceCode::PostNord
        } else if index % 4 == 1 {
            AgentServiceCode::DHL
        } else if index % 4 == 2 {
            AgentServiceCode::Bring
        } else {
            AgentServiceCode::Budbee
        }
    }

    /// The carrier with the given number, counted modulo four.
    pub fn from_index(index: u8) -> (code: AgentServiceCode)
        ensures
            code == Self::spec_from_index(index as nat),
    {
        let rest: u8 = index % 4;
        if rest == 0 {
            AgentServiceCode::PostNord
        } else if rest == 1 {
            AgentServiceCode::DHL
        } else if rest == 2 {
            AgentServiceCode::Bring
        } else {
            AgentServiceCode::Budbee
        }
    }
}

/// Sends a truck on its trip: it drives off until the timer completes and is
/// then put back at `origin`.
#[derive(Clone, Copy, Debug)]
pub struct MoveTruck {
    /// Where the truck stood when it left.
    pub origin: Vec3,
    /// Counts the time of the trip.
    pub timer: Timer,
}

/// The truck of a delivery zone.
#[derive(Clone, Copy, Debug)]
pub struct Truck {
    pub id: Entity,
    pub position: Vec3,
    /// The direction in which the truck drives off, a vector of length one
    /// (a thousand thousandths).
    pub heading: Vec3,
    /// Present while the truck is on a trip.
    pub move_truck: Option<MoveTruck>,
}

impl Identified for Truck {
    open spec fn ident(&self) -> Entity {
        self.id
    }

    fn id(&self) -> (id: Entity) {
        self.id
    }
}

/// A delivery zone: it takes parcels and keeps count of them.
#[derive(Clone, Copy, Debug)]
pub struct ShippingArea {
    pub id: Entity,
    /// The carrier whose parcels belong here.
    pub agent: AgentServiceCode,
    /// Sum of the scores of all deliveries to this zone.
    pub score: i32,
    /// Number of parcels delivered to this zone.
    pub received_parcels: u64,
    /// The truck that leaves when a parcel arrives.
    pub truck: Entity,
}

impl Identified for ShippingArea {
    open spec fn ident(&self) -> Entity {
        self.id
    }

    fn id(&self) -> (id: Entity) {
        self.id
    }
}

/// The score of the session.
#[derive(Clone, Copy, Debug, PartialEq, Eq, Structural)]
pub struct Score {
    pub score: i32,
}

/// A change of the score, to be added to it at the end of the tick.
#[derive(Clone, Copy, Debug, PartialEq, Eq, Structural)]
pub struct ScoreEvent {
    pub score: i32,
}

/// Two entities that started to touch.
#[derive(Clone, Copy, Debug, PartialEq, Eq, Structural)]
pub struct Collision(pub Entity, pub Entity);

/// The score of a delivery: one point for a parcel in the zone of its own
/// carrier, one point off for a parcel in another zone.
pub open spec fn delivery_score(parcel: AgentServiceCode, area: AgentServiceCode) -> int {
    if parcel == area {
        1
    } else {
        -1
    }
}

/// What deliveries read and change.
pub struct Delivery {
    pub parcels: Seq<Parcel>,
    pub areas: Seq<ShippingArea>,
    pub trucks: Seq<Truck>,
    pub closest: Option<Entity>,
    pub events: Seq<ScoreEvent>,
}

impl Delivery {
    /// The place of the parcel that takes part in a collision of `first` and
    /// `second`: `first` if it is a parcel that can still be delivered,
    /// else `second` if it is one.
    pub open spec fn parcel_of(self, first: Entity, second: Entity) -> Option<int> {
        match index_of(self.parcels, first) {
            Some(i) if self.parcels[i].is_active() => Some(i),
            _ => match index_of(self.parcels, second) {
                Some(i) if self.parcels[i].is_active() => Some(i),
                _ => None,
            },
        }
    }

    /// The place of the delivery zone that takes part in a collision of
    /// `first` and `second`: `first` if it is a zone, else `second` if it is
    /// one.
    pub open spec fn area_of(self, first: Entity, second: Entity) -> Option<int> {
        match index_of(self.areas, first) {
            Some(a) => Some(a),
            None => index_of(self.areas, second),
        }
    }

    /// The trucks after a delivery to the zone at place `a`: the zone's truck
    /// starts a trip from where it stands unless it is on one.
    pub open spec fn dispatch(self, a: int) -> Seq<Truck> {
        match index_of(self.trucks, self.areas[a].truck) {
            Some(t) if self.trucks[t].move_truck is None => self.trucks.update(
                t,
                self.trucks[t].departing(),
            ),
            _ => self.trucks,
        }
    }

    /// The state after `first` and `second` started to touch. Where one of
    /// them is a parcel that can still be delivered and one a delivery zone,
    /// the zone takes the parcel: the parcel is delivered and stops being the
    /// closest parcel, the score of the delivery is announced and added to
    /// the zone's own, the zone counts one more parcel, and the zone's truck
    /// leaves unless it is away. Any other collision changes nothing.
    pub open spec fn collide(self, first: Entity, second: Entity) -> Delivery {
        match (self.parcel_of(first, second), self.area_of(first, second)) {
            (Some(p), Some(a)) => {
                let score = delivery_score(self.parcels[p].agent, self.areas[a].agent);
                Delivery {
                    parcels: self.parcels.update(p, self.parcels[p].delivered()),
                    areas: self.areas.update(
                        a,
                        ShippingArea {
                            score: (self.areas[a].score + score) as i32,
                            received_parcels: (self.areas[a].received_parcels + 1) as u64,
                            ..self.areas[a]
                        },
                    ),
                    trucks: self.dispatch(a),
                    closest: if self.closest == Some(self.parcels[p].id) {
                        None
                    } else {
                        self.closest
                    },
                    events: self.events.push(ScoreEvent { score: score as i32 }),
                }
            },
            _ => self,
        }
    }

    /// The state after the collisions `collisions`, taken in their order.
    pub open spec fn collide_all(self, collisions: Seq<Collision>) -> Delivery
        decreases collisions.len(),
    {
        if collisions.len() == 0 {
            self
        } else {
            self.collide_all(collisions.drop_last()).collide(
                collisions.last().0,
                collisions.last().1,
            )
        }
    }

    /// Whether the counts of every zone can take `more` deliveries without
    /// leaving the range of the machine's numbers.
    pub open spec fn has_room(self, more: int) -> bool {
        areas_have_room(self.areas, more)
    }
}

impl Truck {
    /// The truck on the trip `trip`, in place of the trip it was on if it was
    /// on one.
    pub open spec fn spec_attach_move_truck(self, trip: MoveTruck) -> Truck {
        Truck { move_truck: Some(trip), ..self }
    }

    /// The truck on the trip `trip`, in place of the trip it was on if it was
    /// on one.
    #[verifier::when_used_as_spec(spec_attach_move_truck)]
    pub fn attach_move_truck(self, trip: MoveTruck) -> (truck: Truck)
        ensures
            truck == self.spec_attach_move_truck(trip),
    {
        Truck { move_truck: Some(trip), ..self }
    }

    /// The truck as it starts a trip of `TRUCK_TRIP_SECS` from where it
    /// stands.
    pub open spec fn spec_departing(self) -> Truck {
        self.attach_move_truck(
            MoveTruck {
                origin: self.position,
                timer: Timer::fresh(
                    config::TRUCK_TRIP_SECS as nat * 1_000_000_000,
                    TimerMode::Once,
                ),
            },
        )
    }

    /// The truck as it starts a trip from where it stands.
    #[verifier::when_used_as_spec(spec_departing)]
    pub fn departing(self) -> (truck: Truck)
        ensures
            truck == self.spec_departing(),
    {
        self.attach_move_truck(
            MoveTruck {
                origin: self.position,
                timer: Timer::from_secs(config::TRUCK_TRIP_SECS, TimerMode::Once),
            },
        )
    }
}

/// A delivery, whether the carriers match or not. The score is one point for
/// a match and one point off otherwise; it is announced, and added to the
/// zone's own score; the zone counts one more parcel, and no other zone
/// changes. The parcel is consumed: it cannot be delivered again, has no
/// outline, is on its way out after a time that is not nothing, and is not
/// the closest parcel; no other parcel changes. The zone's truck starts a
/// fresh trip from where it stands if it is not on one, and no other truck
/// changes.
pub proof fn lemma_delivery(state: Delivery, first: Entity, second: Entity)
    requires
        state.parcel_of(first, second) is Some,
        state.area_of(first, second) is Some,
        state.has_room(1),
    ensures
        ({
            let p = state.parcel_of(first, second).unwrap();
            let a = state.area_of(first, second).unwrap();
            let after = state.collide(first, second);
            let score = delivery_score(state.parcels[p].agent, state.areas[a].agent);
            &&& 0 <= p < state.parcels.len()
            &&& 0 <= a < state.areas.len()
            &&& score == if state.parcels[p].agent == state.areas[a].agent {
                1int
            } else {
                -1int
            }
            &&& after.events == state.events.push(ScoreEvent { score: score as i32 })
            &&& after.events.last().score == score
            &&& after.areas.len() == state.areas.len()
            &&& after.areas[a].score == state.areas[a].score + score
            &&& after.areas[a].received_parcels == state.areas[a].received_parcels + 1
            &&& after.areas[a].truck == state.areas[a].truck
            &&& forall|b: int|
                0 <= b < state.areas.len() && b != a ==> after.areas[b] == state.areas[b]
            &&& after.parcels.len() == state.parcels.len()
            &&& !after.parcels[p].is_active()
            &&& !after.parcels[p].is_eligible()
            &&& after.parcels[p].is_sensor()
            &&& !after.parcels[p].highlighted
            &&& after.parcels[p].despawn matches Some(despawn) && despawn.timer
                == Timer::fresh(
                config::DELIVERY_DESPAWN_MILLIS as nat * 1_000_000,
                TimerMode::Once,
            ) && despawn.timer@.duration > 0
            &&& forall|q: int|
                0 <= q < state.parcels.len() && q != p ==> after.parcels[q] == state.parcels[q]
            &&& after.closest != Some(state.parcels[p].id)
            &&& after.closest is Some ==> after.closest == state.closest
            &&& after.trucks.len() == state.trucks.len()
            &&& match index_of(state.trucks, state.areas[a].truck) {
                Some(t) => {
                    &&& 0 <= t < state.trucks.len()
                    &&& after.trucks[t] == if state.trucks[t].move_truck is None {
                        Truck {
                            move_truck: Some(
                                MoveTruck {
                                    origin: state.trucks[t].position,
                                    timer: Timer::fresh(
                                        config::TRUCK_TRIP_SECS as nat * 1_000_000_000,
                                        TimerMode::Once,
                                    ),
                                },
                            ),
                            ..state.trucks[t]
                        }
                    } else {
                        state.trucks[t]
                    }
                    &&& forall|u: int|
                        0 <= u < state.trucks.len() && u != t ==> after.trucks[u]
                            == state.trucks[u]
                },
                None => after.trucks == state.trucks,
            }
        }),
{
    lemma_index_of(state.parcels, first);
    lemma_index_of(state.parcels, second);
    lemma_index_of(state.areas, first);
    lemma_index_of(state.areas, second);
    let a = state.area_of(first, second).unwrap();
    lemma_index_of(state.trucks, state.areas[a].truck);
}

/// Whether the counts of every zone can take `more` deliveries without
/// leaving the range of the machine's numbers.
pub open spec fn areas_have_room(areas: Seq<ShippingArea>, more: int) -> bool {
    forall|a: int|
        0 <= a < areas.len() ==> {
            &&& i32::MIN <= (#[trigger] areas[a]).score - more
            &&& areas[a].score + more <= i32::MAX
            &&& areas[a].received_parcels + more <= u64::MAX
        }
}

/// Whether the counts of every zone can take `more` deliveries without
/// leaving the range of the machine's numbers.
pub fn have_room(shipping_areas: &Vec<ShippingArea>, more: usize) -> (b: bool)
    ensures
        b == areas_have_room(shipping_areas@, more as int),
{
    let mut i: usize = 0;
    while i < shipping_areas.len()
        invariant
            i <= shipping_areas.len(),
            forall|a: int|
                0 <= a < i ==> {
                    &&& i32::MIN <= (#[trigger] shipping_areas@[a]).score - more
                    &&& shipping_areas@[a].score + more <= i32::MAX
                    &&& shipping_areas@[a].received_parcels + more <= u64::MAX
                },
        decreases shipping_areas.len() - i,
    {
        let area = shipping_areas[i];
        let score = area.score as i128;
        let count = area.received_parcels as u128;
        if score - (more as i128) < i32::MIN as i128 || score + (more as i128) > i32::MAX as i128
            || count + (more as u128) > u64::MAX as u128 {
            return false;
        }
        i = i + 1;
    }
    true
}

/// Handles one collision: where a parcel that can still be delivered meets a
/// delivery zone, the zone takes it.
pub fn collect_parcel(
    collision: &Collision,
    score_events: &mut Vec<ScoreEvent>,
    closest_parcel: &mut ClosestParcel,
    parcels: &mut Vec<Parcel>,
    trucks: &mut Vec<Truck>,
    shipping_areas: &mut Vec<ShippingArea>,
)
    requires
        (Delivery {
            parcels: old(parcels)@,
            areas: old(shipping_areas)@,
            trucks: old(trucks)@,
            closest: old(closest_parcel).0,
            events: old(score_events)@,
        }).has_room(1),
    ensures
        (Delivery {
            parcels: final(parcels)@,
            areas: final(shipping_areas)@,
            trucks: final(trucks)@,
            closest: final(closest_parcel).0,
            events: final(score_events)@,
        }) == (Delivery {
            parcels: old(parcels)@,
            areas: old(shipping_areas)@,
            trucks: old(trucks)@,
            closest: old(closest_parcel).0,
            events: old(score_events)@,
        }).collide(collision.0, collision.1),
        parcels_wf(old(parcels)@) ==> parcels_wf(final(parcels)@),
        trucks_wf(old(trucks)@) ==> trucks_wf(final(trucks)@),
        final(shipping_areas)@.len() == old(shipping_areas)@.len(),
        forall|a: int|
            0 <= a < old(shipping_areas)@.len() ==> {
                &&& old(shipping_areas)@[a].score - 1 <= (#[trigger] final(shipping_areas)@[a]).score
                    <= old(shipping_areas)@[a].score + 1
                &&& final(shipping_areas)@[a].received_parcels <= old(
                    shipping_areas,
                )@[a].received_parcels + 1
            },
{
    let first = find_active_parcel(parcels, collision.0);
    let p = match first {
        Some(p) => p,
        None => match find_active_parcel(parcels, collision.1) {
            Some(p) => p,
            None => {
                return ;
            },
        },
    };
    let a = match find(shipping_areas, collision.0) {
        Some(a) => a,
        None => match find(shipping_areas, collision.1) {
            Some(a) => a,
            None => {
                return ;
            },
        },
    };
    let parcel = parcels[p];
    let area = shipping_areas[a];
    let score: i32 = if parcel.agent == area.agent {
        1
    } else {
        -1
    };
    parcels.set(p, parcel.delivered());
    match closest_parcel.0 {
        Some(closest) => {
            if closest == parcel.id {
                closest_parcel.0 = None;
            }
        },
        None => {},
    }
    score_events.push(ScoreEvent { score });
    shipping_areas.set(
        a,
        ShippingArea {
            score: area.score + score,
            received_parcels: area.received_parcels + 1,
            ..area
        },
    );
    match find(trucks, area.truck) {
        Some(t) => {
            let truck = trucks[t];
            if truck.move_truck.is_none() {
                trucks.set(t, truck.departing());
            }
        },
        None => {},
    }
}

/// The place of the parcel `id` if it can still be delivered.
fn find_active_parcel(parcels: &Vec<Parcel>, id: Entity) -> (found: Option<usize>)
    ensures
        found matches Some(i) ==> i < parcels.len() && index_of(parcels@, id) == Some(i as int)
            && parcels@[i as int].is_active(),
        found is None ==> !(index_of(parcels@, id) matches Some(i) && parcels@[i].is_active()),
{
    match find(parcels, id) {
        Some(i) => {
            if parcels[i].is_active() {
                Some(i)
            } else {
                None
            }
        },
        None => None,
    }
}

/// Handles the collisions of one tick in their order: each parcel that can
/// still be delivered and meets a delivery zone is taken by the zone, which
/// scores it by whether the carriers match.
pub fn collect_parcels(
    collisions: &Vec<Collision>,
    score_events: &mut Vec<ScoreEvent>,
    closest_parcel: &mut ClosestParcel,
    parcels: &mut Vec<Parcel>,
    trucks: &mut Vec<Truck>,
    shipping_areas: &mut Vec<ShippingArea>,
)
    requires
        (Delivery {
            parcels: old(parcels)@,
            areas: old(shipping_areas)@,
            trucks: old(trucks)@,
            closest: old(closest_parcel).0,
            events: old(score_events)@,
        }).has_room(collisions@.len() as int),
    ensures
        (Delivery {
            parcels: final(parcels)@,
            areas: final(shipping_areas)@,
            trucks: final(trucks)@,
            closest: final(closest_parcel).0,
            events: final(score_events)@,
        }) == (Delivery {
            parcels: old(parcels)@,
            areas: old(shipping_areas)@,
            trucks: old(trucks)@,
            closest: old(closest_parcel).0,
            events: old(score_events)@,
        }).collide_all(collisions@),
        parcels_wf(old(parcels)@) ==> parcels_wf(final(parcels)@),
        trucks_wf(old(trucks)@) ==> trucks_wf(final(trucks)@),
{
    let ghost start = Delivery {
        parcels: parcels@,
        areas: shipping_areas@,
        trucks: trucks@,
        closest: closest_parcel.0,
        events: score_events@,
    };
    let mut i: usize = 0;
    while i < collisions.len()
        invariant
            i <= collisions.len(),
            (Delivery {
                parcels: parcels@,
                areas: shipping_areas@,
                trucks: trucks@,
                closest: closest_parcel.0,
                events: score_events@,
            }) == start.collide_all(collisions@.take(i as int)),
            start.has_room(collisions@.len() as int),
            parcels_wf(start.parcels) ==> parcels_wf(parcels@),
            trucks_wf(start.trucks) ==> trucks_wf(trucks@),
            shipping_areas@.len() == start.areas.len(),
            forall|a: int|
                0 <= a < shipping_areas@.len() ==> {
                    &&& start.areas[a].score - i <= (#[trigger] shipping_areas@[a]).score
                        <= start.areas[a].score + i
                    &&& shipping_areas@[a].received_parcels <= start.areas[a].received_parcels + i
                },
        decreases collisions.len() - i,
    {
        proof {
            assert(collisions@.take(i + 1).drop_last() == collisions@.take(i as int));
        }
        collect_parcel(
            &collisions[i],
            score_events,
            closest_parcel,
            parcels,
            trucks,
            shipping_areas,
        );
        i = i + 1;
    }
    proof {
        assert(collisions@.take(collisions.len() as int) == collisions@);
    }
}

/// The sum of the changes `events`.
pub open spec fn score_sum(events: Seq<ScoreEvent>) -> int
    decreases events.len(),
{
    if events.len() == 0 {
        0
    } else {
        score_sum(events.drop_last()) + events.last().score
    }
}

/// The sum of the changes `score_events`.
pub fn sum_scores(score_events: &Vec<ScoreEvent>) -> (total: i128)
    ensures
        total == score_sum(score_events@),
        -0x8000_0000 * score_events@.len() <= total <= 0x8000_0000 * score_events@.len(),
{
    let mut total: i128 = 0;
    let mut i: usize = 0;
    while i < score_events.len()
        invariant
            i <= score_events.len(),
            total == score_sum(score_events@.take(i as int)),
            -0x8000_0000 * i <= total <= 0x8000_0000 * i,
        decreases score_events.len() - i,
    {
        proof {
            assert(score_events@.take(i + 1).drop_last() == score_events@.take(i as int));
        }
        total = total + score_events[i].score as i128;
        i = i + 1;
    }
    proof {
        assert(score_events@.take(score_events.len() as int) == score_events@);
    }
    total
}

/// Adds the announced changes to the score.
pub fn update_score(score: &mut Score, score_events: &Vec<ScoreEvent>)
    requires
        i32::MIN <= old(score).score + score_sum(score_events@) <= i32::MAX,
    ensures
        final(score).score == old(score).score + score_sum(score_events@),
{
    let total = score.score as i128 + sum_scores(score_events);
    score.score = total as i32;
}

/// Longest trip of a truck that the rules accept, in nanoseconds: a hundred
/// thousand seconds.
pub const TRUCK_TRIP_LIMIT: u128 = 100_000_000_000_000;

/// Factor between the product of a heading in thousandths, a speed in
/// thousandths per second and a time in nanoseconds, and a way in
/// thousandths.
pub const TRUCK_WAY_DIVISOR: u128 = 1_000_000_000_000;

/// Time in which a truck drives one thousandth of a unit, in nanoseconds.
pub const TRUCK_NANOS_PER_THOUSANDTH: u128 = 100_000;

/// The way along one axis that a truck with the heading component `heading`
/// drives in `delta` nanoseconds at `TRUCK_SPEED`, rounded towards zero.
pub open spec fn truck_way(heading: i32, delta: nat) -> int {
    shrink(heading as int, config::TRUCK_SPEED as nat * delta, TRUCK_WAY_DIVISOR as nat)
}

/// The place of a truck that drives from `position` along `heading` for
/// `delta` nanoseconds.
pub open spec fn truck_step(position: Vec3, heading: Vec3, delta: nat) -> Vec3 {
    Vec3 {
        x: (position.x + truck_way(heading.x, delta)) as i32,
        y: (position.y + truck_way(heading.y, delta)) as i32,
        z: (position.z + truck_way(heading.z, delta)) as i32,
    }
}

/// The furthest along one axis that a truck can be from where it left after
/// `elapsed` nanoseconds.
pub open spec fn truck_reach(elapsed: nat) -> int {
    elapsed as int / TRUCK_NANOS_PER_THOUSANDTH as int
}

/// Whether a truck at `position` is no further from `origin` along any axis
/// than it can have driven in `elapsed` nanoseconds.
pub open spec fn within_reach(position: Vec3, origin: Vec3, elapsed: nat) -> bool {
    &&& origin.x - truck_reach(elapsed) <= position.x <= origin.x + truck_reach(elapsed)
    &&& origin.y - truck_reach(elapsed) <= position.y <= origin.y + truck_reach(elapsed)
    &&& origin.z - truck_reach(elapsed) <= position.z <= origin.z + truck_reach(elapsed)
}

impl Truck {
    /// Validity: no component of the heading is longer than one, and a
    /// waiting truck stands within the world. A trip started within the
    /// world and has a valid timer of no more than `TRUCK_TRIP_LIMIT` that
    /// has not completed, and the truck is no further from where it left
    /// than it can have driven since.
    pub open spec fn wf(&self) -> bool {
        &&& -1000 <= self.heading.x <= 1000
        &&& -1000 <= self.heading.y <= 1000
        &&& -1000 <= self.heading.z <= 1000
        &&& match self.move_truck {
            Some(trip) => {
                &&& trip.timer.wf()
                &&& !trip.timer@.repeating
                &&& !trip.timer@.finished
                &&& trip.timer@.duration <= TRUCK_TRIP_LIMIT
                &&& trip.origin.in_world()
                &&& within_reach(self.position, trip.origin, trip.timer@.elapsed)
            },
            None => self.position.in_world(),
        }
    }

    /// Whether the truck is valid.
    pub fn is_wf(&self) -> (b: bool)
        ensures
            b == self.wf(),
    {
        -1000 <= self.heading.x && self.heading.x <= 1000 && -1000 <= self.heading.y
            && self.heading.y <= 1000 && -1000 <= self.heading.z && self.heading.z <= 1000
            && match self.move_truck {
            Some(trip) => {
                let once = match trip.timer.mode() {
                    TimerMode::Once => true,
                    TimerMode::Repeating => false,
                };
                trip.timer.is_wf() && once && !trip.timer.finished() && trip.timer.duration()
                    <= TRUCK_TRIP_LIMIT && trip.origin.is_in_world() && is_within_reach(
                    self.position,
                    trip.origin,
                    trip.timer.elapsed(),
                )
            },
            None => self.position.is_in_world(),
        }
    }

    /// The truck after `delta` more nanoseconds. A truck on a trip is put
    /// back where it left when the trip's time is up, and the trip is over;
    /// until then it drives on from where it stands, along its heading at
    /// `TRUCK_SPEED`. A truck that is not on a trip stays.
    pub open spec fn spec_moved(self, delta: nat) -> Truck {
        match self.move_truck {
            Some(trip) => {
                let timer = trip.timer.ticked(delta);
                if timer.just_finished {
                    Truck { position: trip.origin, move_truck: None, ..self }
                } else {
                    Truck {
                        position: truck_step(self.position, self.heading, delta),
                        move_truck: Some(MoveTruck { origin: trip.origin, timer }),
                        ..self
                    }
                }
            },
            None => self,
        }
    }

    /// The truck after `delta` more nanoseconds.
    pub fn moved(self, delta: u128) -> (truck: Truck)
        requires
            self.wf(),
        ensures
            truck == self.spec_moved(delta as nat),
            truck.wf(),
    {
        match self.move_truck {
            Some(trip) => {
                let mut timer = trip.timer;
                timer.tick(delta);
                if timer.just_finished() {
                    Truck { position: trip.origin, move_truck: None, ..self }
                } else {
                    Truck {
                        position: Vec3 {
                            x: self.position.x + way(self.heading.x, delta),
                            y: self.position.y + way(self.heading.y, delta),
                            z: self.position.z + way(self.heading.z, delta),
                        },
                        move_truck: Some(MoveTruck { origin: trip.origin, timer }),
                        ..self
                    }
                }
            },
            None => self,
        }
    }
}

/// Whether a truck at `position` is no further from `origin` along any axis
/// than it can have driven in `elapsed` nanoseconds.
fn is_within_reach(position: Vec3, origin: Vec3, elapsed: u128) -> (b: bool)
    ensures
        b == within_reach(position, origin, elapsed as nat),
{
    let reach: u128 = elapsed / TRUCK_NANOS_PER_THOUSANDTH;
    if reach > 0x1_0000_0000 {
        true
    } else {
        let reach = reach as i64;
        let x = position.x as i64 - origin.x as i64;
        let y = position.y as i64 - origin.y as i64;
        let z = position.z as i64 - origin.z as i64;
        -reach <= x && x <= reach && -reach <= y && y <= reach && -reach <= z && z <= reach
    }
}

/// The way along one axis that a truck with the heading component `heading`
/// drives in `delta` nanoseconds.
fn way(heading: i32, delta: u128) -> (w: i32)
    requires
        -1000 <= heading <= 1000,
        delta <= TRUCK_TRIP_LIMIT,
    ensures
        w == truck_way(heading, delta as nat),
        -truck_reach(delta as nat) <= w <= truck_reach(delta as nat),
{
    let mag = magnitude(heading as i64);
    let speed: u128 = config::TRUCK_SPEED as u128;
    assert(speed * delta == 10_000 * delta) by (nonlinear_arith)
        requires
            speed == 10_000,
    ;
    let num: u128 = speed * delta;
    proof {
        assert(0 <= mag * num <= 1000 * num) by (nonlinear_arith)
            requires
                0 <= mag <= 1000,
                0 <= num,
        ;
    }
    let q: u128 = mag * num / TRUCK_WAY_DIVISOR;
    signed(q, heading as i64)
}

/// The trucks after `delta` more nanoseconds, each moved on its own.
pub open spec fn trucks_moved(trucks: Seq<Truck>, delta: nat) -> Seq<Truck> {
    Seq::new(trucks.len(), |k: int| trucks[k].spec_moved(delta))
}

/// Whether each of the trucks is valid.
pub open spec fn trucks_wf(trucks: Seq<Truck>) -> bool {
    forall|k: int| 0 <= k < trucks.len() ==> (#[trigger] trucks[k]).wf()
}

/// Whether each of the trucks is valid.
pub fn are_trucks_wf(trucks: &Vec<Truck>) -> (b: bool)
    ensures
        b == trucks_wf(trucks@),
{
    let mut i: usize = 0;
    while i < trucks.len()
        invariant
            i <= trucks.len(),
            forall|k: int| 0 <= k < i ==> (#[trigger] trucks@[k]).wf(),
        decreases trucks.len() - i,
    {
        if !trucks[i].is_wf() {
            return false;
        }
        i = i + 1;
    }
    true
}

/// Advances the trips of the trucks by `delta` nanoseconds: a truck whose
/// time is up is back where it left, the others drive on.
pub fn move_truck(trucks: &mut Vec<Truck>, delta: u128)
    requires
        trucks_wf(old(trucks)@),
    ensures
        final(trucks)@ == trucks_moved(old(trucks)@, delta as nat),
        trucks_wf(final(trucks)@),
{
    let mut i: usize = 0;
    while i < trucks.len()
        invariant
            i <= trucks.len(),
            trucks.len() == old(trucks).len(),
            trucks_wf(trucks@),
            forall|k: int|
                0 <= k < i ==> #[trigger] trucks@[k] == trucks_moved(old(trucks)@, delta as nat)[k],
            forall|k: int| i <= k < trucks.len() ==> #[trigger] trucks@[k] == old(trucks)@[k],
        decreases trucks.len() - i,
    {
        let truck = trucks[i];
        assert(trucks@[i as int].wf());
        trucks.set(i, truck.moved(delta));
        i = i + 1;
    }
    assert(trucks@ =~= trucks_moved(old(trucks)@, delta as nat));
}

impl AgentServiceCode {
    /// The side of the play area on which the carrier's delivery zone lies,
    /// as a step of one along x or z, with one for the height.
    pub open spec fn spec_side(&self) -> Vec3 {
        match self {
            AgentServiceCode::PostNord => Vec3 { x: 0, y: 1, z: -1i32 },
            AgentServiceCode::DHL => Vec3 { x: 1, y: 1, z: 0 },
            AgentServiceCode::Bring => Vec3 { x: 0, y: 1, z: 1 },
            AgentServiceCode::Budbee => Vec3 { x: -1i32, y: 1, z: 0 },
        }
    }

    /// The side of the play area on which the carrier's delivery zone lies.
    #[verifier::when_used_as_spec(spec_side)]
    pub fn side(&self) -> (side: Vec3)
        ensures
            side == self.spec_side(),
    {
        match self {
            AgentServiceCode::PostNord => Vec3 { x: 0, y: 1, z: -1 },
            AgentServiceCode::DHL => Vec3 { x: 1, y: 1, z: 0 },
            AgentServiceCode::Bring => Vec3 { x: 0, y: 1, z: 1 },
            AgentServiceCode::Budbee => Vec3 { x: -1, y: 1, z: 0 },
        }
    }

    /// The direction in which the carrier's truck drives off.
    pub open spec fn spec_truck_heading(&self) -> Vec3 {
        match self {
            AgentServiceCode::PostNord => Vec3 { x: 1000, y: 0, z: 0 },
            AgentServiceCode::DHL => Vec3 { x: 0, y: 0, z: 1000 },
            AgentServiceCode::Bring => Vec3 { x: -1000i32, y: 0, z: 0 },
            AgentServiceCode::Budbee => Vec3 { x: -174i32, y: 0, z: -985i32 },
        }
    }

    /// The direction in which the carrier's truck drives off.
    #[verifier::when_used_as_spec(spec_truck_heading)]
    pub fn truck_heading(&self) -> (heading: Vec3)
        ensures
            heading == self.spec_truck_heading(),
    {
        match self {
            AgentServiceCode::PostNord => Vec3 { x: 1000, y: 0, z: 0 },
            AgentServiceCode::DHL => Vec3 { x: 0, y: 0, z: 1000 },
            AgentServiceCode::Bring => Vec3 { x: -1000, y: 0, z: 0 },
            AgentServiceCode::Budbee => Vec3 { x: -174, y: 0, z: -985 },
        }
    }

    /// The middle of the carrier's delivery zone: one play area away from the
    /// middle of the play area, half a unit down.
    pub open spec fn spec_zone_center(&self) -> Vec3 {
        Vec3 {
            x: (self.spec_side().x * config::GROUND_SIZE) as i32,
            y: (self.spec_side().y * -500) as i32,
            z: (self.spec_side().z * config::GROUND_SIZE) as i32,
        }
    }

    /// The middle of the carrier's delivery zone.
    #[verifier::when_used_as_spec(spec_zone_center)]
    pub fn zone_center(&self) -> (center: Vec3)
        ensures
            center == self.spec_zone_center(),
    {
        let side = self.side();
        Vec3 { x: side.x * config::GROUND_SIZE, y: side.y * -500, z: side.z * config::GROUND_SIZE }
    }

    /// Where the carrier's truck waits: `TRUCK_PADDING` behind the middle of
    /// the zone, five units up.
    pub open spec fn spec_truck_station(&self) -> Vec3 {
        Vec3 {
            x: (self.spec_side().x * (config::GROUND_SIZE + config::TRUCK_PADDING)) as i32,
            y: (self.spec_side().y * 5000) as i32,
            z: (self.spec_side().z * (config::GROUND_SIZE + config::TRUCK_PADDING)) as i32,
        }
    }

    /// Where the carrier's truck waits.
    #[verifier::when_used_as_spec(spec_truck_station)]
    pub fn truck_station(&self) -> (station: Vec3)
        ensures
            station == self.spec_truck_station(),
    {
        let side = self.side();
        Vec3 {
            x: side.x * (config::GROUND_SIZE + config::TRUCK_PADDING),
            y: side.y * 5000,
            z: side.z * (config::GROUND_SIZE + config::TRUCK_PADDING),
        }
    }
}

/// The delivery zone of `agent` under the identity `area`, served by the
/// truck `truck`, at the start of a session.
pub open spec fn new_area(agent: AgentServiceCode, area: Entity, truck: Entity) -> ShippingArea {
    ShippingArea { id: area, agent, score: 0, received_parcels: 0, truck }
}

/// The truck of `agent` under the identity `truck`, waiting at its station.
pub open spec fn new_truck(agent: AgentServiceCode, truck: Entity) -> Truck {
    Truck {
        id: truck,
        position: agent.truck_station(),
        heading: agent.truck_heading(),
        move_truck: None,
    }
}

/// The delivery zones of a new session: one for each carrier, in the order
/// PostNord, DHL, Bring, Budbee, under the identities `area_ids` and served
/// by the trucks `truck_ids`, both in that order.
pub open spec fn ground_areas(area_ids: [Entity; 4], truck_ids: [Entity; 4]) -> Seq<ShippingArea> {
    seq![
        new_area(AgentServiceCode::PostNord, area_ids[0], truck_ids[0]),
        new_area(AgentServiceCode::DHL, area_ids[1], truck_ids[1]),
        new_area(AgentServiceCode::Bring, area_ids[2], truck_ids[2]),
        new_area(AgentServiceCode::Budbee, area_ids[3], truck_ids[3]),
    ]
}

/// The trucks of a new session: one for each carrier, in the order PostNord,
/// DHL, Bring, Budbee, under the identities `truck_ids` in that order, each
/// waiting at its station.
pub open spec fn ground_trucks(truck_ids: [Entity; 4]) -> Seq<Truck> {
    seq![
        new_truck(AgentServiceCode::PostNord, truck_ids[0]),
        new_truck(AgentServiceCode::DHL, truck_ids[1]),
        new_truck(AgentServiceCode::Bring, truck_ids[2]),
        new_truck(AgentServiceCode::Budbee, truck_ids[3]),
    ]
}

/// The delivery zones and trucks of a new session: one zone and one truck
/// for each carrier, in the order PostNord, DHL, Bring, Budbee, under the
/// identities given in that order.
pub fn setup_ground(area_ids: [Entity; 4], truck_ids: [Entity; 4]) -> (ground: (
    Vec<ShippingArea>,
    Vec<Truck>,
))
    ensures
        ground.0@ == ground_areas(area_ids, truck_ids),
        ground.1@ == ground_trucks(truck_ids),
        trucks_wf(ground.1@),
{
    let mut areas: Vec<ShippingArea> = Vec::new();
    let mut trucks: Vec<Truck> = Vec::new();
    let mut i: usize = 0;
    while i < 4
        invariant
            i <= 4,
            areas.len() == i,
            trucks.len() == i,
            trucks_wf(trucks@),
            forall|k: int|
                0 <= k < i ==> #[trigger] areas@[k] == new_area(
                    AgentServiceCode::spec_from_index(k as nat),
                    area_ids[k],
                    truck_ids[k],
                ),
            forall|k: int|
                0 <= k < i ==> #[trigger] trucks@[k] == new_truck(
                    AgentServiceCode::spec_from_index(k as nat),
                    truck_ids[k],
                ),
        decreases 4 - i,
    {
        let agent = AgentServiceCode::from_index(i as u8);
        areas.push(
            ShippingArea {
                id: area_ids[i],
                agent,
                score: 0,
                received_parcels: 0,
                truck: truck_ids[i],
            },
        );
        trucks.push(
            Truck {
                id: truck_ids[i],
                position: agent.truck_station(),
                heading: agent.truck_heading(),
                move_truck: None,
            },
        );
        i = i + 1;
    }
    assert(areas@ =~= ground_areas(area_ids, truck_ids));
    assert(trucks@ =~= ground_trucks(truck_ids));
    (areas, trucks)
}

} // verus!
