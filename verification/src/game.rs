//! One tick of the game: its steps in their fixed order.
//!
//! Between two ticks physics moves the parcels and the player and reports
//! which entities started to touch. A tick then finds the aim point, moves the
//! player, finds the closest parcel, turns input into stack requests and meets
//! them, lets parcels fall out of the world and expire, scores the reported
//! collisions, drives the trucks, advances the clock and lets the spawner
//! decide about the next parcel.

use vstd::prelude::*;
use crate::config;
use crate::entity::Entity;
use crate::math::Vec3;
use crate::parcels::after_fall;
use crate::parcels::are_parcels_wf;
use crate::parcels::despawn_events;
use crate::parcels::despawn_out_of_bounds;
use crate::parcels::despawn_ticked;
use crate::parcels::despawn_with_timer;
use crate::parcels::fallen;
use crate::parcels::parcels_wf;
use crate::parcels::setup_parcel_spawner;
use crate::parcels::spawn_parcels;
use crate::parcels::Parcel;
use crate::parcels::ParcelSpawn;
use crate::parcels::ParcelSpawner;
use crate::player::closest_index;
use crate::player::is_despawning;
use crate::player::maintain_parcel_stack;
use crate::player::outlined;
use crate::player::parcel_awarness;
use crate::player::parcel_stack_events;
use crate::player::pickup_parcel;
use crate::player::player_movement;
use crate::player::pop_parcel;
use crate::player::remove_despawning;
use crate::player::remove_outline_from_picked;
use crate::player::spec_mouse_hover_pos;
use crate::player::spec_player_velocity;
use crate::player::stack_wf;
use crate::player::update_mouse_hover_pos;
use crate::player::without_picked_outlines;
use crate::player::AddParcelToStack;
use crate::player::ClosestParcel;
use crate::player::MousePosition;
use crate::player::MoveKeys;
use crate::player::ParcelStack;
use crate::player::ParcelStackEntry;
use crate::player::Player;
use crate::player::PlayerGfx;
use crate::player::PopParcelFromStack;
use crate::player::StackState;
use crate::session::check_game_over;
use crate::session::TimeRemaining;
use crate::timer::Timer;
use crate::timer::TimerMode;
use crate::warehouse::are_trucks_wf;
use crate::warehouse::areas_have_room;
use crate::warehouse::collect_parcels;
use crate::warehouse::ground_areas;
use crate::warehouse::ground_trucks;
use crate::warehouse::have_room;
use crate::warehouse::move_truck;
use crate::warehouse::score_sum;
use crate::warehouse::setup_ground;
use crate::warehouse::trucks_moved;
use crate::warehouse::trucks_wf;
use crate::warehouse::update_score;
use crate::warehouse::Collision;
use crate::warehouse::Delivery;
use crate::warehouse::Score;
use crate::warehouse::ScoreEvent;
use crate::warehouse::ShippingArea;
use crate::warehouse::Truck;

verus! {

/// Everything that the rules of the game read and change.
#[derive(Debug)]
pub struct World {
    pub spawner: ParcelSpawner,
    pub time_remaining: TimeRemaining,
    pub player: Player,
    pub player_gfx: PlayerGfx,
    pub stack: ParcelStack,
    pub closest_parcel: ClosestParcel,
    pub mouse_pos: MousePosition,
    pub parcels: Vec<Parcel>,
    pub shipping_areas: Vec<ShippingArea>,
    pub trucks: Vec<Truck>,
    pub score: Score,
}

/// What a tick is given: the time since the last tick, the state of the
/// input devices, and the collisions that physics reported.
#[derive(Debug)]
pub struct TickInput {
    /// Time since the last tick, in nanoseconds.
    pub delta: u128,
    /// The keys that move the player.
    pub keys: MoveKeys,
    /// Whether the pickup key was just pressed.
    pub pickup: bool,
    /// Whether the throw button was just pressed.
    pub throw: bool,
    /// The ray from the camera through the pointer, by its start and its
    /// direction, if there is one.
    pub ray: Option<(Vec3, Vec3)>,
    /// The pairs of entities that started to touch.
    pub collisions: Vec<Collision>,
}

/// What a tick hands back for the engine to act on.
#[derive(Debug)]
pub struct TickOutcome {
    /// Whether the session ended with this tick.
    pub game_over: bool,
    /// The velocity that the player is to have.
    pub player_velocity: Vec3,
    /// The parcels that fell out of the world and were destroyed.
    pub fallen: Vec<Entity>,
    /// The removals from the stack made for parcels whose time was up; these
    /// parcels were destroyed.
    pub expired: Vec<PopParcelFromStack>,
    /// The score changes of this tick, which the score has taken up.
    pub score_events: Vec<ScoreEvent>,
    /// The parcel that is to appear, if one is due.
    pub spawned: Option<ParcelSpawn>,
}

/// The mathematical state of a [`World`].
pub struct WorldState {
    pub spawner: ParcelSpawner,
    pub time_remaining: TimeRemaining,
    pub player: Player,
    pub player_gfx: PlayerGfx,
    pub entries: Seq<ParcelStackEntry>,
    pub closest: Option<Entity>,
    pub mouse: Option<Vec3>,
    pub parcels: Seq<Parcel>,
    pub areas: Seq<ShippingArea>,
    pub trucks: Seq<Truck>,
    pub score: Score,
}

impl View for World {
    type V = WorldState;

    open spec fn view(&self) -> WorldState {
        WorldState {
            spawner: self.spawner,
            time_remaining: self.time_remaining,
            player: self.player,
            player_gfx: self.player_gfx,
            entries: self.stack@,
            closest: self.closest_parcel.0,
            mouse: self.mouse_pos.0,
            parcels: self.parcels@,
            areas: self.shipping_areas@,
            trucks: self.trucks@,
            score: self.score,
        }
    }
}

impl WorldState {
    /// Validity: the parts are valid and the player stands within the world.
    pub open spec fn wf(self) -> bool {
        &&& self.spawner.wf()
        &&& self.time_remaining.timer.wf()
        &&& self.player.position.in_world()
        &&& stack_wf(self.entries)
        &&& parcels_wf(self.parcels)
        &&& trucks_wf(self.trucks)
    }

    /// Whether the counters can take a tick of `delta` nanoseconds with
    /// `collisions` collisions without leaving the range of the machine's
    /// numbers: the spawner can count one more parcel if one is due, and the
    /// score and the zones can count as many deliveries as there are
    /// collisions.
    pub open spec fn has_room(self, delta: nat, collisions: nat) -> bool {
        &&& self.spawner.spawn_due(delta) ==> self.spawner.count < u64::MAX
        &&& areas_have_room(self.areas, collisions as int)
        &&& i32::MIN <= self.score.score - collisions
        &&& self.score.score + collisions <= i32::MAX
    }

    /// The state at the start of a session: the player at the origin with an
    /// empty stack, no parcels, a zone and a truck for each carrier under the
    /// given identities, no score, and the full time to go. Parcels will be
    /// grouped under `parent`.
    pub open spec fn start(
        parent: Entity,
        area_ids: [Entity; 4],
        truck_ids: [Entity; 4],
    ) -> WorldState {
        WorldState {
            spawner: ParcelSpawner {
                timer: Timer::fresh(
                    config::PARCEL_SPAWN_RATE as nat * 1_000_000,
                    TimerMode::Repeating,
                ),
                parent,
                count: 0,
            },
            time_remaining: TimeRemaining {
                timer: Timer::fresh(config::GAME_TIME as nat * 1_000_000_000, TimerMode::Once),
            },
            player: Player { position: Vec3::zero() },
            player_gfx: PlayerGfx { turned: false },
            entries: Seq::empty(),
            closest: None,
            mouse: None,
            parcels: Seq::empty(),
            areas: ground_areas(area_ids, truck_ids),
            trucks: ground_trucks(truck_ids),
            score: Score { score: 0 },
        }
    }

    /// The state once the pointer ray was followed to the ground.
    pub open spec fn aimed(self, ray: Option<(Vec3, Vec3)>) -> WorldState {
        WorldState { mouse: spec_mouse_hover_pos(ray), ..self }
    }

    /// The velocity that the keys give the player.
    pub open spec fn player_velocity(self, keys: MoveKeys) -> Vec3 {
        spec_player_velocity(keys, self.player.position)
    }

    /// The state once the player's picture was turned the way the player
    /// walks.
    pub open spec fn turned(self, keys: MoveKeys) -> WorldState {
        let velocity = self.player_velocity(keys);
        WorldState {
            player_gfx: PlayerGfx {
                turned: if velocity.x > 0 {
                    true
                } else if velocity.x < 0 {
                    false
                } else {
                    self.player_gfx.turned
                },
            },
            ..self
        }
    }

    /// The state once the player looked around for the closest parcel.
    pub open spec fn looked_around(self) -> WorldState {
        let chosen = closest_index(self.parcels, self.player.position);
        WorldState {
            closest: match chosen {
                Some(i) => Some(self.parcels[i].id),
                None => None,
            },
            parcels: outlined(self.parcels, self.closest, chosen),
            ..self
        }
    }

    /// The request that the pickup key makes.
    pub open spec fn pickup_request(self, pressed: bool) -> Seq<AddParcelToStack> {
        match self.closest {
            Some(parcel) if pressed && self.entries.len() < config::PARCEL_STACK_CAPACITY => seq![
                AddParcelToStack { parcel },
            ],
            _ => Seq::empty(),
        }
    }

    /// The request that the throw button makes.
    pub open spec fn throw_request(self, pressed: bool) -> Seq<PopParcelFromStack> {
        if pressed && self.entries.len() > 0 {
            seq![PopParcelFromStack { parcel_entry: self.entries.last().id, despawning: false }]
        } else {
            Seq::empty()
        }
    }

    /// The state once the input was turned into stack requests and these were
    /// met: the request to pick up first, then the request to throw. A parcel
    /// that is asked for stops being the closest parcel, and carried and
    /// delivered parcels lose their outlines.
    pub open spec fn handled(self, pickup: bool, throw: bool) -> WorldState {
        let adds = self.pickup_request(pickup);
        let pops = self.throw_request(throw);
        let stack = (StackState { entries: self.entries, parcels: self.parcels }).add_all(
            adds,
        ).pop_all(pops, self.mouse, self.player.stack_anchor());
        WorldState {
            closest: if adds.len() > 0 {
                None
            } else {
                self.closest
            },
            entries: stack.entries,
            parcels: without_picked_outlines(stack.parcels),
            ..self
        }
    }

    /// The state once the parcels that fell out of the world were dealt with.
    pub open spec fn fell(self) -> WorldState {
        WorldState { parcels: after_fall(self.parcels), ..self }
    }

    /// The state once the removal timers advanced by `delta` nanoseconds:
    /// the parcels whose time was up are gone, from the stack too, and none of
    /// them is the closest parcel.
    pub open spec fn aged(self, delta: nat) -> WorldState {
        let events = despawn_events(self.parcels, delta);
        WorldState {
            parcels: despawn_ticked(self.parcels, delta),
            entries: remove_despawning(self.entries, events),
            closest: match self.closest {
                Some(parcel) if !is_despawning(events, parcel) => Some(parcel),
                _ => None,
            },
            ..self
        }
    }

    /// The deliveries that the collisions `collisions` make.
    pub open spec fn deliveries(self, collisions: Seq<Collision>) -> Delivery {
        (Delivery {
            parcels: self.parcels,
            areas: self.areas,
            trucks: self.trucks,
            closest: self.closest,
            events: Seq::empty(),
        }).collide_all(collisions)
    }

    /// The state once the collisions were scored and the score took up the
    /// changes.
    pub open spec fn scored(self, collisions: Seq<Collision>) -> WorldState {
        let delivery = self.deliveries(collisions);
        WorldState {
            parcels: delivery.parcels,
            areas: delivery.areas,
            trucks: delivery.trucks,
            closest: delivery.closest,
            score: Score { score: (self.score.score + score_sum(delivery.events)) as i32 },
            ..self
        }
    }

    /// The state once the trucks drove for `delta` nanoseconds.
    pub open spec fn driven(self, delta: nat) -> WorldState {
        WorldState { trucks: trucks_moved(self.trucks, delta), ..self }
    }

    /// The state once the clock and the spawner advanced by `delta`
    /// nanoseconds.
    pub open spec fn clocked(self, delta: nat) -> WorldState {
        WorldState {
            time_remaining: TimeRemaining { timer: self.time_remaining.timer.ticked(delta) },
            spawner: ParcelSpawner {
                timer: Timer::of(self.spawner.next_timer(delta)),
                count: self.spawner.next_count(delta) as u64,
                ..self.spawner
            },
            ..self
        }
    }

    /// The state before the parcels fall and expire in a tick with the given
    /// input.
    pub open spec fn before_fall(
        self,
        ray: Option<(Vec3, Vec3)>,
        keys: MoveKeys,
        pickup: bool,
        throw: bool,
    ) -> WorldState {
        self.aimed(ray).turned(keys).looked_around().handled(pickup, throw)
    }

    /// The state after a tick with the given input.
    pub open spec fn tick(
        self,
        delta: nat,
        ray: Option<(Vec3, Vec3)>,
        keys: MoveKeys,
        pickup: bool,
        throw: bool,
        collisions: Seq<Collision>,
    ) -> WorldState {
        self.before_fall(ray, keys, pickup, throw).fell().aged(delta).scored(collisions).driven(
            delta,
        ).clocked(delta)
    }
}

/// The score changes of a run of collisions add up to no more than the
/// number of the collisions, either way.
pub proof fn lemma_deliveries_score(state: Delivery, collisions: Seq<Collision>)
    ensures
        score_sum(state.events) - collisions.len() <= score_sum(
            state.collide_all(collisions).events,
        ) <= score_sum(state.events) + collisions.len(),
    decreases collisions.len(),
{
    if collisions.len() > 0 {
        lemma_deliveries_score(state, collisions.drop_last());
        let before = state.collide_all(collisions.drop_last());
        let after = before.collide(collisions.last().0, collisions.last().1);
        if after.events != before.events {
            assert(after.events.drop_last() == before.events);
        }
    }
}

impl World {
    /// Validity: the parts are valid and the player stands within the world.
    pub open spec fn wf(&self) -> bool {
        self@.wf()
    }

    /// Whether the world is valid.
    pub fn is_wf(&self) -> (b: bool)
        ensures
            b == self.wf(),
    {
        let _ = self.stack.len();
        self.spawner.is_wf() && self.time_remaining.timer.is_wf()
            && self.player.position.is_in_world() && are_parcels_wf(&self.parcels)
            && are_trucks_wf(&self.trucks)
    }

    /// Whether the counters can take a tick with the input `input` without
    /// leaving the range of the machine's numbers.
    pub fn has_room(&self, input: &TickInput) -> (b: bool)
        requires
            self.wf(),
        ensures
            b == self@.has_room(input.delta as nat, input.collisions@.len()),
    {
        let collisions = input.collisions.len();
        let score = self.score.score as i128;
        let due = self.spawner.timer.completes_after(input.delta);
        (!due || self.spawner.count < u64::MAX) && have_room(&self.shipping_areas, collisions)
            && score - (collisions as i128) >= i32::MIN as i128 && score + (collisions as i128)
            <= i32::MAX as i128
    }

    /// The world at the start of a session.
    pub fn new(parent: Entity, area_ids: [Entity; 4], truck_ids: [Entity; 4]) -> (world: World)
        ensures
            world.wf(),
            forall|delta: nat| world@.has_room(delta, 0),
            world@ == WorldState::start(parent, area_ids, truck_ids),
    {
        let (shipping_areas, trucks) = setup_ground(area_ids, truck_ids);
        World {
            spawner: setup_parcel_spawner(parent),
            time_remaining: TimeRemaining::new(),
            player: Player { position: Vec3 { x: 0, y: 0, z: 0 } },
            player_gfx: PlayerGfx { turned: false },
            stack: ParcelStack::new(),
            closest_parcel: ClosestParcel(None),
            mouse_pos: MousePosition(None),
            parcels: Vec::new(),
            shipping_areas,
            trucks,
            score: Score { score: 0 },
        }
    }
}

/// Runs one tick: the steps of the game in their fixed order. The aim point
/// is found and the player moved; the closest parcel is found; the pickup key
/// and the throw button make their requests to the stack, which are met, the
/// request to pick up first; parcels that fell out of the world or whose time
/// is up are destroyed, the latter leaving the stack at once; the collisions
/// are scored and the score takes up the changes; the trucks drive; the clock
/// and the spawner advance.
pub fn tick(world: &mut World, input: &TickInput) -> (outcome: TickOutcome)
    requires
        old(world).wf(),
        old(world)@.has_room(input.delta as nat, input.collisions@.len()),
    ensures
        final(world).wf(),
        final(world)@ == old(world)@.tick(
            input.delta as nat,
            input.ray,
            input.keys,
            input.pickup,
            input.throw,
            input.collisions@,
        ),
        outcome.game_over == old(world).time_remaining.timer@.tick(
            input.delta as nat,
        ).just_finished,
        outcome.player_velocity == old(world)@.player_velocity(input.keys),
        outcome.fallen@ == fallen(
            old(world)@.before_fall(input.ray, input.keys, input.pickup, input.throw).parcels,
        ),
        outcome.expired@ == despawn_events(
            old(world)@.before_fall(
                input.ray,
                input.keys,
                input.pickup,
                input.throw,
            ).fell().parcels,
            input.delta as nat,
        ),
        outcome.score_events@ == old(world)@.before_fall(
            input.ray,
            input.keys,
            input.pickup,
            input.throw,
        ).fell().aged(input.delta as nat).deliveries(input.collisions@).events,
        outcome.spawned is Some <==> old(world).spawner.spawn_due(input.delta as nat),
        outcome.spawned matches Some(spawn) ==> spawn.in_bounds(),
{
    let ghost start = world@;
    let mouse_pos = update_mouse_hover_pos(input.ray);
    world.mouse_pos = mouse_pos;
    let player_velocity = player_movement(&input.keys, &world.player, &mut world.player_gfx);
    assert(world@ == start.aimed(input.ray).turned(input.keys));

    parcel_awarness(&world.player, &mut world.closest_parcel, &mut world.parcels);
    assert(world@ == start.aimed(input.ray).turned(input.keys).looked_around());
    let ghost looked = world@;

    let mut adds: Vec<AddParcelToStack> = Vec::new();
    match pickup_parcel(&mut world.closest_parcel, input.pickup, &world.stack) {
        Some(event) => {
            adds.push(event);
        },
        None => {},
    }
    let mut pops: Vec<PopParcelFromStack> = Vec::new();
    match pop_parcel(input.throw, &world.stack) {
        Some(event) => {
            pops.push(event);
        },
        None => {},
    }
    assert(adds@ =~= looked.pickup_request(input.pickup));
    assert(pops@ =~= looked.throw_request(input.throw));
    parcel_stack_events(
        &mut world.stack,
        &mut world.parcels,
        &adds,
        &pops,
        &world.mouse_pos,
        &world.player,
    );
    maintain_parcel_stack(&mut world.stack);
    remove_outline_from_picked(&mut world.parcels);
    assert(world@ == looked.handled(input.pickup, input.throw));
    let ghost handled = world@;

    let fallen = despawn_out_of_bounds(&mut world.parcels);
    assert(world@ == handled.fell());
    let expired = despawn_with_timer(
        &mut world.parcels,
        &mut world.stack,
        &mut world.closest_parcel,
        input.delta,
    );
    assert(world@ == handled.fell().aged(input.delta as nat));
    let ghost aged = world@;

    let mut score_events: Vec<ScoreEvent> = Vec::new();
    collect_parcels(
        &input.collisions,
        &mut score_events,
        &mut world.closest_parcel,
        &mut world.parcels,
        &mut world.trucks,
        &mut world.shipping_areas,
    );
    proof {
        lemma_deliveries_score(
            Delivery {
                parcels: aged.parcels,
                areas: aged.areas,
                trucks: aged.trucks,
                closest: aged.closest,
                events: Seq::empty(),
            },
            input.collisions@,
        );
    }
    update_score(&mut world.score, &score_events);
    assert(world@ == aged.scored(input.collisions@));

    move_truck(&mut world.trucks, input.delta);
    let game_over = check_game_over(&mut world.time_remaining, input.delta);
    let spawned = spawn_parcels(&mut world.spawner, input.delta);
    assert(world@ == aged.scored(input.collisions@).driven(input.delta as nat).clocked(
        input.delta as nat,
    ));
    TickOutcome { game_over, player_velocity, fallen, expired, score_events, spawned }
}

} // verus!
