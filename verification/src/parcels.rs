//! Parcels: how they appear, and how they leave the world again.

use vstd::prelude::*;
use crate::entity::Entity;
use crate::entity::Identified;
use crate::config;
use crate::math::Vec3;
use crate::player::is_despawning;
use crate::player::pop_despawning_parcels_from_pick;
use crate::player::remove_despawning;
use crate::player::stack_wf;
use crate::player::ClosestParcel;
use crate::player::ParcelStack;
use crate::player::PopParcelFromStack;
use crate::timer::Timer;
use crate::timer::TimerMode;
use crate::timer::TimerState;
use crate::timer::NANOS_PER_MILLI;
use crate::warehouse::AgentServiceCode;

verus! {

/// Marks an entity for removal once its timer completes.
#[derive(Clone, Copy, Debug)]
pub struct Despawn {
    pub timer: Timer,
}

impl Despawn {
    /// A removal `sec` seconds from now.
    pub fn from_secs(sec: u64) -> (d: Self)
        ensures
            d.timer.wf(),
            d.timer == Timer::fresh(sec as nat * 1_000_000_000, TimerMode::Once),
    {
        Self { timer: Timer::from_secs(sec, TimerMode::Once) }
    }

    /// A removal `milli` milliseconds from now.
    pub fn from_millis(milli: u64) -> (d: Self)
        ensures
            d.timer.wf(),
            d.timer == Timer::fresh(milli as nat * 1_000_000, TimerMode::Once),
    {
        Self { timer: Timer::from_millis(milli, TimerMode::Once) }
    }
}

/// Where a parcel is relative to the player's stack.
#[derive(Clone, Copy, Debug, PartialEq, Eq, Structural)]
pub enum ParcelPhase {
    /// Moved by physics and never carried so far.
    Free,
    /// Carried in a slot of the stack.
    Held,
    /// Thrown or dropped from the stack, and moved by physics again. Such a
    /// parcel can be picked up like a free one.
    Released,
}

/// A parcel of the game world.
#[derive(Clone, Copy, Debug)]
pub struct Parcel {
    pub id: Entity,
    /// The carrier whose zone the parcel belongs in.
    pub agent: AgentServiceCode,
    pub position: Vec3,
    pub velocity: Vec3,
    /// Spin, in thousandths of a radian per second about each axis.
    pub angular_velocity: Vec3,
    /// Whether the parcel is outlined as the one the player would pick up.
    pub highlighted: bool,
    pub phase: ParcelPhase,
    /// Whether the parcel still has a collision shape.
    pub collides: bool,
    /// Present once the parcel was delivered and is on its way out.
    pub despawn: Option<Despawn>,
}

impl Identified for Parcel {
    open spec fn ident(&self) -> Entity {
        self.id
    }

    fn id(&self) -> (id: Entity) {
        self.id
    }
}

impl Parcel {
    /// Validity: a removal timer, if there is one, is valid.
    pub open spec fn wf(&self) -> bool {
        self.despawn matches Some(d) ==> d.timer.wf()
    }

    /// Whether the parcel is valid.
    pub fn is_wf(&self) -> (b: bool)
        ensures
            b == self.wf(),
    {
        match self.despawn {
            Some(despawn) => despawn.timer.is_wf(),
            None => true,
        }
    }

    /// Whether the parcel can still be delivered.
    pub open spec fn spec_is_active(&self) -> bool {
        self.despawn is None
    }

    /// Whether the parcel can still be delivered.
    #[verifier::when_used_as_spec(spec_is_active)]
    pub fn is_active(&self) -> (b: bool)
        ensures
            b == self.spec_is_active(),
    {
        self.despawn.is_none()
    }

    /// Whether the player may pick the parcel up: it is not carried and was
    /// not delivered.
    pub open spec fn spec_is_eligible(&self) -> bool {
        self.phase != ParcelPhase::Held && self.despawn is None
    }

    /// Whether the player may pick the parcel up.
    #[verifier::when_used_as_spec(spec_is_eligible)]
    pub fn is_eligible(&self) -> (b: bool)
        ensures
            b == self.spec_is_eligible(),
    {
        self.phase != ParcelPhase::Held && self.despawn.is_none()
    }

    /// Whether the parcel was taken out of play: it is carried or was
    /// delivered.
    pub open spec fn spec_is_picked(&self) -> bool {
        self.phase == ParcelPhase::Held || self.despawn is Some
    }

    /// Whether the parcel was taken out of play.
    #[verifier::when_used_as_spec(spec_is_picked)]
    pub fn is_picked(&self) -> (b: bool)
        ensures
            b == self.spec_is_picked(),
    {
        self.phase == ParcelPhase::Held || self.despawn.is_some()
    }

    /// Whether the parcel reports overlaps without pushing anything: so it is
    /// while carried and once delivered.
    pub open spec fn spec_is_sensor(&self) -> bool {
        self.spec_is_picked()
    }

    /// Whether the parcel reports overlaps without pushing anything.
    #[verifier::when_used_as_spec(spec_is_sensor)]
    pub fn is_sensor(&self) -> (b: bool)
        ensures
            b == self.spec_is_sensor(),
    {
        self.is_picked()
    }

    /// Whether gravity pulls on the parcel: it does unless the parcel is
    /// carried.
    pub open spec fn spec_has_gravity(&self) -> bool {
        self.phase != ParcelPhase::Held
    }

    /// Whether gravity pulls on the parcel.
    #[verifier::when_used_as_spec(spec_has_gravity)]
    pub fn has_gravity(&self) -> (b: bool)
        ensures
            b == self.spec_has_gravity(),
    {
        self.phase != ParcelPhase::Held
    }

    /// The parcel once it sits in a slot of the stack: at rest at the slot's
    /// own origin, and not outlined.
    pub open spec fn spec_picked_up(self) -> Parcel {
        Parcel {
            position: Vec3::zero(),
            velocity: Vec3::zero(),
            angular_velocity: Vec3::zero(),
            highlighted: false,
            phase: ParcelPhase::Held,
            ..self
        }
    }

    /// The parcel once it sits in a slot of the stack.
    #[verifier::when_used_as_spec(spec_picked_up)]
    pub fn picked_up(self) -> (p: Parcel)
        ensures
            p == self.spec_picked_up(),
    {
        Parcel {
            position: Vec3 { x: 0, y: 0, z: 0 },
            velocity: Vec3 { x: 0, y: 0, z: 0 },
            angular_velocity: Vec3 { x: 0, y: 0, z: 0 },
            highlighted: false,
            phase: ParcelPhase::Held,
            ..self
        }
    }

    /// The parcel once it left its slot at `position` with `velocity`.
    pub open spec fn spec_released(self, position: Vec3, velocity: Vec3) -> Parcel {
        Parcel { position, velocity, phase: ParcelPhase::Released, ..self }
    }

    /// The parcel once it left its slot at `position` with `velocity`.
    #[verifier::when_used_as_spec(spec_released)]
    pub fn released(self, position: Vec3, velocity: Vec3) -> (p: Parcel)
        ensures
            p == self.spec_released(position, velocity),
    {
        Parcel { position, velocity, phase: ParcelPhase::Released, ..self }
    }

    /// The parcel without its outline. A parcel that has none stays as it is.
    pub open spec fn spec_unhighlighted(self) -> Parcel {
        Parcel { highlighted: false, ..self }
    }

    /// The parcel without its outline.
    #[verifier::when_used_as_spec(spec_unhighlighted)]
    pub fn unhighlighted(self) -> (p: Parcel)
        ensures
            p == self.spec_unhighlighted(),
    {
        Parcel { highlighted: false, ..self }
    }

    /// The parcel with its outline.
    pub open spec fn spec_highlighted(self) -> Parcel {
        Parcel { highlighted: true, ..self }
    }

    /// The parcel with its outline.
    #[verifier::when_used_as_spec(spec_highlighted)]
    pub fn highlighted(self) -> (p: Parcel)
        ensures
            p == self.spec_highlighted(),
    {
        Parcel { highlighted: true, ..self }
    }

    /// Taking the outline off a parcel that has none changes nothing, and
    /// taking it off twice is the same as taking it off once.
    pub proof fn lemma_unhighlighted_idempotent(self)
        ensures
            !self.highlighted ==> self.unhighlighted() == self,
            self.unhighlighted().unhighlighted() == self.unhighlighted(),
    {
    }

    /// The parcel with `despawn` as its removal timer, in place of the one it
    /// had if it had one.
    pub open spec fn spec_attach_despawn(self, despawn: Despawn) -> Parcel {
        Parcel { despawn: Some(despawn), ..self }
    }

    /// The parcel with `despawn` as its removal timer, in place of the one it
    /// had if it had one.
    #[verifier::when_used_as_spec(spec_attach_despawn)]
    pub fn attach_despawn(self, despawn: Despawn) -> (p: Parcel)
        ensures
            p == self.spec_attach_despawn(despawn),
    {
        Parcel { despawn: Some(despawn), ..self }
    }

    /// The parcel once a delivery zone took it: not outlined, and on its way
    /// out after `DELIVERY_DESPAWN_MILLIS`.
    pub open spec fn spec_delivered(self) -> Parcel {
        self.unhighlighted().attach_despawn(
            Despawn {
                timer: Timer::fresh(
                    config::DELIVERY_DESPAWN_MILLIS as nat * 1_000_000,
                    TimerMode::Once,
                ),
            },
        )
    }

    /// The parcel once a delivery zone took it.
    #[verifier::when_used_as_spec(spec_delivered)]
    pub fn delivered(self) -> (p: Parcel)
        ensures
            p == self.spec_delivered(),
            p.wf(),
    {
        self.unhighlighted().attach_despawn(Despawn::from_millis(config::DELIVERY_DESPAWN_MILLIS))
    }
}

/// What the spawner decided about a parcel that is about to appear.
#[derive(Clone, Copy, Debug, PartialEq, Eq, Structural)]
pub struct ParcelSpawn {
    pub agent: AgentServiceCode,
    pub position: Vec3,
    pub velocity: Vec3,
    pub angular_velocity: Vec3,
}

impl ParcelSpawn {
    /// The spawn point lies over the padded play area at spawn height, and
    /// the sideways speed is within its limits.
    pub open spec fn in_bounds(&self) -> bool {
        &&& spawn_point_in_bounds(self.position)
        &&& spawn_velocity_in_bounds(self.velocity)
        &&& self.angular_velocity == (Vec3 { x: config::PARCEL_SPAWN_ANGVEL_X, y: 0, z: 0 })
    }

    /// The parcel that appears under the identity `id`.
    pub open spec fn spec_parcel(&self, id: Entity) -> Parcel {
        Parcel {
            id,
            agent: self.agent,
            position: self.position,
            velocity: self.velocity,
            angular_velocity: self.angular_velocity,
            highlighted: false,
            phase: ParcelPhase::Free,
            collides: true,
            despawn: None,
        }
    }

    /// The parcel that appears under the identity `id`.
    pub fn parcel(&self, id: Entity) -> (p: Parcel)
        ensures
            p == self.spec_parcel(id),
    {
        Parcel {
            id,
            agent: self.agent,
            position: self.position,
            velocity: self.velocity,
            angular_velocity: self.angular_velocity,
            highlighted: false,
            phase: ParcelPhase::Free,
            collides: true,
            despawn: None,
        }
    }
}

/// Whether `p` is a place where parcels may appear.
pub open spec fn spawn_point_in_bounds(p: Vec3) -> bool {
    &&& -config::GROUND_SIZE / 2 + config::PARCEL_SPAWN_PADDING <= p.x <= config::GROUND_SIZE / 2
        - config::PARCEL_SPAWN_PADDING
    &&& p.y == config::PARCEL_SPAWN_Y
    &&& -config::GROUND_SIZE / 2 + config::PARCEL_SPAWN_PADDING <= p.z <= config::GROUND_SIZE / 2
        - config::PARCEL_SPAWN_PADDING
}

/// Whether `v` is a velocity that a fresh parcel may have.
pub open spec fn spawn_velocity_in_bounds(v: Vec3) -> bool {
    &&& config::PARCEL_MIN_LINVEL_X <= v.x <= config::PARCEL_MAX_LINVEL_X
    &&& v.y == 0
    &&& config::PARCEL_MIN_LINVEL_Z <= v.z <= config::PARCEL_MAX_LINVEL_Z
}

/// The spawn interval, in milliseconds, after `count` parcels have appeared:
/// every `PARCEL_LEVEL_UP` parcels shorten it by `PARCEL_LEVEL_UP_DECR`, up to
/// `PARCEL_LEVEL_UP_MIN` in total.
pub open spec fn spawn_interval(count: nat) -> nat {
    let steps = count / (config::PARCEL_LEVEL_UP as nat);
    let cut = steps * config::PARCEL_LEVEL_UP_DECR;
    if cut <= config::PARCEL_LEVEL_UP_MIN {
        (config::PARCEL_SPAWN_RATE - cut) as nat
    } else {
        (config::PARCEL_SPAWN_RATE - config::PARCEL_LEVEL_UP_MIN) as nat
    }
}

/// The shortest spawn interval, in milliseconds.
pub open spec fn spawn_interval_floor() -> nat {
    (config::PARCEL_SPAWN_RATE - config::PARCEL_LEVEL_UP_MIN) as nat
}

/// The spawn interval never grows as more parcels appear, and it stays
/// between its floor and the starting interval whatever the count.
pub proof fn lemma_spawn_interval_ramp(earlier: nat, later: nat)
    requires
        earlier <= later,
    ensures
        spawn_interval(later) <= spawn_interval(earlier),
        spawn_interval_floor() <= spawn_interval(later),
        spawn_interval(earlier) <= config::PARCEL_SPAWN_RATE,
        spawn_interval_floor() > 0,
{
}

/// The spawn interval, in milliseconds, after `count` parcels have appeared.
pub fn spawn_interval_millis(count: u64) -> (millis: u64)
    ensures
        millis == spawn_interval(count as nat),
{
    let steps: u64 = count / config::PARCEL_LEVEL_UP;
    if steps > config::PARCEL_LEVEL_UP_MIN / config::PARCEL_LEVEL_UP_DECR {
        config::PARCEL_SPAWN_RATE - config::PARCEL_LEVEL_UP_MIN
    } else {
        let cut: u64 = steps * config::PARCEL_LEVEL_UP_DECR;
        if cut <= config::PARCEL_LEVEL_UP_MIN {
            config::PARCEL_SPAWN_RATE - cut
        } else {
            config::PARCEL_SPAWN_RATE - config::PARCEL_LEVEL_UP_MIN
        }
    }
}

/// Decides when the next parcel appears.
#[derive(Clone, Copy, Debug)]
pub struct ParcelSpawner {
    /// Counts down to the next spawn, again and again.
    pub timer: Timer,
    /// The entity under which parcels are grouped.
    pub parent: Entity,
    /// Number of parcels that have appeared so far.
    pub count: u64,
}

impl ParcelSpawner {
    /// Validity: the timer repeats with the interval that belongs to the
    /// count.
    pub open spec fn wf(&self) -> bool {
        &&& self.timer.wf()
        &&& self.timer@.repeating
        &&& self.timer@.duration == spawn_interval(self.count as nat) * 1_000_000
    }

    /// Whether the spawner is valid.
    pub fn is_wf(&self) -> (b: bool)
        ensures
            b == self.wf(),
    {
        let repeating = match self.timer.mode() {
            TimerMode::Once => false,
            TimerMode::Repeating => true,
        };
        self.timer.is_wf() && repeating && self.timer.duration() == (spawn_interval_millis(
            self.count,
        ) as u128) * NANOS_PER_MILLI
    }

    /// Whether a parcel appears when `delta` more nanoseconds have passed.
    pub open spec fn spawn_due(&self, delta: nat) -> bool {
        self.timer@.tick(delta).just_finished
    }

    /// The timer after `delta` more nanoseconds, in which a parcel appeared
    /// if one was due: a spawn that completes a level starts a fresh, shorter
    /// countdown.
    pub open spec fn next_timer(&self, delta: nat) -> TimerState {
        if self.spawn_due(delta) && (self.count + 1) % (config::PARCEL_LEVEL_UP as int) == 0 {
            TimerState::fresh(spawn_interval((self.count + 1) as nat) * 1_000_000, true)
        } else {
            self.timer@.tick(delta)
        }
    }

    /// The count after `delta` more nanoseconds.
    pub open spec fn next_count(&self, delta: nat) -> int {
        if self.spawn_due(delta) {
            self.count + 1
        } else {
            self.count as int
        }
    }
}

/// The spawner of a new session, which groups its parcels under `parent`.
pub fn setup_parcel_spawner(parent: Entity) -> (spawner: ParcelSpawner)
    ensures
        spawner.wf(),
        spawner.parent == parent,
        spawner.count == 0,
        spawner.timer == Timer::fresh(
            config::PARCEL_SPAWN_RATE as nat * 1_000_000,
            TimerMode::Repeating,
        ),
{
    ParcelSpawner {
        timer: Timer::from_millis(config::PARCEL_SPAWN_RATE, TimerMode::Repeating),
        parent,
        count: 0,
    }
}

/// Draws a byte with `rand::random`, which takes it from the generator of the
/// calling thread and fails only where the system cannot seed that generator.
/// Nothing is claimed about the byte.
#[verifier::external_body]
fn random_u8() -> (draw: u8) {
    rand::random::<u8>()
}

/// Draws 32 bits with `rand::random`, which takes them from the generator of
/// the calling thread and fails only where the system cannot seed that
/// generator. Nothing is claimed about the bits.
#[verifier::external_body]
fn random_u32() -> (draw: u32) {
    rand::random::<u32>()
}

/// The place between `lo` and `hi`, both included, that the 32-bit `draw`
/// selects: the draws are shared among the places as evenly as they can be.
pub open spec fn scale_draw(lo: int, hi: int, draw: nat) -> int {
    lo + (draw * (hi - lo + 1)) / 0x1_0000_0000
}

/// A draw selects a place within the limits.
pub proof fn lemma_scale_draw_in_range(lo: int, hi: int, draw: nat)
    requires
        lo <= hi,
        draw < 0x1_0000_0000,
    ensures
        lo <= scale_draw(lo, hi, draw) <= hi,
{
    let span = hi - lo + 1;
    assert(0 <= draw * span < 0x1_0000_0000 * span) by (nonlinear_arith)
        requires
            0 <= draw < 0x1_0000_0000,
            span > 0,
    ;
    assert((draw * span) / 0x1_0000_0000 < span);
}

/// The place between `a` and `b`, both included and in either order, that
/// `draw` selects.
pub fn draw_between(a: i32, b: i32, draw: u32) -> (place: i32)
    ensures
        a <= b ==> place == scale_draw(a as int, b as int, draw as nat),
        b < a ==> place == scale_draw(b as int, a as int, draw as nat),
        a <= place <= b || b <= place <= a,
{
    let lo: i64 = if a <= b { a as i64 } else { b as i64 };
    let hi: i64 = if a <= b { b as i64 } else { a as i64 };
    let span: u64 = (hi - lo + 1) as u64;
    proof {
        lemma_scale_draw_in_range(lo as int, hi as int, draw as nat);
        assert(0 <= draw * span <= 0xFFFF_FFFF * 0x1_0000_0000) by (nonlinear_arith)
            requires
                0 <= draw <= 0xFFFF_FFFF,
                0 < span <= 0x1_0000_0000,
        ;
    }
    let offset: u64 = (draw as u64 * span) / 0x1_0000_0000;
    (lo + offset as i64) as i32
}

/// The point of the box spanned by `a` and `b` that three draws select, one
/// draw for each axis.
pub open spec fn spec_point_in_area(a: Vec3, b: Vec3, dx: u32, dy: u32, dz: u32) -> Vec3 {
    Vec3 {
        x: spec_draw_between(a.x, b.x, dx),
        y: spec_draw_between(a.y, b.y, dy),
        z: spec_draw_between(a.z, b.z, dz),
    }
}

/// The place between `a` and `b`, in either order, that `draw` selects.
pub open spec fn spec_draw_between(a: i32, b: i32, draw: u32) -> i32 {
    if a <= b {
        scale_draw(a as int, b as int, draw as nat) as i32
    } else {
        scale_draw(b as int, a as int, draw as nat) as i32
    }
}

/// Whether `p` lies in the box spanned by `a` and `b`, faces included.
pub open spec fn in_area(a: Vec3, b: Vec3, p: Vec3) -> bool {
    &&& a.x <= p.x <= b.x || b.x <= p.x <= a.x
    &&& a.y <= p.y <= b.y || b.y <= p.y <= a.y
    &&& a.z <= p.z <= b.z || b.z <= p.z <= a.z
}

/// The point of the box spanned by `a` and `b` that three draws select.
pub fn point_in_area(a: Vec3, b: Vec3, dx: u32, dy: u32, dz: u32) -> (p: Vec3)
    ensures
        p == spec_point_in_area(a, b, dx, dy, dz),
        in_area(a, b, p),
{
    Vec3 {
        x: draw_between(a.x, b.x, dx),
        y: draw_between(a.y, b.y, dy),
        z: draw_between(a.z, b.z, dz),
    }
}

/// A random point of the box spanned by `a` and `b`, faces included.
pub fn random_point_in_area(a: Vec3, b: Vec3) -> (p: Vec3)
    ensures
        in_area(a, b, p),
{
    let dx = random_u32();
    let dy = random_u32();
    let dz = random_u32();
    point_in_area(a, b, dx, dy, dz)
}

/// The spawn point that two draws select: over the play area, a padding away
/// from its edge, at spawn height.
pub open spec fn spec_parcel_spawn_point(dx: u32, dz: u32) -> Vec3 {
    let reach = config::GROUND_SIZE / 2 - config::PARCEL_SPAWN_PADDING;
    Vec3 {
        x: spec_draw_between((-reach) as i32, reach as i32, dx),
        y: config::PARCEL_SPAWN_Y,
        z: spec_draw_between((-reach) as i32, reach as i32, dz),
    }
}

/// The spawn point that two draws select.
pub fn parcel_spawn_point(dx: u32, dz: u32) -> (p: Vec3)
    ensures
        p == spec_parcel_spawn_point(dx, dz),
        spawn_point_in_bounds(p),
{
    let reach: i32 = config::GROUND_SIZE / 2 - config::PARCEL_SPAWN_PADDING;
    let point = point_in_area(
        Vec3 { x: -reach, y: 0, z: -reach },
        Vec3 { x: reach, y: 0, z: reach },
        dx,
        0,
        dz,
    );
    Vec3 { x: point.x, y: config::PARCEL_SPAWN_Y, z: point.z }
}

/// A random spawn point.
pub fn rand_parcel_spawn() -> (p: Vec3)
    ensures
        spawn_point_in_bounds(p),
{
    let dx = random_u32();
    let dz = random_u32();
    parcel_spawn_point(dx, dz)
}

/// The sideways speed along one axis that `draw` selects: a place between
/// rest and `max`, raised to `min` where it falls short.
pub open spec fn spec_linvel_component(min: i32, max: i32, draw: u32) -> i32 {
    let drawn = spec_draw_between(0, max, draw);
    if drawn < min {
        min
    } else {
        drawn
    }
}

/// The velocity of a fresh parcel that two draws select.
pub open spec fn spec_parcel_linvel(dx: u32, dz: u32) -> Vec3 {
    Vec3 {
        x: spec_linvel_component(config::PARCEL_MIN_LINVEL_X, config::PARCEL_MAX_LINVEL_X, dx),
        y: 0,
        z: spec_linvel_component(config::PARCEL_MIN_LINVEL_Z, config::PARCEL_MAX_LINVEL_Z, dz),
    }
}

/// The velocity of a fresh parcel that two draws select.
pub fn parcel_linvel(dx: u32, dz: u32) -> (v: Vec3)
    ensures
        v == spec_parcel_linvel(dx, dz),
        spawn_velocity_in_bounds(v),
{
    let x = draw_between(0, config::PARCEL_MAX_LINVEL_X, dx);
    let z = draw_between(0, config::PARCEL_MAX_LINVEL_Z, dz);
    Vec3 {
        x: if x < config::PARCEL_MIN_LINVEL_X { config::PARCEL_MIN_LINVEL_X } else { x },
        y: 0,
        z: if z < config::PARCEL_MIN_LINVEL_Z { config::PARCEL_MIN_LINVEL_Z } else { z },
    }
}

/// A random velocity for a fresh parcel.
pub fn rand_parcel_linvel() -> (v: Vec3)
    ensures
        spawn_velocity_in_bounds(v),
{
    let dx = random_u32();
    let dz = random_u32();
    parcel_linvel(dx, dz)
}

/// The parcel that the draws select: its carrier, where it appears and how it
/// moves.
pub open spec fn spec_parcel_from_draws(
    agent: u8,
    x: u32,
    z: u32,
    vx: u32,
    vz: u32,
) -> ParcelSpawn {
    ParcelSpawn {
        agent: AgentServiceCode::spec_from_index(agent as nat),
        position: spec_parcel_spawn_point(x, z),
        velocity: spec_parcel_linvel(vx, vz),
        angular_velocity: Vec3 { x: config::PARCEL_SPAWN_ANGVEL_X, y: 0, z: 0 },
    }
}

/// The parcel that the draws select.
pub fn parcel_from_draws(agent: u8, x: u32, z: u32, vx: u32, vz: u32) -> (spawn: ParcelSpawn)
    ensures
        spawn == spec_parcel_from_draws(agent, x, z, vx, vz),
        spawn.in_bounds(),
{
    ParcelSpawn {
        agent: AgentServiceCode::from_index(agent),
        position: parcel_spawn_point(x, z),
        velocity: parcel_linvel(vx, vz),
        angular_velocity: Vec3 { x: config::PARCEL_SPAWN_ANGVEL_X, y: 0, z: 0 },
    }
}

/// Advances the spawner by `delta` nanoseconds. When its countdown
/// completes, a parcel with a random carrier, place and velocity is due and
/// the count goes up; a count that completes a level shortens the interval.
pub fn spawn_parcels(spawner: &mut ParcelSpawner, delta: u128) -> (spawned: Option<ParcelSpawn>)
    requires
        old(spawner).wf(),
        old(spawner).spawn_due(delta as nat) ==> old(spawner).count < u64::MAX,
    ensures
        final(spawner).wf(),
        final(spawner).parent == old(spawner).parent,
        final(spawner).count == old(spawner).next_count(delta as nat),
        final(spawner).timer == Timer::of(old(spawner).next_timer(delta as nat)),
        final(spawner).timer@ == old(spawner).next_timer(delta as nat),
        spawned is Some <==> old(spawner).spawn_due(delta as nat),
        spawned matches Some(spawn) ==> spawn.in_bounds(),
        spawn_interval_floor() * 1_000_000 <= final(spawner).timer@.duration <= old(
            spawner,
        ).timer@.duration,
{
    proof {
        lemma_spawn_interval_ramp(spawner.count as nat, (spawner.count + 1) as nat);
    }
    spawner.timer.tick(delta);
    if !spawner.timer.just_finished() {
        return None;
    }
    let agent = random_u8();
    let x = random_u32();
    let z = random_u32();
    let vx = random_u32();
    let vz = random_u32();
    let spawn = parcel_from_draws(agent, x, z, vx, vz);
    spawner.count = spawner.count + 1;
    if spawner.count % config::PARCEL_LEVEL_UP == 0 {
        spawner.timer = Timer::from_millis(
            spawn_interval_millis(spawner.count),
            TimerMode::Repeating,
        );
    }
    Some(spawn)
}

/// Whether each of the parcels is valid.
pub open spec fn parcels_wf(parcels: Seq<Parcel>) -> bool {
    forall|k: int| 0 <= k < parcels.len() ==> (#[trigger] parcels[k]).wf()
}

/// Whether each of the parcels is valid.
pub fn are_parcels_wf(parcels: &Vec<Parcel>) -> (b: bool)
    ensures
        b == parcels_wf(parcels@),
{
    let mut i: usize = 0;
    while i < parcels.len()
        invariant
            i <= parcels.len(),
            forall|k: int| 0 <= k < i ==> (#[trigger] parcels@[k]).wf(),
        decreases parcels.len() - i,
    {
        if !parcels[i].is_wf() {
            return false;
        }
        i = i + 1;
    }
    true
}

/// The parcels after `delta` more nanoseconds of their removal timers. A
/// parcel whose timer completes is gone; one whose timer runs on has no
/// outline; one without a timer is left alone.
pub open spec fn despawn_ticked(parcels: Seq<Parcel>, delta: nat) -> Seq<Parcel>
    decreases parcels.len(),
{
    if parcels.len() == 0 {
        Seq::empty()
    } else {
        let rest = despawn_ticked(parcels.drop_last(), delta);
        let parcel = parcels.last();
        match parcel.despawn {
            Some(despawn) => {
                let timer = despawn.timer.ticked(delta);
                if timer.just_finished {
                    rest
                } else {
                    rest.push(
                        Parcel { highlighted: false, despawn: Some(Despawn { timer }), ..parcel },
                    )
                }
            },
            None => rest.push(parcel),
        }
    }
}

/// The removals from the stack that the end of parcels calls for when
/// `delta` more nanoseconds have passed: one for each parcel whose removal
/// timer completes, in the order of the parcels, naming the slot after the
/// parcel.
pub open spec fn despawn_events(parcels: Seq<Parcel>, delta: nat) -> Seq<PopParcelFromStack>
    decreases parcels.len(),
{
    if parcels.len() == 0 {
        Seq::empty()
    } else {
        let rest = despawn_events(parcels.drop_last(), delta);
        let parcel = parcels.last();
        match parcel.despawn {
            Some(despawn) if despawn.timer.ticked(delta).just_finished => rest.push(
                PopParcelFromStack { parcel_entry: parcel.id, despawning: true },
            ),
            _ => rest,
        }
    }
}

/// Advances the removal timers by `delta` nanoseconds and destroys the
/// parcels whose timers complete. A destroyed parcel that was carried leaves
/// the stack at once: its slot is removed without the parcel being thrown,
/// and the parcel stops being the closest parcel. The removals that were
/// made for the destroyed parcels are returned.
pub fn despawn_with_timer(
    parcels: &mut Vec<Parcel>,
    stack: &mut ParcelStack,
    closest_parcel: &mut ClosestParcel,
    delta: u128,
) -> (events: Vec<PopParcelFromStack>)
    requires
        parcels_wf(old(parcels)@),
    ensures
        final(parcels)@ == despawn_ticked(old(parcels)@, delta as nat),
        events@ == despawn_events(old(parcels)@, delta as nat),
        parcels_wf(final(parcels)@),
        final(stack)@ == remove_despawning(old(stack)@, events@),
        stack_wf(final(stack)@),
        final(closest_parcel).0 == match old(closest_parcel).0 {
            Some(parcel) if !is_despawning(events@, parcel) => Some(parcel),
            _ => None,
        },
{
    let events = expire_parcels(parcels, delta);
    pop_despawning_parcels_from_pick(stack, closest_parcel, &events);
    events
}

/// Advances the removal timers by `delta` nanoseconds and destroys the
/// parcels whose timers complete. For each of them the removal from the
/// stack that its end calls for is returned.
pub fn expire_parcels(parcels: &mut Vec<Parcel>, delta: u128) -> (events: Vec<PopParcelFromStack>)
    requires
        parcels_wf(old(parcels)@),
    ensures
        final(parcels)@ == despawn_ticked(old(parcels)@, delta as nat),
        events@ == despawn_events(old(parcels)@, delta as nat),
        parcels_wf(final(parcels)@),
{
    let mut kept: Vec<Parcel> = Vec::new();
    let mut events: Vec<PopParcelFromStack> = Vec::new();
    let mut i: usize = 0;
    while i < parcels.len()
        invariant
            i <= parcels.len(),
            parcels@ == old(parcels)@,
            parcels_wf(parcels@),
            kept@ == despawn_ticked(parcels@.take(i as int), delta as nat),
            events@ == despawn_events(parcels@.take(i as int), delta as nat),
            parcels_wf(kept@),
        decreases parcels.len() - i,
    {
        proof {
            assert(parcels@.take(i + 1).drop_last() == parcels@.take(i as int));
            assert(parcels@[i as int].wf());
        }
        let parcel = parcels[i];
        match parcel.despawn {
            Some(despawn) => {
                let mut timer = despawn.timer;
                timer.tick(delta);
                if timer.just_finished() {
                    events.push(PopParcelFromStack { parcel_entry: parcel.id, despawning: true });
                } else {
                    kept.push(
                        Parcel { highlighted: false, despawn: Some(Despawn { timer }), ..parcel },
                    );
                }
            },
            None => {
                kept.push(parcel);
            },
        }
        i = i + 1;
    }
    proof {
        assert(parcels@.take(parcels.len() as int) == parcels@);
    }
    *parcels = kept;
    events
}

/// The parcels after those that fell out of the world were dealt with. Of
/// the parcels that were not delivered, one at or below the removal height
/// is gone, and one at or below the height where collisions end has no
/// collision shape any more.
pub open spec fn after_fall(parcels: Seq<Parcel>) -> Seq<Parcel>
    decreases parcels.len(),
{
    if parcels.len() == 0 {
        Seq::empty()
    } else {
        let rest = after_fall(parcels.drop_last());
        let parcel = parcels.last();
        if parcel.despawn is Some {
            rest.push(parcel)
        } else if parcel.position.y <= config::PARCEL_DESPAWN_HEIGHT {
            rest
        } else if parcel.position.y <= config::PARCEL_DISABLE_COLLISION_HEIGHT {
            rest.push(Parcel { collides: false, ..parcel })
        } else {
            rest.push(parcel)
        }
    }
}

/// The parcels that fell out of the world, in their order.
pub open spec fn fallen(parcels: Seq<Parcel>) -> Seq<Entity>
    decreases parcels.len(),
{
    if parcels.len() == 0 {
        Seq::empty()
    } else {
        let rest = fallen(parcels.drop_last());
        let parcel = parcels.last();
        if parcel.despawn is None && parcel.position.y <= config::PARCEL_DESPAWN_HEIGHT {
            rest.push(parcel.id)
        } else {
            rest
        }
    }
}

/// Deals with the parcels that fell off the play area: far enough down they
/// stop colliding, and further down they are destroyed. The destroyed ones
/// are returned.
pub fn despawn_out_of_bounds(parcels: &mut Vec<Parcel>) -> (gone: Vec<Entity>)
    ensures
        final(parcels)@ == after_fall(old(parcels)@),
        gone@ == fallen(old(parcels)@),
        parcels_wf(old(parcels)@) ==> parcels_wf(final(parcels)@),
{
    let mut kept: Vec<Parcel> = Vec::new();
    let mut gone: Vec<Entity> = Vec::new();
    let mut i: usize = 0;
    while i < parcels.len()
        invariant
            i <= parcels.len(),
            parcels@ == old(parcels)@,
            kept@ == after_fall(parcels@.take(i as int)),
            gone@ == fallen(parcels@.take(i as int)),
            parcels_wf(parcels@) ==> parcels_wf(kept@),
        decreases parcels.len() - i,
    {
        proof {
            assert(parcels@.take(i + 1).drop_last() == parcels@.take(i as int));
        }
        let parcel = parcels[i];
        if parcel.despawn.is_some() {
            kept.push(parcel);
        } else if parcel.position.y <= config::PARCEL_DESPAWN_HEIGHT {
            gone.push(parcel.id);
        } else if parcel.position.y <= config::PARCEL_DISABLE_COLLISION_HEIGHT {
            kept.push(Parcel { collides: false, ..parcel });
        } else {
            kept.push(parcel);
        }
        i = i + 1;
    }
    proof {
        assert(parcels@.take(parcels.len() as int) == parcels@);
    }
    *parcels = kept;
    gone
}

} // verus!
