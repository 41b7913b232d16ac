//! The player: the stack of carried parcels, the events that change it, and
//! the parcel that the player is about to pick up.

use vstd::math::abs;
use vstd::prelude::*;
use crate::config;
use crate::entity::find;
use crate::entity::holds_id;
use crate::entity::index_of;
use crate::entity::lemma_index_of;
use crate::entity::Entity;
use crate::entity::Identified;
use crate::math::clamp_length;
use crate::math::lemma_clamp_length_bounds;
use crate::math::shrink_component;
use crate::math::Vec3;
use crate::math::Vector3;
use crate::parcels::parcels_wf;
use crate::parcels::Parcel;

verus! {

/// The player.
#[derive(Clone, Copy, Debug)]
pub struct Player {
    /// Where the player stands.
    pub position: Vec3,
}

/// The last place on the ground that the pointer aimed at, if there is one.
#[derive(Clone, Copy, Debug, Default)]
pub struct MousePosition(pub Option<Vec3>);

/// The parcel that the player would pick up now, if there is one.
#[derive(Clone, Copy, Debug)]
pub struct ClosestParcel(pub Option<Entity>);

/// Asks for a parcel to be put on the stack.
#[derive(Clone, Copy, Debug, PartialEq, Eq, Structural)]
pub struct AddParcelToStack {
    pub parcel: Entity,
}

/// Asks for a slot to be taken off the stack.
#[derive(Clone, Copy, Debug, PartialEq, Eq, Structural)]
pub struct PopParcelFromStack {
    /// The slot to remove.
    pub parcel_entry: Entity,
    /// Whether the parcel in the slot is being destroyed, so that it is not
    /// thrown.
    pub despawning: bool,
}

impl Player {
    /// The place of the lowest slot of the stack.
    pub open spec fn spec_stack_anchor(&self) -> Vec3 {
        Vec3 {
            x: self.position.x,
            y: (self.position.y + config::PLAYER_STACK_HEIGHT) as i32,
            z: self.position.z,
        }
    }

    /// The place of the lowest slot of the stack.
    #[verifier::when_used_as_spec(spec_stack_anchor)]
    pub fn stack_anchor(&self) -> (anchor: Vec3)
        requires
            self.position.in_world(),
        ensures
            anchor == self.spec_stack_anchor(),
            anchor@ == self.position@.add(
                Vector3 { x: 0, y: config::PLAYER_STACK_HEIGHT as int, z: 0 },
            ),
    {
        Vec3 {
            x: self.position.x,
            y: self.position.y + config::PLAYER_STACK_HEIGHT,
            z: self.position.z,
        }
    }
}

/// The velocity of a throw from `from` towards `aim`: the way to the aim point
/// times the throw factor, with its length brought between the smallest and
/// the largest throw speed.
pub open spec fn spec_throw_vector(from: Vec3, aim: Vec3) -> Vector3 {
    aim@.sub(from@).scale(
        config::PLAYER_THROW_FACTOR_NUM as nat,
        config::PLAYER_THROW_FACTOR_DEN as nat,
    ).clamp_length(config::PLAYER_MIN_THROW_MAQ as nat, config::PLAYER_MAX_THROW_MAQ as nat)
}

/// The velocity of a throw from `from` towards `aim`. Its length is between
/// the smallest and the largest throw speed wherever the aim point lies, on
/// the spot of the throw too.
pub fn throw_vector(from: Vec3, aim: Vec3) -> (v: Vec3)
    ensures
        v@ == spec_throw_vector(from, aim),
        config::PLAYER_MIN_THROW_MAQ * config::PLAYER_MIN_THROW_MAQ <= v@.length_squared()
            <= config::PLAYER_MAX_THROW_MAQ * config::PLAYER_MAX_THROW_MAQ,
{
    let x = shrink_component(
        aim.x as i64 - from.x as i64,
        config::PLAYER_THROW_FACTOR_NUM,
        config::PLAYER_THROW_FACTOR_DEN,
    );
    let y = shrink_component(
        aim.y as i64 - from.y as i64,
        config::PLAYER_THROW_FACTOR_NUM,
        config::PLAYER_THROW_FACTOR_DEN,
    );
    let z = shrink_component(
        aim.z as i64 - from.z as i64,
        config::PLAYER_THROW_FACTOR_NUM,
        config::PLAYER_THROW_FACTOR_DEN,
    );
    clamp_length(x, y, z, config::PLAYER_MIN_THROW_MAQ, config::PLAYER_MAX_THROW_MAQ)
}

/// The speed of a throw lies between the smallest and the largest throw speed
/// wherever the aim point is, on the spot of the throw too.
pub proof fn lemma_throw_vector_bounds(from: Vec3, aim: Vec3)
    ensures
        config::PLAYER_MIN_THROW_MAQ * config::PLAYER_MIN_THROW_MAQ <= spec_throw_vector(
            from,
            aim,
        ).length_squared() <= config::PLAYER_MAX_THROW_MAQ * config::PLAYER_MAX_THROW_MAQ,
{
    lemma_clamp_length_bounds(
        aim@.sub(from@).scale(
            config::PLAYER_THROW_FACTOR_NUM as nat,
            config::PLAYER_THROW_FACTOR_DEN as nat,
        ),
        config::PLAYER_MIN_THROW_MAQ as nat,
        config::PLAYER_MAX_THROW_MAQ as nat,
    );
}

/// The velocity with which a parcel leaves its slot at `from`: a throw
/// towards the aim point, or a gentle drop where there is no aim point.
pub open spec fn spec_release_velocity(from: Vec3, aim: Option<Vec3>) -> Vec3 {
    match aim {
        Some(point) => {
            let throw = spec_throw_vector(from, point);
            Vec3 { x: throw.x as i32, y: throw.y as i32, z: throw.z as i32 }
        },
        None => Vec3 { x: 0, y: (-config::PLAYER_DROP_SPEED) as i32, z: 0 },
    }
}

/// The velocity with which a parcel leaves its slot at `from`. The speed of a
/// throw is between the smallest and the largest throw speed.
#[verifier::when_used_as_spec(spec_release_velocity)]
pub fn release_velocity(from: Vec3, aim: Option<Vec3>) -> (v: Vec3)
    ensures
        v == spec_release_velocity(from, aim),
        aim is None ==> v == (Vec3 { x: 0, y: -50i32, z: 0 }),
        aim matches Some(point) ==> {
            &&& v@ == spec_throw_vector(from, point)
            &&& config::PLAYER_MIN_THROW_MAQ * config::PLAYER_MIN_THROW_MAQ
                <= v@.length_squared() <= config::PLAYER_MAX_THROW_MAQ
                * config::PLAYER_MAX_THROW_MAQ
        },
{
    match aim {
        Some(point) => throw_vector(from, point),
        None => Vec3 { x: 0, y: -config::PLAYER_DROP_SPEED, z: 0 },
    }
}

/// The velocity of a parcel that is thrown at an aim point lies between the
/// smallest and the largest throw speed, wherever the throw starts and
/// wherever the aim point is.
pub proof fn lemma_release_velocity_bounds(from: Vec3, aim: Vec3)
    ensures
        config::PLAYER_MIN_THROW_MAQ * config::PLAYER_MIN_THROW_MAQ <= spec_release_velocity(
            from,
            Some(aim),
        )@.length_squared() <= config::PLAYER_MAX_THROW_MAQ * config::PLAYER_MAX_THROW_MAQ,
{
    lemma_throw_vector_bounds(from, aim);
    let throw = spec_throw_vector(from, aim);
    let limit = config::PLAYER_MAX_THROW_MAQ as int;
    assert(throw.x * throw.x >= 0 && throw.y * throw.y >= 0 && throw.z * throw.z >= 0)
        by (nonlinear_arith);
    lemma_within(throw.x, limit);
    lemma_within(throw.y, limit);
    lemma_within(throw.z, limit);
}

/// A number whose square is at most the square of `limit` lies within `limit`
/// of zero.
proof fn lemma_within(c: int, limit: int)
    requires
        0 <= limit,
        c * c <= limit * limit,
    ensures
        -limit <= c <= limit,
{
    if c > limit {
        assert(c * c > limit * limit) by (nonlinear_arith)
            requires
                c > limit,
                limit >= 0,
        ;
    }
    if c < -limit {
        assert(c * c > limit * limit) by (nonlinear_arith)
            requires
                c < -limit,
                limit >= 0,
        ;
    }
}

/// The place of the slot with the given index, relative to the lowest slot:
/// the slots are stacked `PARCEL_STACK_SPACING` apart.
pub open spec fn stack_pos(index: int) -> Vec3 {
    Vec3 { x: 0, y: (index * config::PARCEL_STACK_SPACING) as i32, z: 0 }
}

/// The place of the slot with the given index, relative to the lowest slot.
pub fn get_parcel_stack_pos(index: usize) -> (position: Vec3)
    requires
        index * config::PARCEL_STACK_SPACING <= i32::MAX,
    ensures
        position == stack_pos(index as int),
        position@ == (Vector3 { x: 0, y: index * config::PARCEL_STACK_SPACING, z: 0 }),
{
    Vec3 { x: 0, y: (index as i32) * config::PARCEL_STACK_SPACING, z: 0 }
}

/// A slot of the stack: a place for one carried parcel.
#[derive(Clone, Copy, Debug)]
pub struct ParcelStackEntry {
    /// The identity of the slot. A slot is named after the parcel that it was
    /// made for.
    pub id: Entity,
    /// The parcel in the slot; none once that parcel was destroyed.
    pub parcel: Option<Entity>,
    /// The place of the slot relative to the lowest slot.
    pub position: Vec3,
}

impl Identified for ParcelStackEntry {
    open spec fn ident(&self) -> Entity {
        self.id
    }

    fn id(&self) -> (id: Entity) {
        self.id
    }
}

/// The slots with each one moved to the place that belongs to its index.
pub open spec fn repack(entries: Seq<ParcelStackEntry>) -> Seq<ParcelStackEntry> {
    Seq::new(
        entries.len(),
        |k: int| ParcelStackEntry { position: stack_pos(k), ..entries[k] },
    )
}

/// Whether each slot is at the place that belongs to its index.
pub open spec fn packed(entries: Seq<ParcelStackEntry>) -> bool {
    forall|k: int| 0 <= k < entries.len() ==> (#[trigger] entries[k]).position == stack_pos(k)
}

/// Validity of a stack: it holds no more slots than the player can carry,
/// each slot is at the place that belongs to its index, no two slots share an
/// identity, and a slot holds no other parcel than the one it is named after.
pub open spec fn stack_wf(entries: Seq<ParcelStackEntry>) -> bool {
    &&& entries.len() <= config::PARCEL_STACK_CAPACITY
    &&& packed(entries)
    &&& forall|i: int, j: int|
        0 <= i < j < entries.len() ==> (#[trigger] entries[i]).id != (#[trigger] entries[j]).id
    &&& forall|k: int|
        0 <= k < entries.len() ==> ((#[trigger] entries[k]).parcel matches Some(p) ==> p
            == entries[k].id)
}

/// The slots without the one named `entry`, closed up. Without such a slot
/// nothing changes.
pub open spec fn remove_entry(entries: Seq<ParcelStackEntry>, entry: Entity) -> Seq<
    ParcelStackEntry,
> {
    match index_of(entries, entry) {
        Some(i) => repack(entries.remove(i)),
        None => entries,
    }
}

/// The stack and the parcels of the world, as the stack events see them.
pub struct StackState {
    pub entries: Seq<ParcelStackEntry>,
    pub parcels: Seq<Parcel>,
}

impl StackState {
    /// Whether `parcel` can be put on the stack: there is room, the parcel
    /// exists and is free to be picked up, and no slot is named after it.
    pub open spec fn can_add(self, parcel: Entity) -> bool {
        &&& self.entries.len() < config::PARCEL_STACK_CAPACITY
        &&& !holds_id(self.entries, parcel)
        &&& index_of(self.parcels, parcel) matches Some(i) && self.parcels[i].is_eligible()
    }

    /// The state after the request to put `parcel` on the stack: a new slot on
    /// top holds the parcel, which is now carried. A request that cannot be
    /// met changes nothing.
    pub open spec fn add(self, parcel: Entity) -> StackState {
        if self.can_add(parcel) {
            let i = index_of(self.parcels, parcel).unwrap();
            StackState {
                entries: self.entries.push(
                    ParcelStackEntry {
                        id: parcel,
                        parcel: Some(parcel),
                        position: stack_pos(self.entries.len() as int),
                    },
                ),
                parcels: self.parcels.update(i, self.parcels[i].picked_up()),
            }
        } else {
            self
        }
    }

    /// The parcels after the slot `slot` let go of its parcel, with the lowest
    /// slot at `anchor`: the parcel is free again, at the place of the slot,
    /// and moves as a throw towards `aim` or a drop. A slot without a parcel,
    /// or with a parcel that is gone, changes nothing.
    pub open spec fn release(
        self,
        slot: ParcelStackEntry,
        aim: Option<Vec3>,
        anchor: Vec3,
    ) -> Seq<Parcel> {
        match slot.parcel {
            Some(parcel) => match index_of(self.parcels, parcel) {
                Some(k) => {
                    let from = slot_world_pos(anchor, slot.position);
                    self.parcels.update(
                        k,
                        self.parcels[k].released(from, release_velocity(from, aim)),
                    )
                },
                None => self.parcels,
            },
            None => self.parcels,
        }
    }

    /// The state after the request to take the slot `entry` off the stack:
    /// the slot is gone, the slots above it have moved down, and its parcel
    /// was let go unless it is being destroyed. Without such a slot nothing
    /// changes.
    pub open spec fn pop(
        self,
        entry: Entity,
        despawning: bool,
        aim: Option<Vec3>,
        anchor: Vec3,
    ) -> StackState {
        match index_of(self.entries, entry) {
            Some(i) => StackState {
                entries: remove_entry(self.entries, entry),
                parcels: if despawning {
                    self.parcels
                } else {
                    self.release(self.entries[i], aim, anchor)
                },
            },
            None => self,
        }
    }

    /// The state after the requests `adds`, met in their order.
    pub open spec fn add_all(self, adds: Seq<AddParcelToStack>) -> StackState
        decreases adds.len(),
    {
        if adds.len() == 0 {
            self
        } else {
            self.add_all(adds.drop_last()).add(adds.last().parcel)
        }
    }

    /// The state after the requests `pops`, met in their order.
    pub open spec fn pop_all(
        self,
        pops: Seq<PopParcelFromStack>,
        aim: Option<Vec3>,
        anchor: Vec3,
    ) -> StackState
        decreases pops.len(),
    {
        if pops.len() == 0 {
            self
        } else {
            self.pop_all(pops.drop_last(), aim, anchor).pop(
                pops.last().parcel_entry,
                pops.last().despawning,
                aim,
                anchor,
            )
        }
    }
}

/// The place in the world of a slot at `position` above the lowest slot at
/// `anchor`.
pub open spec fn slot_world_pos(anchor: Vec3, position: Vec3) -> Vec3 {
    Vec3 {
        x: (anchor.x + position.x) as i32,
        y: (anchor.y + position.y) as i32,
        z: (anchor.z + position.z) as i32,
    }
}

/// A request to put a parcel on a full stack changes nothing.
pub proof fn lemma_add_at_capacity(state: StackState, parcel: Entity)
    requires
        state.entries.len() >= config::PARCEL_STACK_CAPACITY,
    ensures
        state.add(parcel) == state,
{
}

/// A request to take off a slot that the stack does not hold changes nothing.
pub proof fn lemma_pop_missing(
    state: StackState,
    entry: Entity,
    despawning: bool,
    aim: Option<Vec3>,
    anchor: Vec3,
)
    requires
        !holds_id(state.entries, entry),
    ensures
        state.pop(entry, despawning, aim, anchor) == state,
        remove_entry(state.entries, entry) == state.entries,
{
}

/// Putting a parcel on a valid stack leaves a valid stack.
pub proof fn lemma_add_keeps_stack(state: StackState, parcel: Entity)
    requires
        stack_wf(state.entries),
    ensures
        stack_wf(state.add(parcel).entries),
{
    if state.can_add(parcel) {
        let after = state.add(parcel).entries;
        let n = state.entries.len() as int;
        assert forall|i: int, j: int| 0 <= i < j < after.len() implies (#[trigger] after[i]).id
            != (#[trigger] after[j]).id by {
            if j == n {
                assert(after[i] == state.entries[i]);
                assert(state.entries[i].ident() != parcel);
            } else {
                assert(after[i] == state.entries[i]);
                assert(after[j] == state.entries[j]);
            }
        }
        assert forall|k: int| 0 <= k < after.len() implies (#[trigger] after[k]).position
            == stack_pos(k) by {
            if k < n {
                assert(after[k] == state.entries[k]);
            }
        }
        assert forall|k: int| 0 <= k < after.len() implies (
            (#[trigger] after[k]).parcel matches Some(p) ==> p == after[k].id
        ) by {
            if k < n {
                assert(after[k] == state.entries[k]);
            }
        }
    }
}

/// Taking a slot off a valid stack leaves a valid stack: the slots that stay
/// are at the places that belong to their new indices.
pub proof fn lemma_remove_keeps_stack(entries: Seq<ParcelStackEntry>, entry: Entity)
    requires
        stack_wf(entries),
    ensures
        stack_wf(remove_entry(entries, entry)),
        remove_entry(entries, entry).len() <= entries.len(),
{
    lemma_index_of(entries, entry);
    match index_of(entries, entry) {
        Some(i) => {
            let rest = entries.remove(i);
            let after = repack(rest);
            assert forall|a: int, b: int| 0 <= a < b < after.len() implies (#[trigger] after[a]).id
                != (#[trigger] after[b]).id by {
                let a0 = if a < i { a } else { a + 1 };
                let b0 = if b < i { b } else { b + 1 };
                assert(rest[a] == entries[a0]);
                assert(rest[b] == entries[b0]);
            }
            assert forall|k: int| 0 <= k < after.len() implies (
                (#[trigger] after[k]).parcel matches Some(p) ==> p == after[k].id
            ) by {
                let k0 = if k < i { k } else { k + 1 };
                assert(rest[k] == entries[k0]);
            }
        },
        None => {},
    }
}

/// After the requests of a tick, first those to add and then those to take
/// off, a valid stack is valid again.
pub proof fn lemma_events_keep_stack(
    state: StackState,
    adds: Seq<AddParcelToStack>,
    pops: Seq<PopParcelFromStack>,
    aim: Option<Vec3>,
    anchor: Vec3,
)
    requires
        stack_wf(state.entries),
    ensures
        stack_wf(state.add_all(adds).entries),
        stack_wf(state.add_all(adds).pop_all(pops, aim, anchor).entries),
    decreases adds.len() + pops.len(),
{
    if pops.len() > 0 {
        lemma_events_keep_stack(state, adds, pops.drop_last(), aim, anchor);
        let before = state.add_all(adds).pop_all(pops.drop_last(), aim, anchor);
        lemma_remove_keeps_stack(before.entries, pops.last().parcel_entry);
    } else if adds.len() > 0 {
        lemma_events_keep_stack(state, adds.drop_last(), pops, aim, anchor);
        lemma_add_keeps_stack(state.add_all(adds.drop_last()), adds.last().parcel);
    }
}

/// A request to the stack, with what the stack needs to know to meet it.
pub enum StackRequest {
    /// Put a parcel on the stack.
    Add(AddParcelToStack),
    /// Take a slot off the stack while the pointer aims at `aim` and the
    /// lowest slot is at `anchor`.
    Pop { event: PopParcelFromStack, aim: Option<Vec3>, anchor: Vec3 },
}

impl StackState {
    /// The state after `request`.
    pub open spec fn meet(self, request: StackRequest) -> StackState {
        match request {
            StackRequest::Add(event) => self.add(event.parcel),
            StackRequest::Pop { event, aim, anchor } => self.pop(
                event.parcel_entry,
                event.despawning,
                aim,
                anchor,
            ),
        }
    }

    /// The state after the requests `requests`, met in their order.
    pub open spec fn meet_all(self, requests: Seq<StackRequest>) -> StackState
        decreases requests.len(),
    {
        if requests.len() == 0 {
            self
        } else {
            self.meet_all(requests.drop_last()).meet(requests.last())
        }
    }
}

/// After any run of requests to add and to take off, in any order, a stack
/// that was valid holds no more slots than the player can carry, and each
/// slot is at the place that belongs to its index, with no gaps.
pub proof fn lemma_requests_keep_stack(state: StackState, requests: Seq<StackRequest>)
    requires
        stack_wf(state.entries),
    ensures
        stack_wf(state.meet_all(requests).entries),
        state.meet_all(requests).entries.len() <= config::PARCEL_STACK_CAPACITY,
        forall|k: int|
            0 <= k < state.meet_all(requests).entries.len() ==> (#[trigger] state.meet_all(
                requests,
            ).entries[k]).position == stack_pos(k),
    decreases requests.len(),
{
    if requests.len() > 0 {
        lemma_requests_keep_stack(state, requests.drop_last());
        let before = state.meet_all(requests.drop_last());
        match requests.last() {
            StackRequest::Add(event) => {
                lemma_add_keeps_stack(before, event.parcel);
            },
            StackRequest::Pop { event, aim, anchor } => {
                lemma_remove_keeps_stack(before.entries, event.parcel_entry);
            },
        }
    }
}

/// The stack of parcels that the player carries: slots in the order in which
/// they were made, the lowest first.
#[derive(Debug)]
pub struct ParcelStack {
    parcels_entries: Vec<ParcelStackEntry>,
}

impl View for ParcelStack {
    type V = Seq<ParcelStackEntry>;

    closed spec fn view(&self) -> Seq<ParcelStackEntry> {
        self.parcels_entries@
    }
}

impl ParcelStack {
    #[verifier::type_invariant]
    spec fn inv(self) -> bool {
        stack_wf(self.parcels_entries@)
    }

    /// An empty stack.
    pub fn new() -> (stack: Self)
        ensures
            stack@ == Seq::<ParcelStackEntry>::empty(),
            stack_wf(stack@),
    {
        ParcelStack { parcels_entries: Vec::new() }
    }

    /// The number of slots.
    pub fn len(&self) -> (n: usize)
        ensures
            n == self@.len(),
            n <= config::PARCEL_STACK_CAPACITY,
            stack_wf(self@),
    {
        proof {
            use_type_invariant(self);
        }
        self.parcels_entries.len()
    }

    /// The slot with the given index, if there is one.
    pub fn get(&self, index: usize) -> (entry: Option<ParcelStackEntry>)
        ensures
            index < self@.len() ==> entry == Some(self@[index as int]),
            index >= self@.len() ==> entry is None,
    {
        if index < self.parcels_entries.len() {
            Some(self.parcels_entries[index])
        } else {
            None
        }
    }

    /// The slot on top, if there is one.
    pub fn last(&self) -> (entry: Option<ParcelStackEntry>)
        ensures
            self@.len() > 0 ==> entry == Some(self@.last()),
            self@.len() == 0 ==> entry is None,
    {
        let n = self.parcels_entries.len();
        if n > 0 {
            Some(self.parcels_entries[n - 1])
        } else {
            None
        }
    }

    /// Whether the stack holds a slot named `entry`.
    pub fn contains(&self, entry: Entity) -> (b: bool)
        ensures
            b == holds_id(self@, entry),
    {
        let found = find(&self.parcels_entries, entry);
        proof {
            lemma_index_of(self@, entry);
        }
        found.is_some()
    }
}

/// Puts `parcel` on the stack if that can be done: a new slot on top holds
/// the parcel, which comes to rest there. A full stack, a parcel that is
/// gone, carried already or delivered: each leaves everything as it is.
pub fn add_parcel_to_stack(stack: &mut ParcelStack, parcels: &mut Vec<Parcel>, parcel: Entity)
    ensures
        (StackState { entries: final(stack)@, parcels: final(parcels)@ }) == (StackState {
            entries: old(stack)@,
            parcels: old(parcels)@,
        }).add(parcel),
        stack_wf(final(stack)@),
        parcels_wf(old(parcels)@) ==> parcels_wf(final(parcels)@),
{
    let ghost state = StackState { entries: stack@, parcels: parcels@ };
    proof {
        use_type_invariant(&*stack);
        lemma_add_keeps_stack(state, parcel);
        lemma_index_of(stack@, parcel);
    }
    let index = stack.parcels_entries.len();
    if index >= config::PARCEL_STACK_CAPACITY {
        return ;
    }
    if find(&stack.parcels_entries, parcel).is_some() {
        return ;
    }
    match find(parcels, parcel) {
        Some(i) => {
            let found = parcels[i];
            if found.is_eligible() {
                let mut entries: Vec<ParcelStackEntry> = Vec::new();
                std::mem::swap(&mut entries, &mut stack.parcels_entries);
                entries.push(
                    ParcelStackEntry {
                        id: parcel,
                        parcel: Some(parcel),
                        position: get_parcel_stack_pos(index),
                    },
                );
                stack.parcels_entries = entries;
                parcels.set(i, found.picked_up());
            }
        },
        None => {},
    }
}

/// The slots without the one at `index`, closed up.
fn without_entry(entries: &Vec<ParcelStackEntry>, index: usize) -> (kept: Vec<ParcelStackEntry>)
    requires
        index < entries.len() <= config::PARCEL_STACK_CAPACITY,
    ensures
        kept@ == repack(entries@.remove(index as int)),
{
    let mut kept: Vec<ParcelStackEntry> = Vec::new();
    let mut j: usize = 0;
    while j < entries.len()
        invariant
            index < entries.len() <= config::PARCEL_STACK_CAPACITY,
            j <= entries.len(),
            kept.len() == if j <= index {
                j as int
            } else {
                j - 1
            },
            forall|k: int|
                0 <= k < kept.len() ==> #[trigger] kept@[k] == (ParcelStackEntry {
                    position: stack_pos(k),
                    ..entries@[if k < index {
                        k
                    } else {
                        k + 1
                    }]
                }),
        decreases entries.len() - j,
    {
        if j != index {
            let entry = entries[j];
            kept.push(ParcelStackEntry { position: get_parcel_stack_pos(kept.len()), ..entry });
        }
        j = j + 1;
    }
    assert(kept@ =~= repack(entries@.remove(index as int)));
    kept
}

/// Takes the slot that `event` names off the stack: the slots above it move
/// down, and its parcel is let go, thrown towards the aim point or dropped,
/// unless it is being destroyed. Without such a slot nothing changes.
pub fn pop_parcel_from_stack(
    stack: &mut ParcelStack,
    parcels: &mut Vec<Parcel>,
    event: &PopParcelFromStack,
    mouse_pos: &MousePosition,
    player: &Player,
)
    requires
        player.position.in_world(),
    ensures
        (StackState { entries: final(stack)@, parcels: final(parcels)@ }) == (StackState {
            entries: old(stack)@,
            parcels: old(parcels)@,
        }).pop(event.parcel_entry, event.despawning, mouse_pos.0, player.stack_anchor()),
        stack_wf(final(stack)@),
        parcels_wf(old(parcels)@) ==> parcels_wf(final(parcels)@),
{
    proof {
        use_type_invariant(&*stack);
        lemma_remove_keeps_stack(stack@, event.parcel_entry);
    }
    match find(&stack.parcels_entries, event.parcel_entry) {
        Some(i) => {
            let slot = stack.parcels_entries[i];
            let kept = without_entry(&stack.parcels_entries, i);
            stack.parcels_entries = kept;
            if !event.despawning {
                match slot.parcel {
                    Some(parcel) => match find(parcels, parcel) {
                        Some(k) => {
                            let anchor = player.stack_anchor();
                            let from = Vec3 {
                                x: anchor.x + slot.position.x,
                                y: anchor.y + slot.position.y,
                                z: anchor.z + slot.position.z,
                            };
                            let held = parcels[k];
                            parcels.set(k, held.released(from, release_velocity(from, mouse_pos.0)));
                        },
                        None => {},
                    },
                    None => {},
                }
            }
        },
        None => {},
    }
}

/// Meets the stack requests of one tick: first all requests to add, then all
/// requests to take off, each kind in the order in which it was made.
pub fn parcel_stack_events(
    stack: &mut ParcelStack,
    parcels: &mut Vec<Parcel>,
    adds: &Vec<AddParcelToStack>,
    pops: &Vec<PopParcelFromStack>,
    mouse_pos: &MousePosition,
    player: &Player,
)
    requires
        player.position.in_world(),
    ensures
        (StackState { entries: final(stack)@, parcels: final(parcels)@ }) == (StackState {
            entries: old(stack)@,
            parcels: old(parcels)@,
        }).add_all(adds@).pop_all(pops@, mouse_pos.0, player.stack_anchor()),
        stack_wf(final(stack)@),
        parcels_wf(old(parcels)@) ==> parcels_wf(final(parcels)@),
{
    let ghost start = StackState { entries: stack@, parcels: parcels@ };
    proof {
        use_type_invariant(&*stack);
    }
    let mut i: usize = 0;
    while i < adds.len()
        invariant
            i <= adds.len(),
            (StackState { entries: stack@, parcels: parcels@ }) == start.add_all(
                adds@.take(i as int),
            ),
            stack_wf(stack@),
            parcels_wf(start.parcels) ==> parcels_wf(parcels@),
        decreases adds.len() - i,
    {
        proof {
            assert(adds@.take(i + 1).drop_last() == adds@.take(i as int));
        }
        add_parcel_to_stack(stack, parcels, adds[i].parcel);
        i = i + 1;
    }
    proof {
        assert(adds@.take(adds.len() as int) == adds@);
    }
    let ghost added = start.add_all(adds@);
    let mut j: usize = 0;
    while j < pops.len()
        invariant
            j <= pops.len(),
            player.position.in_world(),
            (StackState { entries: stack@, parcels: parcels@ }) == added.pop_all(
                pops@.take(j as int),
                mouse_pos.0,
                player.stack_anchor(),
            ),
            stack_wf(stack@),
            parcels_wf(start.parcels) ==> parcels_wf(parcels@),
        decreases pops.len() - j,
    {
        proof {
            assert(pops@.take(j + 1).drop_last() == pops@.take(j as int));
        }
        pop_parcel_from_stack(stack, parcels, &pops[j], mouse_pos, player);
        j = j + 1;
    }
    proof {
        assert(pops@.take(pops.len() as int) == pops@);
    }
}

/// Moves each slot of the stack to the place that belongs to its index. The
/// slots of a stack are always there, so nothing changes.
pub fn maintain_parcel_stack(stack: &mut ParcelStack)
    ensures
        final(stack)@ == repack(old(stack)@),
        final(stack)@ == old(stack)@,
        stack_wf(final(stack)@),
{
    proof {
        use_type_invariant(&*stack);
    }
    let mut kept: Vec<ParcelStackEntry> = Vec::new();
    let mut j: usize = 0;
    while j < stack.parcels_entries.len()
        invariant
            j <= stack.parcels_entries.len() <= config::PARCEL_STACK_CAPACITY,
            kept.len() == j,
            forall|k: int|
                0 <= k < j ==> #[trigger] kept@[k] == (ParcelStackEntry {
                    position: stack_pos(k),
                    ..stack.parcels_entries@[k]
                }),
        decreases stack.parcels_entries.len() - j,
    {
        let entry = stack.parcels_entries[j];
        kept.push(ParcelStackEntry { position: get_parcel_stack_pos(j), ..entry });
        j = j + 1;
    }
    assert(kept@ =~= repack(stack@));
    assert(kept@ =~= stack@);
    stack.parcels_entries = kept;
}

/// The request that the pickup key makes: to put the parcel closest to the
/// player on the stack. It is made when the key was just pressed, there is
/// such a parcel and the stack has room; the parcel then stops being the
/// closest one.
pub fn pickup_parcel(
    closest_parcel: &mut ClosestParcel,
    pressed: bool,
    stack: &ParcelStack,
) -> (event: Option<AddParcelToStack>)
    ensures
        event == match old(closest_parcel).0 {
            Some(parcel) if pressed && stack@.len() < config::PARCEL_STACK_CAPACITY => Some(
                AddParcelToStack { parcel },
            ),
            _ => None,
        },
        final(closest_parcel).0 == if event is Some {
            None
        } else {
            old(closest_parcel).0
        },
{
    match closest_parcel.0 {
        Some(parcel) => {
            if pressed && stack.len() < config::PARCEL_STACK_CAPACITY {
                closest_parcel.0 = None;
                Some(AddParcelToStack { parcel })
            } else {
                None
            }
        },
        None => None,
    }
}

/// The request that the throw button makes: to take the top slot off the
/// stack and let its parcel go. It is made when the button was just pressed
/// and the stack is not empty.
pub fn pop_parcel(pressed: bool, stack: &ParcelStack) -> (event: Option<PopParcelFromStack>)
    ensures
        event == if pressed && stack@.len() > 0 {
            Some(PopParcelFromStack { parcel_entry: stack@.last().id, despawning: false })
        } else {
            None
        },
{
    if pressed {
        match stack.last() {
            Some(entry) => Some(PopParcelFromStack { parcel_entry: entry.id, despawning: false }),
            None => None,
        }
    } else {
        None
    }
}

/// The square of the distance from the player at `player` to the parcel at
/// place `i`.
pub open spec fn distance_to(parcels: Seq<Parcel>, player: Vec3, i: int) -> nat {
    parcels[i].position@.sub(player@).length_squared()
}

/// Whether the parcel at place `i` is one that the player at `player` could
/// pick up: it is free, was not delivered, and is within the pickup radius.
pub open spec fn is_candidate(parcels: Seq<Parcel>, player: Vec3, i: int) -> bool {
    &&& 0 <= i < parcels.len()
    &&& parcels[i].is_eligible()
    &&& distance_to(parcels, player, i) <= config::PLAYER_PICKUP_RADIUS
        * config::PLAYER_PICKUP_RADIUS
}

/// Whether the parcel at place `i` is the candidate closest to the player,
/// the first of them where several are equally close.
pub open spec fn is_closest(parcels: Seq<Parcel>, player: Vec3, i: int) -> bool {
    &&& is_candidate(parcels, player, i)
    &&& forall|j: int| #[trigger]
        is_candidate(parcels, player, j) ==> distance_to(parcels, player, i) < distance_to(
            parcels,
            player,
            j,
        ) || (distance_to(parcels, player, i) == distance_to(parcels, player, j) && i <= j)
}

/// The place of the candidate closest to the player, if there is a candidate.
pub open spec fn closest_index(parcels: Seq<Parcel>, player: Vec3) -> Option<int> {
    if exists|i: int| is_candidate(parcels, player, i) {
        Some(choose|i: int| is_closest(parcels, player, i))
    } else {
        None
    }
}

/// The candidate that is closest is the one that `closest_index` gives.
pub proof fn lemma_closest_index(parcels: Seq<Parcel>, player: Vec3, i: int)
    requires
        is_closest(parcels, player, i),
    ensures
        closest_index(parcels, player) == Some(i),
{
    assert(is_candidate(parcels, player, i));
    let k = choose|k: int| is_closest(parcels, player, k);
    assert(is_closest(parcels, player, k));
    assert(is_candidate(parcels, player, k));
}

/// Without a candidate there is no closest parcel.
pub proof fn lemma_no_candidate(parcels: Seq<Parcel>, player: Vec3)
    requires
        forall|i: int| !is_candidate(parcels, player, i),
    ensures
        closest_index(parcels, player) is None,
{
}

/// Whether the closest parcel, if there is one, is among the parcels and can
/// be picked up.
pub open spec fn closest_is_eligible(closest: Option<Entity>, parcels: Seq<Parcel>) -> bool {
    closest matches Some(parcel) ==> exists|i: int|
        0 <= i < parcels.len() && (#[trigger] parcels[i]).id == parcel && parcels[i].is_eligible()
}

/// The parcels after the player looked around: the parcel that was closest
/// before lost its outline if it can still be picked up, and the parcel at
/// `chosen`, if there is one, got the outline.
pub open spec fn outlined(
    parcels: Seq<Parcel>,
    previous: Option<Entity>,
    chosen: Option<int>,
) -> Seq<Parcel> {
    let cleared = match previous {
        Some(parcel) => match index_of(parcels, parcel) {
            Some(k) if parcels[k].is_eligible() => parcels.update(k, parcels[k].unhighlighted()),
            _ => parcels,
        },
        None => parcels,
    };
    match chosen {
        Some(i) => cleared.update(i, cleared[i].highlighted()),
        None => cleared,
    }
}

/// Finds the parcel that the player would pick up now: the closest one among
/// the free, undelivered parcels within the pickup radius, the first of them
/// where several are equally close. That parcel is outlined and becomes the
/// closest parcel; without one there is no closest parcel and none is
/// outlined. The parcel that was closest before loses its outline if it can
/// still be picked up.
pub fn parcel_awarness(
    player: &Player,
    closest_parcel: &mut ClosestParcel,
    parcels: &mut Vec<Parcel>,
)
    ensures
        final(closest_parcel).0 == match closest_index(old(parcels)@, player.position) {
            Some(i) => Some(old(parcels)@[i].id),
            None => None,
        },
        final(closest_parcel).0 is None <==> forall|i: int|
            !is_candidate(old(parcels)@, player.position, i),
        closest_is_eligible(final(closest_parcel).0, final(parcels)@),
        final(parcels)@ == outlined(
            old(parcels)@,
            old(closest_parcel).0,
            closest_index(old(parcels)@, player.position),
        ),
        parcels_wf(old(parcels)@) ==> parcels_wf(final(parcels)@),
{
    let reach: u128 = config::PLAYER_PICKUP_RADIUS as u128;
    let radius: u128 = reach * reach;
    let mut min: Option<(usize, u128)> = None;
    let mut i: usize = 0;
    while i < parcels.len()
        invariant
            i <= parcels.len(),
            radius == config::PLAYER_PICKUP_RADIUS * config::PLAYER_PICKUP_RADIUS,
            min is None ==> forall|j: int| 0 <= j < i ==> !is_candidate(parcels@, player.position, j),
            min matches Some((best, dist)) ==> {
                &&& best < i
                &&& is_candidate(parcels@, player.position, best as int)
                &&& dist == distance_to(parcels@, player.position, best as int)
                &&& forall|j: int|
                    0 <= j < i && #[trigger] is_candidate(parcels@, player.position, j) ==> dist
                        < distance_to(parcels@, player.position, j) || (dist == distance_to(
                        parcels@,
                        player.position,
                        j,
                    ) && best <= j)
            },
        decreases parcels.len() - i,
    {
        let parcel = parcels[i];
        let dist = parcel.position.distance_squared(&player.position);
        if parcel.is_eligible() && dist <= radius {
            match min {
                Some((_, min_dist)) => {
                    if dist < min_dist {
                        min = Some((i, dist));
                    }
                },
                None => {
                    min = Some((i, dist));
                },
            }
        }
        i = i + 1;
    }
    proof {
        match min {
            Some((best, _)) => {
                assert(is_closest(parcels@, player.position, best as int));
                lemma_closest_index(parcels@, player.position, best as int);
            },
            None => {},
        }
    }
    match closest_parcel.0 {
        Some(previous) => match find(parcels, previous) {
            Some(k) => {
                let parcel = parcels[k];
                if parcel.is_eligible() {
                    parcels.set(k, parcel.unhighlighted());
                }
            },
            None => {},
        },
        None => {},
    }
    match min {
        Some((best, _)) => {
            let parcel = parcels[best];
            parcels.set(best, parcel.highlighted());
            closest_parcel.0 = Some(parcel.id);
            assert(parcels@[best as int].id == parcel.id && parcels@[best as int].is_eligible());
        },
        None => {
            closest_parcel.0 = None;
        },
    }
}

/// The parcels with the outline taken off each one that is carried or was
/// delivered.
pub open spec fn without_picked_outlines(parcels: Seq<Parcel>) -> Seq<Parcel> {
    Seq::new(
        parcels.len(),
        |k: int|
            if parcels[k].is_picked() {
                parcels[k].unhighlighted()
            } else {
                parcels[k]
            },
    )
}

/// Takes the outline off each parcel that is carried or was delivered.
pub fn remove_outline_from_picked(parcels: &mut Vec<Parcel>)
    ensures
        final(parcels)@ == without_picked_outlines(old(parcels)@),
        parcels_wf(old(parcels)@) ==> parcels_wf(final(parcels)@),
{
    let mut i: usize = 0;
    while i < parcels.len()
        invariant
            i <= parcels.len(),
            parcels.len() == old(parcels).len(),
            forall|k: int| 0 <= k < i ==> #[trigger] parcels@[k] == without_picked_outlines(old(parcels)@)[k],
            forall|k: int| i <= k < parcels.len() ==> #[trigger] parcels@[k] == old(parcels)@[k],
        decreases parcels.len() - i,
    {
        let parcel = parcels[i];
        if parcel.is_picked() {
            parcels.set(i, parcel.unhighlighted());
        }
        i = i + 1;
    }
    assert(parcels@ =~= without_picked_outlines(old(parcels)@));
}

/// The slots left after the forced removals among `events`, met in their
/// order. Requests that are not for a parcel being destroyed are passed
/// over.
pub open spec fn remove_despawning(
    entries: Seq<ParcelStackEntry>,
    events: Seq<PopParcelFromStack>,
) -> Seq<ParcelStackEntry>
    decreases events.len(),
{
    if events.len() == 0 {
        entries
    } else {
        let before = remove_despawning(entries, events.drop_last());
        if events.last().despawning {
            remove_entry(before, events.last().parcel_entry)
        } else {
            before
        }
    }
}

/// Whether one of the forced removals among `events` is for `parcel`.
pub open spec fn is_despawning(events: Seq<PopParcelFromStack>, parcel: Entity) -> bool {
    exists|k: int|
        0 <= k < events.len() && (#[trigger] events[k]).despawning && events[k].parcel_entry
            == parcel
}

/// Takes the slots of destroyed parcels off the stack at once. `events` are
/// the removals that the end of those parcels calls for; each names the slot
/// after its parcel. The slots go without their parcels being let go, and a
/// destroyed parcel stops being the closest parcel.
pub fn pop_despawning_parcels_from_pick(
    stack: &mut ParcelStack,
    closest_parcel: &mut ClosestParcel,
    events: &Vec<PopParcelFromStack>,
)
    ensures
        final(stack)@ == remove_despawning(old(stack)@, events@),
        stack_wf(final(stack)@),
        final(closest_parcel).0 == match old(closest_parcel).0 {
            Some(parcel) if !is_despawning(events@, parcel) => Some(parcel),
            _ => None,
        },
{
    proof {
        use_type_invariant(&*stack);
    }
    let mut i: usize = 0;
    while i < events.len()
        invariant
            i <= events.len(),
            stack@ == remove_despawning(old(stack)@, events@.take(i as int)),
            stack_wf(stack@),
            closest_parcel.0 == match old(closest_parcel).0 {
                Some(parcel) if !is_despawning(events@.take(i as int), parcel) => Some(parcel),
                _ => None,
            },
        decreases events.len() - i,
    {
        let event = events[i];
        proof {
            assert(events@.take(i + 1).drop_last() == events@.take(i as int));
            lemma_remove_keeps_stack(stack@, event.parcel_entry);
            match old(closest_parcel).0 {
                Some(parcel) => {
                    let shorter = events@.take(i as int);
                    let longer = events@.take(i + 1);
                    if is_despawning(shorter, parcel) {
                        let k = choose|k: int|
                            0 <= k < shorter.len() && (#[trigger] shorter[k]).despawning
                                && shorter[k].parcel_entry == parcel;
                        assert(longer[k] == shorter[k]);
                    }
                    if event.despawning && event.parcel_entry == parcel {
                        assert(longer[i as int] == event);
                    }
                    if is_despawning(longer, parcel) && !is_despawning(shorter, parcel) {
                        let k = choose|k: int|
                            0 <= k < longer.len() && (#[trigger] longer[k]).despawning
                                && longer[k].parcel_entry == parcel;
                        if k < i {
                            assert(shorter[k] == longer[k]);
                        }
                    }
                },
                None => {},
            }
        }
        if event.despawning {
            match find(&stack.parcels_entries, event.parcel_entry) {
                Some(at) => {
                    let kept = without_entry(&stack.parcels_entries, at);
                    stack.parcels_entries = kept;
                },
                None => {},
            }
            match closest_parcel.0 {
                Some(parcel) => {
                    if parcel == event.parcel_entry {
                        closest_parcel.0 = None;
                    }
                },
                None => {},
            }
        }
        i = i + 1;
    }
    proof {
        assert(events@.take(events.len() as int) == events@);
    }
}

/// The scalar product of two vectors.
pub open spec fn dot(a: Vector3, b: Vector3) -> int {
    a.x * b.x + a.y * b.y + a.z * b.z
}

/// `a / b`, rounded towards zero.
pub open spec fn div_toward_zero(a: int, b: int) -> int {
    if (a < 0) == (b < 0) {
        abs(a) as int / abs(b) as int
    } else {
        -(abs(a) as int / abs(b) as int)
    }
}

/// The point where the line through `pv` along `dv` meets the plane through
/// `pp` with the normal `np`, before it is checked against the range of
/// coordinates. It is `pv + dv * t` with `t = (pp - pv) . np / dv . np`, each
/// component rounded towards zero.
pub open spec fn plane_meeting_point(pv: Vec3, dv: Vec3, pp: Vec3, np: Vec3) -> Vector3 {
    let d = dot(dv@, np@);
    let t = dot(pp@, np@) - dot(pv@, np@);
    Vector3 {
        x: pv.x + div_toward_zero(dv.x * t, d),
        y: pv.y + div_toward_zero(dv.y * t, d),
        z: pv.z + div_toward_zero(dv.z * t, d),
    }
}

/// Whether `c` is a coordinate that a `Vec3` can hold.
pub open spec fn is_coordinate(c: int) -> bool {
    i32::MIN <= c <= i32::MAX
}

/// The point where the line through `pv` along `dv` meets the plane through
/// `pp` with the normal `np`. There is none where the line runs along the
/// plane, nor where the point lies beyond the range of coordinates.
pub open spec fn spec_plane_intersection(pv: Vec3, dv: Vec3, pp: Vec3, np: Vec3) -> Option<Vec3> {
    let point = plane_meeting_point(pv, dv, pp, np);
    if dot(dv@, np@) != 0 && is_coordinate(point.x) && is_coordinate(point.y) && is_coordinate(
        point.z,
    ) {
        Some(Vec3 { x: point.x as i32, y: point.y as i32, z: point.z as i32 })
    } else {
        None
    }
}

/// The scalar product of two vectors.
fn dot_product(a: &Vec3, b: &Vec3) -> (d: i128)
    ensures
        d == dot(a@, b@),
        -0xC000_0000_0000_0000 <= d <= 0xC000_0000_0000_0000,
{
    proof {
        lemma_product_bound(a.x as int, b.x as int);
        lemma_product_bound(a.y as int, b.y as int);
        lemma_product_bound(a.z as int, b.z as int);
    }
    (a.x as i128) * (b.x as i128) + (a.y as i128) * (b.y as i128) + (a.z as i128) * (b.z as i128)
}

/// The product of two coordinates has at most 62 bits.
proof fn lemma_product_bound(a: int, b: int)
    requires
        -0x8000_0000 <= a <= 0x8000_0000,
        -0x8000_0000 <= b <= 0x8000_0000,
    ensures
        -0x4000_0000_0000_0000 <= a * b <= 0x4000_0000_0000_0000,
{
    assert(-0x4000_0000_0000_0000 <= a * b <= 0x4000_0000_0000_0000) by (nonlinear_arith)
        requires
            -0x8000_0000 <= a <= 0x8000_0000,
            -0x8000_0000 <= b <= 0x8000_0000,
    ;
}

/// `start + step * t / d`, the quotient rounded towards zero, if that is a
/// coordinate.
fn advance(start: i32, step: i32, t: i128, d: i128) -> (c: Option<i32>)
    requires
        d != 0,
        -0xC000_0000_0000_0000 <= d <= 0xC000_0000_0000_0000,
        -0x1_8000_0000_0000_0000 <= t <= 0x1_8000_0000_0000_0000,
    ensures
        c matches Some(v) ==> v == start + div_toward_zero(step * t, d as int),
        c is Some <==> is_coordinate(start + div_toward_zero(step * t, d as int)),
{
    proof {
        assert(-0x8000_0000 * 0x1_8000_0000_0000_0000 <= step * t <= 0x8000_0000
            * 0x1_8000_0000_0000_0000) by (nonlinear_arith)
            requires
                -0x8000_0000 <= step <= 0x8000_0000,
                -0x1_8000_0000_0000_0000 <= t <= 0x1_8000_0000_0000_0000,
        ;
    }
    let num: i128 = (step as i128) * t;
    let num_mag: u128 = if num < 0 {
        (-num) as u128
    } else {
        num as u128
    };
    let den_mag: u128 = if d < 0 {
        (-d) as u128
    } else {
        d as u128
    };
    let q: u128 = num_mag / den_mag;
    if q > 0x1_0000_0000 {
        None
    } else {
        let way: i64 = if (num < 0) == (d < 0) {
            q as i64
        } else {
            -(q as i64)
        };
        let place: i64 = start as i64 + way;
        if place < i32::MIN as i64 || place > i32::MAX as i64 {
            None
        } else {
            Some(place as i32)
        }
    }
}

/// Calculates the point where a line meets a plane. The line goes through
/// `pv` along `dv`; the plane goes through `pp` and has the normal `np`.
/// There is no point where the line runs along the plane, nor where the point
/// lies beyond the range of coordinates.
pub fn plane_intersection(pv: Vec3, dv: Vec3, pp: Vec3, np: Vec3) -> (point: Option<Vec3>)
    ensures
        point == spec_plane_intersection(pv, dv, pp, np),
{
    let d = dot_product(&dv, &np);
    if d == 0 {
        return None;
    }
    let t = dot_product(&pp, &np) - dot_product(&pv, &np);
    let x = advance(pv.x, dv.x, t, d);
    let y = advance(pv.y, dv.y, t, d);
    let z = advance(pv.z, dv.z, t, d);
    match (x, y, z) {
        (Some(x), Some(y), Some(z)) => Some(Vec3 { x, y, z }),
        _ => None,
    }
}

/// The place on the ground that a pointer ray aims at: where the ray from
/// `ray.0` along `ray.1` meets the plane of height zero. There is none
/// without a ray or where the ray does not meet the ground within range.
pub open spec fn spec_mouse_hover_pos(ray: Option<(Vec3, Vec3)>) -> Option<Vec3> {
    match ray {
        Some((origin, direction)) => spec_plane_intersection(
            origin,
            direction,
            Vec3::zero(),
            Vec3 { x: 0, y: 1000, z: 0 },
        ),
        None => None,
    }
}

/// Finds the place on the ground that the pointer aims at, given the ray
/// from the camera through the pointer, if there is one.
pub fn update_mouse_hover_pos(ray: Option<(Vec3, Vec3)>) -> (mouse_pos: MousePosition)
    ensures
        mouse_pos.0 == spec_mouse_hover_pos(ray),
{
    match ray {
        Some((origin, direction)) => MousePosition(
            plane_intersection(
                origin,
                direction,
                Vec3 { x: 0, y: 0, z: 0 },
                Vec3 { x: 0, y: 1000, z: 0 },
            ),
        ),
        None => MousePosition(None),
    }
}

/// How the player's picture is turned.
#[derive(Clone, Copy, Debug, PartialEq, Eq, Structural)]
pub struct PlayerGfx {
    /// Whether the picture is turned around to look along x.
    pub turned: bool,
}

/// Which of the keys that move the player are held down.
#[derive(Clone, Copy, Debug, PartialEq, Eq, Structural)]
pub struct MoveKeys {
    /// Towards smaller z.
    pub up: bool,
    /// Towards larger z.
    pub down: bool,
    /// Towards smaller x.
    pub left: bool,
    /// Towards larger x.
    pub right: bool,
}

impl MoveKeys {
    /// The step along x that the keys ask for: one, none or one back.
    pub open spec fn step_x(self) -> int {
        (if self.right {
            1int
        } else {
            0int
        }) - (if self.left {
            1int
        } else {
            0int
        })
    }

    /// The step along z that the keys ask for.
    pub open spec fn step_z(self) -> int {
        (if self.down {
            1int
        } else {
            0int
        }) - (if self.up {
            1int
        } else {
            0int
        })
    }
}

/// Whether a place with the given x and z lies within the bounds that the
/// player may walk in: the play area and a margin around it, the edge not
/// included.
pub open spec fn in_player_bounds(x: int, z: int) -> bool {
    let reach = config::GROUND_SIZE / 2 + config::PLAYER_BOUNDS_MARGIN;
    -reach < x < reach && -reach < z < reach
}

/// The speed along one axis of a player who takes the step `step` along it
/// and the step `other` along the other axis: the player's full speed
/// straight on, and as much of it on a diagonal as keeps the speed the same.
pub open spec fn axis_speed(step: int, other: int) -> int {
    if other == 0 {
        step * config::PLAYER_SPEED
    } else {
        step * config::PLAYER_SPEED_DIAGONAL
    }
}

/// The velocity of the player under the keys `keys`. A step that would lead
/// out of bounds is not taken.
pub open spec fn spec_player_velocity(keys: MoveKeys, position: Vec3) -> Vec3 {
    if in_player_bounds(position.x + 1000 * keys.step_x(), position.z + 1000 * keys.step_z()) {
        Vec3 {
            x: axis_speed(keys.step_x(), keys.step_z()) as i32,
            y: 0,
            z: axis_speed(keys.step_z(), keys.step_x()) as i32,
        }
    } else {
        Vec3::zero()
    }
}

/// Decides how the player moves under the keys `keys`: with full speed in
/// the direction that the keys ask for, or not at all where a step of one
/// unit that way would lead out of bounds. The picture is turned to look the
/// way the player walks along x.
pub fn player_movement(
    keys: &MoveKeys,
    player: &Player,
    player_gfx: &mut PlayerGfx,
) -> (velocity: Vec3)
    ensures
        velocity == spec_player_velocity(*keys, player.position),
        final(player_gfx).turned == if velocity.x > 0 {
            true
        } else if velocity.x < 0 {
            false
        } else {
            old(player_gfx).turned
        },
{
    let mut step_x: i64 = 0;
    let mut step_z: i64 = 0;
    if keys.up {
        step_z = step_z - 1;
    }
    if keys.down {
        step_z = step_z + 1;
    }
    if keys.left {
        step_x = step_x - 1;
    }
    if keys.right {
        step_x = step_x + 1;
    }
    let reach: i64 = (config::GROUND_SIZE / 2 + config::PLAYER_BOUNDS_MARGIN) as i64;
    let new_x: i64 = player.position.x as i64 + 1000 * step_x;
    let new_z: i64 = player.position.z as i64 + 1000 * step_z;
    if new_x <= -reach || new_x >= reach || new_z <= -reach || new_z >= reach {
        step_x = 0;
        step_z = 0;
    }
    if step_x > 0 {
        player_gfx.turned = true;
    } else if step_x < 0 {
        player_gfx.turned = false;
    }
    let speed: i64 = if step_x != 0 && step_z != 0 {
        config::PLAYER_SPEED_DIAGONAL as i64
    } else {
        config::PLAYER_SPEED as i64
    };
    Vec3 { x: (step_x * speed) as i32, y: 0, z: (step_z * speed) as i32 }
}

} // verus!
