//! The registry as a mathematical value: what it holds, when that is consistent, and how
//! each lifecycle event changes it.

use crate::entity::{Entity, EntityHandles, EntitySpawn, PlayerEntity};
use crate::error::RegistryError;
use crate::identity::EntityKey;
use crate::kernel::{
    lemma_run_concat, lemma_run_keeps_objects, BodyHandle, ColliderHandle, KernelCommand,
    KernelHandles, KernelModel,
};
use crate::movement::Movement;
use vstd::prelude::*;

verus! {

/// `roster` without its entry `entry`: the last entry takes the freed place.
pub open spec fn swap_removed<A>(roster: Seq<A>, entry: A) -> Seq<A> {
    if roster.contains(entry) {
        roster.update(roster.index_of(entry), roster.last()).drop_last()
    } else {
        roster
    }
}

/// The four indexes of a registry.
pub struct RegistryView<T> {
    /// Identity map: every entity that exists, by identity.
    pub entities: Map<EntityKey, EntityHandles<T>>,
    /// Collider reverse index: the owner of each primary collider.
    pub colliders: Map<ColliderHandle, EntityKey>,
    /// Player roster: body and identity of every player, in no meaningful order.
    pub roster: Seq<(BodyHandle, EntityKey)>,
    /// Sensor index: the owner of each sensor collider.
    pub sensors: Map<ColliderHandle, EntityKey>,
}

impl<T> RegistryView<T> {
    /// The registry that holds nothing.
    pub open spec fn empty() -> Self {
        RegistryView {
            entities: Map::empty(),
            colliders: Map::empty(),
            roster: Seq::empty(),
            sensors: Map::empty(),
        }
    }

    /// The collider reverse index is the exact inverse of the records' primary colliders.
    pub open spec fn colliders_mirror_entities(self) -> bool {
        &&& forall|id: EntityKey| #[trigger]
            self.entities.contains_key(id) ==> self.colliders.contains_key(
                self.entities[id].collider_handle,
            ) && self.colliders[self.entities[id].collider_handle] == id
        &&& forall|c: ColliderHandle| #[trigger]
            self.colliders.contains_key(c) ==> self.entities.contains_key(self.colliders[c])
                && self.entities[self.colliders[c]].collider_handle == c
    }

    /// The roster holds the players, each once, and nothing else.
    pub open spec fn roster_lists_players(self) -> bool {
        &&& self.roster.no_duplicates()
        &&& forall|i: int|
            0 <= i < self.roster.len() ==> self.entities.contains_key((#[trigger] self.roster[i]).1)
                && self.entities[self.roster[i].1].entity is Player
                && self.entities[self.roster[i].1].body_handle == self.roster[i].0
        &&& forall|id: EntityKey| #[trigger]
            self.entities.contains_key(id) && self.entities[id].entity is Player
                ==> self.roster.contains((self.entities[id].body_handle, id))
    }

    /// The sensor index is the exact inverse of the records' sensor colliders.
    pub open spec fn sensors_mirror_beams(self) -> bool {
        &&& forall|id: EntityKey| #[trigger]
            self.entities.contains_key(id) ==> (self.entities[id].beam_handle matches Some(beam)
                ==> self.sensors.contains_key(beam) && self.sensors[beam] == id)
        &&& forall|s: ColliderHandle| #[trigger]
            self.sensors.contains_key(s) ==> self.entities.contains_key(self.sensors[s])
                && self.entities[self.sensors[s]].beam_handle == Some(s)
    }

    /// No kernel object serves two purposes: no body belongs to two entities, and no
    /// collider is both a primary shape and a sensor.
    pub open spec fn kernel_objects_unshared(self) -> bool {
        &&& forall|a: EntityKey, b: EntityKey|
            #![trigger self.entities[a], self.entities[b]]
            self.entities.contains_key(a) && self.entities.contains_key(b)
                && self.entities[a].body_handle == self.entities[b].body_handle ==> a == b
        &&& forall|c: ColliderHandle|
            !(#[trigger] self.colliders.contains_key(c) && self.sensors.contains_key(c))
    }

    /// The indexes agree with each other.
    pub open spec fn wf(self) -> bool {
        &&& self.entities.dom().finite()
        &&& self.colliders_mirror_entities()
        &&& self.roster_lists_players()
        &&& self.sensors_mirror_beams()
        &&& self.kernel_objects_unshared()
    }

    /// Some entity owns the body.
    pub open spec fn body_in_use(self, body: BodyHandle) -> bool {
        exists|id: EntityKey| #[trigger]
            self.entities.contains_key(id) && self.entities[id].body_handle == body
    }

    /// Some entity owns the collider, as its primary shape or as its sensor.
    pub open spec fn collider_in_use(self, collider: ColliderHandle) -> bool {
        self.colliders.contains_key(collider) || self.sensors.contains_key(collider)
    }

    /// None of the kernel objects belongs to a registered entity, and the sensor is not
    /// the primary shape.
    pub open spec fn handles_free(self, handles: KernelHandles) -> bool {
        &&& !self.collider_in_use(handles.collider_handle)
        &&& !self.body_in_use(handles.body_handle)
        &&& handles.beam_handle matches Some(beam) ==> beam != handles.collider_handle
            && !self.collider_in_use(beam)
    }

    /// Whether an entity with these kernel objects may be registered under `id`, and if
    /// not, why.
    pub open spec fn spawn_verdict(self, id: EntityKey, handles: KernelHandles) -> Result<
        (),
        RegistryError,
    > {
        if self.entities.contains_key(id) {
            Err(RegistryError::DuplicateIdentity)
        } else if !self.handles_free(handles) {
            Err(RegistryError::InvariantViolation)
        } else {
            Ok(())
        }
    }

    /// The registry after `record` was registered under `id`.
    pub open spec fn spawn(self, id: EntityKey, record: EntityHandles<T>) -> Self {
        RegistryView {
            entities: self.entities.insert(id, record),
            colliders: self.colliders.insert(record.collider_handle, id),
            roster: if record.entity is Player {
                self.roster.push((record.body_handle, id))
            } else {
                self.roster
            },
            sensors: match record.beam_handle {
                Some(beam) => self.sensors.insert(beam, id),
                None => self.sensors,
            },
        }
    }

    /// The registry after the entity `id` was removed; itself, where there is none.
    pub open spec fn remove(self, id: EntityKey) -> Self {
        if self.entities.contains_key(id) {
            let record = self.entities[id];
            RegistryView {
                entities: self.entities.remove(id),
                colliders: self.colliders.remove(record.collider_handle),
                roster: swap_removed(self.roster, (record.body_handle, id)),
                sensors: match record.beam_handle {
                    Some(beam) => self.sensors.remove(beam),
                    None => self.sensors,
                },
            }
        } else {
            self
        }
    }

    /// The bodies that the registered entities own.
    pub open spec fn live_bodies(self) -> Set<BodyHandle> {
        Set::new(|body: BodyHandle| self.body_in_use(body))
    }

    /// The colliders that the registered entities own.
    pub open spec fn live_colliders(self) -> Set<ColliderHandle> {
        Set::new(|collider: ColliderHandle| self.collider_in_use(collider))
    }

    /// The kernel holds the objects of the registered entities and no others.
    pub open spec fn in_step_with(self, kernel: KernelModel) -> bool {
        &&& kernel.bodies == self.live_bodies()
        &&& kernel.colliders == self.live_colliders()
    }

    /// The registry after the entities named in `order` were removed, one after the other.
    pub open spec fn without(self, order: Seq<EntityKey>) -> Self
        decreases order.len(),
    {
        if order.len() == 0 {
            self
        } else {
            self.without(order.drop_last()).remove(order.last())
        }
    }

    /// The movement input of the entity `id`; a registered player has one.
    pub open spec fn movement_of(self, id: EntityKey) -> Movement {
        match self.entities[id].entity.spec_movement() {
            Some(movement) => movement,
            None => Movement::Stop,
        }
    }

    /// How many players are registered.
    pub open spec fn player_count(self) -> nat {
        self.roster.len()
    }

    /// Whether the movement input of `id` may be set, and if not, why: it has to be a
    /// registered player.
    pub open spec fn steer_verdict(self, id: EntityKey) -> Result<(), RegistryError> {
        if !self.entities.contains_key(id) {
            Err(RegistryError::MissingEntity)
        } else if !(self.entities[id].entity is Player) {
            Err(RegistryError::InvariantViolation)
        } else {
            Ok(())
        }
    }

    /// The registry after the player `id` was given the movement input `movement`.
    pub open spec fn steer(self, id: EntityKey, movement: Movement) -> Self {
        RegistryView {
            entities: self.entities.insert(id, steered(self.entities[id], movement)),
            colliders: self.colliders,
            roster: self.roster,
            sensors: self.sensors,
        }
    }

    /// What the kernel has to do in one tick: wake each player and push it along its
    /// movement input, in roster order, then advance once.
    pub open spec fn step_commands(self) -> Seq<KernelCommand> {
        Seq::new(
            2 * self.roster.len() + 1,
            |i: int|
                if i == 2 * self.roster.len() {
                    KernelCommand::Advance
                } else if i % 2 == 0 {
                    KernelCommand::Activate(self.roster[i / 2].0)
                } else {
                    KernelCommand::Accelerate(
                        self.roster[i / 2].0,
                        self.movement_of(self.roster[i / 2].1),
                    )
                },
        )
    }

    /// The registry after the first `ids.len()` entities of `spawned` were registered, one
    /// after the other, under the identities `ids`.
    pub open spec fn spawn_all(
        self,
        ids: Seq<EntityKey>,
        spawned: Seq<(KernelHandles, EntitySpawn<T>)>,
    ) -> Self
        decreases ids.len(),
    {
        if ids.len() == 0 {
            self
        } else {
            let next = spawned[ids.len() - 1];
            self.spawn_all(ids.drop_last(), spawned).spawn(
                ids.last(),
                EntityHandles::spec_new(next.0, next.1),
            )
        }
    }

    /// Each of the first `ids.len()` entities of `spawned` was admitted when its turn came.
    pub open spec fn admits_all(
        self,
        ids: Seq<EntityKey>,
        spawned: Seq<(KernelHandles, EntitySpawn<T>)>,
    ) -> bool {
        forall|k: int|
            0 <= k < ids.len() ==> (#[trigger] self.spawn_all(ids.take(k), spawned)).spawn_verdict(
                ids[k],
                spawned[k].0,
            ) is Ok
    }
}

/// The record with its movement input replaced.
pub open spec fn steered<T>(record: EntityHandles<T>, movement: Movement) -> EntityHandles<T> {
    EntityHandles {
        collider_handle: record.collider_handle,
        body_handle: record.body_handle,
        beam_handle: record.beam_handle,
        entity: Entity::Player(PlayerEntity { movement }),
        data: record.data,
    }
}

/// How many of the described entities are players.
pub open spec fn players_among<T>(spawned: Seq<(KernelHandles, EntitySpawn<T>)>) -> nat
    decreases spawned.len(),
{
    if spawned.len() == 0 {
        0
    } else {
        players_among(spawned.drop_last()) + if spawned.last().1.entity is Player {
            1nat
        } else {
            0nat
        }
    }
}

/// What the kernel has to do to snap an entity to a pose and a velocity.
pub open spec fn snap_commands<T>(record: EntityHandles<T>) -> Seq<KernelCommand> {
    seq![
        KernelCommand::SetVelocity(record.body_handle),
        KernelCommand::SetPosition(record.collider_handle),
    ]
}

/// `order` names every registered identity once.
pub open spec fn lists_all<T>(order: Seq<EntityKey>, entities: Map<EntityKey, EntityHandles<T>>) -> bool {
    &&& order.no_duplicates()
    &&& forall|id: EntityKey| order.contains(id) <==> #[trigger] entities.contains_key(id)
}

/// What the kernel has to do when the entities named in `order` go, one after the other.
pub open spec fn teardown_commands<T>(
    entities: Map<EntityKey, EntityHandles<T>>,
    order: Seq<EntityKey>,
) -> Seq<KernelCommand>
    decreases order.len(),
{
    if order.len() == 0 {
        Seq::empty()
    } else {
        teardown_commands(entities, order.drop_last()) + removal_commands(entities[order.last()])
    }
}

/// What the kernel has to do to destroy the objects of one entity: the primary collider,
/// the body, then the sensor where there is one.
pub open spec fn removal_commands_of(handles: KernelHandles) -> Seq<KernelCommand> {
    let primary = seq![
        KernelCommand::RemoveCollider(handles.collider_handle),
        KernelCommand::RemoveBody(handles.body_handle),
    ];
    match handles.beam_handle {
        Some(beam) => primary.push(KernelCommand::RemoveCollider(beam)),
        None => primary,
    }
}

/// What the kernel has to do when the entity of `record` goes.
pub open spec fn removal_commands<T>(record: EntityHandles<T>) -> Seq<KernelCommand> {
    removal_commands_of(record.spec_handles())
}

/// Registering an entity that the registry admits keeps the indexes in agreement.
pub proof fn lemma_spawn_keeps_wf<T>(view: RegistryView<T>, id: EntityKey, record: EntityHandles<T>)
    requires
        view.wf(),
        view.spawn_verdict(id, record.spec_handles()) is Ok,
    ensures
        view.spawn(id, record).wf(),
        view.spawn(id, record).entities.len() == view.entities.len() + 1,
        view.spawn(id, record).player_count() == view.player_count() + if record.entity is Player {
            1nat
        } else {
            0nat
        },
{
    let after = view.spawn(id, record);
    assert(after.colliders_mirror_entities()) by {
        assert forall|c: ColliderHandle| #[trigger] after.colliders.contains_key(c) implies
            after.entities.contains_key(after.colliders[c])
            && after.entities[after.colliders[c]].collider_handle == c by {
            if c != record.collider_handle {
                assert(view.colliders.contains_key(c));
            }
        }
    }
    assert(after.sensors_mirror_beams()) by {
        assert forall|s: ColliderHandle| #[trigger] after.sensors.contains_key(s) implies
            after.entities.contains_key(after.sensors[s])
            && after.entities[after.sensors[s]].beam_handle == Some(s) by {
            if record.beam_handle != Some(s) {
                assert(view.sensors.contains_key(s));
            }
        }
    }
    assert(after.kernel_objects_unshared()) by {
        assert forall|a: EntityKey, b: EntityKey|
            #![trigger after.entities[a], after.entities[b]]
            after.entities.contains_key(a) && after.entities.contains_key(b)
                && after.entities[a].body_handle == after.entities[b].body_handle implies a
            == b by {
            if a != id {
                assert(view.entities.contains_key(a));
            }
            if b != id {
                assert(view.entities.contains_key(b));
            }
        }
    }
    assert(after.roster_lists_players()) by {
        if record.entity is Player {
            let entry = (record.body_handle, id);
            assert(!view.roster.contains(entry)) by {
                if view.roster.contains(entry) {
                    let i = view.roster.index_of(entry);
                    assert(view.entities.contains_key(view.roster[i].1));
                }
            }
            assert forall|i: int, j: int|
                0 <= i < after.roster.len() && 0 <= j < after.roster.len() && i != j implies
                after.roster[i] != after.roster[j] by {
                if i == view.roster.len() {
                    assert(view.roster.contains(after.roster[j]));
                }
                if j == view.roster.len() {
                    assert(view.roster.contains(after.roster[i]));
                }
            }
            assert forall|other: EntityKey| #[trigger]
                after.entities.contains_key(other) && after.entities[other].entity is Player implies
                after.roster.contains((after.entities[other].body_handle, other)) by {
                if other == id {
                    assert(after.roster[view.roster.len() as int] == entry);
                } else {
                    let e = (view.entities[other].body_handle, other);
                    assert(view.roster.contains(e));
                    let i = view.roster.index_of(e);
                    assert(after.roster[i] == e);
                }
            }
        } else {
            assert forall|other: EntityKey| #[trigger]
                after.entities.contains_key(other) && after.entities[other].entity is Player implies
                after.roster.contains((after.entities[other].body_handle, other)) by {
                assert(view.entities.contains_key(other));
            }
        }
    }
}

/// Removing an entity keeps the indexes in agreement, whether it was registered or not.
pub proof fn lemma_remove_keeps_wf<T>(view: RegistryView<T>, id: EntityKey)
    requires
        view.wf(),
    ensures
        view.remove(id).wf(),
        !view.remove(id).entities.contains_key(id),
        view.entities.contains_key(id) ==> view.remove(id).entities.len() + 1
            == view.entities.len(),
{
    if view.entities.contains_key(id) {
        let record = view.entities[id];
        let entry = (record.body_handle, id);
        let after = view.remove(id);
        assert(after.colliders_mirror_entities()) by {
            assert forall|other: EntityKey| #[trigger] after.entities.contains_key(other) implies
                after.colliders.contains_key(after.entities[other].collider_handle)
                && after.colliders[after.entities[other].collider_handle] == other by {
                assert(view.entities.contains_key(other));
            }
            assert forall|c: ColliderHandle| #[trigger] after.colliders.contains_key(c) implies
                after.entities.contains_key(after.colliders[c])
                && after.entities[after.colliders[c]].collider_handle == c by {
                assert(view.colliders.contains_key(c));
            }
        }
        assert(after.sensors_mirror_beams()) by {
            assert forall|other: EntityKey| #[trigger] after.entities.contains_key(other) implies (
            after.entities[other].beam_handle matches Some(beam) ==> after.sensors.contains_key(
                beam,
            ) && after.sensors[beam] == other) by {
                assert(view.entities.contains_key(other));
            }
            assert forall|s: ColliderHandle| #[trigger] after.sensors.contains_key(s) implies
                after.entities.contains_key(after.sensors[s])
                && after.entities[after.sensors[s]].beam_handle == Some(s) by {
                assert(view.sensors.contains_key(s));
            }
        }
        assert(after.kernel_objects_unshared()) by {
            assert forall|c: ColliderHandle|
                !(#[trigger] after.colliders.contains_key(c) && after.sensors.contains_key(
                    c,
                )) by {
                if after.colliders.contains_key(c) && after.sensors.contains_key(c) {
                    assert(view.colliders.contains_key(c));
                    assert(view.sensors.contains_key(c));
                }
            }
        }
        assert(after.roster_lists_players()) by {
            lemma_swap_removed(view.roster, entry);
            assert forall|i: int| 0 <= i < after.roster.len() implies after.entities.contains_key(
                (#[trigger] after.roster[i]).1,
            ) && after.entities[after.roster[i].1].entity is Player
                && after.entities[after.roster[i].1].body_handle == after.roster[i].0 by {
                let e = after.roster[i];
                assert(after.roster.contains(e));
                assert(view.roster.contains(e));
                let j = view.roster.index_of(e);
                assert(view.entities.contains_key(view.roster[j].1));
            }
            assert forall|other: EntityKey| #[trigger]
                after.entities.contains_key(other) && after.entities[other].entity is Player implies
                after.roster.contains((after.entities[other].body_handle, other)) by {
                assert(view.entities.contains_key(other));
            }
        }
    }
}

/// What `swap_removed` leaves: every other entry, and no duplicates where there were none.
pub proof fn lemma_swap_removed<A>(roster: Seq<A>, entry: A)
    requires
        roster.no_duplicates(),
    ensures
        swap_removed(roster, entry).no_duplicates(),
        forall|other: A|
            #[trigger] swap_removed(roster, entry).contains(other) <==> (roster.contains(other)
                && other != entry),
        swap_removed(roster, entry).len() == roster.len() - if roster.contains(entry) {
            1int
        } else {
            0int
        },
{
    let after = swap_removed(roster, entry);
    if roster.contains(entry) {
        let at = roster.index_of(entry);
        let last = roster.len() - 1;
        assert forall|other: A| #[trigger] after.contains(other) implies roster.contains(other)
            && other != entry by {
            let i = after.index_of(other);
            if i == at {
                assert(after[i] == roster[last]);
            } else {
                assert(after[i] == roster[i]);
            }
        }
        assert forall|other: A| roster.contains(other) && other != entry implies #[trigger]
            after.contains(other) by {
            let i = roster.index_of(other);
            if i == last {
                assert(after[at] == other);
            } else {
                assert(after[i] == other);
            }
        }
    }
}

/// Giving a player another movement input keeps the indexes in agreement.
pub proof fn lemma_steer_keeps_wf<T>(view: RegistryView<T>, id: EntityKey, movement: Movement)
    requires
        view.wf(),
        view.steer_verdict(id) is Ok,
    ensures
        view.steer(id, movement).wf(),
        view.steer(id, movement).movement_of(id) == movement,
        view.steer(id, movement).entities.dom() == view.entities.dom(),
{
    let after = view.steer(id, movement);
    assert(after.entities.dom() =~= view.entities.dom());
    assert forall|other: EntityKey| #[trigger] after.entities.contains_key(other) implies
        view.entities.contains_key(other) && after.entities[other].spec_handles()
        == view.entities[other].spec_handles() && (after.entities[other].entity is Player
        <==> view.entities[other].entity is Player) by {}
    assert(after.colliders_mirror_entities()) by {
        assert forall|c: ColliderHandle| #[trigger] after.colliders.contains_key(c) implies
            after.entities.contains_key(after.colliders[c])
            && after.entities[after.colliders[c]].collider_handle == c by {
            assert(view.entities.contains_key(view.colliders[c]));
        }
    }
    assert(after.sensors_mirror_beams()) by {
        assert forall|s: ColliderHandle| #[trigger] after.sensors.contains_key(s) implies
            after.entities.contains_key(after.sensors[s])
            && after.entities[after.sensors[s]].beam_handle == Some(s) by {
            assert(view.entities.contains_key(view.sensors[s]));
        }
    }
    assert(after.kernel_objects_unshared()) by {
        assert forall|a: EntityKey, b: EntityKey|
            #![trigger after.entities[a], after.entities[b]]
            after.entities.contains_key(a) && after.entities.contains_key(b)
                && after.entities[a].body_handle == after.entities[b].body_handle implies a
            == b by {
            assert(view.entities[a].body_handle == view.entities[b].body_handle);
        }
    }
    assert(after.roster_lists_players()) by {
        assert forall|i: int| 0 <= i < after.roster.len() implies after.entities.contains_key(
            (#[trigger] after.roster[i]).1,
        ) && after.entities[after.roster[i].1].entity is Player
            && after.entities[after.roster[i].1].body_handle == after.roster[i].0 by {
            assert(view.entities.contains_key(view.roster[i].1));
        }
    }
}

/// Where the kernel creates the objects of an entity and the registry then admits it, the
/// two still hold the same objects.
pub proof fn lemma_spawn_stays_in_step<T>(
    view: RegistryView<T>,
    kernel: KernelModel,
    id: EntityKey,
    record: EntityHandles<T>,
)
    requires
        view.wf(),
        view.in_step_with(kernel),
        view.spawn_verdict(id, record.spec_handles()) is Ok,
    ensures
        view.spawn(id, record).in_step_with(kernel.create(record.spec_handles())),
{
    let after = view.spawn(id, record);
    let grown = kernel.create(record.spec_handles());
    assert forall|body: BodyHandle| grown.bodies.contains(body) <==> after.body_in_use(body) by {
        if grown.bodies.contains(body) {
            if body == record.body_handle {
                assert(after.entities.contains_key(id));
            } else {
                let owner = choose|owner: EntityKey| #[trigger]
                    view.entities.contains_key(owner) && view.entities[owner].body_handle
                        == body;
                assert(after.entities.contains_key(owner));
            }
        }
        if after.body_in_use(body) {
            let owner = choose|owner: EntityKey| #[trigger]
                after.entities.contains_key(owner) && after.entities[owner].body_handle == body;
            if owner != id {
                assert(view.entities.contains_key(owner));
            }
        }
    }
    assert(grown.bodies =~= after.live_bodies());
    assert(grown.colliders =~= after.live_colliders());
}

/// Where the registry removes an entity and the kernel performs what the removal calls
/// for, the two still hold the same objects.
pub proof fn lemma_remove_stays_in_step<T>(view: RegistryView<T>, kernel: KernelModel, id: EntityKey)
    requires
        view.wf(),
        view.in_step_with(kernel),
        view.entities.contains_key(id),
    ensures
        view.remove(id).in_step_with(kernel.run(removal_commands(view.entities[id]))),
{
    let record = view.entities[id];
    let after = view.remove(id);
    let commands = removal_commands(record);
    let first = kernel.apply(KernelCommand::RemoveCollider(record.collider_handle));
    let second = first.apply(KernelCommand::RemoveBody(record.body_handle));
    let primary = seq![
        KernelCommand::RemoveCollider(record.collider_handle),
        KernelCommand::RemoveBody(record.body_handle),
    ];
    assert(kernel.run(primary) == second) by {
        assert(primary.drop_last() =~= seq![KernelCommand::RemoveCollider(record.collider_handle)]);
        assert(primary.drop_last().drop_last() =~= Seq::<KernelCommand>::empty());
        assert(kernel.run(primary.drop_last().drop_last()) == kernel);
        assert(kernel.run(primary.drop_last()) == first);
    }
    let shrunk = kernel.run(commands);
    match record.beam_handle {
        Some(beam) => {
            assert(commands.drop_last() =~= primary);
            assert(shrunk == second.apply(KernelCommand::RemoveCollider(beam)));
        },
        None => {
            assert(shrunk == second);
        },
    }
    assert forall|body: BodyHandle| shrunk.bodies.contains(body) <==> after.body_in_use(body) by {
        if shrunk.bodies.contains(body) {
            let owner = choose|owner: EntityKey| #[trigger]
                view.entities.contains_key(owner) && view.entities[owner].body_handle == body;
            assert(owner != id);
            assert(after.entities.contains_key(owner));
        }
        if after.body_in_use(body) {
            let owner = choose|owner: EntityKey| #[trigger]
                after.entities.contains_key(owner) && after.entities[owner].body_handle == body;
            assert(view.entities.contains_key(owner));
        }
    }
    assert(shrunk.bodies =~= after.live_bodies());
    assert forall|c: ColliderHandle| shrunk.colliders.contains(c) <==> after.collider_in_use(
        c,
    ) by {
        if view.colliders.contains_key(c) {
            assert(view.entities.contains_key(view.colliders[c]));
        }
        if view.sensors.contains_key(c) {
            assert(view.entities.contains_key(view.sensors[c]));
        }
    }
    assert(shrunk.colliders =~= after.live_colliders());
}

/// A tick creates and destroys nothing and advances the kernel by exactly one timestep,
/// however many players there are, none included.
pub proof fn lemma_step_advances_once<T>(view: RegistryView<T>, kernel: KernelModel)
    ensures
        kernel.run(view.step_commands()).ticks == kernel.ticks + 1,
        kernel.run(view.step_commands()).bodies == kernel.bodies,
        kernel.run(view.step_commands()).colliders == kernel.colliders,
        view.roster.len() == 0 ==> view.step_commands() == seq![KernelCommand::Advance],
{
    let commands = view.step_commands();
    lemma_run_keeps_objects(kernel, commands.drop_last());
    assert(commands.last() == KernelCommand::Advance);
    if view.roster.len() == 0 {
        assert(commands =~= seq![KernelCommand::Advance]);
    }
}

/// In a tick, a player whose movement input is `Stop` is pushed along no direction: the
/// command for it adds nothing to what any body was pushed by.
pub proof fn lemma_step_leaves_stopped_players<T>(view: RegistryView<T>, kernel: KernelModel, i: int)
    requires
        0 <= i < view.roster.len(),
        view.movement_of(view.roster[i].1) == Movement::Stop,
    ensures
        view.step_commands()[2 * i] == KernelCommand::Activate(view.roster[i].0),
        view.step_commands()[2 * i + 1] == KernelCommand::Accelerate(
            view.roster[i].0,
            Movement::Stop,
        ),
        forall|body: BodyHandle|
            kernel.apply(view.step_commands()[2 * i]).apply(view.step_commands()[2 * i + 1]).pushed(
                body,
            ) == kernel.pushed(body),
{
}

/// Snapping an entity to a pose and a velocity creates and destroys nothing.
pub proof fn lemma_snap_keeps_objects<T>(kernel: KernelModel, record: EntityHandles<T>)
    ensures
        kernel.run(snap_commands(record)).bodies == kernel.bodies,
        kernel.run(snap_commands(record)).colliders == kernel.colliders,
        kernel.run(snap_commands(record)).ticks == kernel.ticks,
{
    lemma_run_keeps_objects(kernel, snap_commands(record));
}

/// Removing several registered entities one after the other, the kernel performing what
/// each removal calls for, keeps the indexes in agreement and the kernel in step, and
/// leaves the other entities as they were.
pub proof fn lemma_teardown_stays_in_step<T>(
    view: RegistryView<T>,
    kernel: KernelModel,
    order: Seq<EntityKey>,
)
    requires
        view.wf(),
        view.in_step_with(kernel),
        order.no_duplicates(),
        forall|i: int| 0 <= i < order.len() ==> view.entities.contains_key(#[trigger] order[i]),
    ensures
        view.without(order).wf(),
        view.without(order).in_step_with(kernel.run(teardown_commands(view.entities, order))),
        forall|id: EntityKey| #[trigger]
            view.without(order).entities.contains_key(id) <==> view.entities.contains_key(id)
                && !order.contains(id),
        forall|id: EntityKey| #[trigger]
            view.without(order).entities.contains_key(id) ==> view.without(order).entities[id]
                == view.entities[id],
    decreases order.len(),
{
    if order.len() > 0 {
        let earlier = order.drop_last();
        let last = order.last();
        lemma_teardown_stays_in_step(view, kernel, earlier);
        let mid = view.without(earlier);
        let mid_kernel = kernel.run(teardown_commands(view.entities, earlier));
        assert(!earlier.contains(last)) by {
            if earlier.contains(last) {
                let i = earlier.index_of(last);
                assert(order[i] == order[order.len() - 1]);
            }
        }
        assert(view.entities.contains_key(order[order.len() - 1]));
        assert(mid.entities.contains_key(last));
        lemma_remove_keeps_wf(mid, last);
        lemma_remove_stays_in_step(mid, mid_kernel, last);
        lemma_run_concat(
            kernel,
            teardown_commands(view.entities, earlier),
            removal_commands(view.entities[last]),
        );
        let after = view.without(order);
        assert(after == mid.remove(last));
        assert forall|id: EntityKey| #[trigger]
            after.entities.contains_key(id) <==> view.entities.contains_key(id)
                && !order.contains(id) by {
            if order.contains(id) && id != last {
                let i = order.index_of(id);
                assert(earlier[i] == id);
            }
            if earlier.contains(id) {
                let i = earlier.index_of(id);
                assert(order[i] == id);
            }
            assert(mid.entities.contains_key(id) <==> view.entities.contains_key(id)
                && !earlier.contains(id));
        }
        assert forall|id: EntityKey| #[trigger] after.entities.contains_key(id) implies
            after.entities[id] == view.entities[id] by {
            assert(mid.entities.contains_key(id));
        }
    }
}

/// Where the kernel performs what clearing the registry calls for, nothing is left alive
/// in it.
pub proof fn lemma_clear_empties_kernel<T>(
    view: RegistryView<T>,
    kernel: KernelModel,
    order: Seq<EntityKey>,
)
    requires
        view.wf(),
        view.in_step_with(kernel),
        lists_all(order, view.entities),
    ensures
        kernel.run(teardown_commands(view.entities, order)).bodies == Set::<BodyHandle>::empty(),
        kernel.run(teardown_commands(view.entities, order)).colliders == Set::<
            ColliderHandle,
        >::empty(),
        RegistryView::<T>::empty().in_step_with(
            kernel.run(teardown_commands(view.entities, order)),
        ),
{
    assert forall|i: int| 0 <= i < order.len() implies view.entities.contains_key(
        #[trigger] order[i],
    ) by {
        assert(order.contains(order[i]));
    }
    lemma_teardown_stays_in_step(view, kernel, order);
    let after = view.without(order);
    let emptied = kernel.run(teardown_commands(view.entities, order));
    assert forall|id: EntityKey| !after.entities.contains_key(id) by {}
    assert forall|c: ColliderHandle| !after.collider_in_use(c) by {
        if after.colliders.contains_key(c) {
            assert(after.entities.contains_key(after.colliders[c]));
        }
        if after.sensors.contains_key(c) {
            assert(after.entities.contains_key(after.sensors[c]));
        }
    }
    assert(emptied.bodies =~= Set::<BodyHandle>::empty());
    assert(emptied.colliders =~= Set::<ColliderHandle>::empty());
    let nothing = RegistryView::<T>::empty();
    assert(nothing.live_bodies() =~= Set::<BodyHandle>::empty());
    assert(nothing.live_colliders() =~= Set::<ColliderHandle>::empty());
}

/// A request to change what is registered.
pub enum LifecycleEvent<T> {
    /// Register the record under the identity.
    Spawn(EntityKey, EntityHandles<T>),
    /// Remove the entity of the identity.
    Remove(EntityKey),
}

impl<T> RegistryView<T> {
    /// The registry after the event: a spawn that is not admitted and a removal of what
    /// is not there change nothing.
    pub open spec fn after(self, event: LifecycleEvent<T>) -> Self {
        match event {
            LifecycleEvent::Spawn(id, record) => if self.spawn_verdict(
                id,
                record.spec_handles(),
            ) is Ok {
                self.spawn(id, record)
            } else {
                self
            },
            LifecycleEvent::Remove(id) => self.remove(id),
        }
    }

    /// The registry after the events, first to last.
    pub open spec fn after_all(self, events: Seq<LifecycleEvent<T>>) -> Self
        decreases events.len(),
    {
        if events.len() == 0 {
            self
        } else {
            self.after_all(events.drop_last()).after(events.last())
        }
    }
}

/// Whatever spawns and removals are asked for, in whatever order, the indexes agree after
/// each of them, and no identity is ever registered over another.
pub proof fn lemma_history_keeps_wf<T>(view: RegistryView<T>, events: Seq<LifecycleEvent<T>>)
    requires
        view.wf(),
    ensures
        view.after_all(events).wf(),
        forall|n: int| 0 <= n <= events.len() ==> (#[trigger] view.after_all(events.take(n))).wf(),
    decreases events.len(),
{
    if events.len() > 0 {
        let earlier = events.drop_last();
        lemma_history_keeps_wf(view, earlier);
        let mid = view.after_all(earlier);
        match events.last() {
            LifecycleEvent::Spawn(id, record) => {
                if mid.spawn_verdict(id, record.spec_handles()) is Ok {
                    lemma_spawn_keeps_wf(mid, id, record);
                }
            },
            LifecycleEvent::Remove(id) => {
                lemma_remove_keeps_wf(mid, id);
            },
        }
        assert forall|n: int| 0 <= n <= events.len() implies (#[trigger] view.after_all(
            events.take(n),
        )).wf() by {
            if n < events.len() {
                assert(events.take(n) =~= earlier.take(n));
            } else {
                assert(events.take(n) =~= events);
            }
        }
    } else {
        assert forall|n: int| 0 <= n <= events.len() implies (#[trigger] view.after_all(
            events.take(n),
        )).wf() by {
            assert(events.take(n) =~= events);
        }
    }
}

/// The registry that holds nothing is consistent, and in step with a kernel that holds
/// nothing.
pub proof fn lemma_empty_is_wf<T>()
    ensures
        RegistryView::<T>::empty().wf(),
        RegistryView::<T>::empty().live_bodies() == Set::<BodyHandle>::empty(),
        RegistryView::<T>::empty().live_colliders() == Set::<ColliderHandle>::empty(),
{
    let nothing = RegistryView::<T>::empty();
    assert(nothing.live_bodies() =~= Set::<BodyHandle>::empty());
    assert(nothing.live_colliders() =~= Set::<ColliderHandle>::empty());
}

/// There are no more players among the described entities than entities, and none where
/// no entity is a player.
pub proof fn lemma_players_among_bounds<T>(spawned: Seq<(KernelHandles, EntitySpawn<T>)>)
    ensures
        players_among(spawned) <= spawned.len(),
        (forall|i: int| 0 <= i < spawned.len() ==> !((#[trigger] spawned[i]).1.entity is Player))
            ==> players_among(spawned) == 0,
        (forall|i: int| 0 <= i < spawned.len() ==> (#[trigger] spawned[i]).1.entity is Player)
            ==> players_among(spawned) == spawned.len(),
    decreases spawned.len(),
{
    if spawned.len() > 0 {
        lemma_players_among_bounds(spawned.drop_last());
        assert(forall|i: int|
            0 <= i < spawned.len() - 1 ==> spawned.drop_last()[i] == spawned[i]);
        assert(spawned.last() == spawned[spawned.len() - 1]);
    }
}

/// Removing an entity twice is removing it once: the second removal finds nothing and
/// changes nothing.
pub proof fn lemma_remove_is_idempotent<T>(view: RegistryView<T>, id: EntityKey)
    ensures
        !view.remove(id).entities.contains_key(id),
        view.remove(id).remove(id) == view.remove(id),
{
}

} // verus!
