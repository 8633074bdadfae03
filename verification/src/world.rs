//! The registry of the entities of one simulated world.

use crate::entity::{Entity, EntityHandles, EntitySpawn, PlayerEntity};
use crate::error::RegistryError;
use crate::identity::{random_uuid, uuid_to_key, EntityKey};
use crate::kernel::{BodyHandle, ColliderHandle, KernelCommand, KernelHandles};
use crate::model::{
    lemma_remove_keeps_wf, lemma_spawn_keeps_wf, lemma_steer_keeps_wf, lists_all, players_among,
    removal_commands, removal_commands_of, snap_commands, teardown_commands, RegistryView,
};
use crate::movement::Movement;
use std::collections::BTreeMap;
use vstd::prelude::*;
use vstd::std_specs::btree::spec_btree_map_iter;
use vstd::std_specs::iter::IteratorSpec;

verus! {

/// Whether two kernel tokens are the same.
pub fn same_handle(a: (usize, u64), b: (usize, u64)) -> (same: bool)
    ensures
        same == (a == b),
{
    a.0 == b.0 && a.1 == b.1
}

/// Where in the roster the entry of the body and the identity stands, if it is there.
fn find_entry(roster: &Vec<(BodyHandle, EntityKey)>, body: BodyHandle, id: EntityKey) -> (at: Option<
    usize,
>)
    ensures
        match at {
            Some(i) => i < roster@.len() && roster@[i as int] == (body, id),
            None => !roster@.contains((body, id)),
        },
{
    let mut i: usize = 0;
    while i < roster.len()
        invariant
            i <= roster@.len(),
            forall|j: int| 0 <= j < i ==> roster@[j] != (body, id),
        decreases roster@.len() - i,
    {
        let entry = roster[i];
        if same_handle(entry.0, body) && entry.1 == id {
            return Some(i);
        }
        i += 1;
    }
    None
}

/// Appends to `commands` what the kernel has to do when the entity of `handles` goes.
fn push_removal(commands: &mut Vec<KernelCommand>, handles: KernelHandles)
    ensures
        final(commands)@ == old(commands)@ + removal_commands_of(handles),
{
    commands.push(KernelCommand::RemoveCollider(handles.collider_handle));
    commands.push(KernelCommand::RemoveBody(handles.body_handle));
    if let Some(beam) = handles.beam_handle {
        commands.push(KernelCommand::RemoveCollider(beam));
    }
    assert(commands@ =~= old(commands)@ + removal_commands_of(handles));
}

/// What [`initialize`](PhysicsWorldInner::initialize) did.
#[derive(Debug)]
pub struct Initialized {
    /// The identities given to the entities that were registered, in their order.
    pub identities: Vec<EntityKey>,
    /// Why the entity after those was refused, and the identity drawn for it; `None`
    /// where every entity was registered.
    pub failure: Option<(EntityKey, RegistryError)>,
}

/// Binds entity identities to kernel objects. Of all the values of this type that a
/// program can hold, the indexes agree: see [`RegistryView::wf`].
pub struct PhysicsWorldInner<T = ()> {
    /// Maps identities to the kernel objects and the data of their entities.
    uuid_map: BTreeMap<EntityKey, EntityHandles<T>>,
    /// Maps primary colliders to the identities that own them.
    handle_map: BTreeMap<ColliderHandle, EntityKey>,
    /// The players, to apply their movement input each tick.
    user_handles: Vec<(BodyHandle, EntityKey)>,
    /// Maps the colliders of beam sensors to the identities that own them.
    beam_sensors: BTreeMap<ColliderHandle, EntityKey>,
}

impl<T> View for PhysicsWorldInner<T> {
    type V = RegistryView<T>;

    closed spec fn view(&self) -> RegistryView<T> {
        RegistryView {
            entities: self.uuid_map@,
            colliders: self.handle_map@,
            roster: self.user_handles@,
            sensors: self.beam_sensors@,
        }
    }
}

impl<T> PhysicsWorldInner<T> {
    #[verifier::type_invariant]
    spec fn consistent(self) -> bool {
        self@.wf()
    }

    /// A registry that holds nothing.
    pub fn new() -> (world: Self)
        ensures
            world@ == RegistryView::<T>::empty(),
            world@.wf(),
    {
        PhysicsWorldInner {
            uuid_map: BTreeMap::new(),
            handle_map: BTreeMap::new(),
            user_handles: Vec::new(),
            beam_sensors: BTreeMap::new(),
        }
    }

    /// Whether some registered entity owns the body.
    fn body_in_use(&self, body: BodyHandle) -> (used: bool)
        ensures
            used == self@.body_in_use(body),
    {
        let ghost entities = self.uuid_map@;
        let ghost listed = spec_btree_map_iter(&self.uuid_map).remaining();
        for entry in it: self.uuid_map.iter()
            invariant
                entities == self.uuid_map@,
                listed == spec_btree_map_iter(&self.uuid_map).remaining(),
                it.seq() == listed,
                forall|i: int| 0 <= i < it.index() ==> (#[trigger] listed[i]).1.body_handle != body,
        {
            if same_handle(entry.1.body_handle, body) {
                proof {
                    let i = it.index();
                    assert(listed[i] == entry);
                    assert(entities.contains_key(*listed[i].0));
                }
                return true;
            }
        }
        proof {
            assert forall|id: EntityKey| #[trigger] entities.contains_key(id) implies entities[id].body_handle
                != body by {
                assert(listed.contains((&id, &entities[id])));
                let i = choose|i: int| 0 <= i < listed.len() && listed[i] == (&id, &entities[id]);
                assert(listed[i].1.body_handle != body);
            }
        }
        false
    }

    /// Whether some registered entity owns the collider.
    fn collider_in_use(&self, collider: ColliderHandle) -> (used: bool)
        ensures
            used == self@.collider_in_use(collider),
    {
        self.handle_map.contains_key(&collider) || self.beam_sensors.contains_key(&collider)
    }

    /// Whether an entity with these kernel objects may be registered under `entity_id`.
    pub fn spawn_verdict(&self, entity_id: EntityKey, handles: KernelHandles) -> (verdict: Result<
        (),
        RegistryError,
    >)
        ensures
            verdict == self@.spawn_verdict(entity_id, handles),
    {
        if self.uuid_map.contains_key(&entity_id) {
            return Err(RegistryError::DuplicateIdentity);
        }
        let beam_free = match handles.beam_handle {
            Some(beam) => !same_handle(beam, handles.collider_handle) && !self.collider_in_use(beam),
            None => true,
        };
        if self.collider_in_use(handles.collider_handle) || !beam_free || self.body_in_use(
            handles.body_handle,
        ) {
            return Err(RegistryError::InvariantViolation);
        }
        Ok(())
    }

    /// Registers the entity that `entity_data` describes under `entity_id`, once the kernel
    /// has created its objects and issued `handles` for them.
    ///
    /// An identity that is taken is refused as `DuplicateIdentity`. Kernel objects that a
    /// registered entity already owns, or a sensor that is also the primary shape, are
    /// refused as `InvariantViolation`.
    pub fn spawn_entity(
        &mut self,
        entity_id: EntityKey,
        handles: KernelHandles,
        entity_data: EntitySpawn<T>,
    ) -> (result: Result<(), RegistryError>)
        ensures
            final(self)@.wf(),
            result == old(self)@.spawn_verdict(entity_id, handles),
            result is Ok ==> final(self)@ == old(self)@.spawn(
                entity_id,
                EntityHandles::spec_new(handles, entity_data),
            ),
            result is Err ==> final(self)@ == old(self)@,
    {
        proof {
            use_type_invariant(&*self);
        }
        let verdict = self.spawn_verdict(entity_id, handles);
        if verdict.is_err() {
            return verdict;
        }
        let record = EntityHandles::new(handles, entity_data);
        let is_player = record.entity.is_player();
        let ghost before = self@;
        proof {
            lemma_spawn_keeps_wf(before, entity_id, record);
        }
        let mut taken = PhysicsWorldInner::new();
        std::mem::swap(self, &mut taken);
        let PhysicsWorldInner { mut uuid_map, mut handle_map, mut user_handles, mut beam_sensors } =
            taken;
        handle_map.insert(handles.collider_handle, entity_id);
        if let Some(beam) = handles.beam_handle {
            beam_sensors.insert(beam, entity_id);
        }
        if is_player {
            user_handles.push((handles.body_handle, entity_id));
        }
        uuid_map.insert(entity_id, record);
        *self = PhysicsWorldInner { uuid_map, handle_map, user_handles, beam_sensors };
        Ok(())
    }

    /// Whether an entity is registered under the identity.
    pub fn contains(&self, entity_id: &EntityKey) -> (found: bool)
        ensures
            found == self@.entities.contains_key(*entity_id),
    {
        self.uuid_map.contains_key(entity_id)
    }

    /// How many entities are registered.
    pub fn len(&self) -> (count: usize)
        ensures
            count == self@.entities.len(),
            self@.wf(),
    {
        proof {
            use_type_invariant(self);
        }
        self.uuid_map.len()
    }

    /// Whether nothing is registered.
    pub fn is_empty(&self) -> (empty: bool)
        ensures
            empty == (self@.entities.len() == 0),
            empty == (self@ == RegistryView::<T>::empty()),
            self@.wf(),
    {
        proof {
            use_type_invariant(self);
            if self@.entities.len() == 0 {
                assert(self@.entities =~= Map::empty());
                assert(self@.colliders =~= Map::empty()) by {
                    assert forall|c: ColliderHandle| !self@.colliders.contains_key(c) by {
                        if self@.colliders.contains_key(c) {
                            assert(self@.entities.contains_key(self@.colliders[c]));
                        }
                    }
                }
                assert(self@.sensors =~= Map::empty()) by {
                    assert forall|c: ColliderHandle| !self@.sensors.contains_key(c) by {
                        if self@.sensors.contains_key(c) {
                            assert(self@.entities.contains_key(self@.sensors[c]));
                        }
                    }
                }
                assert(self@.roster =~= Seq::empty()) by {
                    if self@.roster.len() > 0 {
                        assert(self@.entities.contains_key(self@.roster[0].1));
                    }
                }
            }
        }
        self.uuid_map.len() == 0
    }

    /// How many players are registered.
    pub fn player_count(&self) -> (count: usize)
        ensures
            count == self@.player_count(),
    {
        self.user_handles.len()
    }

    /// The record of the entity registered under the identity.
    pub fn get(&self, entity_id: &EntityKey) -> (record: Option<&EntityHandles<T>>)
        ensures
            match record {
                Some(found) => self@.entities.contains_key(*entity_id) && *found
                    == self@.entities[*entity_id],
                None => !self@.entities.contains_key(*entity_id),
            },
    {
        self.uuid_map.get(entity_id)
    }

    /// The identity that owns the primary collider.
    pub fn collider_owner(&self, collider: &ColliderHandle) -> (owner: Option<EntityKey>)
        ensures
            match owner {
                Some(id) => self@.colliders.contains_key(*collider) && id
                    == self@.colliders[*collider],
                None => !self@.colliders.contains_key(*collider),
            },
    {
        match self.handle_map.get(collider) {
            Some(id) => Some(*id),
            None => None,
        }
    }

    /// The identity that owns the sensor collider.
    pub fn sensor_owner(&self, sensor: &ColliderHandle) -> (owner: Option<EntityKey>)
        ensures
            match owner {
                Some(id) => self@.sensors.contains_key(*sensor) && id == self@.sensors[*sensor],
                None => !self@.sensors.contains_key(*sensor),
            },
    {
        match self.beam_sensors.get(sensor) {
            Some(id) => Some(*id),
            None => None,
        }
    }

    /// Whether the roster lists the body as that of the player `entity_id`.
    pub fn is_listed_player(&self, body: BodyHandle, entity_id: EntityKey) -> (listed: bool)
        ensures
            listed == self@.roster.contains((body, entity_id)),
    {
        find_entry(&self.user_handles, body, entity_id).is_some()
    }

    /// Removes the entity from every index and says what the kernel has to destroy.
    ///
    /// An identity that is not registered is reported as `MissingEntity`, and nothing
    /// changes.
    pub fn remove_entity(&mut self, entity_id: &EntityKey) -> (result: Result<
        Vec<KernelCommand>,
        RegistryError,
    >)
        ensures
            final(self)@.wf(),
            final(self)@ == old(self)@.remove(*entity_id),
            match result {
                Ok(commands) => old(self)@.entities.contains_key(*entity_id) && commands@
                    == removal_commands(old(self)@.entities[*entity_id]),
                Err(error) => error == RegistryError::MissingEntity
                    && !old(self)@.entities.contains_key(*entity_id),
            },
    {
        proof {
            use_type_invariant(&*self);
        }
        if !self.uuid_map.contains_key(entity_id) {
            return Err(RegistryError::MissingEntity);
        }
        let ghost before = self@;
        proof {
            lemma_remove_keeps_wf(before, *entity_id);
        }
        let mut taken = PhysicsWorldInner::new();
        std::mem::swap(self, &mut taken);
        let PhysicsWorldInner { mut uuid_map, mut handle_map, mut user_handles, mut beam_sensors } =
            taken;
        let record = uuid_map.remove(entity_id).unwrap();
        let handles = record.handles();
        handle_map.remove(&handles.collider_handle);
        if let Some(at) = find_entry(&user_handles, handles.body_handle, *entity_id) {
            assert(before.roster.index_of((handles.body_handle, *entity_id)) == at);
            user_handles.swap_remove(at);
        }
        if let Some(beam) = handles.beam_handle {
            beam_sensors.remove(&beam);
        }
        let mut commands: Vec<KernelCommand> = Vec::new();
        push_removal(&mut commands, handles);
        *self = PhysicsWorldInner { uuid_map, handle_map, user_handles, beam_sensors };
        Ok(commands)
    }

    /// Sets the movement input of a player.
    ///
    /// An identity that is not registered is reported as `MissingEntity`, one of an
    /// entity that is no player as `InvariantViolation`; neither changes anything.
    pub fn set_player_movement(&mut self, user_id: &EntityKey, movement: Movement) -> (result:
        Result<(), RegistryError>)
        ensures
            final(self)@.wf(),
            result == old(self)@.steer_verdict(*user_id),
            result is Ok ==> final(self)@ == old(self)@.steer(*user_id, movement),
            result is Err ==> final(self)@ == old(self)@,
    {
        proof {
            use_type_invariant(&*self);
        }
        match self.uuid_map.get(user_id) {
            None => {
                return Err(RegistryError::MissingEntity);
            },
            Some(record) => {
                if !record.entity.is_player() {
                    return Err(RegistryError::InvariantViolation);
                }
            },
        }
        let ghost before = self@;
        proof {
            lemma_steer_keeps_wf(before, *user_id, movement);
        }
        let mut taken = PhysicsWorldInner::new();
        std::mem::swap(self, &mut taken);
        let PhysicsWorldInner { mut uuid_map, handle_map, user_handles, beam_sensors } = taken;
        let mut record = uuid_map.remove(user_id).unwrap();
        record.entity = Entity::Player(PlayerEntity { movement });
        uuid_map.insert(*user_id, record);
        assert(uuid_map@ =~= before.steer(*user_id, movement).entities);
        *self = PhysicsWorldInner { uuid_map, handle_map, user_handles, beam_sensors };
        Ok(())
    }

    /// Says what the kernel has to overwrite to snap the entity to a pose and a velocity
    /// that the caller holds.
    ///
    /// An identity that is not registered is reported as `MissingEntity`.
    pub fn update_movement(&self, entity_id: &EntityKey) -> (result: Result<
        Vec<KernelCommand>,
        RegistryError,
    >)
        ensures
            match result {
                Ok(commands) => self@.entities.contains_key(*entity_id) && commands@
                    == snap_commands(self@.entities[*entity_id]),
                Err(error) => error == RegistryError::MissingEntity
                    && !self@.entities.contains_key(*entity_id),
            },
    {
        match self.uuid_map.get(entity_id) {
            None => Err(RegistryError::MissingEntity),
            Some(record) => {
                let mut commands: Vec<KernelCommand> = Vec::new();
                commands.push(KernelCommand::SetVelocity(record.body_handle));
                commands.push(KernelCommand::SetPosition(record.collider_handle));
                assert(commands@ =~= snap_commands(*record));
                Ok(commands)
            },
        }
    }

    /// Says what the kernel has to do in one tick: for each player of the roster, wake
    /// the body and push it along the player's movement input; then advance the
    /// simulation once.
    pub fn step(&self) -> (commands: Vec<KernelCommand>)
        ensures
            commands@ == self@.step_commands(),
            self@.wf(),
    {
        proof {
            use_type_invariant(self);
        }
        let mut commands: Vec<KernelCommand> = Vec::new();
        let mut i: usize = 0;
        while i < self.user_handles.len()
            invariant
                self@.wf(),
                i <= self.user_handles@.len(),
                self.user_handles@ == self@.roster,
                self.uuid_map@ == self@.entities,
                commands@.len() == 2 * i,
                forall|j: int| 0 <= j < 2 * i ==> commands@[j] == self@.step_commands()[j],
            decreases self.user_handles@.len() - i,
        {
            let (body, id) = self.user_handles[i];
            assert(self@.entities.contains_key(self@.roster[i as int].1));
            let record = self.uuid_map.get(&id).unwrap();
            let movement = record.entity.movement().unwrap();
            commands.push(KernelCommand::Activate(body));
            commands.push(KernelCommand::Accelerate(body, movement));
            i += 1;
        }
        commands.push(KernelCommand::Advance);
        assert(commands@ =~= self@.step_commands());
        commands
    }

    /// Empties every index and says what the kernel has to destroy: the objects of every
    /// entity, entity after entity.
    pub fn clear(&mut self) -> (commands: Vec<KernelCommand>)
        ensures
            final(self)@ == RegistryView::<T>::empty(),
            final(self)@.wf(),
            exists|order: Seq<EntityKey>| #[trigger]
                lists_all(order, old(self)@.entities) && commands@ == teardown_commands(
                    old(self)@.entities,
                    order,
                ),
    {
        let mut commands: Vec<KernelCommand> = Vec::new();
        let ghost entities = self.uuid_map@;
        assert(entities == old(self)@.entities);
        let ghost listed = spec_btree_map_iter(&self.uuid_map).remaining();
        let ghost order = Seq::new(listed.len(), |i: int| *listed[i].0);
        for entry in it: self.uuid_map.iter()
            invariant
                entities == self.uuid_map@,
                listed == spec_btree_map_iter(&self.uuid_map).remaining(),
                it.seq() == listed,
                order == Seq::new(listed.len(), |i: int| *listed[i].0),
                commands@ == teardown_commands(entities, order.take(it.index())),
        {
            proof {
                let i = it.index();
                assert(listed[i] == entry);
                assert(entities.contains_key(*listed[i].0));
                assert(order.take(i + 1).drop_last() =~= order.take(i));
                assert(order.take(i + 1).last() == order[i]);
            }
            push_removal(&mut commands, entry.1.handles());
        }
        proof {
            assert(order.take(order.len() as int) =~= order);
            assert(commands@ == teardown_commands(entities, order));
            assert(listed.no_duplicates());
            assert forall|i: int, j: int| 0 <= i < order.len() && 0 <= j < order.len() && i
                != j implies order[i] != order[j] by {
                assert(entities.contains_key(*listed[i].0));
                assert(entities.contains_key(*listed[j].0));
                if order[i] == order[j] {
                    assert(listed[i] == listed[j]);
                }
            }
            assert forall|id: EntityKey| order.contains(id) <==> #[trigger] entities.contains_key(
                id,
            ) by {
                if order.contains(id) {
                    let i = order.index_of(id);
                    assert(entities.contains_key(*listed[i].0));
                }
                if entities.contains_key(id) {
                    assert(listed.contains((&id, &entities[id])));
                    let i = listed.index_of((&id, &entities[id]));
                    assert(order[i] == id);
                }
            }
            assert(lists_all(order, entities));
        }
        *self = PhysicsWorldInner::new();
        assert(lists_all(order, old(self)@.entities) && commands@ == teardown_commands(
            old(self)@.entities,
            order,
        ));
        commands
    }

    /// Registers every entity of `spawned`, in order, each under an identity drawn at
    /// random, once the kernel has created their objects. It stops at the first entity
    /// that [`spawn_entity`](Self::spawn_entity) refuses, leaving the earlier ones
    /// registered.
    pub fn initialize(&mut self, spawned: Vec<(KernelHandles, EntitySpawn<T>)>) -> (report:
        Initialized)
        ensures
            final(self)@.wf(),
            report.identities@.len() <= spawned@.len(),
            old(self)@.admits_all(report.identities@, spawned@),
            final(self)@ == old(self)@.spawn_all(report.identities@, spawned@),
            final(self)@.entities.len() == old(self)@.entities.len() + report.identities@.len(),
            final(self)@.player_count() == old(self)@.player_count() + players_among(
                spawned@.take(report.identities@.len() as int),
            ),
            report.failure is None <==> report.identities@.len() == spawned@.len(),
            report.failure matches Some(refused) ==> final(self)@.spawn_verdict(
                refused.0,
                spawned@[report.identities@.len() as int].0,
            ) == Err::<(), RegistryError>(refused.1),
    {
        proof {
            use_type_invariant(&*self);
        }
        let ghost before = self@;
        let ghost all = spawned@;
        let mut identities: Vec<EntityKey> = Vec::new();
        assert(all.take(0) =~= Seq::empty());
        for next in it: spawned
            invariant
                it.seq() == all,
                all == spawned@,
                before == old(self)@,
                before.wf(),
                self@.wf(),
                identities@.len() == it.index(),
                before.admits_all(identities@, all),
                self@ == before.spawn_all(identities@, all),
                self@.entities.len() == before.entities.len() + identities@.len(),
                self@.player_count() == before.player_count() + players_among(
                    all.take(identities@.len() as int),
                ),
        {
            let ghost done = identities@;
            let ghost k = it.index();
            let ghost current = self@;
            assert(all[k] == next);
            let (handles, entity_data) = next;
            let entity_id = uuid_to_key(random_uuid());
            let result = self.spawn_entity(entity_id, handles, entity_data);
            match result {
                Err(error) => {
                    return Initialized { identities, failure: Some((entity_id, error)) };
                },
                Ok(()) => {
                    identities.push(entity_id);
                    proof {
                        let record = EntityHandles::spec_new(handles, entity_data);
                        lemma_spawn_keeps_wf(current, entity_id, record);
                        assert(identities@.drop_last() =~= done);
                        assert(all.take(k + 1).drop_last() =~= all.take(k));
                        assert forall|j: int| 0 <= j < identities@.len() implies (
                        #[trigger] before.spawn_all(identities@.take(j), all)).spawn_verdict(
                            identities@[j],
                            all[j].0,
                        ) is Ok by {
                            if j < k {
                                assert(identities@.take(j) =~= done.take(j));
                            } else {
                                assert(identities@.take(j) =~= done);
                            }
                        }
                    }
                },
            }
        }
        Initialized { identities, failure: None }
    }
}

} // verus!
