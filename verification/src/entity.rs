use crate::kernel::{BodyHandle, ColliderHandle, KernelHandles};
use crate::movement::Movement;
use vstd::prelude::*;

verus! {

/// A corner of a shape, on the integer lattice of the entity's own frame.
#[derive(Clone, Copy, Debug, PartialEq, Eq, Structural)]
pub struct Vertex {
    pub x: i32,
    pub y: i32,
}

/// An entity that a user steers.
#[derive(Clone, Copy, Debug, PartialEq, Eq, Structural)]
pub struct PlayerEntity {
    /// Which way the user is telling this entity to go.
    pub movement: Movement,
}

/// A drifting rock with a fixed outline.
#[derive(Clone, Debug)]
pub struct AsteroidEntity {
    pub vertices: Vec<Vertex>,
}

/// What kind of thing an entity is, with the data of that kind.
#[derive(Clone, Debug)]
pub enum Entity {
    Player(PlayerEntity),
    Asteroid(AsteroidEntity),
}

impl Entity {
    /// The movement input of a player; other kinds have none.
    pub open spec fn spec_movement(self) -> Option<Movement> {
        match self {
            Entity::Player(player) => Some(player.movement),
            Entity::Asteroid(_) => None,
        }
    }

    /// The outline of an entity that has one.
    pub open spec fn spec_vertices(self) -> Option<Seq<Vertex>> {
        match self {
            Entity::Player(_) => None,
            Entity::Asteroid(asteroid) => Some(asteroid.vertices@),
        }
    }

    pub fn is_player(&self) -> (player: bool)
        ensures
            player == (self is Player),
    {
        match self {
            Entity::Player(_) => true,
            Entity::Asteroid(_) => false,
        }
    }

    pub fn movement(&self) -> (movement: Option<Movement>)
        ensures
            movement == self.spec_movement(),
    {
        match self {
            Entity::Player(player) => Some(player.movement),
            Entity::Asteroid(_) => None,
        }
    }

    pub fn vertices(&self) -> (vertices: Option<&Vec<Vertex>>)
        ensures
            match vertices {
                Some(v) => self.spec_vertices() == Some(v@),
                None => self.spec_vertices() is None,
            },
    {
        match self {
            Entity::Player(_) => None,
            Entity::Asteroid(asteroid) => Some(&asteroid.vertices),
        }
    }
}

/// What the registry is told of an entity that is to exist: its kind and the caller's
/// payload. Where it starts and how fast it moves is between the caller and the kernel.
#[derive(Debug)]
pub struct EntitySpawn<T> {
    pub entity: Entity,
    pub data: T,
}

/// The registry's record of one live entity.
#[derive(Debug)]
pub struct EntityHandles<T> {
    /// The primary shape in the kernel.
    pub collider_handle: ColliderHandle,
    /// The rigid body in the kernel.
    pub body_handle: BodyHandle,
    /// The sensor collider, for an entity that carries one.
    pub beam_handle: Option<ColliderHandle>,
    pub entity: Entity,
    pub data: T,
}

impl<T> EntityHandles<T> {
    /// The record of an entity described by `spawn` whose kernel objects are `handles`.
    pub open spec fn spec_new(handles: KernelHandles, spawn: EntitySpawn<T>) -> Self {
        EntityHandles {
            collider_handle: handles.collider_handle,
            body_handle: handles.body_handle,
            beam_handle: handles.beam_handle,
            entity: spawn.entity,
            data: spawn.data,
        }
    }

    pub fn new(handles: KernelHandles, spawn: EntitySpawn<T>) -> (record: Self)
        ensures
            record == Self::spec_new(handles, spawn),
    {
        EntityHandles {
            collider_handle: handles.collider_handle,
            body_handle: handles.body_handle,
            beam_handle: handles.beam_handle,
            entity: spawn.entity,
            data: spawn.data,
        }
    }

    /// The kernel objects of this entity.
    pub open spec fn spec_handles(self) -> KernelHandles {
        KernelHandles {
            collider_handle: self.collider_handle,
            body_handle: self.body_handle,
            beam_handle: self.beam_handle,
        }
    }

    pub fn handles(&self) -> (handles: KernelHandles)
        ensures
            handles == self.spec_handles(),
    {
        KernelHandles {
            collider_handle: self.collider_handle,
            body_handle: self.body_handle,
            beam_handle: self.beam_handle,
        }
    }
}

} // verus!
