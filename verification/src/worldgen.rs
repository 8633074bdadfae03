//! The content that a fresh world starts with.

use crate::entity::{AsteroidEntity, Entity, EntitySpawn, Vertex};
use vstd::prelude::*;

verus! {

/// By how much an asteroid is larger than its outline.
pub const ASTEROID_SCALE: i32 = 20;

/// How many asteroids a fresh world holds.
pub const INITIAL_ASTEROIDS: usize = 2;

/// The outline of an asteroid before scaling: a square with a pointed right side.
pub open spec fn asteroid_outline() -> Seq<(int, int)> {
    seq![(-1, 1), (-1, -1), (1, -1), (2, 0), (1, 1)]
}

/// The corners of an asteroid: the outline, each coordinate scaled.
pub open spec fn asteroid_vertices() -> Seq<Vertex> {
    Seq::new(
        asteroid_outline().len(),
        |i: int|
            Vertex {
                x: (asteroid_outline()[i].0 * ASTEROID_SCALE) as i32,
                y: (asteroid_outline()[i].1 * ASTEROID_SCALE) as i32,
            },
    )
}

fn pt2(x: i32, y: i32) -> (point: Vertex)
    ensures
        point == (Vertex { x, y }),
{
    Vertex { x, y }
}

pub fn get_asteroid_vertices() -> (vertices: Vec<Vertex>)
    ensures
        vertices@ == asteroid_vertices(),
{
    let mut vertices: Vec<Vertex> = Vec::new();
    vertices.push(pt2(-1, 1));
    vertices.push(pt2(-1, -1));
    vertices.push(pt2(1, -1));
    vertices.push(pt2(2, 0));
    vertices.push(pt2(1, 1));
    let ghost outline = vertices@;
    let mut i: usize = 0;
    while i < vertices.len()
        invariant
            i <= 5,
            vertices@.len() == 5,
            outline.len() == 5,
            forall|j: int| 0 <= j < 5 ==> -2 <= (#[trigger] outline[j]).x <= 2 && -2 <= outline[j].y <= 2,
            forall|j: int| 0 <= j < i ==> (#[trigger] vertices@[j]).x == outline[j].x * ASTEROID_SCALE
                && vertices@[j].y == outline[j].y * ASTEROID_SCALE,
            forall|j: int| i <= j < 5 ==> #[trigger] vertices@[j] == outline[j],
        decreases 5 - i,
    {
        let point = vertices[i];
        vertices.set(i, pt2(point.x * ASTEROID_SCALE, point.y * ASTEROID_SCALE));
        i += 1;
    }
    assert(vertices@ =~= asteroid_vertices());
    vertices
}

/// The descriptor of one asteroid.
pub fn create_asteroid() -> (spawn: EntitySpawn<()>)
    ensures
        spawn.entity.spec_vertices() == Some(asteroid_vertices()),
{
    EntitySpawn { entity: Entity::Asteroid(AsteroidEntity { vertices: get_asteroid_vertices() }), data: () }
}

/// The descriptors of the entities that populate a fresh world, in spawn order.
pub fn get_initial_entities() -> (spawns: Vec<EntitySpawn<()>>)
    ensures
        spawns@.len() == INITIAL_ASTEROIDS,
        forall|i: int| 0 <= i < spawns@.len() ==>
            (#[trigger] spawns@[i]).entity.spec_vertices() == Some(asteroid_vertices()),
{
    let mut spawns: Vec<EntitySpawn<()>> = Vec::new();
    spawns.push(create_asteroid());
    spawns.push(create_asteroid());
    spawns
}

} // verus!
