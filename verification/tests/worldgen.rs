use physics::entity::{Entity, Vertex};
use physics::worldgen::{create_asteroid, get_asteroid_vertices, get_initial_entities};

fn expected_outline() -> Vec<Vertex> {
    vec![
        Vertex { x: -20, y: 20 },
        Vertex { x: -20, y: -20 },
        Vertex { x: 20, y: -20 },
        Vertex { x: 40, y: 0 },
        Vertex { x: 20, y: 20 },
    ]
}

#[test]
fn asteroid_outline_is_scaled_by_twenty() {
    assert_eq!(get_asteroid_vertices(), expected_outline());
}

#[test]
fn asteroid_descriptor_carries_the_outline() {
    let spawn = create_asteroid();
    assert!(!spawn.entity.is_player());
    assert_eq!(spawn.entity.movement(), None);
    assert_eq!(spawn.entity.vertices(), Some(&expected_outline()));
}

#[test]
fn fresh_world_holds_two_asteroids() {
    let spawns = get_initial_entities();
    assert_eq!(spawns.len(), 2);
    for spawn in &spawns {
        match &spawn.entity {
            Entity::Asteroid(asteroid) => assert_eq!(asteroid.vertices, expected_outline()),
            Entity::Player(_) => panic!("the initial content holds no player"),
        }
    }
}
