use physics::entity::{AsteroidEntity, Entity, EntitySpawn, PlayerEntity};
use physics::error::RegistryError;
use physics::identity::EntityKey;
use physics::kernel::{KernelCommand, KernelHandles};
use physics::movement::Movement;
use physics::world::PhysicsWorldInner;
use physics::worldgen::get_initial_entities;

fn player(movement: Movement) -> EntitySpawn<u32> {
    EntitySpawn { entity: Entity::Player(PlayerEntity { movement }), data: 0 }
}

fn asteroid() -> EntitySpawn<u32> {
    EntitySpawn { entity: Entity::Asteroid(AsteroidEntity { vertices: Vec::new() }), data: 0 }
}

/// The handles of the `n`th entity of a test: collider `3n`, body `3n + 1`, sensor `3n + 2`.
fn handles(n: usize, with_beam: bool) -> KernelHandles {
    KernelHandles {
        collider_handle: (3 * n, 0),
        body_handle: (3 * n + 1, 0),
        beam_handle: if with_beam { Some((3 * n + 2, 0)) } else { None },
    }
}

/// Checks every index of `world` against the entities that the test expects in it.
fn assert_consistent(world: &PhysicsWorldInner<u32>, expected: &[(EntityKey, KernelHandles, bool)]) {
    assert_eq!(world.len(), expected.len());
    assert_eq!(world.is_empty(), expected.is_empty());
    let mut players = 0;
    for (id, handles, is_player) in expected {
        assert!(world.contains(id));
        let record = world.get(id).expect("a registered entity has a record");
        assert_eq!(record.collider_handle, handles.collider_handle);
        assert_eq!(record.body_handle, handles.body_handle);
        assert_eq!(record.beam_handle, handles.beam_handle);
        assert_eq!(record.entity.is_player(), *is_player);
        assert_eq!(world.collider_owner(&handles.collider_handle), Some(*id));
        assert_eq!(world.sensor_owner(&handles.collider_handle), None);
        if let Some(beam) = handles.beam_handle {
            assert_eq!(world.sensor_owner(&beam), Some(*id));
            assert_eq!(world.collider_owner(&beam), None);
        }
        assert_eq!(world.is_listed_player(handles.body_handle, *id), *is_player);
        if *is_player {
            players += 1;
        }
    }
    assert_eq!(world.player_count(), players);
}

#[test]
fn new_registry_is_empty() {
    let world: PhysicsWorldInner<u32> = PhysicsWorldInner::new();
    assert_consistent(&world, &[]);
    assert_eq!(world.collider_owner(&(0, 0)), None);
    assert_eq!(world.sensor_owner(&(0, 0)), None);
}

#[test]
fn indexes_agree_after_every_spawn_and_remove() {
    let mut world: PhysicsWorldInner<u32> = PhysicsWorldInner::new();
    let mut expected: Vec<(EntityKey, KernelHandles, bool)> = Vec::new();
    let plan: [(EntityKey, bool, bool); 5] =
        [(10, true, true), (11, false, false), (12, true, false), (13, false, true), (14, true, true)];
    for (n, (id, is_player, with_beam)) in plan.iter().enumerate() {
        let spawn = if *is_player { player(Movement::Up) } else { asteroid() };
        assert_eq!(world.spawn_entity(*id, handles(n, *with_beam), spawn), Ok(()));
        expected.push((*id, handles(n, *with_beam), *is_player));
        assert_consistent(&world, &expected);
    }
    for id in [10u128, 13, 12, 14, 11] {
        assert!(world.remove_entity(&id).is_ok());
        expected.retain(|entry| entry.0 != id);
        assert_consistent(&world, &expected);
        assert!(!world.contains(&id));
    }
    assert!(world.is_empty());
}

#[test]
fn removed_identity_and_handles_can_be_registered_again() {
    let mut world: PhysicsWorldInner<u32> = PhysicsWorldInner::new();
    assert_eq!(world.spawn_entity(1, handles(0, true), player(Movement::Up)), Ok(()));
    assert!(world.remove_entity(&1).is_ok());
    assert_eq!(world.spawn_entity(1, handles(0, true), asteroid()), Ok(()));
    assert_consistent(&world, &[(1, handles(0, true), false)]);
}

#[test]
fn second_removal_reports_missing_and_changes_nothing() {
    let mut world: PhysicsWorldInner<u32> = PhysicsWorldInner::new();
    assert_eq!(world.spawn_entity(1, handles(0, false), player(Movement::Up)), Ok(()));
    assert_eq!(world.spawn_entity(2, handles(1, true), asteroid()), Ok(()));
    assert!(world.remove_entity(&1).is_ok());
    let left = [(2, handles(1, true), false)];
    assert_consistent(&world, &left);
    assert_eq!(world.remove_entity(&1), Err(RegistryError::MissingEntity));
    assert_consistent(&world, &left);
}

#[test]
fn removal_of_unknown_identity_reports_missing() {
    let mut world: PhysicsWorldInner<u32> = PhysicsWorldInner::new();
    assert_eq!(world.remove_entity(&77), Err(RegistryError::MissingEntity));
    assert!(world.is_empty());
}

#[test]
fn removal_names_collider_then_body_then_sensor() {
    let mut world: PhysicsWorldInner<u32> = PhysicsWorldInner::new();
    assert_eq!(world.spawn_entity(1, handles(0, true), asteroid()), Ok(()));
    assert_eq!(world.spawn_entity(2, handles(1, false), asteroid()), Ok(()));
    assert_eq!(
        world.remove_entity(&1),
        Ok(vec![
            KernelCommand::RemoveCollider((0, 0)),
            KernelCommand::RemoveBody((1, 0)),
            KernelCommand::RemoveCollider((2, 0)),
        ])
    );
    assert_eq!(
        world.remove_entity(&2),
        Ok(vec![KernelCommand::RemoveCollider((3, 0)), KernelCommand::RemoveBody((4, 0))])
    );
}

#[test]
fn removal_forgets_collider_and_roster_entry() {
    let mut world: PhysicsWorldInner<u32> = PhysicsWorldInner::new();
    let x = handles(0, true);
    assert_eq!(world.spawn_entity(42, x, player(Movement::Left)), Ok(()));
    assert_eq!(world.collider_owner(&x.collider_handle), Some(42));
    assert!(world.is_listed_player(x.body_handle, 42));
    assert!(world.remove_entity(&42).is_ok());
    assert_eq!(world.collider_owner(&x.collider_handle), None);
    assert_eq!(world.sensor_owner(&(2, 0)), None);
    assert!(!world.is_listed_player(x.body_handle, 42));
    assert_eq!(world.player_count(), 0);
    assert_eq!(world.step(), vec![KernelCommand::Advance]);
}

#[test]
fn removal_from_the_middle_of_the_roster_keeps_the_other_players() {
    let mut world: PhysicsWorldInner<u32> = PhysicsWorldInner::new();
    assert_eq!(world.spawn_entity(1, handles(0, false), player(Movement::Up)), Ok(()));
    assert_eq!(world.spawn_entity(2, handles(1, false), player(Movement::Down)), Ok(()));
    assert_eq!(world.spawn_entity(3, handles(2, false), player(Movement::Left)), Ok(()));
    assert!(world.remove_entity(&1).is_ok());
    assert_eq!(
        world.step(),
        vec![
            KernelCommand::Activate((7, 0)),
            KernelCommand::Accelerate((7, 0), Movement::Left),
            KernelCommand::Activate((4, 0)),
            KernelCommand::Accelerate((4, 0), Movement::Down),
            KernelCommand::Advance,
        ]
    );
}

#[test]
fn spawn_refuses_a_taken_identity() {
    let mut world: PhysicsWorldInner<u32> = PhysicsWorldInner::new();
    assert_eq!(world.spawn_entity(1, handles(0, false), asteroid()), Ok(()));
    assert_eq!(
        world.spawn_entity(1, handles(1, false), player(Movement::Up)),
        Err(RegistryError::DuplicateIdentity)
    );
    assert_eq!(world.spawn_verdict(1, handles(1, false)), Err(RegistryError::DuplicateIdentity));
    assert_consistent(&world, &[(1, handles(0, false), false)]);
}

#[test]
fn spawn_refuses_kernel_objects_in_use() {
    let mut world: PhysicsWorldInner<u32> = PhysicsWorldInner::new();
    assert_eq!(world.spawn_entity(1, handles(0, true), asteroid()), Ok(()));
    let fresh = handles(1, true);
    let clashes = [
        KernelHandles { collider_handle: (0, 0), ..fresh },
        KernelHandles { collider_handle: (2, 0), ..fresh },
        KernelHandles { body_handle: (1, 0), ..fresh },
        KernelHandles { beam_handle: Some((0, 0)), ..fresh },
        KernelHandles { beam_handle: Some((2, 0)), ..fresh },
        KernelHandles { beam_handle: Some(fresh.collider_handle), ..fresh },
    ];
    for clash in clashes {
        assert_eq!(world.spawn_verdict(2, clash), Err(RegistryError::InvariantViolation));
        assert_eq!(
            world.spawn_entity(2, clash, player(Movement::Up)),
            Err(RegistryError::InvariantViolation)
        );
        assert_consistent(&world, &[(1, handles(0, true), false)]);
    }
    assert_eq!(world.spawn_verdict(2, fresh), Ok(()));
    assert_eq!(world.spawn_verdict(2, KernelHandles { body_handle: (0, 0), ..fresh }), Ok(()));
    assert_eq!(world.spawn_verdict(2, KernelHandles { collider_handle: (0, 1), ..fresh }), Ok(()));
}

#[test]
fn initialize_registers_every_descriptor() {
    let mut world: PhysicsWorldInner<()> = PhysicsWorldInner::new();
    let spawned: Vec<(KernelHandles, EntitySpawn<()>)> = get_initial_entities()
        .into_iter()
        .enumerate()
        .map(|(n, spawn)| (handles(n, false), spawn))
        .collect();
    let count = spawned.len();
    let report = world.initialize(spawned);
    assert_eq!(report.failure, None);
    assert_eq!(report.identities.len(), count);
    assert_eq!(world.len(), 2);
    assert_eq!(world.player_count(), 0);
    assert_ne!(report.identities[0], report.identities[1]);
    for id in &report.identities {
        let version = (id >> 76) & 0xf;
        let variant = (id >> 62) & 0x3;
        assert_eq!((version, variant), (4, 2));
    }
    for (n, id) in report.identities.iter().enumerate() {
        let record = world.get(id).expect("every identity of the report is registered");
        assert_eq!(record.collider_handle, (3 * n, 0));
        assert_eq!(record.body_handle, (3 * n + 1, 0));
        assert_eq!(record.beam_handle, None);
        assert_eq!(world.collider_owner(&(3 * n, 0)), Some(*id));
    }
}

#[test]
fn initialize_lists_the_players_among_the_descriptors() {
    let mut world: PhysicsWorldInner<u32> = PhysicsWorldInner::new();
    let spawned = vec![
        (handles(0, false), asteroid()),
        (handles(1, true), player(Movement::Right)),
        (handles(2, false), player(Movement::Stop)),
        (handles(3, false), asteroid()),
    ];
    let report = world.initialize(spawned);
    assert_eq!(report.failure, None);
    assert_eq!(world.len(), 4);
    assert_eq!(world.player_count(), 2);
    assert!(world.is_listed_player((4, 0), report.identities[1]));
    assert!(world.is_listed_player((7, 0), report.identities[2]));
    assert_eq!(world.sensor_owner(&(5, 0)), Some(report.identities[1]));
}

#[test]
fn initialize_with_nothing_changes_nothing() {
    let mut world: PhysicsWorldInner<u32> = PhysicsWorldInner::new();
    let report = world.initialize(Vec::new());
    assert_eq!(report.failure, None);
    assert!(report.identities.is_empty());
    assert!(world.is_empty());
}

#[test]
fn initialize_stops_at_kernel_objects_in_use() {
    let mut world: PhysicsWorldInner<u32> = PhysicsWorldInner::new();
    let spawned = vec![
        (handles(0, false), asteroid()),
        (handles(0, false), asteroid()),
        (handles(1, false), asteroid()),
    ];
    let report = world.initialize(spawned);
    assert_eq!(report.identities.len(), 1);
    let refused = report.failure.expect("the second entity shares the objects of the first");
    assert_eq!(refused.1, RegistryError::InvariantViolation);
    assert!(!world.contains(&refused.0));
    assert_consistent(&world, &[(report.identities[0], handles(0, false), false)]);
}

#[test]
fn clear_empties_every_index() {
    let mut world: PhysicsWorldInner<u32> = PhysicsWorldInner::new();
    assert_eq!(world.spawn_entity(2, handles(0, true), player(Movement::Up)), Ok(()));
    assert_eq!(world.spawn_entity(1, handles(1, false), asteroid()), Ok(()));
    let mut commands = world.clear();
    assert_consistent(&world, &[]);
    assert_eq!(world.collider_owner(&(0, 0)), None);
    assert_eq!(world.sensor_owner(&(2, 0)), None);
    assert!(!world.is_listed_player((1, 0), 2));
    assert_eq!(world.step(), vec![KernelCommand::Advance]);
    let mut expected = vec![
        KernelCommand::RemoveCollider((0, 0)),
        KernelCommand::RemoveBody((1, 0)),
        KernelCommand::RemoveCollider((2, 0)),
        KernelCommand::RemoveCollider((3, 0)),
        KernelCommand::RemoveBody((4, 0)),
    ];
    let rank = |command: &KernelCommand| format!("{:?}", command);
    commands.sort_by_key(rank);
    expected.sort_by_key(rank);
    assert_eq!(commands, expected);
}

#[test]
fn clear_right_after_initialize_leaves_a_new_registry() {
    let mut world: PhysicsWorldInner<()> = PhysicsWorldInner::new();
    let spawned: Vec<(KernelHandles, EntitySpawn<()>)> = get_initial_entities()
        .into_iter()
        .enumerate()
        .map(|(n, spawn)| (handles(n, false), spawn))
        .collect();
    let report = world.initialize(spawned);
    assert_eq!(world.clear().len(), 4);
    assert!(world.is_empty());
    assert_eq!(world.player_count(), 0);
    for id in &report.identities {
        assert!(!world.contains(id));
    }
    assert!(world.clear().is_empty());
}

#[test]
fn step_with_no_players_only_advances() {
    let mut world: PhysicsWorldInner<u32> = PhysicsWorldInner::new();
    assert_eq!(world.step(), vec![KernelCommand::Advance]);
    assert_eq!(world.spawn_entity(1, handles(0, false), asteroid()), Ok(()));
    assert_eq!(world.step(), vec![KernelCommand::Advance]);
    assert_consistent(&world, &[(1, handles(0, false), false)]);
}

#[test]
fn step_with_stopped_player_pushes_nowhere() {
    let mut world: PhysicsWorldInner<u32> = PhysicsWorldInner::new();
    assert_eq!(world.spawn_entity(1, handles(0, false), player(Movement::Stop)), Ok(()));
    let commands = world.step();
    assert_eq!(
        commands,
        vec![
            KernelCommand::Activate((1, 0)),
            KernelCommand::Accelerate((1, 0), Movement::Stop),
            KernelCommand::Advance,
        ]
    );
    let velocity = (0.25f32, -3.0f32);
    let acceleration = 0.5f32;
    for command in commands {
        if let KernelCommand::Accelerate(_, movement) = command {
            let (x, y) = movement.components();
            let pushed =
                (velocity.0 + f32::from(x) * acceleration, velocity.1 + f32::from(y) * acceleration);
            assert_eq!(pushed, velocity);
        }
    }
}

#[test]
fn step_pushes_a_player_heading_right_along_x() {
    let mut world: PhysicsWorldInner<u32> = PhysicsWorldInner::new();
    assert_eq!(world.spawn_entity(1, handles(0, false), player(Movement::Right)), Ok(()));
    let commands = world.step();
    assert_eq!(
        commands,
        vec![
            KernelCommand::Activate((1, 0)),
            KernelCommand::Accelerate((1, 0), Movement::Right),
            KernelCommand::Advance,
        ]
    );
    let acceleration = 0.75f32;
    let mut velocity = (0.0f32, 0.0f32);
    for command in commands {
        if let KernelCommand::Accelerate(_, movement) = command {
            let (x, y) = movement.components();
            velocity.0 += f32::from(x) * acceleration;
            velocity.1 += f32::from(y) * acceleration;
        }
    }
    assert_eq!(velocity, (acceleration, 0.0));
}

#[test]
fn step_wakes_every_player_before_it_pushes() {
    let mut world: PhysicsWorldInner<u32> = PhysicsWorldInner::new();
    assert_eq!(world.spawn_entity(9, handles(0, false), player(Movement::UpLeft)), Ok(()));
    assert_eq!(world.spawn_entity(3, handles(1, false), asteroid()), Ok(()));
    assert_eq!(world.spawn_entity(5, handles(2, true), player(Movement::Down)), Ok(()));
    assert_eq!(
        world.step(),
        vec![
            KernelCommand::Activate((1, 0)),
            KernelCommand::Accelerate((1, 0), Movement::UpLeft),
            KernelCommand::Activate((7, 0)),
            KernelCommand::Accelerate((7, 0), Movement::Down),
            KernelCommand::Advance,
        ]
    );
}

#[test]
fn update_movement_on_unknown_identity_changes_nothing() {
    let mut world: PhysicsWorldInner<u32> = PhysicsWorldInner::new();
    assert_eq!(world.spawn_entity(1, handles(0, true), player(Movement::Up)), Ok(()));
    let before = [(1, handles(0, true), true)];
    assert_eq!(world.update_movement(&2), Err(RegistryError::MissingEntity));
    assert_consistent(&world, &before);
    assert_eq!(world.len(), 1);
}

#[test]
fn update_movement_names_body_and_collider() {
    let mut world: PhysicsWorldInner<u32> = PhysicsWorldInner::new();
    assert_eq!(world.spawn_entity(1, handles(0, true), asteroid()), Ok(()));
    assert_eq!(
        world.update_movement(&1),
        Ok(vec![KernelCommand::SetVelocity((1, 0)), KernelCommand::SetPosition((0, 0))])
    );
    assert_consistent(&world, &[(1, handles(0, true), false)]);
}

#[test]
fn set_player_movement_steers_the_next_tick() {
    let mut world: PhysicsWorldInner<u32> = PhysicsWorldInner::new();
    assert_eq!(world.spawn_entity(1, handles(0, true), player(Movement::Stop)), Ok(()));
    assert_eq!(world.set_player_movement(&1, Movement::DownLeft), Ok(()));
    assert_consistent(&world, &[(1, handles(0, true), true)]);
    assert_eq!(world.get(&1).and_then(|record| record.entity.movement()), Some(Movement::DownLeft));
    assert_eq!(world.get(&1).map(|record| record.data), Some(0));
    assert_eq!(
        world.step(),
        vec![
            KernelCommand::Activate((1, 0)),
            KernelCommand::Accelerate((1, 0), Movement::DownLeft),
            KernelCommand::Advance,
        ]
    );
}

#[test]
fn set_player_movement_refuses_unknown_identities_and_asteroids() {
    let mut world: PhysicsWorldInner<u32> = PhysicsWorldInner::new();
    assert_eq!(world.spawn_entity(1, handles(0, false), asteroid()), Ok(()));
    assert_eq!(world.set_player_movement(&2, Movement::Up), Err(RegistryError::MissingEntity));
    assert_eq!(world.set_player_movement(&1, Movement::Up), Err(RegistryError::InvariantViolation));
    assert_consistent(&world, &[(1, handles(0, false), false)]);
    assert_eq!(world.get(&1).and_then(|record| record.entity.movement()), None);
}
