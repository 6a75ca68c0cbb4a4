use arena_sim::angle::FULL_TURN;
use arena_sim::config::Config;
use arena_sim::entity::{Color, FireMode, FirePolicy, Player};
use arena_sim::geometry::{Arena, Vec2, OFF_FIELD};
use arena_sim::registry::{ConnectionEvent, SpawnOptions};
use arena_sim::world::World;

fn arena() -> Arena {
    Arena::from_extent(1_500_000_000, 1_000_000_000).unwrap()
}

fn options() -> SpawnOptions {
    SpawnOptions { fire_mode: FireMode::Timer, random_heading: true }
}

fn red() -> Color {
    Color { r: 255, g: 0, b: 0 }
}

fn bound(world: &World, device_id: usize) -> usize {
    world.players.iter().filter(|p| p.device_id == device_id).count()
}

#[test]
fn a_spawned_player_is_as_the_parameters_say() {
    let mut world = World::new();
    let config = Config::standard();
    let place = Vec2 { x: 1, y: -2 };
    assert!(world.spawn_player(7, place, 1_000, red(), FireMode::Timer, &config));
    assert_eq!(
        world.players,
        vec![Player {
            device_id: 7,
            position: place,
            heading: 1_000,
            scale: 50_000,
            color: red(),
            health: 10,
            alive: true,
            collidable: true,
            fire: FirePolicy::Timer { interval_ms: 100, elapsed_ms: 0 },
        }]
    );
    assert!(world.is_valid());
}

#[test]
fn a_spawned_player_has_its_heading_wrapped() {
    let mut world = World::new();
    let config = Config::standard();
    let place = Vec2 { x: 0, y: 0 };
    world.spawn_player(1, place, -1, red(), FireMode::Timer, &config);
    world.spawn_player(2, place, FULL_TURN + 3, red(), FireMode::EdgeTriggered, &config);
    assert_eq!(world.players[0].heading, FULL_TURN - 1);
    assert_eq!(world.players[1].heading, 3);
    assert_eq!(world.players[1].fire, FirePolicy::EdgeTriggered);
}

#[test]
fn an_invincible_player_enters_out_of_reach() {
    let mut world = World::new();
    let config = Config { invincible: true, starting_health: 3, ..Config::standard() };
    world.spawn_player(1, Vec2 { x: 0, y: 0 }, 0, red(), FireMode::Timer, &config);
    assert!(!world.players[0].collidable);
    assert!(world.players[0].alive);
    assert_eq!(world.players[0].health, 3);
}

#[test]
fn a_second_connection_of_a_device_changes_nothing() {
    let mut world = World::new();
    let config = Config::standard();
    assert!(world.spawn_player(7, Vec2 { x: 1, y: 1 }, 0, red(), FireMode::Timer, &config));
    let before = world.players.clone();
    assert!(!world.spawn_player(7, Vec2 { x: 9, y: 9 }, 5, red(), FireMode::Timer, &config));
    assert_eq!(world.players, before);
    assert!(!world.on_connect(7, &options(), &arena(), &config));
    assert_eq!(world.players, before);
    assert_eq!(bound(&world, 7), 1);
}

#[test]
fn a_connection_places_the_player_in_the_arena() {
    let config = Config::standard();
    let small = Arena { half_width: 3, half_height: 1 };
    let mut seen_x = std::collections::BTreeSet::new();
    let mut seen_heading = std::collections::BTreeSet::new();
    for device_id in 0..400 {
        let mut world = World::new();
        assert!(world.on_connect(device_id, &options(), &small, &config));
        assert_eq!(world.players.len(), 1);
        let player = world.players[0];
        assert_eq!(player.device_id, device_id);
        assert!(-3 <= player.position.x && player.position.x < 3);
        assert!(-1 <= player.position.y && player.position.y < 1);
        assert!(0 <= player.heading && player.heading < FULL_TURN);
        assert_eq!(player.health, 10);
        assert_eq!(player.scale, 50_000);
        assert!(player.alive && player.collidable);
        assert_eq!(player.fire, FirePolicy::Timer { interval_ms: 100, elapsed_ms: 0 });
        assert!(world.is_valid());
        seen_x.insert(player.position.x);
        seen_heading.insert(player.heading);
    }
    // The draws vary: every column of the arena shows up, and many headings.
    assert_eq!(seen_x.len(), 6);
    assert!(seen_heading.len() > 300);
}

#[test]
fn a_connection_without_random_heading_faces_zero() {
    let config = Config::standard();
    let fixed = SpawnOptions { fire_mode: FireMode::EdgeTriggered, random_heading: false };
    for device_id in 0..50 {
        let mut world = World::new();
        world.on_connect(device_id, &fixed, &arena(), &config);
        assert_eq!(world.players[0].heading, 0);
        assert_eq!(world.players[0].fire, FirePolicy::EdgeTriggered);
    }
}

#[test]
fn a_disconnection_removes_the_player_and_no_other() {
    let mut world = World::new();
    let config = Config::standard();
    for device_id in [3, 1, 2] {
        world.spawn_player(device_id, Vec2 { x: 0, y: 0 }, 0, red(), FireMode::Timer, &config);
    }
    let first = world.players[0];
    let last = world.players[2];
    assert!(world.on_disconnect(1));
    assert_eq!(world.players, vec![first, last]);
    assert_eq!(bound(&world, 1), 0);
    assert!(world.is_valid());
}

#[test]
fn a_disconnection_removes_a_dead_player_too() {
    let mut world = World::new();
    let config = Config::standard();
    world.spawn_player(1, Vec2 { x: 0, y: 0 }, 0, red(), FireMode::Timer, &config);
    world.kill_player(&vec![1]);
    assert!(!world.players[0].alive);
    assert!(world.on_disconnect(1));
    assert!(world.players.is_empty());
}

#[test]
fn a_batch_leaves_every_other_player_exactly_as_it_was() {
    let mut world = World::new();
    let config = Config::standard();
    world.spawn_player(1, Vec2 { x: 5, y: -5 }, 123, red(), FireMode::EdgeTriggered, &config);
    world.spawn_player(2, Vec2 { x: 6, y: -6 }, 456, red(), FireMode::Timer, &config);
    world.players[0].health = 3;
    world.players[1].fire = FirePolicy::Timer { interval_ms: 100, elapsed_ms: 42 };
    world.kill_player(&vec![2]);
    let before = world.players.clone();
    world.gamepad_connections(&vec![], &options(), &arena(), &config);
    assert_eq!(world.players, before);
    let events = vec![
        ConnectionEvent::Disconnected { device_id: 9 },
        ConnectionEvent::Connected { device_id: 1 },
        ConnectionEvent::Connected { device_id: 3 },
        ConnectionEvent::Connected { device_id: 2 },
    ];
    world.gamepad_connections(&events, &options(), &arena(), &config);
    assert_eq!(world.players.len(), 3);
    assert_eq!(world.players[0], before[0]);
    assert_eq!(world.players[1], before[1]);
    assert_eq!(world.players[2].device_id, 3);
    world.gamepad_connections(
        &vec![ConnectionEvent::Disconnected { device_id: 3 }],
        &options(),
        &arena(),
        &config,
    );
    assert_eq!(world.players, before);
}

#[test]
fn a_connection_in_an_arena_without_extent_places_at_the_centre() {
    let mut world = World::new();
    let config = Config::standard();
    let point = Arena { half_width: 0, half_height: 0 };
    assert!(world.on_connect(1, &options(), &point, &config));
    assert_eq!(world.players[0].position, Vec2 { x: 0, y: 0 });
}

#[test]
fn a_disconnection_of_an_unbound_device_changes_nothing() {
    let mut world = World::new();
    let config = Config::standard();
    world.spawn_player(1, Vec2 { x: 0, y: 0 }, 0, red(), FireMode::Timer, &config);
    let before = world.players.clone();
    assert!(!world.on_disconnect(2));
    assert_eq!(world.players, before);
    let mut empty = World::new();
    assert!(!empty.on_disconnect(2));
}

#[test]
fn a_disconnection_leaves_the_projectiles() {
    let mut world = World::new();
    let config = Config::standard();
    world.spawn_player(1, Vec2 { x: 0, y: 0 }, 0, red(), FireMode::EdgeTriggered, &config);
    let shot = arena_sim::spawner::fire(&world.players[0], Vec2 { x: 1000, y: 0 }, &config);
    world.projectiles.push(shot);
    world.on_disconnect(1);
    assert_eq!(world.projectiles, vec![shot]);
}

#[test]
fn every_disconnection_of_a_batch_is_handled() {
    let mut world = World::new();
    let config = Config::standard();
    for device_id in 0..5 {
        world.spawn_player(device_id, Vec2 { x: 0, y: 0 }, 0, red(), FireMode::Timer, &config);
    }
    let events = vec![
        ConnectionEvent::Disconnected { device_id: 1 },
        ConnectionEvent::Disconnected { device_id: 3 },
        ConnectionEvent::Disconnected { device_id: 4 },
    ];
    world.gamepad_connections(&events, &options(), &arena(), &config);
    let ids: Vec<usize> = world.players.iter().map(|p| p.device_id).collect();
    assert_eq!(ids, vec![0, 2]);
}

#[test]
fn a_batch_is_handled_in_order_of_arrival() {
    let mut world = World::new();
    let config = Config::standard();
    world.spawn_player(1, Vec2 { x: 5, y: 5 }, 0, red(), FireMode::Timer, &config);
    world.spawn_player(2, Vec2 { x: 6, y: 6 }, 0, red(), FireMode::Timer, &config);
    let kept = world.players[1];
    let events = vec![
        ConnectionEvent::Connected { device_id: 3 },
        ConnectionEvent::Disconnected { device_id: 1 },
        ConnectionEvent::Connected { device_id: 1 },
        ConnectionEvent::Connected { device_id: 3 },
        ConnectionEvent::Disconnected { device_id: 9 },
        ConnectionEvent::Connected { device_id: 4 },
        ConnectionEvent::Disconnected { device_id: 4 },
    ];
    world.gamepad_connections(&events, &options(), &arena(), &config);
    let ids: Vec<usize> = world.players.iter().map(|p| p.device_id).collect();
    assert_eq!(ids, vec![2, 3, 1]);
    assert_eq!(world.players[0], kept);
    // The player of device 1 is a new one.
    assert_eq!(world.players[2].health, 10);
    assert!(arena().is_inside(world.players[2].position));
    assert!(world.is_valid());
}

#[test]
fn each_connected_device_has_exactly_one_player() {
    let mut world = World::new();
    let config = Config::standard();
    let mut events = Vec::new();
    for round in 0..6 {
        for device_id in 0..8 {
            if (device_id + round) % 3 == 0 {
                events.push(ConnectionEvent::Disconnected { device_id });
            } else {
                events.push(ConnectionEvent::Connected { device_id });
            }
        }
    }
    let mut connected = std::collections::BTreeSet::new();
    for chunk in events.chunks(5) {
        world.gamepad_connections(&chunk.to_vec(), &options(), &arena(), &config);
        for event in chunk {
            match event {
                ConnectionEvent::Connected { device_id } => connected.insert(*device_id),
                ConnectionEvent::Disconnected { device_id } => connected.remove(device_id),
            };
        }
        for device_id in 0..8 {
            let expected = if connected.contains(&device_id) { 1 } else { 0 };
            assert_eq!(bound(&world, device_id), expected);
        }
        assert!(world.is_valid());
    }
}

#[test]
fn a_world_with_a_device_bound_twice_is_not_valid() {
    let config = Config::standard();
    let mut world = World::new();
    world.spawn_player(1, Vec2 { x: 0, y: 0 }, 0, red(), FireMode::Timer, &config);
    let copy = world.players[0];
    world.players.push(copy);
    assert!(!world.is_valid());
}

#[test]
fn a_world_with_a_malformed_player_is_not_valid() {
    let config = Config::standard();
    let mut world = World::new();
    world.spawn_player(1, Vec2 { x: 0, y: 0 }, 0, red(), FireMode::Timer, &config);
    world.players[0].health = -1;
    assert!(!world.is_valid());
    world.players[0].health = 0;
    assert!(!world.is_valid());
    world.players[0].collidable = false;
    assert!(world.is_valid());
    world.players[0].heading = FULL_TURN;
    assert!(!world.is_valid());
    world.players[0].heading = 0;
    world.players[0].alive = false;
    world.players[0].health = 4;
    // A dead player is kept off the field.
    assert!(!world.is_valid());
    world.players[0].position = Vec2 { x: OFF_FIELD, y: 0 };
    assert!(!world.is_valid());
    world.players[0].position = Vec2 { x: OFF_FIELD, y: OFF_FIELD };
    assert!(world.is_valid());
    world.players[0].collidable = true;
    assert!(!world.is_valid());
}

#[test]
fn find_player_gives_the_place_of_the_device() {
    let config = Config::standard();
    let mut world = World::new();
    for device_id in [5, 9, 2] {
        world.spawn_player(device_id, Vec2 { x: 0, y: 0 }, 0, red(), FireMode::Timer, &config);
    }
    assert_eq!(world.find_player(5), Some(0));
    assert_eq!(world.find_player(9), Some(1));
    assert_eq!(world.find_player(2), Some(2));
    assert_eq!(world.find_player(1), None);
}
