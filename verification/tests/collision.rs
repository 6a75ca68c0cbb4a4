use arena_sim::config::Config;
use arena_sim::entity::{Color, FireMode, Player, Projectile};
use arena_sim::geometry::{Arena, Vec2, OFF_FIELD};
use arena_sim::lifecycle::{Button, ButtonEvent};
use arena_sim::world::World;

fn world_with(players: &[(usize, i64, i64)]) -> World {
    let mut world = World::new();
    let config = Config::standard();
    for (device_id, x, y) in players {
        let color = Color { r: *device_id as u8, g: 0, b: 0 };
        world.spawn_player(*device_id, Vec2 { x: *x, y: *y }, 0, color, FireMode::Timer, &config);
    }
    world
}

fn shot(owner_id: usize, x: i64, y: i64) -> Projectile {
    Projectile {
        owner_id,
        position: Vec2 { x, y },
        velocity: Vec2 { x: 0, y: 0 },
        collidable: false,
        scale: 10_000,
        color: Color { r: 0, g: 0, b: 0 },
    }
}

fn solid(owner_id: usize, x: i64, y: i64) -> Projectile {
    Projectile { collidable: true, ..shot(owner_id, x, y) }
}

#[test]
fn a_hit_costs_one_health_and_the_projectile() {
    let mut world = world_with(&[(1, 0, 0)]);
    world.projectiles = vec![shot(2, 1_000_000, 1_000_000)];
    let before = world.players[0];
    let deaths = world.check_for_collisions();
    assert!(deaths.is_empty());
    assert!(world.projectiles.is_empty());
    assert_eq!(world.players[0], Player { health: 9, ..before });
}

#[test]
fn a_miss_changes_nothing() {
    let mut world = world_with(&[(1, 0, 0)]);
    // Half-extents 25 and 5 units: boxes that touch at 30 units do not overlap.
    world.projectiles = vec![shot(2, 30_000_000, 0), shot(2, 0, -40_000_000)];
    let before = world.players.clone();
    let flying = world.projectiles.clone();
    let deaths = world.check_for_collisions();
    assert!(deaths.is_empty());
    assert_eq!(world.players, before);
    assert_eq!(world.projectiles, flying);
}

#[test]
fn a_projectile_passes_through_its_owner() {
    let mut world = world_with(&[(1, 0, 0)]);
    world.projectiles = vec![shot(1, 0, 0), solid(1, 100, 100)];
    let before = world.players.clone();
    let flying = world.projectiles.clone();
    let deaths = world.check_for_collisions();
    assert!(deaths.is_empty());
    assert_eq!(world.players, before);
    assert_eq!(world.projectiles, flying);
}

#[test]
fn a_projectile_passes_its_owner_and_hits_the_next_player() {
    let mut world = world_with(&[(1, 0, 0), (2, 10_000_000, 0)]);
    world.projectiles = vec![shot(1, 5_000_000, 0)];
    let deaths = world.check_for_collisions();
    assert!(deaths.is_empty());
    assert_eq!(world.players[0].health, 10);
    assert_eq!(world.players[1].health, 9);
    assert!(world.projectiles.is_empty());
}

#[test]
fn the_first_player_in_the_way_takes_the_hit() {
    let mut world = world_with(&[(1, 0, 0), (2, 1_000_000, 0), (3, 2_000_000, 0)]);
    world.projectiles = vec![shot(9, 1_000_000, 0)];
    world.check_for_collisions();
    let health: Vec<i32> = world.players.iter().map(|p| p.health).collect();
    assert_eq!(health, vec![9, 10, 10]);
}

#[test]
fn each_projectile_hurts_at_most_one_player() {
    let mut world = world_with(&[(1, 0, 0), (2, 0, 0), (3, 0, 0)]);
    world.projectiles = vec![shot(9, 0, 0), shot(9, 0, 0), shot(1, 0, 0), shot(9, 900_000_000, 0)];
    let deaths = world.check_for_collisions();
    assert!(deaths.is_empty());
    let health: Vec<i32> = world.players.iter().map(|p| p.health).collect();
    // Two projectiles of device 9 hit player 1; the one of device 1 hits player 2.
    assert_eq!(health, vec![8, 9, 10]);
    assert_eq!(world.projectiles, vec![shot(9, 900_000_000, 0)]);
}

#[test]
fn a_player_out_of_reach_is_not_hit() {
    let mut world = world_with(&[(1, 0, 0), (2, 0, 0)]);
    world.players[0].collidable = false;
    world.projectiles = vec![shot(9, 0, 0)];
    world.check_for_collisions();
    assert_eq!(world.players[0].health, 10);
    assert_eq!(world.players[1].health, 9);
}

#[test]
fn the_last_health_raises_one_death() {
    let mut world = world_with(&[(1, 0, 0), (2, 500_000_000, 0)]);
    world.players[0].health = 2;
    world.projectiles = vec![shot(2, 0, 0), shot(2, 0, 0), shot(2, 0, 0), shot(2, 0, 0)];
    let deaths = world.check_for_collisions();
    assert_eq!(deaths, vec![1]);
    assert_eq!(world.players[0].health, 0);
    assert!(!world.players[0].collidable);
    // Still alive until the death is applied.
    assert!(world.players[0].alive);
    // The projectiles that came after the last health fly on.
    assert_eq!(world.projectiles, vec![shot(2, 0, 0), shot(2, 0, 0)]);
    assert!(world.is_valid());
}

#[test]
fn health_never_goes_below_zero() {
    let mut world = world_with(&[(1, 0, 0), (2, 0, 0)]);
    world.players[0].health = 1;
    world.players[1].health = 3;
    world.projectiles = (0..20).map(|_| shot(9, 0, 0)).collect();
    let deaths = world.check_for_collisions();
    assert_eq!(deaths, vec![1, 2]);
    assert_eq!(world.players[0].health, 0);
    assert_eq!(world.players[1].health, 0);
    assert_eq!(world.projectiles.len(), 16);
    let again = world.check_for_collisions();
    assert!(again.is_empty());
    assert_eq!(world.projectiles.len(), 16);
    assert_eq!(world.players[0].health, 0);
}

#[test]
fn deaths_come_in_the_order_in_which_they_happen() {
    let mut world = world_with(&[(1, 0, 0), (2, 100_000_000, 0), (3, 200_000_000, 0)]);
    for player in world.players.iter_mut() {
        player.health = 1;
    }
    world.projectiles = vec![shot(9, 200_000_000, 0), shot(9, 0, 0), shot(9, 100_000_000, 0)];
    let deaths = world.check_for_collisions();
    assert_eq!(deaths, vec![3, 1, 2]);
}

#[test]
fn projectiles_with_a_box_of_their_own_hit_each_other() {
    let mut world = World::new();
    world.projectiles = vec![solid(1, 0, 0), solid(2, 1_000_000, 0), solid(3, 2_000_000, 0)];
    let deaths = world.check_for_collisions();
    assert!(deaths.is_empty());
    // The first takes the second with it; the third finds nothing left in its way.
    assert_eq!(world.projectiles, vec![solid(3, 2_000_000, 0)]);
}

#[test]
fn a_projectile_without_a_box_is_no_target() {
    let mut world = World::new();
    world.projectiles = vec![solid(1, 0, 0), shot(2, 0, 0)];
    world.check_for_collisions();
    // The first finds no target; the second hits the first.
    assert!(world.projectiles.is_empty());
    let mut world = World::new();
    world.projectiles = vec![shot(1, 0, 0), shot(2, 0, 0)];
    world.check_for_collisions();
    assert_eq!(world.projectiles.len(), 2);
}

#[test]
fn projectiles_of_one_owner_do_not_hit_each_other() {
    let mut world = World::new();
    world.projectiles = vec![solid(1, 0, 0), solid(1, 0, 0), solid(1, 1, 1)];
    world.check_for_collisions();
    assert_eq!(world.projectiles.len(), 3);
}

#[test]
fn a_projectile_that_left_play_is_hit_by_no_other() {
    let mut world = World::new();
    world.projectiles = vec![solid(1, 0, 0), solid(2, 0, 0), solid(3, 0, 0), solid(4, 0, 0), solid(5, 0, 0)];
    world.check_for_collisions();
    // Pairs leave together: 1 with 2, 3 with 4; the fifth is left alone.
    assert_eq!(world.projectiles, vec![solid(5, 0, 0)]);
}

#[test]
fn a_player_is_preferred_to_a_projectile() {
    let mut world = world_with(&[(1, 0, 0)]);
    world.projectiles = vec![solid(2, 0, 0), solid(3, 0, 0)];
    world.check_for_collisions();
    assert_eq!(world.players[0].health, 8);
    assert!(world.projectiles.is_empty());
}

#[test]
fn a_later_target_may_lie_before_the_projectile() {
    let mut world = World::new();
    world.projectiles = vec![solid(1, 500_000_000, 0), solid(2, 0, 0), solid(3, 0, 0)];
    world.check_for_collisions();
    assert_eq!(world.projectiles, vec![solid(1, 500_000_000, 0)]);
    let mut world = World::new();
    world.projectiles = vec![solid(1, 0, 0), solid(2, 500_000_000, 0), solid(3, 0, 0)];
    world.check_for_collisions();
    assert_eq!(world.projectiles, vec![solid(2, 500_000_000, 0)]);
}

#[test]
fn ten_hits_kill_and_the_toggle_button_brings_back() {
    let config = Config::standard();
    let arena = Arena::from_extent(1_500_000_000, 1_000_000_000).unwrap();
    let mut world = world_with(&[(1, 300_000_000, 200_000_000)]);
    assert_eq!(world.players[0].health, 10);
    for hit in 1..=10 {
        world.projectiles.push(shot(100 + hit, 300_000_000, 200_000_000));
        let deaths = world.check_for_collisions();
        assert_eq!(world.players[0].health, 10 - hit as i32);
        if hit < 10 {
            assert!(deaths.is_empty());
            assert!(world.players[0].alive && world.players[0].collidable);
        } else {
            assert_eq!(deaths, vec![1]);
        }
        world.kill_player(&deaths);
    }
    assert!(!world.players[0].alive);
    assert!(!world.players[0].collidable);
    assert_eq!(world.players[0].health, 0);
    // Hidden: moved off the field, outside the arena.
    assert_eq!(world.players[0].position, Vec2 { x: OFF_FIELD, y: OFF_FIELD });
    assert!(!arena.is_inside(world.players[0].position));
    // A dead player is no target.
    world.projectiles.push(shot(7, 300_000_000, 200_000_000));
    assert!(world.check_for_collisions().is_empty());
    assert_eq!(world.projectiles.len(), 1);
    world.projectiles.clear();
    let toggle = vec![ButtonEvent { device_id: 1, button: Button::Toggle, pressed: true }];
    world.handle_buttons(&toggle, &arena, &config);
    assert!(world.players[0].alive);
    assert!(world.players[0].collidable);
    assert_eq!(world.players[0].health, 10);
    assert!(arena.is_inside(world.players[0].position));
    assert!(world.is_valid());
}
