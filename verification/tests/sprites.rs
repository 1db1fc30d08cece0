use maze_sim::enemy::{Enemy, EnemyState};
use maze_sim::game::GameState;
use maze_sim::maze::MazeGrid;
use maze_sim::sprites::{sprite_size_at, Sprite, VIEW_RANGE};
use maze_sim::transport::connect_message;
use maze_sim::trig::{HALF_PI, PI};
use maze_sim::units::ONE;

fn enemy(x: i64, y: i64) -> Enemy {
    Enemy {
        x,
        y,
        heading_x: ONE,
        heading_y: 0,
        health: 50,
        last_seen_player: None,
        state: EnemyState::Patrolling,
    }
}

#[test]
fn sprites_shrink_with_distance() {
    assert_eq!(sprite_size_at(0), 50);
    assert_eq!(sprite_size_at(30_000), 50);
    assert_eq!(sprite_size_at(60_000), 50);
    assert_eq!(sprite_size_at(60_001), 49);
    assert_eq!(sprite_size_at(100_000), 30);
    assert_eq!(sprite_size_at(500_000), 6);
    assert_eq!(sprite_size_at(600_000), 5);
    assert_eq!(sprite_size_at(600_001), 5);
    assert_eq!(sprite_size_at(4_000_000_000), 5);
}

#[test]
fn an_enemy_in_front_is_seen() {
    let mut state = GameState::new(0);
    state.enemies.push(enemy(324_000, 224_000));
    assert_eq!(
        state.visible_enemies(),
        vec![Sprite { enemy: enemy(324_000, 224_000), distance: 100_000, size: 30 }]
    );
    state.enemies[0].x = 524_000;
    state.enemies[0].y = 624_000;
    assert!(state.visible_enemies().is_empty());
}

#[test]
fn the_view_has_a_range() {
    let mut state = GameState::new(0);
    assert_eq!(VIEW_RANGE, 500_000);
    state.enemies.push(enemy(724_000, 224_000));
    assert_eq!(
        state.visible_enemies(),
        vec![Sprite { enemy: enemy(724_000, 224_000), distance: 500_000, size: 6 }]
    );
    state.enemies[0].x = 724_001;
    assert!(state.visible_enemies().is_empty());
}

#[test]
fn the_view_is_a_sixth_of_a_turn_wide() {
    let mut state = GameState::new(0);
    state.maze = MazeGrid::generate(4);
    assert!(state.sees(&enemy(324_000, 224_000 + 57_734)));
    assert!(!state.sees(&enemy(324_000, 224_000 + 57_735)));
    assert!(state.sees(&enemy(324_000, 224_000 - 57_734)));
    assert!(!state.sees(&enemy(324_000, 224_000 - 57_735)));
    assert!(!state.sees(&enemy(124_000, 224_000)));
    assert!(!state.sees(&enemy(224_000, 224_000)));
    // Wider than the aim of a shot.
    assert!(!state.can_hit(&enemy(324_000, 224_000 + 57_734)));
}

#[test]
fn walls_hide_and_the_dead_are_not_drawn() {
    let mut state = GameState::new(0);
    state.player.angle = PI + HALF_PI;
    assert!(!state.sees(&enemy(224_000, 96_000)));
    state.player.angle = 0;
    let mut dead = enemy(324_000, 224_000);
    dead.health = 0;
    assert!(!state.sees(&dead));
    state.enemies = vec![dead, enemy(224_000, 96_000), enemy(424_000, 224_000), enemy(284_000, 224_000)];
    assert_eq!(
        state.visible_enemies(),
        vec![
            Sprite { enemy: enemy(424_000, 224_000), distance: 200_000, size: 15 },
            Sprite { enemy: enemy(284_000, 224_000), distance: 60_000, size: 50 },
        ]
    );
}

#[test]
fn distances_are_rounded_down() {
    let mut state = GameState::new(0);
    state.player.angle = 785_398;
    state.enemies.push(enemy(300_000, 300_000));
    assert_eq!(
        state.visible_enemies(),
        vec![Sprite { enemy: enemy(300_000, 300_000), distance: 107_480, size: 27 }]
    );
}

#[test]
fn the_connect_notice() {
    assert_eq!(connect_message("ann"), b"CONNECT:ann".to_vec());
    assert_eq!(connect_message(""), b"CONNECT:".to_vec());
    assert_eq!(connect_message("a b:c\n"), b"CONNECT:a b:c\n".to_vec());
    assert_eq!(connect_message("zoë"), "CONNECT:zoë".as_bytes().to_vec());
    assert_eq!(connect_message("CONNECT:"), b"CONNECT:CONNECT:".to_vec());
}
