use maze_sim::enemy::{Enemy, EnemyState};
use maze_sim::game::GameState;
use maze_sim::level::{place_enemy, EXIT_RADIUS, LEVEL_BONUS};
use maze_sim::maze::{MazeGrid, MAZE_HEIGHT, MAZE_WIDTH};
use maze_sim::themes::LevelTheme;
use maze_sim::units::ONE;

fn placed(x: i64, y: i64, heading_x: i64, heading_y: i64) -> Enemy {
    Enemy {
        x,
        y,
        heading_x,
        heading_y,
        health: 50,
        last_seen_player: None,
        state: EnemyState::Patrolling,
    }
}

fn cells(maze: &MazeGrid) -> Vec<bool> {
    let mut out = Vec::new();
    for row in 0..MAZE_HEIGHT {
        for col in 0..MAZE_WIDTH {
            out.push(maze.wall_cell(col, row));
        }
    }
    out
}

#[test]
fn the_next_level() {
    let mut state = GameState::new(0);
    state.player.x = 500_000;
    state.player.y = 224_000;
    state.player.angle = 77;
    state.player.health = 40;
    state.player.ammo = 3;
    state.score = 20;
    state.wall_hit_flash = 9;
    state.advance_level();
    assert_eq!(state.level, 2);
    assert_eq!(state.score, 20 + LEVEL_BONUS);
    assert_eq!(state.score, 120);
    assert!(!state.game_won);
    assert_eq!((state.player.x, state.player.y, state.player.angle), (224_000, 224_000, 0));
    assert_eq!(state.player.health, 100);
    assert_eq!(state.player.ammo, 30);
    assert_eq!(state.current_theme, LevelTheme::Cyberpunk);
    assert_eq!(cells(&state.maze), cells(&MazeGrid::generate(2)));
    assert_eq!(state.wall_hit_flash, 9);
    assert_eq!(
        state.enemies,
        vec![
            placed(480_000, 288_000, ONE, 0),
            placed(544_000, 416_000, 0, ONE),
            placed(736_000, 544_000, -ONE, 0),
        ]
    );
    assert!(state.is_well_formed());
}

#[test]
fn the_third_level() {
    let mut state = GameState::new(0);
    state.advance_level();
    state.advance_level();
    assert_eq!(state.level, 3);
    assert_eq!(state.score, 200);
    assert_eq!(state.current_theme, LevelTheme::MoroccanBazaar);
    assert_eq!(cells(&state.maze), cells(&MazeGrid::generate(3)));
    assert_eq!(
        state.enemies,
        vec![
            placed(416_000, 288_000, ONE, 0),
            placed(544_000, 416_000, 0, ONE),
            placed(672_000, 544_000, -ONE, 0),
            placed(416_000, 672_000, 0, -ONE),
        ]
    );
    assert!(state.is_well_formed());
}

#[test]
fn the_game_is_won_after_the_third_level() {
    let mut state = GameState::new(0);
    state.advance_level();
    state.advance_level();
    assert_eq!(state.level, 3);
    state.player.x = 864_000;
    state.player.y = 864_000;
    state.player.health = 35;
    state.player.ammo = 4;
    state.player.angle = 1_000;
    assert!(state.is_well_formed());
    assert!(state.at_exit());
    let maze_before = cells(&state.maze);
    let enemies_before = state.enemies.clone();
    state.advance_level();
    assert_eq!(state.level, 4);
    assert!(state.game_won);
    assert_eq!(state.score, 300);
    // Winning moves nothing else.
    assert_eq!(cells(&state.maze), maze_before);
    assert_eq!(state.enemies, enemies_before);
    assert_eq!((state.player.x, state.player.y, state.player.angle), (864_000, 864_000, 1_000));
    assert_eq!((state.player.health, state.player.ammo), (35, 4));
    assert_eq!(state.current_theme, LevelTheme::MoroccanBazaar);
    // Nor does reaching the exit once more.
    state.advance_level();
    assert_eq!(state.level, 4);
    assert!(state.game_won);
    assert_eq!(state.score, 300);
    assert_eq!(cells(&state.maze), maze_before);
    assert_eq!(state.enemies, enemies_before);
    assert_eq!((state.player.x, state.player.y, state.player.angle), (864_000, 864_000, 1_000));
    assert_eq!((state.player.health, state.player.ammo), (35, 4));
    assert!(state.is_well_formed());
}

#[test]
fn enemies_of_the_first_level() {
    let mut state = GameState::new(0);
    state.enemies.push(placed(864_000, 864_000, ONE, 0));
    state.spawn_enemies();
    assert_eq!(
        state.enemies,
        vec![placed(480_000, 288_000, ONE, 0), placed(480_000, 416_000, 0, ONE)]
    );
    assert_eq!(state.level, 1);
    assert_eq!(state.score, 0);
}

#[test]
fn enemies_keep_their_distance_from_the_player() {
    let mut state = GameState::new(0);
    // With the player in the middle of the block, other places are taken.
    state.player.x = 480_000;
    state.player.y = 416_000;
    assert!(state.is_well_formed());
    state.spawn_enemies();
    assert!(!state.enemies.is_empty());
    for e in &state.enemies {
        assert!(!state.maze.wall_at(e.x, e.y));
        let dx = e.x - state.player.x;
        let dy = e.y - state.player.y;
        assert!(dx * dx + dy * dy > 200_000i64 * 200_000);
        assert_eq!(e.health, 50);
        assert_eq!(e.state, EnemyState::Patrolling);
        assert_eq!(e.last_seen_player, None);
    }
}

#[test]
fn places_tried_for_an_enemy() {
    let maze = MazeGrid::generate(2);
    // The own cell of enemy 0, (4, 4), is wall; the next one is too near, the
    // one after is wall again, the fourth fits.
    assert_eq!(place_enemy(&maze, 224_000, 224_000, 0), Some(placed(480_000, 288_000, ONE, 0)));
    // Enemy 2 faces backwards, enemy 3 up the map, enemy 4 like enemy 0.
    assert_eq!(place_enemy(&maze, 224_000, 224_000, 2), Some(placed(736_000, 544_000, -ONE, 0)));
    let open = MazeGrid::generate(4);
    assert_eq!(place_enemy(&open, 224_000, 224_000, 3), Some(placed(352_000, 672_000, 0, -ONE)));
    assert_eq!(place_enemy(&open, 224_000, 224_000, 4), Some(placed(544_000, 288_000, ONE, 0)));
    assert_eq!(place_enemy(&open, 224_000, 224_000, 0), Some(placed(416_000, 288_000, ONE, 0)));
}

#[test]
fn the_exit_is_a_circle_around_the_exit_point() {
    let mut state = GameState::new(0);
    assert!(!state.at_exit());
    assert_eq!(EXIT_RADIUS, 40_000);
    state.player.x = 864_000 - 39_999;
    state.player.y = 864_000;
    assert!(state.at_exit());
    state.player.x = 864_000 - 40_000;
    assert!(!state.at_exit());
    state.player.x = 864_000 + 24_000;
    state.player.y = 864_000 - 31_999;
    assert!(state.at_exit());
    state.player.y = 864_000 - 32_000;
    assert!(!state.at_exit());
}

#[test]
fn the_level_bonus_stops_at_the_largest_score() {
    let mut state = GameState::new(0);
    state.score = u64::MAX - 5;
    state.advance_level();
    assert_eq!(state.score, u64::MAX);
    assert_eq!(state.level, 2);
}
