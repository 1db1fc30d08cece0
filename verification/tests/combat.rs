use maze_sim::combat::{award, in_aim, line_blocked, FIRE_RANGE, HIT_REWARD, MISS_REWARD, MUZZLE_FLASH, SHOT_DAMAGE};
use maze_sim::enemy::{Enemy, EnemyState};
use maze_sim::game::GameState;
use maze_sim::maze::MazeGrid;
use maze_sim::trig::{HALF_PI, PI, TAU};
use maze_sim::units::ONE;

fn enemy(x: i64, y: i64) -> Enemy {
    Enemy {
        x,
        y,
        heading_x: ONE,
        heading_y: 0,
        health: 50,
        last_seen_player: None,
        state: EnemyState::Patrolling,
    }
}

#[test]
fn a_shot_with_no_enemy_in_range_is_a_miss() {
    let mut state = GameState::new(0);
    assert_eq!(state.player.ammo, 30);
    state.fire();
    assert_eq!(state.player.ammo, 29);
    assert_eq!(state.score, MISS_REWARD);
    assert_eq!(state.score, 10);
    assert_eq!(state.player.health, 100);
    assert_eq!(state.wall_hit_flash, MUZZLE_FLASH);
    assert!(state.enemies.is_empty());
    // The same with an enemy on the map, but far out of range.
    let mut state = GameState::new(0);
    state.enemies.push(enemy(864_000, 864_000));
    state.fire();
    assert_eq!(state.player.ammo, 29);
    assert_eq!(state.score, 10);
    assert_eq!(state.player.health, 100);
    assert_eq!(state.enemies, vec![enemy(864_000, 864_000)]);
}

#[test]
fn firing_without_ammunition_does_nothing() {
    let mut state = GameState::new(0);
    state.player.ammo = 0;
    state.score = 70;
    state.wall_hit_flash = 5;
    state.enemies.push(enemy(324_000, 224_000));
    state.enemies.push(enemy(424_000, 224_000));
    state.fire();
    assert_eq!(state.player.ammo, 0);
    assert_eq!(state.score, 70);
    assert_eq!(state.wall_hit_flash, 5);
    assert_eq!(state.enemies, vec![enemy(324_000, 224_000), enemy(424_000, 224_000)]);
    assert_eq!(state.player.health, 100);
}

#[test]
fn a_shot_wounds_the_enemy_in_front() {
    let mut state = GameState::new(0);
    state.enemies.push(enemy(324_000, 224_000));
    state.fire();
    assert_eq!(state.player.ammo, 29);
    assert_eq!(state.score, HIT_REWARD);
    assert_eq!(state.score, 50);
    assert_eq!(state.enemies, vec![Enemy { health: 50 - SHOT_DAMAGE, ..enemy(324_000, 224_000) }]);
    assert_eq!(state.enemies[0].health, 25);
    state.fire();
    assert_eq!(state.enemies[0].health, 0);
    assert_eq!(state.score, 100);
    // A dead enemy is no target.
    state.fire();
    assert_eq!(state.enemies[0].health, 0);
    assert_eq!(state.score, 110);
    assert_eq!(state.player.ammo, 27);
    assert!(state.is_well_formed());
}

#[test]
fn a_shot_hits_one_enemy_the_first_in_order() {
    let mut state = GameState::new(0);
    state.enemies.push(enemy(124_000, 224_000));
    state.enemies.push(enemy(424_000, 224_000));
    state.enemies.push(enemy(324_000, 224_000));
    assert!(!state.can_hit(&enemy(124_000, 224_000)));
    assert!(state.can_hit(&enemy(424_000, 224_000)));
    assert!(state.can_hit(&enemy(324_000, 224_000)));
    assert!(state.check_enemy_hit());
    assert_eq!(
        state.enemies,
        vec![
            enemy(124_000, 224_000),
            Enemy { health: 25, ..enemy(424_000, 224_000) },
            enemy(324_000, 224_000),
        ]
    );
    assert_eq!(state.score, 0);
    assert_eq!(state.player.ammo, 30);
}

#[test]
fn the_range_of_a_shot() {
    let mut state = GameState::new(0);
    assert_eq!(FIRE_RANGE, 300_000);
    state.enemies.push(enemy(224_000 + FIRE_RANGE + 1, 224_000));
    assert!(!state.check_enemy_hit());
    state.enemies[0].x = 224_000 + FIRE_RANGE;
    assert!(state.check_enemy_hit());
    assert_eq!(state.enemies[0].health, 25);
}

#[test]
fn the_aim_of_a_shot() {
    let mut state = GameState::new(0);
    state.enemies.push(enemy(324_000, 224_000 + 10_030));
    assert!(!state.check_enemy_hit());
    state.enemies[0].y = 224_000 + 10_029;
    assert!(state.check_enemy_hit());
    state.enemies[0].y = 224_000 - 10_029;
    assert!(state.check_enemy_hit());
    state.enemies[0].y = 224_000 - 10_030;
    assert!(!state.check_enemy_hit());
    assert_eq!(state.enemies[0].health, 0);
    // An enemy behind the player is out of aim, and so is one on the spot.
    let mut state = GameState::new(0);
    state.enemies.push(enemy(124_000, 224_000));
    state.enemies.push(enemy(224_000, 224_000));
    assert!(!state.check_enemy_hit());
    state.player.angle = PI;
    assert!(state.check_enemy_hit());
    assert_eq!(state.enemies[0].health, 25);
    assert_eq!(state.enemies[1].health, 50);
}

#[test]
fn aim_is_a_cone_of_a_tenth_of_a_radian() {
    assert!(in_aim(100_000, 0, ONE, 0));
    assert!(in_aim(1, 0, ONE, 0));
    assert!(!in_aim(0, 0, ONE, 0));
    assert!(!in_aim(-100_000, 0, ONE, 0));
    assert!(in_aim(100_000, 10_029, ONE, 0));
    assert!(!in_aim(100_000, 10_030, ONE, 0));
    assert!(in_aim(0, -128_000, 0, -ONE));
    assert!(!in_aim(0, 128_000, 0, -ONE));
    assert!(in_aim(1_024_000, 1_024_000, 705_882, 705_882));
    assert!(!in_aim(1_024_000, -1_024_000, 705_882, 705_882));
}

#[test]
fn a_wall_in_the_line_of_fire_saves_the_enemy() {
    let mut state = GameState::new(0);
    // Facing up the map: the cell above the spawn cell is wall, and the
    // enemy stands in the cell beyond it.
    state.player.angle = PI + HALF_PI;
    state.enemies.push(enemy(224_000, 96_000));
    assert!(line_blocked(&state.maze, 224_000, 224_000, 224_000, 96_000));
    assert!(!state.can_hit(&enemy(224_000, 96_000)));
    state.fire();
    assert_eq!(state.enemies, vec![enemy(224_000, 96_000)]);
    assert_eq!(state.player.ammo, 29);
    assert_eq!(state.score, 10);
    // Without the wall the same shot hits.
    state.maze = MazeGrid::generate(4);
    assert!(!line_blocked(&state.maze, 224_000, 224_000, 224_000, 96_000));
    state.fire();
    assert_eq!(state.enemies, vec![Enemy { health: 25, ..enemy(224_000, 96_000) }]);
    assert_eq!(state.score, 60);
}

#[test]
fn a_hidden_enemy_does_not_shield_the_one_behind_it_in_order() {
    let mut state = GameState::new(0);
    state.player.angle = PI + HALF_PI;
    state.enemies.push(enemy(224_000, 96_000));
    state.player.angle = 0;
    state.enemies.push(enemy(324_000, 224_000));
    assert!(state.check_enemy_hit());
    assert_eq!(state.enemies[0].health, 50);
    assert_eq!(state.enemies[1].health, 25);
}

#[test]
fn lines_of_sight() {
    let maze = MazeGrid::generate(1);
    // Along the open spawn row.
    assert!(!line_blocked(&maze, 224_000, 224_000, 900_000, 224_000));
    assert!(!line_blocked(&maze, 900_000, 224_000, 224_000, 224_000));
    // Through the wall line of row 2.
    assert!(line_blocked(&maze, 160_000, 224_000, 160_000, 96_000));
    assert!(line_blocked(&maze, 160_000, 96_000, 160_000, 224_000));
    // A point sees itself, and its near neighbours, whatever stands around.
    assert!(!line_blocked(&maze, 224_000, 224_000, 224_000, 224_000));
    assert!(!line_blocked(&maze, 224_000, 224_000, 224_000, 214_001));
    // The samples stop short of the far end: a target in a wall cell is seen
    // if nothing stands before it.
    assert!(!line_blocked(&maze, 224_000, 224_000, 224_000, 190_000));
    assert!(line_blocked(&maze, 224_000, 224_000, 224_000, 180_000));
    // Diagonally across the first level, walls are in the way.
    assert!(line_blocked(&maze, 224_000, 224_000, 864_000, 864_000));
    let open = MazeGrid::generate(9);
    assert!(!line_blocked(&open, 70_000, 70_000, 950_000, 950_000));
    assert!(!line_blocked(&open, 950_000, 70_000, 70_000, 950_000));
}

#[test]
fn the_score_stops_at_its_largest_value() {
    assert_eq!(award(0, 10), 10);
    assert_eq!(award(40, 50), 90);
    assert_eq!(award(u64::MAX - 50, 50), u64::MAX);
    assert_eq!(award(u64::MAX - 49, 50), u64::MAX);
    assert_eq!(award(u64::MAX, 10), u64::MAX);
    let mut state = GameState::new(0);
    state.score = u64::MAX - 3;
    state.fire();
    assert_eq!(state.score, u64::MAX);
}

#[test]
fn thirty_rounds_and_no_more() {
    let mut state = GameState::new(0);
    for shot in 1..=30u32 {
        state.fire();
        assert_eq!(state.player.ammo, 30 - shot);
    }
    assert_eq!(state.score, 300);
    state.fire();
    assert_eq!(state.player.ammo, 0);
    assert_eq!(state.score, 300);
}

#[test]
fn a_shot_does_not_depend_on_how_the_angle_is_written() {
    for angle in [0, TAU, -TAU, 12 * TAU] {
        let mut state = GameState::new(0);
        state.player.angle = angle;
        state.enemies.push(enemy(324_000, 224_000));
        assert!(state.is_well_formed());
        assert!(state.check_enemy_hit());
        assert_eq!(state.enemies[0].health, 25);
    }
    let mut state = GameState::new(0);
    state.player.angle = PI - TAU;
    state.enemies.push(enemy(324_000, 224_000));
    assert!(!state.check_enemy_hit());
    assert_eq!(state.enemies[0].health, 50);
}
