use maze_sim::ai::{ATTACK_COOLDOWN, ATTACK_DAMAGE, HIT_FLASH};
use maze_sim::enemy::{direction_toward, transition, Enemy, EnemyState, ENEMY_HEALTH};
use maze_sim::game::GameState;
use maze_sim::maze::MazeGrid;
use maze_sim::units::ONE;

fn enemy(x: i64, y: i64, state: EnemyState) -> Enemy {
    Enemy { x, y, heading_x: ONE, heading_y: 0, health: 50, last_seen_player: None, state }
}

#[test]
fn a_fresh_enemy_patrols() {
    let e = Enemy::new(480_000, 288_000, 0, -ONE);
    assert_eq!(
        e,
        Enemy {
            x: 480_000,
            y: 288_000,
            heading_x: 0,
            heading_y: -ONE,
            health: 50,
            last_seen_player: None,
            state: EnemyState::Patrolling,
        }
    );
    assert_eq!(ENEMY_HEALTH, 50);
}

#[test]
fn patrol_turns_to_chase_below_the_engage_range() {
    let engage: i64 = 150_000;
    assert_eq!(transition(EnemyState::Patrolling, (engage - 1) * (engage - 1)), EnemyState::Chasing);
    assert_eq!(transition(EnemyState::Patrolling, engage * engage - 1), EnemyState::Chasing);
    assert_eq!(transition(EnemyState::Patrolling, engage * engage), EnemyState::Patrolling);
    assert_eq!(transition(EnemyState::Patrolling, (engage + 1) * (engage + 1)), EnemyState::Patrolling);
    assert_eq!(transition(EnemyState::Patrolling, 0), EnemyState::Chasing);
    assert_eq!(transition(EnemyState::Patrolling, i64::MAX), EnemyState::Patrolling);
}

#[test]
fn chase_returns_to_patrol_above_the_disengage_range() {
    let disengage: i64 = 200_000;
    assert_eq!(transition(EnemyState::Chasing, disengage * disengage), EnemyState::Chasing);
    assert_eq!(transition(EnemyState::Chasing, disengage * disengage + 1), EnemyState::Patrolling);
    assert_eq!(transition(EnemyState::Chasing, i64::MAX), EnemyState::Patrolling);
}

#[test]
fn between_the_thresholds_nothing_flaps() {
    for dist in [150_000i64, 150_001, 175_000, 199_999, 200_000] {
        assert_eq!(transition(EnemyState::Patrolling, dist * dist), EnemyState::Patrolling);
        assert_eq!(transition(EnemyState::Chasing, dist * dist), EnemyState::Chasing);
    }
    // An enemy that starts to chase just inside the engage range keeps
    // chasing when the player steps back across that same boundary.
    let chasing = transition(EnemyState::Patrolling, 149_999 * 149_999);
    assert_eq!(chasing, EnemyState::Chasing);
    assert_eq!(transition(chasing, 150_001 * 150_001), EnemyState::Chasing);
}

#[test]
fn melee_thresholds() {
    let melee: i64 = 50_000;
    let release: i64 = 60_000;
    assert_eq!(transition(EnemyState::Chasing, melee * melee - 1), EnemyState::Attacking);
    assert_eq!(transition(EnemyState::Chasing, melee * melee), EnemyState::Chasing);
    assert_eq!(transition(EnemyState::Attacking, release * release), EnemyState::Attacking);
    assert_eq!(transition(EnemyState::Attacking, release * release + 1), EnemyState::Chasing);
    assert_eq!(transition(EnemyState::Attacking, 0), EnemyState::Attacking);
    // An attacker never turns straight to patrol.
    assert_eq!(transition(EnemyState::Attacking, i64::MAX), EnemyState::Chasing);
    for dist in [50_000i64, 55_000, 60_000] {
        assert_eq!(transition(EnemyState::Chasing, dist * dist), EnemyState::Chasing);
        assert_eq!(transition(EnemyState::Attacking, dist * dist), EnemyState::Attacking);
    }
}

#[test]
fn directions_toward_a_point() {
    assert_eq!(direction_toward(0, 0), (ONE, 0));
    assert_eq!(direction_toward(5, 0), (ONE, 0));
    assert_eq!(direction_toward(-76_000, 0), (-ONE, 0));
    assert_eq!(direction_toward(0, 1_024_000), (0, ONE));
    assert_eq!(direction_toward(0, -1), (0, -ONE));
    assert_eq!(direction_toward(-76_000, -76_000), (-707_108, -707_108));
    assert_eq!(direction_toward(3_000, 4_000), (600_000, 800_000));
    assert_eq!(direction_toward(1, 1), (ONE, ONE));
    let (hx, hy) = direction_toward(-1_024_000, 1_024_000);
    assert!(hx.abs() <= ONE && hy.abs() <= ONE);
}

#[test]
fn a_patrolling_enemy_walks_along_its_heading() {
    let maze = MazeGrid::generate(1);
    let e = enemy(480_000, 288_000, EnemyState::Patrolling);
    let next = e.step(&maze, 224_000, 224_000, 100_000, 9);
    assert_eq!(next, Enemy { x: 485_000, ..e });
}

#[test]
fn a_blocked_patrol_makes_a_quarter_turn_in_place() {
    let maze = MazeGrid::generate(1);
    // The cell to the left, (6, 4), is wall.
    let e = Enemy { heading_x: -ONE, heading_y: 0, ..enemy(450_000, 288_000, EnemyState::Patrolling) };
    let next = e.step(&maze, 224_000, 224_000, 100_000, 9);
    assert_eq!(next, Enemy { heading_x: 0, heading_y: -ONE, ..e });
    let again = next.step(&maze, 224_000, 224_000, 100_000, 9);
    assert_eq!(again, Enemy { y: 283_000, ..next });
    // Four blocked steps bring the heading round.
    let boxed = MazeGrid::generate(4);
    let mut e = enemy(70_000, 70_000, EnemyState::Patrolling);
    e.heading_x = 600_000;
    e.heading_y = -800_000;
    let far = (900_000, 900_000);
    let a = e.step(&boxed, far.0, far.1, 200_000, 0);
    assert_eq!((a.x, a.y, a.heading_x, a.heading_y), (70_000, 70_000, 800_000, 600_000));
}

#[test]
fn a_patrolling_enemy_that_sees_the_player_starts_the_chase() {
    let maze = MazeGrid::generate(1);
    let e = enemy(324_000, 224_000, EnemyState::Patrolling);
    let next = e.step(&maze, 224_000, 224_000, 100_000, 1234);
    // It still makes its patrol step in this tick.
    assert_eq!(
        next,
        Enemy { x: 329_000, state: EnemyState::Chasing, last_seen_player: Some(1234), ..e }
    );
}

#[test]
fn a_chasing_enemy_heads_for_the_player() {
    let maze = MazeGrid::generate(1);
    let e = enemy(300_000, 224_000, EnemyState::Chasing);
    let next = e.step(&maze, 224_000, 224_000, 100_000, 5);
    assert_eq!(next, Enemy { x: 292_000, heading_x: -ONE, heading_y: 0, ..e });
    let e = enemy(300_000, 300_000, EnemyState::Chasing);
    let next = e.step(&maze, 224_000, 224_000, 100_000, 5);
    assert_eq!(
        next,
        Enemy { x: 294_344, y: 294_344, heading_x: -707_108, heading_y: -707_108, ..e }
    );
}

#[test]
fn a_blocked_chase_stays_in_place() {
    let maze = MazeGrid::generate(1);
    // The player is straight above, behind the wall cell (3, 2).
    let e = enemy(224_000, 224_000, EnemyState::Chasing);
    let next = e.step(&maze, 224_000, 96_000, 500_000, 5);
    assert_eq!(next, Enemy { heading_x: 0, heading_y: -ONE, ..e });
}

#[test]
fn chase_changes_state_by_distance() {
    let maze = MazeGrid::generate(4);
    let near = enemy(260_000, 224_000, EnemyState::Chasing).step(&maze, 224_000, 224_000, 1_000, 5);
    assert_eq!(near.state, EnemyState::Attacking);
    let far = enemy(500_000, 224_000, EnemyState::Chasing).step(&maze, 224_000, 224_000, 1_000, 5);
    assert_eq!(far.state, EnemyState::Patrolling);
    assert_eq!(far.last_seen_player, None);
}

#[test]
fn an_attacking_enemy_stands() {
    let maze = MazeGrid::generate(1);
    let e = enemy(234_000, 224_000, EnemyState::Attacking);
    assert_eq!(e.step(&maze, 224_000, 224_000, 100_000, 5), e);
    let e = enemy(300_000, 224_000, EnemyState::Attacking);
    assert_eq!(
        e.step(&maze, 224_000, 224_000, 100_000, 5),
        Enemy { state: EnemyState::Chasing, ..e }
    );
}

#[test]
fn two_attackers_strike_once() {
    let mut state = GameState::new(0);
    state.enemies.push(enemy(234_000, 224_000, EnemyState::Attacking));
    state.enemies.push(enemy(224_000, 234_000, EnemyState::Attacking));
    assert!(state.is_well_formed());
    state.update_enemies(16_000, ATTACK_COOLDOWN + 1);
    assert_eq!(state.player.health, 100 - ATTACK_DAMAGE);
    assert_eq!(state.player.health, 90);
    assert_eq!(state.last_enemy_attack, ATTACK_COOLDOWN + 1);
    assert_eq!(state.wall_hit_flash, HIT_FLASH);
    assert_eq!(state.enemies.len(), 2);
    assert_eq!(state.enemies[0].state, EnemyState::Attacking);
    assert_eq!(state.enemies[1].state, EnemyState::Attacking);
    // The cooldown has started again.
    state.update_enemies(16_000, ATTACK_COOLDOWN + 16_001);
    assert_eq!(state.player.health, 90);
    state.update_enemies(16_000, 2 * ATTACK_COOLDOWN + 1);
    assert_eq!(state.player.health, 90);
    state.update_enemies(16_000, 2 * ATTACK_COOLDOWN + 2);
    assert_eq!(state.player.health, 80);
}

#[test]
fn no_strike_before_the_cooldown_is_over() {
    let mut state = GameState::new(500);
    state.enemies.push(enemy(234_000, 224_000, EnemyState::Attacking));
    state.update_enemies(16_000, 500 + ATTACK_COOLDOWN);
    assert_eq!(state.player.health, 100);
    assert_eq!(state.last_enemy_attack, 500);
    assert_eq!(state.wall_hit_flash, 0);
    // A clock that ran backwards counts as no time at all.
    state.update_enemies(16_000, 0);
    assert_eq!(state.player.health, 100);
}

#[test]
fn only_attackers_strike() {
    let mut state = GameState::new(0);
    state.enemies.push(enemy(234_000, 224_000, EnemyState::Chasing));
    state.enemies.push(enemy(224_000, 234_000, EnemyState::Patrolling));
    state.update_enemies(1_000, 5_000_000);
    assert_eq!(state.player.health, 100);
    assert_eq!(state.enemies[0].state, EnemyState::Attacking);
    assert_eq!(state.enemies[1].state, EnemyState::Chasing);
    assert_eq!(state.enemies[1].last_seen_player, Some(5_000_000));
    state.update_enemies(1_000, 5_001_000);
    assert_eq!(state.player.health, 90);
}

#[test]
fn a_dead_attacker_does_not_strike_and_is_removed() {
    let mut state = GameState::new(0);
    let mut dead = enemy(234_000, 224_000, EnemyState::Attacking);
    dead.health = 0;
    let mut gone = enemy(224_000, 234_000, EnemyState::Attacking);
    gone.health = -25;
    let alive = enemy(480_000, 288_000, EnemyState::Patrolling);
    state.enemies.push(dead);
    state.enemies.push(alive);
    state.enemies.push(gone);
    state.update_enemies(100_000, 5_000_000);
    assert_eq!(state.player.health, 100);
    assert_eq!(state.enemies, vec![Enemy { x: 485_000, ..alive }]);
}

#[test]
fn health_does_not_drop_below_zero() {
    let mut state = GameState::new(0);
    state.player.health = 5;
    state.enemies.push(enemy(234_000, 224_000, EnemyState::Attacking));
    state.update_enemies(1_000, 5_000_000);
    assert_eq!(state.player.health, 0);
    state.update_enemies(1_000, 9_000_000);
    assert_eq!(state.player.health, 0);
    assert!(state.is_well_formed());
}

#[test]
fn enemies_advance_in_order_from_the_same_snapshot() {
    let mut state = GameState::new(0);
    let a = enemy(480_000, 288_000, EnemyState::Patrolling);
    let b = enemy(300_000, 224_000, EnemyState::Chasing);
    let c = enemy(234_000, 224_000, EnemyState::Attacking);
    state.enemies = vec![a, b, c];
    state.update_enemies(100_000, 10);
    let maze = MazeGrid::generate(1);
    assert_eq!(
        state.enemies,
        vec![
            a.step(&maze, 224_000, 224_000, 100_000, 10),
            b.step(&maze, 224_000, 224_000, 100_000, 10),
            c.step(&maze, 224_000, 224_000, 100_000, 10),
        ]
    );
    assert_eq!((state.player.x, state.player.y), (224_000, 224_000));
    assert_eq!(state.score, 0);
    assert_eq!(state.level, 1);
}
