//! The state of a running game and its mathematical model.
//!
//! `GameState` is what the program holds. `World` is the same state as a
//! mathematical value; every operation of the game is a function from worlds
//! to worlds, and the executable operations are proved to compute them.

use crate::clock::{FrameClock, NOMINAL_RATE, RATE_WINDOW};
use crate::enemy::Enemy;
use crate::maze::{cell_of, grid_wf, is_wall_at, lemma_level_is_playable, level_cells, MazeGrid, MAX_LEVEL};
use crate::themes::LevelTheme;
use crate::units::ONE;
use vstd::prelude::*;

verus! {

/// Where the player starts a level, on both axes: the middle of the spawn cell.
pub const SPAWN_POINT: i64 = 224_000;

/// Where a level ends, on both axes: the middle of the exit cell.
pub const EXIT_POINT: i64 = 864_000;

/// The largest angle, to either side, that a player's orientation holds. It
/// leaves room for the turn of any one tick.
pub const ANGLE_LIMIT: i64 = 4_000_000_000_000_000_000;

/// The health a level starts with.
pub const START_HEALTH: u32 = 100;

/// The ammunition a level starts with.
pub const START_AMMO: u32 = 30;

/// What the input devices report for one tick.
#[derive(Clone, Copy, Debug, PartialEq, Eq)]
pub struct Input {
    pub forward: bool,
    pub back: bool,
    pub strafe_left: bool,
    pub strafe_right: bool,
    pub turn_left: bool,
    pub turn_right: bool,
    /// How far the pointer moved sideways since the last tick, in pixels.
    pub look_delta: i32,
    /// Set on the tick in which the trigger went down.
    pub fire: bool,
    /// Set on the tick in which the player asked for the next theme.
    pub cycle_theme: bool,
}

/// The player: pose and vitals.
#[derive(Clone, Copy, Debug, PartialEq, Eq)]
pub struct Player {
    /// Position, in thousandths of a world unit.
    pub x: i64,
    pub y: i64,
    /// Orientation in microradians. It is the sum of all the turns made and
    /// is not brought into one turn; sine and cosine do that where needed.
    pub angle: i64,
    pub health: u32,
    pub ammo: u32,
}

impl Player {
    /// The player stands on open ground of the grid `cells`, has an angle
    /// that the machine can turn further, and vitals within their ranges.
    pub open spec fn ok_in(&self, cells: Seq<bool>) -> bool {
        &&& !is_wall_at(cells, self.x as int, self.y as int)
        &&& -ANGLE_LIMIT <= self.angle <= ANGLE_LIMIT
        &&& self.health <= START_HEALTH
        &&& self.ammo <= START_AMMO
    }

    /// The player as a level begins: at the spawn point, facing along the x
    /// axis, with full vitals.
    pub open spec fn fresh() -> Player {
        Player { x: SPAWN_POINT, y: SPAWN_POINT, angle: 0, health: START_HEALTH, ammo: START_AMMO }
    }
}

/// The game as a mathematical value.
pub struct World {
    pub player: Player,
    /// The wall flags of the maze, row by row.
    pub cells: Seq<bool>,
    pub enemies: Seq<Enemy>,
    pub level: u32,
    pub score: u64,
    pub game_won: bool,
    /// Strength of the screen flash, in millionths; it fades with time.
    pub wall_hit_flash: u32,
    /// When an enemy last struck the player. All enemies share it.
    pub last_enemy_attack: u64,
    pub theme: LevelTheme,
    pub last_frame_time: u64,
    pub frame_rates: Seq<u32>,
    pub fps: u32,
}

impl World {
    /// What every reachable world satisfies: the maze is whole and bordered,
    /// player and enemies stand on open ground, the level counter is in
    /// range and the game is won exactly when it has passed the last level.
    pub open spec fn wf(self) -> bool {
        &&& grid_wf(self.cells)
        &&& self.player.ok_in(self.cells)
        &&& forall|i: int| 0 <= i < self.enemies.len() ==> (#[trigger] self.enemies[i]).ok_in(self.cells)
        &&& 1 <= self.level <= MAX_LEVEL + 1
        &&& self.game_won == (self.level > MAX_LEVEL)
        &&& self.frame_rates.len() <= RATE_WINDOW
    }

    /// The world in which a game begins at time `now`.
    pub open spec fn initial(now: u64) -> World {
        World {
            player: Player::fresh(),
            cells: level_cells(1),
            enemies: Seq::empty(),
            level: 1,
            score: 0,
            game_won: false,
            wall_hit_flash: 0,
            last_enemy_attack: now,
            theme: LevelTheme::CandyMaze,
            last_frame_time: now,
            frame_rates: Seq::empty(),
            fps: NOMINAL_RATE,
        }
    }
}

/// The game as the program holds it.
pub struct GameState {
    pub player: Player,
    pub maze: MazeGrid,
    pub enemies: Vec<Enemy>,
    pub level: u32,
    pub score: u64,
    pub game_won: bool,
    pub wall_hit_flash: u32,
    pub last_enemy_attack: u64,
    pub current_theme: LevelTheme,
    pub clock: FrameClock,
}

impl View for GameState {
    type V = World;

    open spec fn view(&self) -> World {
        World {
            player: self.player,
            cells: self.maze@,
            enemies: self.enemies@,
            level: self.level,
            score: self.score,
            game_won: self.game_won,
            wall_hit_flash: self.wall_hit_flash,
            last_enemy_attack: self.last_enemy_attack,
            theme: self.current_theme,
            last_frame_time: self.clock.last_frame_time,
            frame_rates: self.clock.frame_rates@,
            fps: self.clock.fps,
        }
    }
}

/// The spawn point lies in the spawn cell, which every generated maze leaves
/// open.
pub proof fn lemma_spawn_point_is_open(level: int)
    ensures
        !is_wall_at(level_cells(level), SPAWN_POINT as int, SPAWN_POINT as int),
        !is_wall_at(level_cells(level), EXIT_POINT as int, EXIT_POINT as int),
{
    lemma_level_is_playable(level);
    assert(cell_of(SPAWN_POINT as int) == 3);
    assert(cell_of(EXIT_POINT as int) == 13);
}

impl GameState {
    /// A game at its start: the first level, the player at the spawn point,
    /// no enemies yet, nothing scored.
    pub fn new(now: u64) -> (state: GameState)
        ensures
            state@ == World::initial(now),
            state@.wf(),
    {
        proof {
            lemma_spawn_point_is_open(1);
        }
        GameState {
            player: Player {
                x: SPAWN_POINT,
                y: SPAWN_POINT,
                angle: 0,
                health: START_HEALTH,
                ammo: START_AMMO,
            },
            maze: MazeGrid::generate(1),
            enemies: Vec::new(),
            level: 1,
            score: 0,
            game_won: false,
            wall_hit_flash: 0,
            last_enemy_attack: now,
            current_theme: LevelTheme::CandyMaze,
            clock: FrameClock::new(now),
        }
    }

    /// Whether the state is one that the game's operations accept.
    pub fn is_well_formed(&self) -> (b: bool)
        ensures
            b == self@.wf(),
    {
        proof {
            use_type_invariant(&self.maze);
        }
        if self.maze.wall_at(self.player.x, self.player.y) || self.player.angle < -ANGLE_LIMIT
            || self.player.angle > ANGLE_LIMIT || self.player.health > START_HEALTH
            || self.player.ammo > START_AMMO {
            return false;
        }
        if self.level < 1 || self.level > MAX_LEVEL + 1 || self.game_won != (self.level
            > MAX_LEVEL) || self.clock.frame_rates.len() > RATE_WINDOW {
            return false;
        }
        let mut i: usize = 0;
        while i < self.enemies.len()
            invariant
                i <= self.enemies@.len(),
                forall|k: int| 0 <= k < i ==> (#[trigger] self.enemies@[k]).ok_in(self.maze@),
            decreases self.enemies@.len() - i,
        {
            let e: Enemy = self.enemies[i];
            if self.maze.wall_at(e.x, e.y) || e.heading_x < -ONE || e.heading_x
                > ONE || e.heading_y < -ONE || e.heading_y
                > ONE {
                assert(!(self@.enemies[i as int]).ok_in(self@.cells));
                return false;
            }
            i += 1;
        }
        true
    }
}

} // verus!
