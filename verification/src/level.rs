//! Level progression: reaching the exit, the next maze, and its enemies.

use crate::combat::{add_score, award};
use crate::enemy::{Enemy, EnemyState, ENEMY_HEALTH};
use crate::game::{
    lemma_spawn_point_is_open, GameState, Player, World, EXIT_POINT, SPAWN_POINT, START_AMMO,
    START_HEALTH,
};
use crate::maze::{
    is_wall_at, lemma_level_is_playable, lemma_open_point_is_inside, level_cells, MazeGrid, CELL_SIZE,
    MAX_LEVEL,
};
use crate::themes::LevelTheme;
use crate::trig::{cos, cos_fp, lemma_trig_bounds, sin, sin_fp, HALF_PI};
use crate::units::{in_world, sq_dist, sq_distance};
use vstd::prelude::*;

verus! {

/// The score for finishing a level.
pub const LEVEL_BONUS: u64 = 100;

/// How near the exit point the player has to come to finish a level.
pub const EXIT_RADIUS: i64 = 40_000;

/// How many places are tried for each enemy before it is left out.
pub const SPAWN_ATTEMPTS: u32 = 50;

/// An enemy is not placed nearer to the player than this.
pub const SPAWN_CLEARANCE: i64 = 200_000;

/// The cell tried for enemy number `i` at a given attempt. The first attempt
/// is the enemy's own cell; later attempts walk through the block of eight
/// by eight cells around it.
pub open spec fn spawn_cell(i: int, attempt: int) -> (int, int) {
    (4 + (3 * i + attempt) % 8, 4 + (2 * i + attempt / 8) % 8)
}

/// The middle of cell number `c` along one axis.
pub open spec fn cell_center(c: int) -> int {
    c * CELL_SIZE + CELL_SIZE / 2
}

/// An enemy may be placed at `(x, y)`: the place is open ground and farther
/// from the player than `SPAWN_CLEARANCE`.
pub open spec fn spawn_fits(cells: Seq<bool>, px: int, py: int, x: int, y: int) -> bool {
    !is_wall_at(cells, x, y) && sq_dist(x, y, px, py) > SPAWN_CLEARANCE * SPAWN_CLEARANCE
}

/// The attempt tried for enemy `i` fits.
pub open spec fn attempt_fits(cells: Seq<bool>, px: int, py: int, i: int, attempt: int) -> bool {
    spawn_fits(
        cells,
        px,
        py,
        cell_center(spawn_cell(i, attempt).0),
        cell_center(spawn_cell(i, attempt).1),
    )
}

/// The first attempt from `attempt` on that fits for enemy `i`, or
/// `SPAWN_ATTEMPTS` if none does.
pub open spec fn first_fit(cells: Seq<bool>, px: int, py: int, i: int, attempt: int) -> int
    decreases SPAWN_ATTEMPTS - attempt,
{
    if attempt >= SPAWN_ATTEMPTS {
        SPAWN_ATTEMPTS as int
    } else if attempt_fits(cells, px, py, i, attempt) {
        attempt
    } else {
        first_fit(cells, px, py, i, attempt + 1)
    }
}

/// Enemy number `i` as it is placed at a given attempt: fresh, patrolling,
/// and facing `i` quarter turns from the x axis.
pub open spec fn placed(i: int, attempt: int) -> Enemy {
    Enemy {
        x: cell_center(spawn_cell(i, attempt).0) as i64,
        y: cell_center(spawn_cell(i, attempt).1) as i64,
        heading_x: cos_fp((i % 4) * HALF_PI) as i64,
        heading_y: sin_fp((i % 4) * HALF_PI) as i64,
        health: ENEMY_HEALTH,
        last_seen_player: None,
        state: EnemyState::Patrolling,
    }
}

/// The enemies numbered below `count` that found a place, in their order.
pub open spec fn spawned(cells: Seq<bool>, px: int, py: int, count: int) -> Seq<Enemy>
    decreases count,
{
    if count <= 0 {
        Seq::empty()
    } else {
        let rest = spawned(cells, px, py, count - 1);
        let attempt = first_fit(cells, px, py, count - 1, 0);
        if attempt < SPAWN_ATTEMPTS {
            rest.push(placed(count - 1, attempt))
        } else {
            rest
        }
    }
}

impl World {
    /// The player stands within `EXIT_RADIUS` of the exit point.
    pub open spec fn at_exit(self) -> bool {
        sq_dist(self.player.x as int, self.player.y as int, EXIT_POINT as int, EXIT_POINT as int)
            < EXIT_RADIUS * EXIT_RADIUS
    }

    /// The world with the enemies of its level placed afresh: one more than
    /// the level number are tried, and those that find no place are left out.
    pub open spec fn respawned(self) -> World {
        World {
            enemies: spawned(
                self.cells,
                self.player.x as int,
                self.player.y as int,
                self.level + 1,
            ),
            ..self
        }
    }

    /// The world after the player has reached the exit.
    ///
    /// A game that is won stays as it is. Otherwise the level counter goes up
    /// and the level bonus is scored. If that was the last level the game is
    /// won and nothing else changes. If not, the next maze is generated, the
    /// player returns to the spawn point with full vitals, and the enemies of
    /// the new level are placed.
    pub open spec fn advanced(self) -> World {
        if self.game_won {
            self
        } else if self.level >= MAX_LEVEL {
            World {
                level: (self.level + 1) as u32,
                score: add_score(self.score, LEVEL_BONUS),
                game_won: true,
                ..self
            }
        } else {
            (World {
                level: (self.level + 1) as u32,
                score: add_score(self.score, LEVEL_BONUS),
                player: Player::fresh(),
                cells: level_cells(self.level + 1),
                theme: LevelTheme::of_level(self.level + 1),
                enemies: Seq::empty(),
                ..self
            }).respawned()
        }
    }

    /// Once the game is won, reaching the exit again changes nothing: level,
    /// maze, vitals and all the rest stay as they are.
    pub proof fn lemma_won_is_final(self)
        requires
            self.wf(),
            self.level == MAX_LEVEL,
        ensures
            self.advanced().game_won,
            self.advanced().level == MAX_LEVEL + 1,
            self.advanced().cells == self.cells,
            self.advanced().player == self.player,
            self.advanced().enemies == self.enemies,
            self.advanced().advanced() == self.advanced(),
    {
    }

    /// Moving on keeps the world well formed, and the maze of a new level is
    /// the generated maze of that level.
    pub proof fn lemma_advanced(self)
        requires
            self.wf(),
        ensures
            self.advanced().wf(),
            !self.game_won && self.level < MAX_LEVEL ==> self.advanced().cells == level_cells(
                self.level + 1,
            ),
    {
        if !self.game_won && self.level < MAX_LEVEL {
            let next = self.advanced();
            lemma_level_is_playable(self.level + 1);
            lemma_spawn_point_is_open(self.level + 1);
            assert forall|k: int| 0 <= k < next.enemies.len() implies (#[trigger] next.enemies[k]).ok_in(
                next.cells,
            ) by {
                lemma_spawned_ok(
                    next.cells,
                    SPAWN_POINT as int,
                    SPAWN_POINT as int,
                    self.level + 2,
                    k,
                );
            }
        }
    }

    /// The level counter never goes down, and it moves by at most one.
    pub proof fn lemma_level_is_monotonic(self)
        requires
            self.wf(),
        ensures
            self.level <= self.advanced().level <= self.level + 1,
            self.advanced().game_won == (self.advanced().level > MAX_LEVEL),
    {
    }
}

/// Every enemy that is placed stands on open ground, farther from the player
/// than the clearance, and faces a direction.
pub proof fn lemma_spawned_ok(cells: Seq<bool>, px: int, py: int, count: int, k: int)
    requires
        0 <= k < spawned(cells, px, py, count).len(),
    ensures
        spawned(cells, px, py, count)[k].ok_in(cells),
        spawned(cells, px, py, count)[k].sq_dist_to(px, py) > SPAWN_CLEARANCE * SPAWN_CLEARANCE,
        spawned(cells, px, py, count).len() <= count,
    decreases count,
{
    let rest = spawned(cells, px, py, count - 1);
    if rest.len() > 0 {
        lemma_spawned_ok(cells, px, py, count - 1, if k < rest.len() { k } else { 0 });
    }
    if k >= rest.len() {
        let attempt = first_fit(cells, px, py, count - 1, 0);
        lemma_first_fit(cells, px, py, count - 1, 0);
        lemma_trig_bounds(((count - 1) % 4) * HALF_PI);
        let c = spawn_cell(count - 1, attempt);
        assert(4 <= c.0 < 12 && 4 <= c.1 < 12);
    }
}

/// The first fit is an attempt that fits, unless there is none within the
/// budget.
pub proof fn lemma_first_fit(cells: Seq<bool>, px: int, py: int, i: int, attempt: int)
    requires
        0 <= attempt,
    ensures
        attempt <= first_fit(cells, px, py, i, attempt) || first_fit(cells, px, py, i, attempt)
            == SPAWN_ATTEMPTS,
        first_fit(cells, px, py, i, attempt) < SPAWN_ATTEMPTS ==> attempt_fits(
            cells,
            px,
            py,
            i,
            first_fit(cells, px, py, i, attempt),
        ),
    decreases SPAWN_ATTEMPTS - attempt,
{
    if attempt < SPAWN_ATTEMPTS && !attempt_fits(cells, px, py, i, attempt) {
        lemma_first_fit(cells, px, py, i, attempt + 1);
    }
}

/// Looks for a place for enemy number `i` and returns the enemy if one is
/// found within the budget of attempts.
pub fn place_enemy(maze: &MazeGrid, px: i64, py: i64, i: u32) -> (r: Option<Enemy>)
    requires
        in_world(px as int, py as int),
        i <= 0x1000_0000,
    ensures
        r == (if first_fit(maze@, px as int, py as int, i as int, 0) < SPAWN_ATTEMPTS {
            Some(placed(i as int, first_fit(maze@, px as int, py as int, i as int, 0)))
        } else {
            None
        }),
{
    let mut attempt: u32 = 0;
    while attempt < SPAWN_ATTEMPTS
        invariant
            attempt <= SPAWN_ATTEMPTS,
            i <= 0x1000_0000,
            in_world(px as int, py as int),
            first_fit(maze@, px as int, py as int, i as int, 0) == first_fit(
                maze@,
                px as int,
                py as int,
                i as int,
                attempt as int,
            ),
        decreases SPAWN_ATTEMPTS - attempt,
    {
        let col: i64 = (4 + (3 * i + attempt) % 8) as i64;
        let row: i64 = (4 + (2 * i + attempt / 8) % 8) as i64;
        let x: i64 = col * CELL_SIZE + CELL_SIZE / 2;
        let y: i64 = row * CELL_SIZE + CELL_SIZE / 2;
        if !maze.wall_at(x, y) {
            if sq_distance(x, y, px, py) > SPAWN_CLEARANCE * SPAWN_CLEARANCE {
                let angle: i64 = ((i % 4) as i64) * HALF_PI;
                return Some(Enemy::new(x, y, cos(angle), sin(angle)));
            }
        }
        attempt += 1;
    }
    None
}

impl GameState {
    /// Whether the player has come within `EXIT_RADIUS` of the exit point.
    pub fn at_exit(&self) -> (b: bool)
        requires
            self@.wf(),
        ensures
            b == self@.at_exit(),
    {
        proof {
            lemma_open_point_is_inside(self.maze@, self.player.x as int, self.player.y as int);
        }
        sq_distance(self.player.x, self.player.y, EXIT_POINT, EXIT_POINT) < EXIT_RADIUS * EXIT_RADIUS
    }

    /// Replaces the enemies by those of the current level, each at the first
    /// place that fits; an enemy that finds none is left out.
    pub fn spawn_enemies(&mut self)
        requires
            old(self)@.wf(),
        ensures
            final(self)@ == old(self)@.respawned(),
            final(self)@.wf(),
            final(self)@.enemies.len() <= old(self).level + 1,
    {
        proof {
            lemma_open_point_is_inside(self.maze@, self.player.x as int, self.player.y as int);
        }
        let count: u32 = self.level + 1;
        let mut fresh: Vec<Enemy> = Vec::new();
        let mut i: u32 = 0;
        while i < count
            invariant
                i <= count <= MAX_LEVEL + 2,
                *self == *old(self),
                self@.wf(),
                in_world(self.player.x as int, self.player.y as int),
                fresh@ == spawned(self.maze@, self.player.x as int, self.player.y as int, i as int),
            decreases count - i,
        {
            match place_enemy(&self.maze, self.player.x, self.player.y, i) {
                Some(e) => {
                    fresh.push(e);
                },
                None => {},
            }
            i += 1;
        }
        proof {
            assert forall|k: int| 0 <= k < fresh@.len() implies (#[trigger] fresh@[k]).ok_in(
                self.maze@,
            ) by {
                lemma_spawned_ok(
                    self.maze@,
                    self.player.x as int,
                    self.player.y as int,
                    count as int,
                    k,
                );
            }
            if fresh@.len() > 0 {
                lemma_spawned_ok(
                    self.maze@,
                    self.player.x as int,
                    self.player.y as int,
                    count as int,
                    0,
                );
            }
        }
        self.enemies = fresh;
    }

    /// Moves on to the next level, or wins the game after the last one.
    pub fn advance_level(&mut self)
        requires
            old(self)@.wf(),
        ensures
            final(self)@ == old(self)@.advanced(),
            final(self)@.wf(),
            old(self).game_won ==> final(self)@ == old(self)@,
    {
        if self.game_won {
            return ;
        }
        self.level = self.level + 1;
        self.score = award(self.score, LEVEL_BONUS);
        if self.level > MAX_LEVEL {
            self.game_won = true;
            return ;
        }
        proof {
            lemma_spawn_point_is_open(self.level as int);
        }
        self.player = Player {
            x: SPAWN_POINT,
            y: SPAWN_POINT,
            angle: 0,
            health: START_HEALTH,
            ammo: START_AMMO,
        };
        self.current_theme = LevelTheme::from_level(self.level as usize);
        self.maze = MazeGrid::generate(self.level);
        self.enemies = Vec::new();
        self.spawn_enemies();
    }
}

} // verus!
