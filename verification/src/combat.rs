//! Firing: which enemy a shot hits, if any.
//!
//! A shot hits the first enemy, in the order the game keeps them, that is
//! alive, in range, near enough to the line the player faces along, and not
//! hidden behind a wall. The wall test samples the straight line from the
//! player to the enemy at a fixed spacing much smaller than a cell.

use crate::enemy::Enemy;
use crate::game::{GameState, Player, World};
use crate::maze::{is_wall_at, lemma_open_point_is_inside, MazeGrid};
use crate::trig::{cos, cos_fp, sin, sin_fp};
use crate::units::{div_trunc, in_world, is_direction, isqrt, sq_dist, sq_distance, sqrt_floor, ONE, WORLD_SIZE};
use vstd::prelude::*;

verus! {

/// The farthest a shot reaches.
pub const FIRE_RANGE: i64 = 300_000;

/// The health a hit takes from an enemy.
pub const SHOT_DAMAGE: i32 = 25;

/// The score for a shot that hits.
pub const HIT_REWARD: u64 = 50;

/// The score for a shot that misses.
pub const MISS_REWARD: u64 = 10;

/// The flash that a shot sets off.
pub const MUZZLE_FLASH: u32 = 200_000;

/// The spacing of the samples along a line of sight.
pub const SIGHT_STEP: i64 = 5_000;

/// The aim tolerance as a slope: a target is in aim when its sideways offset
/// is less than `AIM_SLOPE / AIM_SCALE` of its offset ahead. This slope is a
/// tenth of a radian to either side.
pub const AIM_SLOPE: i64 = 1_003;

/// See `AIM_SLOPE`.
pub const AIM_SCALE: i64 = 10_000;

/// How far ahead the offset `(dx, dy)` lies along the direction `(fx, fy)`.
pub open spec fn ahead(dx: int, dy: int, fx: int, fy: int) -> int {
    dx * fx + dy * fy
}

/// How far to the side the offset `(dx, dy)` lies of the direction `(fx, fy)`.
pub open spec fn aside(dx: int, dy: int, fx: int, fy: int) -> int {
    dx * fy - dy * fx
}

/// The offset `(dx, dy)` lies in front of the direction `(fx, fy)` and inside
/// the cone around it whose sides have the slope `slope / scale`.
pub open spec fn within_cone(dx: int, dy: int, fx: int, fy: int, slope: int, scale: int) -> bool {
    let a = ahead(dx, dy, fx, fy);
    let s = aside(dx, dy, fx, fy);
    a > 0 && (if s < 0 { -s } else { s }) * scale < a * slope
}

/// The offset `(dx, dy)` lies in front and within the aim tolerance of the
/// direction `(fx, fy)`.
pub open spec fn within_aim(dx: int, dy: int, fx: int, fy: int) -> bool {
    within_cone(dx, dy, fx, fy, AIM_SLOPE as int, AIM_SCALE as int)
}

/// The number that bounds the samples on the line of sight between two
/// points: the samples are those numbered from 1 to below it.
pub open spec fn sight_steps(x0: int, y0: int, x1: int, y1: int) -> int {
    sqrt_floor(sq_dist(x1, y1, x0, y0)) / (SIGHT_STEP as int)
}

/// The `i`-th sample on the line of sight from `(x0, y0)` to `(x1, y1)`.
pub open spec fn sight_point(x0: int, y0: int, x1: int, y1: int, i: int) -> (int, int) {
    let d = sqrt_floor(sq_dist(x1, y1, x0, y0));
    (
        x0 + div_trunc((x1 - x0) * (i * SIGHT_STEP), d),
        y0 + div_trunc((y1 - y0) * (i * SIGHT_STEP), d),
    )
}

/// The `i`-th sample on the line of sight lies in a wall.
pub open spec fn wall_on_sight(cells: Seq<bool>, x0: int, y0: int, x1: int, y1: int, i: int) -> bool {
    is_wall_at(cells, sight_point(x0, y0, x1, y1, i).0, sight_point(x0, y0, x1, y1, i).1)
}

/// A wall stands on the line of sight from `(x0, y0)` to `(x1, y1)`.
pub open spec fn occluded(cells: Seq<bool>, x0: int, y0: int, x1: int, y1: int) -> bool {
    exists|i: int|
        1 <= i < sight_steps(x0, y0, x1, y1) && #[trigger] wall_on_sight(cells, x0, y0, x1, y1, i)
}

/// The enemy after a hit.
pub open spec fn wounded(e: Enemy) -> Enemy {
    Enemy { health: (e.health - SHOT_DAMAGE) as i32, ..e }
}

/// The score after a reward; it stops at the largest score there is.
pub open spec fn add_score(score: u64, reward: u64) -> u64 {
    if score + reward > u64::MAX {
        u64::MAX
    } else {
        (score + reward) as u64
    }
}

impl World {
    /// A shot fired now would hit `e`, were `e` the only enemy.
    pub open spec fn can_hit(self, e: Enemy) -> bool {
        &&& e.alive()
        &&& e.sq_dist_to(self.player.x as int, self.player.y as int) <= FIRE_RANGE * FIRE_RANGE
        &&& within_aim(
            e.x - self.player.x,
            e.y - self.player.y,
            cos_fp(self.player.angle as int),
            sin_fp(self.player.angle as int),
        )
        &&& !occluded(self.cells, self.player.x as int, self.player.y as int, e.x as int, e.y as int)
    }

    /// The index of the first enemy from `from` on that a shot would hit, or
    /// the number of enemies if there is none.
    pub open spec fn first_target(self, from: int) -> int
        decreases self.enemies.len() - from,
    {
        if from >= self.enemies.len() {
            self.enemies.len() as int
        } else if self.can_hit(self.enemies[from]) {
            from
        } else {
            self.first_target(from + 1)
        }
    }

    /// A shot finds an enemy to hit.
    pub open spec fn shot_hits(self) -> bool {
        self.first_target(0) < self.enemies.len()
    }

    /// The world after a shot has been resolved against the enemies: the
    /// first enemy that can be hit is wounded, no other enemy changes.
    pub open spec fn shot_landed(self) -> World {
        if self.shot_hits() {
            let k = self.first_target(0);
            World { enemies: self.enemies.update(k, wounded(self.enemies[k])), ..self }
        } else {
            self
        }
    }

    /// The world after the player has pulled the trigger. Without ammunition
    /// nothing changes. Otherwise one round is spent, the shot is resolved,
    /// and the score grows by the reward for a hit or for a miss.
    pub open spec fn fired(self) -> World {
        if self.player.ammo == 0 {
            self
        } else {
            World {
                player: Player { ammo: (self.player.ammo - 1) as u32, ..self.player },
                wall_hit_flash: MUZZLE_FLASH,
                score: add_score(
                    self.score,
                    if self.shot_hits() {
                        HIT_REWARD
                    } else {
                        MISS_REWARD
                    },
                ),
                ..self.shot_landed()
            }
        }
    }

    /// The first target is the first enemy that can be hit: no enemy before
    /// it can, and it can unless there is none.
    pub proof fn lemma_first_target(self, from: int)
        requires
            0 <= from,
        ensures
            from <= self.first_target(from) || self.first_target(from) == self.enemies.len(),
            self.first_target(from) <= self.enemies.len() || from > self.enemies.len(),
            self.first_target(from) < self.enemies.len() ==> self.can_hit(
                self.enemies[self.first_target(from)],
            ),
            forall|j: int| from <= j < self.first_target(from) ==> !self.can_hit(#[trigger] self.enemies[j]),
        decreases self.enemies.len() - from,
    {
        if from < self.enemies.len() && !self.can_hit(self.enemies[from]) {
            self.lemma_first_target(from + 1);
        }
    }

    /// Firing without ammunition changes nothing: the ammunition stays at
    /// zero and every enemy keeps its health.
    pub proof fn lemma_empty_gun(self)
        requires
            self.player.ammo == 0,
        ensures
            self.fired() == self,
            self.fired().player.ammo == 0,
            self.fired().enemies == self.enemies,
    {
    }

    /// Firing keeps the world well formed and moves neither the player nor
    /// any enemy.
    pub proof fn lemma_fired(self)
        requires
            self.wf(),
        ensures
            self.fired().wf(),
            self.fired().player.health == self.player.health,
            self.fired().player.ammo <= self.player.ammo,
    {
        self.lemma_first_target(0);
        let k = self.first_target(0);
        assert forall|i: int| 0 <= i < self.fired().enemies.len() implies (#[trigger] self.fired().enemies[i]).ok_in(
            self.fired().cells,
        ) by {
            assert(self.enemies[i].ok_in(self.cells));
        }
    }

    /// A shot never harms an enemy that stands behind a wall, however well
    /// it is otherwise placed; nor one out of range, out of aim or dead. And a
    /// shot harms at most one enemy.
    pub proof fn lemma_shot_spares(self, i: int)
        requires
            0 <= i < self.enemies.len(),
        ensures
            self.fired().enemies.len() == self.enemies.len(),
            occluded(
                self.cells,
                self.player.x as int,
                self.player.y as int,
                self.enemies[i].x as int,
                self.enemies[i].y as int,
            ) ==> self.fired().enemies[i] == self.enemies[i],
            !self.can_hit(self.enemies[i]) ==> self.fired().enemies[i] == self.enemies[i],
            i != self.first_target(0) ==> self.fired().enemies[i] == self.enemies[i],
    {
        self.lemma_first_target(0);
    }
}

/// Whether the offset `(dx, dy)` lies in front of the direction `(fx, fy)`
/// and inside the cone around it whose sides have the slope `slope / scale`.
pub fn in_cone(dx: i64, dy: i64, fx: i64, fy: i64, slope: i64, scale: i64) -> (b: bool)
    requires
        -WORLD_SIZE <= dx <= WORLD_SIZE,
        -WORLD_SIZE <= dy <= WORLD_SIZE,
        is_direction(fx as int, fy as int),
        0 <= slope <= ONE,
        0 <= scale <= ONE,
    ensures
        b == within_cone(dx as int, dy as int, fx as int, fy as int, slope as int, scale as int),
{
    proof {
        lemma_product_bound(dx as int, fx as int);
        lemma_product_bound(dy as int, fy as int);
        lemma_product_bound(dx as int, fy as int);
        lemma_product_bound(dy as int, fx as int);
    }
    let a: i64 = dx * fx + dy * fy;
    let s: i64 = dx * fy - dy * fx;
    let side: i64 = if s < 0 { -s } else { s };
    if a <= 0 {
        return false;
    }
    assert(0 <= side * scale <= 2_048_000_000_000 * 1_000_000 && 0 <= a * slope
        <= 2_048_000_000_000 * 1_000_000) by (nonlinear_arith)
        requires
            0 <= side <= 2_048_000_000_000,
            0 <= a <= 2_048_000_000_000,
            0 <= slope <= 1_000_000,
            0 <= scale <= 1_000_000,
    ;
    side * scale < a * slope
}

/// Whether the offset `(dx, dy)` lies within the aim tolerance of the
/// direction `(fx, fy)`.
pub fn in_aim(dx: i64, dy: i64, fx: i64, fy: i64) -> (b: bool)
    requires
        -WORLD_SIZE <= dx <= WORLD_SIZE,
        -WORLD_SIZE <= dy <= WORLD_SIZE,
        is_direction(fx as int, fy as int),
    ensures
        b == within_aim(dx as int, dy as int, fx as int, fy as int),
{
    in_cone(dx, dy, fx, fy, AIM_SLOPE, AIM_SCALE)
}

/// The product of an offset inside the world and a direction component.
proof fn lemma_product_bound(d: int, f: int)
    requires
        -WORLD_SIZE <= d <= WORLD_SIZE,
        -ONE <= f <= ONE,
    ensures
        -WORLD_SIZE * ONE <= d * f <= WORLD_SIZE * ONE,
{
    assert(-1_024_000 * 1_000_000 <= d * f <= 1_024_000 * 1_000_000) by (nonlinear_arith)
        requires
            -1_024_000 <= d <= 1_024_000,
            -1_000_000 <= f <= 1_000_000,
    ;
}

/// Whether a wall stands on the line of sight between two points of the
/// world.
pub fn line_blocked(maze: &MazeGrid, x0: i64, y0: i64, x1: i64, y1: i64) -> (b: bool)
    requires
        in_world(x0 as int, y0 as int),
        in_world(x1 as int, y1 as int),
    ensures
        b == occluded(maze@, x0 as int, y0 as int, x1 as int, y1 as int),
{
    let d2: i64 = sq_distance(x1, y1, x0, y0);
    let d: i64 = isqrt(d2 as u64) as i64;
    assert(d <= 2 * WORLD_SIZE) by (nonlinear_arith)
        requires
            0 <= d,
            d * d <= d2,
            d2 <= 2 * WORLD_SIZE * WORLD_SIZE,
            WORLD_SIZE == 1_024_000,
    ;
    let steps: i64 = d / SIGHT_STEP;
    let dx: i64 = x1 - x0;
    let dy: i64 = y1 - y0;
    let mut i: i64 = 1;
    while i < steps
        invariant
            1 <= i,
            steps == sight_steps(x0 as int, y0 as int, x1 as int, y1 as int),
            d == sqrt_floor(sq_dist(x1 as int, y1 as int, x0 as int, y0 as int)),
            steps == d / SIGHT_STEP,
            0 <= d <= 2 * WORLD_SIZE,
            dx == x1 - x0,
            dy == y1 - y0,
            in_world(x0 as int, y0 as int),
            in_world(x1 as int, y1 as int),
            forall|j: int| 1 <= j < i ==> !#[trigger] wall_on_sight(
                maze@,
                x0 as int,
                y0 as int,
                x1 as int,
                y1 as int,
                j,
            ),
        decreases steps - i,
    {
        let reach: i64 = i * SIGHT_STEP;
        assert(-1_024_000 * 2_048_000 <= dx * reach <= 1_024_000 * 2_048_000 && -1_024_000
            * 2_048_000 <= dy * reach <= 1_024_000 * 2_048_000) by (nonlinear_arith)
            requires
                -1_024_000 <= dx <= 1_024_000,
                -1_024_000 <= dy <= 1_024_000,
                0 <= reach <= 2_048_000,
        ;
        let sx: i64 = x0 + (dx * reach) / d;
        let sy: i64 = y0 + (dy * reach) / d;
        if maze.wall_at(sx, sy) {
            assert(wall_on_sight(maze@, x0 as int, y0 as int, x1 as int, y1 as int, i as int));
            return true;
        }
        i += 1;
    }
    false
}

/// The score after a reward.
pub fn award(score: u64, reward: u64) -> (r: u64)
    ensures
        r == add_score(score, reward),
{
    if score > u64::MAX - reward {
        u64::MAX
    } else {
        score + reward
    }
}

impl GameState {
    /// Whether a shot fired now would hit `e`, were `e` the only enemy.
    pub fn can_hit(&self, e: &Enemy) -> (b: bool)
        requires
            self@.wf(),
            e.ok_in(self.maze@),
        ensures
            b == self@.can_hit(*e),
    {
        proof {
            use_type_invariant(&self.maze);
            lemma_open_point_is_inside(self.maze@, self.player.x as int, self.player.y as int);
            lemma_open_point_is_inside(self.maze@, e.x as int, e.y as int);
        }
        if e.health <= 0 {
            return false;
        }
        if sq_distance(e.x, e.y, self.player.x, self.player.y) > FIRE_RANGE * FIRE_RANGE {
            return false;
        }
        if !in_aim(
            e.x - self.player.x,
            e.y - self.player.y,
            cos(self.player.angle),
            sin(self.player.angle),
        ) {
            return false;
        }
        !line_blocked(&self.maze, self.player.x, self.player.y, e.x, e.y)
    }

    /// Resolves a shot against the enemies: wounds the first enemy that can
    /// be hit and tells whether there was one.
    pub fn check_enemy_hit(&mut self) -> (hit: bool)
        requires
            old(self)@.wf(),
        ensures
            hit == old(self)@.shot_hits(),
            final(self)@ == old(self)@.shot_landed(),
            final(self)@.wf(),
    {
        let mut i: usize = 0;
        while i < self.enemies.len()
            invariant
                i <= self.enemies@.len(),
                *self == *old(self),
                self@.wf(),
                self@.first_target(0) == self@.first_target(i as int),
            decreases self.enemies@.len() - i,
        {
            let e: Enemy = self.enemies[i];
            assert(self@.enemies[i as int].ok_in(self@.cells));
            if self.can_hit(&e) {
                let hurt: Enemy = Enemy {
                    x: e.x,
                    y: e.y,
                    heading_x: e.heading_x,
                    heading_y: e.heading_y,
                    health: e.health - SHOT_DAMAGE,
                    last_seen_player: e.last_seen_player,
                    state: e.state,
                };
                self.enemies.set(i, hurt);
                assert forall|k: int| 0 <= k < self@.enemies.len() implies (#[trigger] self@.enemies[k]).ok_in(
                    self@.cells,
                ) by {
                    if k != i {
                        assert(old(self)@.enemies[k].ok_in(old(self)@.cells));
                    }
                }
                return true;
            }
            i += 1;
        }
        false
    }

    /// Pulls the trigger. Without ammunition this does nothing.
    pub fn fire(&mut self)
        requires
            old(self)@.wf(),
        ensures
            final(self)@ == old(self)@.fired(),
            final(self)@.wf(),
            old(self).player.ammo == 0 ==> final(self)@ == old(self)@,
            forall|i: int|
                0 <= i < old(self)@.enemies.len() && occluded(
                    old(self)@.cells,
                    old(self).player.x as int,
                    old(self).player.y as int,
                    (#[trigger] old(self)@.enemies[i]).x as int,
                    old(self)@.enemies[i].y as int,
                ) ==> final(self)@.enemies[i] == old(self)@.enemies[i],
    {
        proof {
            assert forall|i: int|
                0 <= i < self@.enemies.len() && occluded(
                    self@.cells,
                    self.player.x as int,
                    self.player.y as int,
                    (#[trigger] self@.enemies[i]).x as int,
                    self@.enemies[i].y as int,
                ) implies self@.fired().enemies[i] == self@.enemies[i] by {
                self@.lemma_shot_spares(i);
            }
        }
        if self.player.ammo == 0 {
            return ;
        }
        let hit: bool = self.check_enemy_hit();
        self.player.ammo = self.player.ammo - 1;
        self.wall_hit_flash = MUZZLE_FLASH;
        let reward: u64 = if hit {
            HIT_REWARD
        } else {
            MISS_REWARD
        };
        self.score = award(self.score, reward);
    }
}

} // verus!
