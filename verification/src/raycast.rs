//! The raycaster: what the player sees, as one wall distance for each screen
//! column.
//!
//! A ray leaves a point and is sampled at a fixed spacing until a sample lies
//! in a wall or a limit is reached. The spacing is a small fraction of a cell,
//! so that a ray cannot step over a wall. A single ray runs farther than any
//! line inside the maze is long, and so always finds a wall; the rays of the
//! screen columns stop at the render distance.

use crate::game::{GameState, World};
use crate::maze::{cell_of, grid_wf, in_grid, is_wall_at, lemma_open_point_is_inside, on_border, MazeGrid, CELL_SIZE};
use crate::trig::{cos, cos_fp, lemma_cos_near_zero, lemma_long_axis, lemma_trig_bounds, sin, sin_fp};
use crate::units::{along, along_axis, in_world, ONE};
use vstd::prelude::*;

verus! {

/// The field of view: a sixth of a turn, centred on the player's orientation.
pub const FOV: i64 = 1_047_197;

/// The number of screen columns, and rays, in a frame.
pub const NUM_RAYS: usize = 320;

/// The spacing of the samples along the ray of a screen column.
pub const MARCH_STEP: i64 = 1_000;

/// The number of samples after which the ray of a screen column gives up.
pub const MAX_STEPS: i64 = 1_000;

/// The distance at which the ray of a screen column gives up.
pub const RENDER_DISTANCE: i64 = 1_000_000;

/// The spacing of the samples along a single ray.
pub const RAY_STEP: i64 = 2_000;

/// The number of samples of a single ray.
pub const RAY_STEPS: i64 = 640;

/// The distance that a single ray stays below: twenty cells, more than any
/// line inside the maze is long.
pub const RAY_LIMIT: i64 = 1_280_000;

/// The height on screen of a wall, per unit of screen height, times its
/// distance.
pub const HEIGHT_SCALE: i64 = 38_400;

/// The distance over which walls fade into the dark.
pub const FADE_DISTANCE: i64 = 500_000;

/// What the ray of one screen column found.
#[derive(Clone, Copy, Debug, PartialEq, Eq)]
pub struct RaySample {
    /// The distance to the wall, or the render distance if none was found.
    pub distance: i64,
    /// Whether a wall was found.
    pub hit: bool,
}

/// Where a single ray met a wall.
#[derive(Clone, Copy, Debug, PartialEq, Eq)]
pub struct RayHit {
    /// The distance from the start of the ray to the point.
    pub distance: i64,
    /// The point, which lies in a wall.
    pub x: i64,
    pub y: i64,
}

/// The point at distance `dist` along the ray from `(x, y)` at `angle`.
pub open spec fn ray_point(x: int, y: int, angle: int, dist: int) -> (int, int) {
    (x + along(cos_fp(angle), dist), y + along(sin_fp(angle), dist))
}

/// The `k`-th sample of the ray, at spacing `step`, lies in a wall.
pub open spec fn wall_on_ray(cells: Seq<bool>, x: int, y: int, angle: int, step: int, k: int) -> bool {
    is_wall_at(cells, ray_point(x, y, angle, k * step).0, ray_point(x, y, angle, k * step).1)
}

/// The number of the first sample from `from` on that lies in a wall, or
/// `steps` if none below `steps` does.
pub open spec fn first_wall(
    cells: Seq<bool>,
    x: int,
    y: int,
    angle: int,
    step: int,
    steps: int,
    from: int,
) -> int
    decreases steps - from,
{
    if from >= steps {
        steps
    } else if wall_on_ray(cells, x, y, angle, step, from) {
        from
    } else {
        first_wall(cells, x, y, angle, step, steps, from + 1)
    }
}

/// What the single ray from `(x, y)` at `angle` finds: its first sample in a
/// wall, with the distance to it. Were there none, the result would be the
/// limit and no point.
pub open spec fn ray_cast(cells: Seq<bool>, x: int, y: int, angle: int) -> RayHit {
    let n = first_wall(cells, x, y, angle, RAY_STEP as int, RAY_STEPS as int, 0);
    if n < RAY_STEPS {
        RayHit {
            distance: (n * RAY_STEP) as i64,
            x: ray_point(x, y, angle, n * RAY_STEP).0 as i64,
            y: ray_point(x, y, angle, n * RAY_STEP).1 as i64,
        }
    } else {
        RayHit { distance: RAY_LIMIT, x: 0, y: 0 }
    }
}

/// What the ray of a screen column from `(x, y)` at `angle` finds: the
/// distance of its first sample in a wall, or the render distance.
pub open spec fn column_cast(cells: Seq<bool>, x: int, y: int, angle: int) -> RaySample {
    let n = first_wall(cells, x, y, angle, MARCH_STEP as int, MAX_STEPS as int, 0);
    RaySample { distance: (n * MARCH_STEP) as i64, hit: n < MAX_STEPS }
}

/// The angle of the ray through screen column `i`.
pub open spec fn column_angle(player_angle: int, i: int) -> int {
    player_angle - FOV / 2 + i * FOV / (NUM_RAYS as int)
}

/// A distance measured along a ray at `ray_angle`, as seen straight ahead by
/// a viewer facing `view_angle`: the distance times the cosine of the angle
/// between the two. This takes the bulge out of flat walls.
pub open spec fn straightened(distance: int, ray_angle: int, view_angle: int) -> int {
    along(cos_fp(ray_angle - view_angle), distance)
}

/// The height on a screen `screen_height` high of a wall at `distance`: in
/// inverse proportion to the distance.
pub open spec fn wall_height(screen_height: int, distance: int) -> int
    recommends
        distance > 0,
{
    screen_height * HEIGHT_SCALE / distance
}

/// How bright a wall at `distance` is drawn, in thousandths: full at the
/// player's feet, falling evenly to nothing at `FADE_DISTANCE`.
pub open spec fn brightness(distance: int) -> int {
    if distance <= 0 {
        1000
    } else if distance >= FADE_DISTANCE {
        0
    } else {
        1000 - distance / 500
    }
}

impl World {
    /// What the player sees in screen column `i`.
    pub open spec fn column(self, i: int) -> RaySample {
        let angle = column_angle(self.player.angle as int, i);
        let found = column_cast(self.cells, self.player.x as int, self.player.y as int, angle);
        RaySample {
            distance: straightened(found.distance as int, angle, self.player.angle as int) as i64,
            hit: found.hit,
        }
    }

    /// What the player sees, column by column from left to right.
    pub open spec fn columns(self) -> Seq<RaySample> {
        Seq::new(NUM_RAYS as nat, |i: int| self.column(i))
    }

    /// The distance straight from the player of what column `i` shows, before
    /// it is straightened.
    pub open spec fn column_raw(self, i: int) -> int {
        column_cast(
            self.cells,
            self.player.x as int,
            self.player.y as int,
            column_angle(self.player.angle as int, i),
        ).distance as int
    }

    /// For a player on open ground every column shows a distance above zero,
    /// no more than the distance along its ray, and that no more than the
    /// render distance.
    pub proof fn lemma_column_distance(self, i: int)
        requires
            self.wf(),
            0 <= i < NUM_RAYS,
        ensures
            0 < self.column(i).distance <= self.column_raw(i) <= RENDER_DISTANCE,
            self.column(i).hit == (self.column_raw(i) < RENDER_DISTANCE),
    {
        let angle = column_angle(self.player.angle as int, i);
        let x = self.player.x as int;
        let y = self.player.y as int;
        let n = first_wall(self.cells, x, y, angle, MARCH_STEP as int, MAX_STEPS as int, 0);
        lemma_first_wall(self.cells, x, y, angle, MARCH_STEP as int, MAX_STEPS as int, 0);
        lemma_ray_starts_at_its_point(x, y, angle, MARCH_STEP as int);
        assert(n >= 1);
        let raw: int = n * MARCH_STEP;
        let off: int = angle - self.player.angle;
        assert(off == i * FOV / (NUM_RAYS as int) - FOV / 2);
        assert(-523_598 <= off <= 523_598);
        lemma_cos_near_zero(off);
        lemma_trig_bounds(off);
        let c: int = cos_fp(off);
        assert(705_882 * 1_000 <= c * raw <= 1_000_000 * raw) by (nonlinear_arith)
            requires
                705_882 <= c <= 1_000_000,
                1_000 <= raw,
        ;
    }
}

/// The sample numbered zero is the point the ray starts at.
pub proof fn lemma_ray_starts_at_its_point(x: int, y: int, angle: int, step: int)
    ensures
        ray_point(x, y, angle, 0 * step) == (x, y),
{
    assert(0 * step == 0) by (nonlinear_arith);
    assert(cos_fp(angle) * 0 == 0 && sin_fp(angle) * 0 == 0) by (nonlinear_arith);
}

/// The first wall on a ray is the first sample in a wall: no sample before it
/// lies in one, and it does unless the ray gave up.
pub proof fn lemma_first_wall(
    cells: Seq<bool>,
    x: int,
    y: int,
    angle: int,
    step: int,
    steps: int,
    from: int,
)
    requires
        0 <= from <= steps,
    ensures
        from <= first_wall(cells, x, y, angle, step, steps, from) <= steps,
        first_wall(cells, x, y, angle, step, steps, from) < steps ==> wall_on_ray(
            cells,
            x,
            y,
            angle,
            step,
            first_wall(cells, x, y, angle, step, steps, from),
        ),
        forall|k: int|
            from <= k < first_wall(cells, x, y, angle, step, steps, from) ==> !#[trigger] wall_on_ray(
                cells,
                x,
                y,
                angle,
                step,
                k,
            ),
    decreases steps - from,
{
    if from < steps && !wall_on_ray(cells, x, y, angle, step, from) {
        lemma_first_wall(cells, x, y, angle, step, steps, from + 1);
    }
}

/// Two samples that follow each other on a ray lie in the same cell or in
/// cells that touch: along each axis the cell number moves by at most one,
/// whenever the spacing is less than a cell. So a ray cannot cross a wall
/// without a sample in it, save at a corner, and the distance it reports is
/// within one spacing of where it entered the wall.
pub proof fn lemma_march_does_not_skip(x: int, y: int, angle: int, step: int, k: int)
    requires
        0 <= k,
        0 < step < CELL_SIZE - 1,
    ensures
        -1 <= cell_of(ray_point(x, y, angle, (k + 1) * step).0) - cell_of(
            ray_point(x, y, angle, k * step).0,
        ) <= 1,
        -1 <= cell_of(ray_point(x, y, angle, (k + 1) * step).1) - cell_of(
            ray_point(x, y, angle, k * step).1,
        ) <= 1,
{
    lemma_trig_bounds(angle);
    assert((k + 1) * step == k * step + step && k * step >= 0) by (nonlinear_arith)
        requires
            0 <= k,
            0 < step,
    ;
    lemma_along_step(cos_fp(angle), k * step, step);
    lemma_along_step(sin_fp(angle), k * step, step);
}

/// One more step moves a sample by at most the spacing and a rounding unit
/// along each axis.
proof fn lemma_along_step(h: int, len: int, step: int)
    requires
        -ONE <= h <= ONE,
        0 <= len,
        0 < step,
    ensures
        -step - 1 <= along(h, len + step) - along(h, len) <= step + 1,
{
    let a: int = h * len;
    let b: int = h * step;
    assert(h * (len + step) == a + b) by (nonlinear_arith)
        requires
            a == h * len,
            b == h * step,
    ;
    assert(-1_000_000 * step <= b <= 1_000_000 * step) by (nonlinear_arith)
        requires
            b == h * step,
            -1_000_000 <= h <= 1_000_000,
            0 < step,
    ;
    assert((h >= 0 ==> a >= 0) && (h <= 0 ==> a <= 0)) by (nonlinear_arith)
        requires
            a == h * len,
            len >= 0,
    ;
}

/// In a bordered maze a single ray always finds a wall, wherever it starts
/// and whichever way it goes: its last sample lies beyond the open ground.
pub proof fn lemma_ray_finds_wall(cells: Seq<bool>, x: int, y: int, angle: int)
    requires
        grid_wf(cells),
    ensures
        first_wall(cells, x, y, angle, RAY_STEP as int, RAY_STEPS as int, 0) < RAY_STEPS,
        ray_cast(cells, x, y, angle).distance < RAY_LIMIT,
{
    let step: int = RAY_STEP as int;
    lemma_first_wall(cells, x, y, angle, step, RAY_STEPS as int, 0);
    lemma_ray_starts_at_its_point(x, y, angle, step);
    if !is_wall_at(cells, x, y) {
        lemma_open_point_is_inside(cells, x, y);
        lemma_long_axis(angle);
        lemma_trig_bounds(angle);
        let last: int = RAY_STEPS - 1;
        assert(last * step == 1_278_000);
        let px: int = ray_point(x, y, angle, last * step).0;
        let py: int = ray_point(x, y, angle, last * step).1;
        let col: int = cell_of(px);
        let row: int = cell_of(py);
        assert(col <= 0 || col >= 15 || row <= 0 || row >= 15);
        assert(in_grid(col, row) ==> on_border(col, row));
        assert(is_wall_at(cells, px, py));
        assert(wall_on_ray(cells, x, y, angle, step, last));
    }
}

/// Counts the samples of the ray from `(x, y)` at `angle`, at spacing `step`,
/// up to the first one in a wall, or up to `steps` if there is none below.
pub fn march(maze: &MazeGrid, x: i64, y: i64, angle: i64, step: i64, steps: i64) -> (n: i64)
    requires
        in_world(x as int, y as int),
        0 < step,
        0 <= steps,
        step * steps <= 0x1_0000_0000,
    ensures
        n == first_wall(maze@, x as int, y as int, angle as int, step as int, steps as int, 0),
        0 <= n <= steps,
{
    let c: i64 = cos(angle);
    let s: i64 = sin(angle);
    let mut k: i64 = 0;
    while k < steps
        invariant
            0 <= k <= steps,
            0 < step,
            step * steps <= 0x1_0000_0000,
            in_world(x as int, y as int),
            c == cos_fp(angle as int),
            s == sin_fp(angle as int),
            -ONE <= c <= ONE,
            -ONE <= s <= ONE,
            first_wall(maze@, x as int, y as int, angle as int, step as int, steps as int, 0)
                == first_wall(
                maze@,
                x as int,
                y as int,
                angle as int,
                step as int,
                steps as int,
                k as int,
            ),
        decreases steps - k,
    {
        assert(0 <= k * step <= step * steps) by (nonlinear_arith)
            requires
                0 <= k < steps,
                0 < step,
        ;
        let dist: i64 = k * step;
        let px: i64 = x + along_axis(c, dist);
        let py: i64 = y + along_axis(s, dist);
        if maze.wall_at(px, py) {
            return k;
        }
        k += 1;
    }
    steps
}

/// Casts a single ray from `(x, y)` at `angle` through `maze` and returns the
/// first of its samples that lies in a wall. There always is one.
pub fn cast_ray(maze: &MazeGrid, x: i64, y: i64, angle: i64) -> (found: RayHit)
    requires
        in_world(x as int, y as int),
    ensures
        found == ray_cast(maze@, x as int, y as int, angle as int),
        0 <= found.distance < RAY_LIMIT,
        (found.x as int, found.y as int) == ray_point(
            x as int,
            y as int,
            angle as int,
            found.distance as int,
        ),
        is_wall_at(maze@, found.x as int, found.y as int),
        forall|k: int|
            0 <= k && k * RAY_STEP < found.distance ==> !#[trigger] wall_on_ray(
                maze@,
                x as int,
                y as int,
                angle as int,
                RAY_STEP as int,
                k,
            ),
{
    proof {
        use_type_invariant(maze);
        lemma_ray_finds_wall(maze@, x as int, y as int, angle as int);
        lemma_first_wall(maze@, x as int, y as int, angle as int, RAY_STEP as int, RAY_STEPS as int, 0);
    }
    let n: i64 = march(maze, x, y, angle, RAY_STEP, RAY_STEPS);
    let distance: i64 = n * RAY_STEP;
    let px: i64 = x + along_axis(cos(angle), distance);
    let py: i64 = y + along_axis(sin(angle), distance);
    RayHit { distance, x: px, y: py }
}

/// How bright a wall at `distance` is drawn, in thousandths.
pub fn wall_brightness(distance: i64) -> (b: u32)
    ensures
        b == brightness(distance as int),
        b <= 1000,
{
    if distance <= 0 {
        1000
    } else if distance >= FADE_DISTANCE {
        0
    } else {
        (1000 - distance / 500) as u32
    }
}

/// The height on a screen `screen_height` high of a wall at `distance`: the
/// whole part of `screen_height * HEIGHT_SCALE / distance`.
pub fn projected_height(screen_height: u32, distance: i64) -> (h: i64)
    requires
        distance > 0,
    ensures
        h == wall_height(screen_height as int, distance as int),
        h * distance <= screen_height * HEIGHT_SCALE < (h + 1) * distance,
        0 <= h,
{
    let n: i64 = (screen_height as i64) * HEIGHT_SCALE;
    let h: i64 = n / distance;
    assert(h * distance <= n < (h + 1) * distance && h >= 0) by (nonlinear_arith)
        requires
            n >= 0,
            distance > 0,
            h == (n as int) / (distance as int),
    ;
    h
}

/// Nearer walls stand taller on screen, and a wall twice as near stands
/// twice as tall, up to rounding.
pub proof fn lemma_nearer_is_taller(screen_height: int, near: int, far: int)
    requires
        0 <= screen_height,
        0 < near <= far,
    ensures
        wall_height(screen_height, near) >= wall_height(screen_height, far) >= 0,
        wall_height(screen_height, near) * near <= screen_height * HEIGHT_SCALE,
        screen_height * HEIGHT_SCALE < (wall_height(screen_height, near) + 1) * near,
{
    let n: int = screen_height * HEIGHT_SCALE;
    assert(n / near >= n / far && n / far >= 0 && (n / near) * near <= n < (n / near + 1) * near)
        by (nonlinear_arith)
        requires
            n >= 0,
            0 < near <= far,
    ;
}

impl GameState {
    /// Casts a single ray from the player's position at `angle`.
    pub fn cast_ray(&self, angle: i64) -> (found: RayHit)
        requires
            self@.wf(),
        ensures
            found == ray_cast(self@.cells, self.player.x as int, self.player.y as int, angle as int),
            0 < found.distance < RAY_LIMIT,
            (found.x as int, found.y as int) == ray_point(
                self.player.x as int,
                self.player.y as int,
                angle as int,
                found.distance as int,
            ),
            is_wall_at(self@.cells, found.x as int, found.y as int),
            forall|k: int|
                0 <= k && k * RAY_STEP < found.distance ==> !#[trigger] wall_on_ray(
                    self@.cells,
                    self.player.x as int,
                    self.player.y as int,
                    angle as int,
                    RAY_STEP as int,
                    k,
                ),
    {
        proof {
            lemma_open_point_is_inside(self.maze@, self.player.x as int, self.player.y as int);
            lemma_ray_starts_at_its_point(
                self.player.x as int,
                self.player.y as int,
                angle as int,
                RAY_STEP as int,
            );
        }
        cast_ray(&self.maze, self.player.x, self.player.y, angle)
    }

    /// What the player sees: one sample for each screen column, from left to
    /// right, each with the distance straightened for a flat screen. Every
    /// distance is above zero.
    pub fn cast_columns(&self) -> (samples: Vec<RaySample>)
        requires
            self@.wf(),
        ensures
            samples@ == self@.columns(),
            samples@.len() == NUM_RAYS,
            forall|i: int|
                0 <= i < NUM_RAYS ==> 0 < (#[trigger] samples@[i]).distance <= RENDER_DISTANCE,
    {
        proof {
            lemma_open_point_is_inside(self.maze@, self.player.x as int, self.player.y as int);
        }
        let mut samples: Vec<RaySample> = Vec::new();
        let mut i: usize = 0;
        while i < NUM_RAYS
            invariant
                i <= NUM_RAYS,
                self@.wf(),
                in_world(self.player.x as int, self.player.y as int),
                samples@.len() == i,
                forall|k: int| 0 <= k < i ==> #[trigger] samples@[k] == self@.column(k),
            decreases NUM_RAYS - i,
        {
            let angle: i64 = self.player.angle - FOV / 2 + (i as i64) * FOV / (NUM_RAYS as i64);
            let n: i64 = march(&self.maze, self.player.x, self.player.y, angle, MARCH_STEP, MAX_STEPS);
            let flat: i64 = along_axis(cos(angle - self.player.angle), n * MARCH_STEP);
            samples.push(RaySample { distance: flat, hit: n < MAX_STEPS });
            i += 1;
        }
        assert(samples@ =~= self@.columns());
        assert forall|i: int| 0 <= i < NUM_RAYS implies 0 < (#[trigger] samples@[i]).distance
            <= RENDER_DISTANCE by {
            self@.lemma_column_distance(i);
        }
        samples
    }
}

} // verus!
