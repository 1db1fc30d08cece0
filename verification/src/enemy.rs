//! Enemies and the state machine that drives each of them.
//!
//! An enemy patrols until the player comes near, chases until it is in reach
//! or the player gets away, and attacks while in reach. Each pair of
//! opposite transitions has two thresholds with a gap between them, so an
//! enemy standing near one boundary does not flap between two states.

use crate::maze::{grid_wf, is_wall_at, lemma_open_point_is_inside, MazeGrid};
use crate::units::{
    along, along_axis, div_trunc, in_world, is_direction, is_sqrt_floor, isqrt, lemma_square_order,
    sq_dist, sq_distance, sqrt_floor, travel, travel_len, ONE, WORLD_SIZE,
};
use vstd::prelude::*;

verus! {

/// A patrolling enemy starts to chase when the player is nearer than this.
pub const ENGAGE_RANGE: i64 = 150_000;

/// A chasing enemy gives up when the player is farther than this.
pub const DISENGAGE_RANGE: i64 = 200_000;

/// A chasing enemy starts to attack when the player is nearer than this.
pub const MELEE_RANGE: i64 = 50_000;

/// An attacking enemy falls back to chasing when the player is farther than this.
pub const MELEE_RELEASE_RANGE: i64 = 60_000;

/// Patrol speed, in world units a second.
pub const PATROL_SPEED: u32 = 50;

/// Chase speed, in world units a second.
pub const CHASE_SPEED: u32 = 80;

/// Health of a fresh enemy.
pub const ENEMY_HEALTH: i32 = 50;

/// What an enemy is doing.
#[derive(Clone, Copy, Debug, PartialEq, Eq, Structural)]
pub enum EnemyState {
    Patrolling,
    Chasing,
    Attacking,
}

/// One adversary.
#[derive(Clone, Copy, Debug, PartialEq, Eq)]
pub struct Enemy {
    /// Position, in thousandths of a world unit.
    pub x: i64,
    pub y: i64,
    /// The direction it faces and patrols along, scaled by `ONE`.
    pub heading_x: i64,
    pub heading_y: i64,
    /// Dead at zero or below.
    pub health: i32,
    /// When it last caught sight of the player, if it ever did.
    pub last_seen_player: Option<u64>,
    pub state: EnemyState,
}

/// The state that follows `state` when the squared distance to the player is
/// `d2`.
pub open spec fn next_state(state: EnemyState, d2: int) -> EnemyState {
    match state {
        EnemyState::Patrolling => if d2 < ENGAGE_RANGE * ENGAGE_RANGE {
            EnemyState::Chasing
        } else {
            EnemyState::Patrolling
        },
        EnemyState::Chasing => if d2 > DISENGAGE_RANGE * DISENGAGE_RANGE {
            EnemyState::Patrolling
        } else if d2 < MELEE_RANGE * MELEE_RANGE {
            EnemyState::Attacking
        } else {
            EnemyState::Chasing
        },
        EnemyState::Attacking => if d2 > MELEE_RELEASE_RANGE * MELEE_RELEASE_RANGE {
            EnemyState::Chasing
        } else {
            EnemyState::Attacking
        },
    }
}

/// The unit direction from the origin toward `(dx, dy)`, scaled by `ONE`. With
/// no direction to take, it points along the x axis.
pub open spec fn toward(dx: int, dy: int) -> (int, int) {
    if dx == 0 && dy == 0 {
        (ONE as int, 0)
    } else {
        let d = sqrt_floor(dx * dx + dy * dy);
        (div_trunc(dx * ONE, d), div_trunc(dy * ONE, d))
    }
}

impl Enemy {
    /// The enemy stands on open ground of the grid `cells` and faces a direction.
    pub open spec fn ok_in(&self, cells: Seq<bool>) -> bool {
        &&& !is_wall_at(cells, self.x as int, self.y as int)
        &&& is_direction(self.heading_x as int, self.heading_y as int)
    }

    /// The enemy still takes part in the game.
    pub open spec fn alive(&self) -> bool {
        self.health > 0
    }

    /// The squared distance from the enemy to `(px, py)`.
    pub open spec fn sq_dist_to(&self, px: int, py: int) -> int {
        sq_dist(self.x as int, self.y as int, px, py)
    }

    /// The direction the enemy moves along during this tick: its heading
    /// while it patrols, straight at the player while it chases.
    pub open spec fn move_heading(&self, px: int, py: int) -> (int, int) {
        match self.state {
            EnemyState::Chasing => toward(px - self.x, py - self.y),
            _ => (self.heading_x as int, self.heading_y as int),
        }
    }

    /// The speed of the enemy's state, in world units a second.
    pub open spec fn speed(&self) -> int {
        match self.state {
            EnemyState::Patrolling => PATROL_SPEED as int,
            EnemyState::Chasing => CHASE_SPEED as int,
            EnemyState::Attacking => 0,
        }
    }

    /// Where the enemy tries to step to during a tick of `dt` microseconds.
    pub open spec fn candidate(&self, px: int, py: int, dt: int) -> (int, int) {
        let h = self.move_heading(px, py);
        let len = travel(self.speed(), dt);
        (self.x + along(h.0, len), self.y + along(h.1, len))
    }

    /// The enemy after one tick, given the player's position, the length of
    /// the tick and the time.
    ///
    /// A patrolling enemy steps along its heading, or makes a quarter turn in
    /// place when the step is blocked. A chasing enemy turns to the player and
    /// steps, or stays when blocked. An attacking enemy stands. The next state
    /// follows from the distance at the start of the tick.
    pub open spec fn stepped(&self, cells: Seq<bool>, px: int, py: int, dt: int, now: u64) -> Enemy {
        let d2 = self.sq_dist_to(px, py);
        let next = next_state(self.state, d2);
        let cand = self.candidate(px, py, dt);
        let h = self.move_heading(px, py);
        let blocked = is_wall_at(cells, cand.0, cand.1);
        match self.state {
            EnemyState::Patrolling => Enemy {
                x: if blocked { self.x } else { cand.0 as i64 },
                y: if blocked { self.y } else { cand.1 as i64 },
                heading_x: if blocked { (-self.heading_y) as i64 } else { self.heading_x },
                heading_y: if blocked { self.heading_x } else { self.heading_y },
                health: self.health,
                last_seen_player: if next == EnemyState::Chasing {
                    Some(now)
                } else {
                    self.last_seen_player
                },
                state: next,
            },
            EnemyState::Chasing => Enemy {
                x: if blocked { self.x } else { cand.0 as i64 },
                y: if blocked { self.y } else { cand.1 as i64 },
                heading_x: h.0 as i64,
                heading_y: h.1 as i64,
                health: self.health,
                last_seen_player: self.last_seen_player,
                state: next,
            },
            EnemyState::Attacking => Enemy {
                x: self.x,
                y: self.y,
                heading_x: self.heading_x,
                heading_y: self.heading_y,
                health: self.health,
                last_seen_player: self.last_seen_player,
                state: next,
            },
        }
    }

    /// A fresh patrolling enemy at `(x, y)` that faces along `(heading_x,
    /// heading_y)`.
    pub fn new(x: i64, y: i64, heading_x: i64, heading_y: i64) -> (e: Enemy)
        ensures
            e == (Enemy {
                x,
                y,
                heading_x,
                heading_y,
                health: ENEMY_HEALTH,
                last_seen_player: None,
                state: EnemyState::Patrolling,
            }),
    {
        Enemy {
            x,
            y,
            heading_x,
            heading_y,
            health: ENEMY_HEALTH,
            last_seen_player: None,
            state: EnemyState::Patrolling,
        }
    }

    /// Advances the enemy by one tick against a fixed player position.
    pub fn step(&self, maze: &MazeGrid, px: i64, py: i64, dt: u32, now: u64) -> (r: Enemy)
        requires
            self.ok_in(maze@),
            in_world(px as int, py as int),
        ensures
            r == self.stepped(maze@, px as int, py as int, dt as int, now),
            r.ok_in(maze@),
            r.health == self.health,
    {
        proof {
            use_type_invariant(maze);
            lemma_open_point_is_inside(maze@, self.x as int, self.y as int);
        }
        let d2: i64 = sq_distance(self.x, self.y, px, py);
        let next: EnemyState = transition(self.state, d2);
        match self.state {
            EnemyState::Patrolling => {
                let len: i64 = travel_len(PATROL_SPEED, dt);
                let cx: i64 = self.x + along_axis(self.heading_x, len);
                let cy: i64 = self.y + along_axis(self.heading_y, len);
                let seen: Option<u64> = match next {
                    EnemyState::Chasing => Some(now),
                    _ => self.last_seen_player,
                };
                if maze.wall_at(cx, cy) {
                    Enemy {
                        x: self.x,
                        y: self.y,
                        heading_x: -self.heading_y,
                        heading_y: self.heading_x,
                        health: self.health,
                        last_seen_player: seen,
                        state: next,
                    }
                } else {
                    Enemy {
                        x: cx,
                        y: cy,
                        heading_x: self.heading_x,
                        heading_y: self.heading_y,
                        health: self.health,
                        last_seen_player: seen,
                        state: next,
                    }
                }
            },
            EnemyState::Chasing => {
                let (hx, hy) = direction_toward(px - self.x, py - self.y);
                let len: i64 = travel_len(CHASE_SPEED, dt);
                let cx: i64 = self.x + along_axis(hx, len);
                let cy: i64 = self.y + along_axis(hy, len);
                let blocked: bool = maze.wall_at(cx, cy);
                Enemy {
                    x: if blocked { self.x } else { cx },
                    y: if blocked { self.y } else { cy },
                    heading_x: hx,
                    heading_y: hy,
                    health: self.health,
                    last_seen_player: self.last_seen_player,
                    state: next,
                }
            },
            EnemyState::Attacking => Enemy {
                x: self.x,
                y: self.y,
                heading_x: self.heading_x,
                heading_y: self.heading_y,
                health: self.health,
                last_seen_player: self.last_seen_player,
                state: next,
            },
        }
    }
}

/// The state that follows `state` at squared distance `d2` from the player.
pub fn transition(state: EnemyState, d2: i64) -> (next: EnemyState)
    ensures
        next == next_state(state, d2 as int),
{
    match state {
        EnemyState::Patrolling => if d2 < ENGAGE_RANGE * ENGAGE_RANGE {
            EnemyState::Chasing
        } else {
            EnemyState::Patrolling
        },
        EnemyState::Chasing => if d2 > DISENGAGE_RANGE * DISENGAGE_RANGE {
            EnemyState::Patrolling
        } else if d2 < MELEE_RANGE * MELEE_RANGE {
            EnemyState::Attacking
        } else {
            EnemyState::Chasing
        },
        EnemyState::Attacking => if d2 > MELEE_RELEASE_RANGE * MELEE_RELEASE_RANGE {
            EnemyState::Chasing
        } else {
            EnemyState::Attacking
        },
    }
}

/// A patrolling enemy starts to chase exactly when the player is nearer than
/// `ENGAGE_RANGE`; otherwise it goes on patrolling.
pub proof fn lemma_engage(dist: int)
    requires
        0 <= dist,
    ensures
        next_state(EnemyState::Patrolling, dist * dist) == (if dist < ENGAGE_RANGE {
            EnemyState::Chasing
        } else {
            EnemyState::Patrolling
        }),
{
    lemma_square_order(dist, ENGAGE_RANGE as int);
}

/// A chasing enemy returns to its patrol exactly when the player is farther
/// than `DISENGAGE_RANGE`, which is strictly more than `ENGAGE_RANGE`.
pub proof fn lemma_disengage(dist: int)
    requires
        0 <= dist,
    ensures
        next_state(EnemyState::Chasing, dist * dist) == EnemyState::Patrolling <==> dist
            > DISENGAGE_RANGE,
        ENGAGE_RANGE < DISENGAGE_RANGE,
{
    lemma_square_order(DISENGAGE_RANGE as int, dist);
    lemma_square_order(dist, MELEE_RANGE as int);
}

/// A chasing enemy starts to attack exactly when the player is nearer than
/// `MELEE_RANGE`, and an attacking enemy falls back to the chase exactly when
/// the player is farther than `MELEE_RELEASE_RANGE`, which is strictly more.
pub proof fn lemma_melee(dist: int)
    requires
        0 <= dist,
    ensures
        next_state(EnemyState::Chasing, dist * dist) == EnemyState::Attacking <==> dist
            < MELEE_RANGE,
        next_state(EnemyState::Attacking, dist * dist) == (if dist > MELEE_RELEASE_RANGE {
            EnemyState::Chasing
        } else {
            EnemyState::Attacking
        }),
        MELEE_RANGE < MELEE_RELEASE_RANGE,
{
    lemma_square_order(DISENGAGE_RANGE as int, dist);
    lemma_square_order(dist, MELEE_RANGE as int);
    lemma_square_order(MELEE_RELEASE_RANGE as int, dist);
}

/// Between the two thresholds nothing happens: a patrolling enemy goes on
/// patrolling and a chasing enemy does not return to its patrol. So an enemy
/// near one boundary does not flap between the two states.
pub proof fn lemma_band_is_stable(dist: int)
    requires
        ENGAGE_RANGE <= dist <= DISENGAGE_RANGE,
    ensures
        next_state(EnemyState::Patrolling, dist * dist) == EnemyState::Patrolling,
        next_state(EnemyState::Chasing, dist * dist) == EnemyState::Chasing,
{
    lemma_engage(dist);
    lemma_disengage(dist);
    lemma_melee(dist);
}

/// An enemy that took up the chase at distance `near` and gave it up at
/// distance `far` has seen the player cross the whole gap between the two
/// thresholds.
pub proof fn lemma_hysteresis(near: int, far: int)
    requires
        0 <= near,
        0 <= far,
        next_state(EnemyState::Patrolling, near * near) == EnemyState::Chasing,
        next_state(EnemyState::Chasing, far * far) == EnemyState::Patrolling,
    ensures
        near < ENGAGE_RANGE,
        far > DISENGAGE_RANGE,
        far - near > DISENGAGE_RANGE - ENGAGE_RANGE,
{
    lemma_engage(near);
    lemma_disengage(far);
}

/// In one tick an enemy makes the one transition that the distance at the
/// start of the tick calls for, and keeps its health.
pub proof fn lemma_step_follows_machine(e: Enemy, cells: Seq<bool>, px: int, py: int, dt: int, now: u64)
    ensures
        e.stepped(cells, px, py, dt, now).state == next_state(e.state, e.sq_dist_to(px, py)),
        e.stepped(cells, px, py, dt, now).health == e.health,
        e.state == EnemyState::Attacking ==> e.stepped(cells, px, py, dt, now).x == e.x
            && e.stepped(cells, px, py, dt, now).y == e.y,
{
}

/// Neither component of an offset is longer than the offset itself, even
/// after the length is rounded down.
pub proof fn lemma_component_le_length(dx: int, dy: int)
    requires
        dx != 0 || dy != 0,
    ensures
        sqrt_floor(dx * dx + dy * dy) >= 1,
        -sqrt_floor(dx * dx + dy * dy) <= dx <= sqrt_floor(dx * dx + dy * dy),
        -sqrt_floor(dx * dx + dy * dy) <= dy <= sqrt_floor(dx * dx + dy * dy),
{
    let n: int = dx * dx + dy * dy;
    assert(dx * dx >= 0 && dy * dy >= 0 && n >= 1) by (nonlinear_arith)
        requires
            dx != 0 || dy != 0,
            n == dx * dx + dy * dy,
    ;
    lemma_sqrt_exists(n);
    let d: int = sqrt_floor(n);
    assert(is_sqrt_floor(n, d));
    assert(d >= 1 && -d <= dx <= d && -d <= dy <= d) by (nonlinear_arith)
        requires
            d >= 0,
            n >= 1,
            n < (d + 1) * (d + 1),
            n == dx * dx + dy * dy,
    ;
}

/// Every non-negative number has an integer square root.
pub proof fn lemma_sqrt_exists(n: int)
    requires
        n >= 0,
    ensures
        is_sqrt_floor(n, sqrt_floor(n)),
    decreases n,
{
    if n == 0 {
        assert(is_sqrt_floor(0, 0));
    } else {
        lemma_sqrt_exists(n - 1);
        let r: int = sqrt_floor(n - 1);
        assert(is_sqrt_floor(n - 1, r));
        if n < (r + 1) * (r + 1) {
            assert(is_sqrt_floor(n, r));
        } else {
            assert(n == (r + 1) * (r + 1));
            assert((r + 1) * (r + 1) < (r + 2) * (r + 2)) by (nonlinear_arith)
                requires
                    r >= 0,
            ;
            assert(is_sqrt_floor(n, r + 1));
        }
    }
}

/// The direction toward any offset is a direction.
pub proof fn lemma_toward_is_direction(dx: int, dy: int)
    ensures
        is_direction(toward(dx, dy).0, toward(dx, dy).1),
{
    if dx != 0 || dy != 0 {
        lemma_component_le_length(dx, dy);
        let d: int = sqrt_floor(dx * dx + dy * dy);
        lemma_scaled_quotient(dx, d);
        lemma_scaled_quotient(dy, d);
    }
}

/// An enemy on open ground is on open ground after its tick, and still
/// faces a direction.
pub proof fn lemma_stepped_ok(e: Enemy, cells: Seq<bool>, px: int, py: int, dt: int, now: u64)
    requires
        grid_wf(cells),
        e.ok_in(cells),
    ensures
        e.stepped(cells, px, py, dt, now).ok_in(cells),
{
    let cand = e.candidate(px, py, dt);
    lemma_toward_is_direction(px - e.x, py - e.y);
    if !is_wall_at(cells, cand.0, cand.1) {
        lemma_open_point_is_inside(cells, cand.0, cand.1);
    }
}

/// The unit direction toward `(dx, dy)`, scaled by `ONE`.
pub fn direction_toward(dx: i64, dy: i64) -> (h: (i64, i64))
    requires
        -WORLD_SIZE <= dx <= WORLD_SIZE,
        -WORLD_SIZE <= dy <= WORLD_SIZE,
    ensures
        (h.0 as int, h.1 as int) == toward(dx as int, dy as int),
        is_direction(h.0 as int, h.1 as int),
{
    if dx == 0 && dy == 0 {
        return (ONE, 0);
    }
    assert(0 <= dx * dx <= WORLD_SIZE * WORLD_SIZE) by (nonlinear_arith)
        requires
            -WORLD_SIZE <= dx <= WORLD_SIZE,
    ;
    assert(0 <= dy * dy <= WORLD_SIZE * WORLD_SIZE) by (nonlinear_arith)
        requires
            -WORLD_SIZE <= dy <= WORLD_SIZE,
    ;
    let n: u64 = (dx * dx + dy * dy) as u64;
    let d: i64 = isqrt(n) as i64;
    proof {
        lemma_component_le_length(dx as int, dy as int);
    }
    let nx: i64 = dx * ONE;
    let ny: i64 = dy * ONE;
    let hx: i64 = nx / d;
    let hy: i64 = ny / d;
    proof {
        lemma_scaled_quotient(dx as int, d as int);
        lemma_scaled_quotient(dy as int, d as int);
    }
    (hx, hy)
}

/// A component no longer than `d`, scaled by `ONE` and divided by `d`, stays
/// within `ONE`.
proof fn lemma_scaled_quotient(c: int, d: int)
    requires
        d >= 1,
        -d <= c <= d,
    ensures
        -ONE <= div_trunc(c * ONE, d) <= ONE,
{
    if c >= 0 {
        assert(0 <= (c * ONE) / d <= ONE) by (nonlinear_arith)
            requires
                d >= 1,
                0 <= c <= d,
                ONE == 1_000_000,
        ;
    } else {
        assert(0 <= (-(c * ONE)) / d <= ONE) by (nonlinear_arith)
            requires
                d >= 1,
                -d <= c < 0,
                ONE == 1_000_000,
        ;
    }
}

} // verus!
