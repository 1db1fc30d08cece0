//! The player controller: turning, walking and collision with the maze.
//!
//! Turning comes from the turn keys and from the pointer; both add onto the
//! same angle. Walking follows the new orientation, strafing its
//! perpendicular. A step that would end in a wall is not taken.

use crate::game::{GameState, Input, Player, World, ANGLE_LIMIT};
use crate::maze::{is_wall_at, lemma_open_point_is_inside};
use crate::trig::{cos, cos_fp, lemma_full_turn, normalize, normalize_angle, sin, sin_fp, HALF_PI};
use crate::units::{along, along_axis, travel, travel_len};
use vstd::prelude::*;

verus! {

/// Walking speed, in world units a second.
pub const MOVE_SPEED: u32 = 200;

/// Strafing speed, in world units a second.
pub const STRAFE_SPEED: u32 = 180;

/// Turning speed of the turn keys, in microradians a microsecond.
pub const TURN_RATE: i64 = 2;

/// Microradians turned for each pixel the pointer moves.
pub const LOOK_SENSITIVITY: i64 = 3_000;

/// The flash that a blocked step sets off.
pub const BLOCKED_FLASH: u32 = 300_000;

/// The value of an axis with one control for each direction: 1, 0 or -1.
pub open spec fn axis(positive: bool, negative: bool) -> int {
    (if positive { 1int } else { 0int }) - (if negative { 1int } else { 0int })
}

/// How far the input turns the player during a tick of `dt` microseconds.
pub open spec fn turn_amount(input: Input, dt: int) -> int {
    input.look_delta * LOOK_SENSITIVITY + axis(input.turn_right, input.turn_left) * TURN_RATE * dt
}

/// The angle after a turn: the plain sum. Only where the sum passes
/// `ANGLE_LIMIT` is it brought back into one turn, which leaves the direction
/// as it is.
pub open spec fn turned_angle(angle: int, turn: int) -> int {
    if -ANGLE_LIMIT <= angle + turn <= ANGLE_LIMIT {
        angle + turn
    } else {
        normalize(angle + turn)
    }
}

/// A turn adds onto the angle: pointer and keys together, with nothing
/// taken off. And whatever the angle, the direction after the turn is that of
/// the plain sum.
pub proof fn lemma_turn_adds(angle: int, input: Input, dt: int)
    ensures
        -ANGLE_LIMIT <= angle + turn_amount(input, dt) <= ANGLE_LIMIT ==> turned_angle(
            angle,
            turn_amount(input, dt),
        ) == angle + input.look_delta * LOOK_SENSITIVITY + TURN_RATE * dt * axis(
            input.turn_right,
            input.turn_left,
        ),
        input.turn_left && input.turn_right ==> turn_amount(input, dt) == input.look_delta
            * LOOK_SENSITIVITY,
        sin_fp(turned_angle(angle, turn_amount(input, dt))) == sin_fp(
            angle + turn_amount(input, dt),
        ),
        cos_fp(turned_angle(angle, turn_amount(input, dt))) == cos_fp(
            angle + turn_amount(input, dt),
        ),
{
    let a: int = axis(input.turn_right, input.turn_left);
    assert(a * TURN_RATE * dt == TURN_RATE * dt * a) by (nonlinear_arith);
    assert(input.turn_left && input.turn_right ==> a * TURN_RATE * dt == 0) by (nonlinear_arith)
        requires
            input.turn_left && input.turn_right ==> a == 0,
    ;
    lemma_full_turn(angle + turn_amount(input, dt));
}

impl Player {
    /// The player after the input has turned it.
    pub open spec fn turned(self, input: Input, dt: int) -> Player {
        Player { angle: turned_angle(self.angle as int, turn_amount(input, dt)) as i64, ..self }
    }

    /// Where the input would take the player during a tick of `dt`
    /// microseconds: forward or back along the orientation, sideways along
    /// its perpendicular.
    pub open spec fn target(self, input: Input, dt: int) -> (int, int) {
        let walk = axis(input.forward, input.back);
        let strafe = axis(input.strafe_right, input.strafe_left);
        let walk_len = travel(MOVE_SPEED as int, dt);
        let strafe_len = travel(STRAFE_SPEED as int, dt);
        (
            self.x + walk * along(cos_fp(self.angle as int), walk_len) + strafe * along(
                cos_fp(self.angle + HALF_PI),
                strafe_len,
            ),
            self.y + walk * along(sin_fp(self.angle as int), walk_len) + strafe * along(
                sin_fp(self.angle + HALF_PI),
                strafe_len,
            ),
        )
    }
}

impl World {
    /// The world after the player's input has been applied for a tick of `dt`
    /// microseconds. The player turns, then steps to the target if that is
    /// open ground; if it is wall the player stays and the screen flashes.
    pub open spec fn after_input(self, input: Input, dt: int) -> World {
        let p = self.player.turned(input, dt);
        let t = p.target(input, dt);
        if is_wall_at(self.cells, t.0, t.1) {
            World { player: p, wall_hit_flash: BLOCKED_FLASH, ..self }
        } else {
            World { player: Player { x: t.0 as i64, y: t.1 as i64, ..p }, ..self }
        }
    }
}

impl World {
    /// Whatever the input, the player stands on open ground afterwards and
    /// the world stays well formed.
    pub proof fn lemma_after_input(self, input: Input, dt: int)
        requires
            self.wf(),
        ensures
            self.after_input(input, dt).wf(),
            !is_wall_at(
                self.after_input(input, dt).cells,
                self.after_input(input, dt).player.x as int,
                self.after_input(input, dt).player.y as int,
            ),
            self.after_input(input, dt).cells == self.cells,
            self.after_input(input, dt).enemies == self.enemies,
    {
        let p = self.player.turned(input, dt);
        let t = p.target(input, dt);
        if !is_wall_at(self.cells, t.0, t.1) {
            lemma_open_point_is_inside(self.cells, t.0, t.1);
        }
    }
}

/// The value of an axis with one control for each direction.
fn axis_value(positive: bool, negative: bool) -> (v: i64)
    ensures
        v == axis(positive, negative),
{
    let p: i64 = if positive { 1 } else { 0 };
    let n: i64 = if negative { 1 } else { 0 };
    p - n
}

/// `v` taken along an axis: as it is, reversed, or not at all.
fn times_axis(axis_value: i64, v: i64) -> (r: i64)
    requires
        -1 <= axis_value <= 1,
        -0x4000_0000_0000_0000 <= v <= 0x4000_0000_0000_0000,
    ensures
        r == axis_value * v,
        r == v || r == -v || r == 0,
{
    assert(1 * v == v && (-1) * v == -v && 0 * v == 0) by (nonlinear_arith);
    if axis_value == 1 {
        v
    } else if axis_value == -1 {
        -v
    } else {
        0
    }
}

impl GameState {
    /// Applies one tick of input to the player. Afterwards the player stands
    /// on open ground, whatever the input was.
    pub fn apply_input(&mut self, input: &Input, dt: u32)
        requires
            old(self)@.wf(),
        ensures
            final(self)@ == old(self)@.after_input(*input, dt as int),
            final(self)@.wf(),
            !is_wall_at(final(self)@.cells, final(self).player.x as int, final(self).player.y as int),
            -ANGLE_LIMIT <= old(self).player.angle + turn_amount(*input, dt as int) <= ANGLE_LIMIT
                ==> final(self).player.angle == old(self).player.angle + input.look_delta
                * LOOK_SENSITIVITY + TURN_RATE * dt * axis(input.turn_right, input.turn_left),
    {
        proof {
            lemma_turn_adds(self.player.angle as int, *input, dt as int);
            lemma_open_point_is_inside(self.maze@, self.player.x as int, self.player.y as int);
        }
        let key_turn: i64 = times_axis(
            axis_value(input.turn_right, input.turn_left),
            TURN_RATE * (dt as i64),
        );
        assert(key_turn == axis(input.turn_right, input.turn_left) * TURN_RATE * dt) by (nonlinear_arith)
            requires
                key_turn == axis(input.turn_right, input.turn_left) * (TURN_RATE * dt),
        ;
        let turn: i64 = (input.look_delta as i64) * LOOK_SENSITIVITY + key_turn;
        let sum: i64 = self.player.angle + turn;
        let angle: i64 = if sum < -ANGLE_LIMIT || sum > ANGLE_LIMIT {
            normalize_angle(sum)
        } else {
            sum
        };
        let walk: i64 = axis_value(input.forward, input.back);
        let strafe: i64 = axis_value(input.strafe_right, input.strafe_left);
        let walk_len: i64 = travel_len(MOVE_SPEED, dt);
        let strafe_len: i64 = travel_len(STRAFE_SPEED, dt);
        let wx: i64 = along_axis(cos(angle), walk_len);
        let wy: i64 = along_axis(sin(angle), walk_len);
        let sx: i64 = along_axis(cos(angle + HALF_PI), strafe_len);
        let sy: i64 = along_axis(sin(angle + HALF_PI), strafe_len);
        let tx: i64 = self.player.x + times_axis(walk, wx) + times_axis(strafe, sx);
        let ty: i64 = self.player.y + times_axis(walk, wy) + times_axis(strafe, sy);
        self.player.angle = angle;
        if self.maze.wall_at(tx, ty) {
            self.wall_hit_flash = BLOCKED_FLASH;
        } else {
            self.player.x = tx;
            self.player.y = ty;
        }
    }
}

} // verus!
