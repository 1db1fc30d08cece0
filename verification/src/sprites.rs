//! Which enemies the player sees, and how large each appears.
//!
//! An enemy is seen when it is alive, within the view range, inside the field
//! of view and not hidden behind a wall.

use crate::combat::{in_cone, line_blocked, occluded, within_cone};
use crate::enemy::Enemy;
use crate::game::{GameState, World};
use crate::maze::lemma_open_point_is_inside;
use crate::trig::{cos, cos_fp, sin, sin_fp};
use crate::units::{in_world, isqrt, sq_distance, sqrt_floor};
use vstd::prelude::*;

verus! {

/// The farthest an enemy is seen.
pub const VIEW_RANGE: i64 = 500_000;

/// The slope of the sides of the field of view: a twelfth of a turn to
/// either side of the orientation, as `VIEW_SLOPE / VIEW_SCALE`.
pub const VIEW_SLOPE: i64 = 57_735;

/// See `VIEW_SLOPE`.
pub const VIEW_SCALE: i64 = 100_000;

/// The size of a sprite at distance 1, in pixels times thousandths of a
/// world unit.
pub const SPRITE_SCALE: i64 = 3_000_000;

/// The smallest a sprite is drawn, in pixels.
pub const SPRITE_MIN: i64 = 5;

/// The largest a sprite is drawn, in pixels.
pub const SPRITE_MAX: i64 = 50;

/// An enemy as it appears on screen.
#[derive(Clone, Copy, Debug, PartialEq, Eq)]
pub struct Sprite {
    pub enemy: Enemy,
    /// How far away the enemy is.
    pub distance: i64,
    /// How large it is drawn, in pixels.
    pub size: i64,
}

/// How large an enemy at `distance` is drawn: in inverse proportion to the
/// distance, but neither below `SPRITE_MIN` nor above `SPRITE_MAX`.
pub open spec fn sprite_size(distance: int) -> int {
    if distance * SPRITE_MAX <= SPRITE_SCALE {
        SPRITE_MAX as int
    } else if (SPRITE_SCALE as int) / distance < SPRITE_MIN {
        SPRITE_MIN as int
    } else {
        (SPRITE_SCALE as int) / distance
    }
}

impl World {
    /// The distance from the player to `e`, rounded down.
    pub open spec fn distance_to(self, e: Enemy) -> int {
        sqrt_floor(e.sq_dist_to(self.player.x as int, self.player.y as int))
    }

    /// The player sees `e`.
    pub open spec fn sees(self, e: Enemy) -> bool {
        &&& e.alive()
        &&& e.sq_dist_to(self.player.x as int, self.player.y as int) <= VIEW_RANGE * VIEW_RANGE
        &&& within_cone(
            e.x - self.player.x,
            e.y - self.player.y,
            cos_fp(self.player.angle as int),
            sin_fp(self.player.angle as int),
            VIEW_SLOPE as int,
            VIEW_SCALE as int,
        )
        &&& !occluded(self.cells, self.player.x as int, self.player.y as int, e.x as int, e.y as int)
    }

    /// `e` as it appears on screen.
    pub open spec fn sprite_of(self, e: Enemy) -> Sprite {
        Sprite {
            enemy: e,
            distance: self.distance_to(e) as i64,
            size: sprite_size(self.distance_to(e)) as i64,
        }
    }

    /// The sprites of the enemies numbered below `upto` that the player sees,
    /// in their order.
    pub open spec fn sprites_upto(self, upto: int) -> Seq<Sprite>
        decreases upto,
    {
        if upto <= 0 {
            Seq::empty()
        } else {
            let rest = self.sprites_upto(upto - 1);
            if self.sees(self.enemies[upto - 1]) {
                rest.push(self.sprite_of(self.enemies[upto - 1]))
            } else {
                rest
            }
        }
    }

    /// The sprites of all the enemies that the player sees, in their order.
    pub open spec fn sprites(self) -> Seq<Sprite> {
        self.sprites_upto(self.enemies.len() as int)
    }
}

/// How large an enemy at `distance` is drawn.
pub fn sprite_size_at(distance: i64) -> (size: i64)
    requires
        0 <= distance <= 0x1_0000_0000,
    ensures
        size == sprite_size(distance as int),
        SPRITE_MIN <= size <= SPRITE_MAX,
{
    if distance * SPRITE_MAX <= SPRITE_SCALE {
        return SPRITE_MAX;
    }
    let size: i64 = SPRITE_SCALE / distance;
    assert(size <= 50) by (nonlinear_arith)
        requires
            distance > 60_000,
            size == 3_000_000int / (distance as int),
    ;
    if size < SPRITE_MIN {
        SPRITE_MIN
    } else {
        size
    }
}

impl GameState {
    /// Whether the player sees `e`.
    pub fn sees(&self, e: &Enemy) -> (b: bool)
        requires
            self@.wf(),
            e.ok_in(self.maze@),
        ensures
            b == self@.sees(*e),
    {
        proof {
            lemma_open_point_is_inside(self.maze@, self.player.x as int, self.player.y as int);
            lemma_open_point_is_inside(self.maze@, e.x as int, e.y as int);
        }
        if e.health <= 0 {
            return false;
        }
        if sq_distance(e.x, e.y, self.player.x, self.player.y) > VIEW_RANGE * VIEW_RANGE {
            return false;
        }
        if !in_cone(
            e.x - self.player.x,
            e.y - self.player.y,
            cos(self.player.angle),
            sin(self.player.angle),
            VIEW_SLOPE,
            VIEW_SCALE,
        ) {
            return false;
        }
        !line_blocked(&self.maze, self.player.x, self.player.y, e.x, e.y)
    }

    /// The enemies that the player sees, each with its distance and the size
    /// it is drawn at, in the order the game keeps them.
    pub fn visible_enemies(&self) -> (sprites: Vec<Sprite>)
        requires
            self@.wf(),
        ensures
            sprites@ == self@.sprites(),
    {
        proof {
            lemma_open_point_is_inside(self.maze@, self.player.x as int, self.player.y as int);
        }
        let mut sprites: Vec<Sprite> = Vec::new();
        let mut i: usize = 0;
        while i < self.enemies.len()
            invariant
                i <= self.enemies@.len(),
                self@.wf(),
                in_world(self.player.x as int, self.player.y as int),
                sprites@ == self@.sprites_upto(i as int),
            decreases self.enemies@.len() - i,
        {
            let e: Enemy = self.enemies[i];
            assert(self@.enemies[i as int].ok_in(self@.cells));
            if self.sees(&e) {
                proof {
                    lemma_open_point_is_inside(self.maze@, e.x as int, e.y as int);
                }
                let d2: i64 = sq_distance(e.x, e.y, self.player.x, self.player.y);
                let distance: i64 = isqrt(d2 as u64) as i64;
                sprites.push(Sprite { enemy: e, distance, size: sprite_size_at(distance) });
            }
            i += 1;
        }
        sprites
    }
}

} // verus!
