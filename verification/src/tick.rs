//! One tick of the whole game.
//!
//! A tick measures the time since the last one, lets the player act, checks
//! for the exit, advances the enemies and resolves a shot, in this order.
//! Every rate is scaled by the measured time, so the game runs alike at any
//! frame rate.

use crate::ai::ATTACK_DAMAGE;
use crate::clock::{elapsed, frame_rate, recent, tick_length, total};
use crate::game::{lemma_spawn_point_is_open, GameState, Input, World, ANGLE_LIMIT};
use crate::player::{axis, lemma_turn_adds, turn_amount, LOOK_SENSITIVITY, TURN_RATE};
use crate::maze::lemma_level_is_playable;
use vstd::prelude::*;

verus! {

/// How fast the screen flash fades, in millionths a microsecond.
pub const FLASH_DECAY: u64 = 2;

/// The opacity, out of 255, at which a screen flash of the given strength is
/// drawn: one for each hundredth of full strength, and never more than 255.
pub open spec fn flash_opacity(flash: u32) -> int {
    if flash >= 2_550_000 {
        255
    } else {
        flash as int / 10_000
    }
}

/// The screen flash after it has faded for `dt` microseconds.
pub open spec fn faded(flash: u32, dt: int) -> u32 {
    if flash > FLASH_DECAY * dt {
        (flash - FLASH_DECAY * dt) as u32
    } else {
        0
    }
}

impl World {
    /// The world with the frame that ends at `now` on the clock.
    pub open spec fn clocked(self, now: u64) -> World {
        let rates = recent(
            self.frame_rates.push(frame_rate(elapsed(self.last_frame_time, now)) as u32),
        );
        World {
            last_frame_time: now,
            frame_rates: rates,
            fps: (total(rates) / (rates.len() as int)) as u32,
            ..self
        }
    }

    /// The world with the flash faded and, if asked for, the next theme.
    pub open spec fn refreshed(self, input: Input, dt: int) -> World {
        World {
            wall_hit_flash: faded(self.wall_hit_flash, dt),
            theme: if input.cycle_theme {
                self.theme.next()
            } else {
                self.theme
            },
            ..self
        }
    }

    /// The world with the level advanced if the player stands at the exit.
    pub open spec fn exit_checked(self) -> World {
        if self.at_exit() {
            self.advanced()
        } else {
            self
        }
    }

    /// The world with a shot resolved if the trigger was pulled.
    pub open spec fn trigger_checked(self, input: Input) -> World {
        if input.fire {
            self.fired()
        } else {
            self
        }
    }

    /// The world one tick later, when the tick ends at `now` and the input
    /// devices report `input`.
    pub open spec fn ticked(self, input: Input, now: u64) -> World {
        let dt = tick_length(elapsed(self.last_frame_time, now));
        self.clocked(now).refreshed(input, dt).after_input(input, dt).exit_checked().enemies_updated(
            dt,
            now,
        ).trigger_checked(input)
    }
}

impl World {
    /// The world in which a game begins is well formed.
    pub proof fn lemma_initial(now: u64)
        ensures
            World::initial(now).wf(),
    {
        lemma_level_is_playable(1);
        lemma_spawn_point_is_open(1);
    }

    /// A tick keeps the world well formed, whatever the input and the time.
    /// So every world that a game can reach is well formed: its maze is
    /// bordered, and the player and all enemies stand on open ground.
    pub proof fn lemma_ticked(self, input: Input, now: u64)
        requires
            self.wf(),
        ensures
            self.ticked(input, now).wf(),
            self.player.health - self.ticked(input, now).player.health <= ATTACK_DAMAGE,
    {
        let dt = tick_length(elapsed(self.last_frame_time, now));
        let w1 = self.clocked(now).refreshed(input, dt);
        assert(w1.wf());
        w1.lemma_after_input(input, dt);
        let w2 = w1.after_input(input, dt);
        w2.lemma_advanced();
        let w3 = w2.exit_checked();
        assert(w3.player.health >= self.player.health);
        w3.lemma_enemies_updated(dt, now);
        let w4 = w3.enemies_updated(dt, now);
        w4.lemma_fired();
    }
}

/// The opacity, out of 255, at which the screen flash is drawn.
pub fn flash_alpha(flash: u32) -> (alpha: u8)
    ensures
        alpha == flash_opacity(flash),
{
    if flash >= 2_550_000 {
        255
    } else {
        (flash / 10_000) as u8
    }
}

impl GameState {
    /// Runs one tick of the game that ends at `now`, a reading in
    /// microseconds of a clock that does not run backwards.
    pub fn update(&mut self, input: &Input, now: u64)
        requires
            old(self)@.wf(),
        ensures
            final(self)@ == old(self)@.ticked(*input, now),
            final(self)@.wf(),
            old(self).player.health - final(self).player.health <= ATTACK_DAMAGE,
            ({
                let dt = tick_length(elapsed(old(self).clock.last_frame_time, now));
                let turn = turn_amount(*input, dt);
                let moved = old(self)@.clocked(now).refreshed(*input, dt).after_input(*input, dt);
                -ANGLE_LIMIT <= old(self).player.angle + turn <= ANGLE_LIMIT && !moved.at_exit()
                    ==> final(self).player.angle == old(self).player.angle + input.look_delta
                    * LOOK_SENSITIVITY + TURN_RATE * dt * axis(input.turn_right, input.turn_left)
            }),
    {
        proof {
            lemma_turn_adds(
                self.player.angle as int,
                *input,
                tick_length(elapsed(self.clock.last_frame_time, now)),
            );
        }
        let dt: u32 = self.clock.tick(now);
        assert(self@ == old(self)@.clocked(now));
        let fade: u64 = FLASH_DECAY * (dt as u64);
        self.wall_hit_flash = if (self.wall_hit_flash as u64) > fade {
            ((self.wall_hit_flash as u64) - fade) as u32
        } else {
            0
        };
        if input.cycle_theme {
            self.current_theme = self.current_theme.cycled();
        }
        assert(self@ == old(self)@.clocked(now).refreshed(*input, dt as int));
        self.apply_input(input, dt);
        if self.at_exit() {
            self.advance_level();
        }
        self.update_enemies(dt, now);
        if input.fire {
            self.fire();
        }
    }
}

} // verus!
