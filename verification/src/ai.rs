//! One tick of all enemies against the player.
//!
//! Every enemy is advanced from the world as it stood when the tick began:
//! the new enemies are staged in a buffer and put in place only when all of
//! them have been computed. However many enemies attack, the player is struck
//! at most once a tick, and only when the cooldown they share has run out.

use crate::clock::elapsed;
use crate::enemy::{lemma_stepped_ok, Enemy, EnemyState};
use crate::game::{GameState, Player, World};
use crate::maze::{grid_wf, lemma_open_point_is_inside};
use crate::units::in_world;
use vstd::prelude::*;

verus! {

/// The health one strike takes from the player.
pub const ATTACK_DAMAGE: u32 = 10;

/// The shortest time between two strikes, in microseconds.
pub const ATTACK_COOLDOWN: u64 = 1_000_000;

/// The flash that a strike sets off.
pub const HIT_FLASH: u32 = 500_000;

/// The live enemies of `enemies`, in their order, each after one tick.
pub open spec fn advance_all(
    enemies: Seq<Enemy>,
    cells: Seq<bool>,
    px: int,
    py: int,
    dt: int,
    now: u64,
) -> Seq<Enemy>
    decreases enemies.len(),
{
    if enemies.len() == 0 {
        Seq::empty()
    } else {
        let rest = advance_all(enemies.drop_last(), cells, px, py, dt, now);
        if enemies.last().alive() {
            rest.push(enemies.last().stepped(cells, px, py, dt, now))
        } else {
            rest
        }
    }
}

/// The enemy is alive and in the attacking state.
pub open spec fn is_attacker(e: Enemy) -> bool {
    e.alive() && e.state == EnemyState::Attacking
}

/// Some enemy is attacking.
pub open spec fn has_attacker(enemies: Seq<Enemy>) -> bool {
    exists|i: int| 0 <= i < enemies.len() && is_attacker(#[trigger] enemies[i])
}

/// More than the cooldown has passed since the last strike.
pub open spec fn cooldown_over(last: u64, now: u64) -> bool {
    elapsed(last, now) > ATTACK_COOLDOWN
}

/// The player's health after one strike; it does not drop below zero.
pub open spec fn struck(health: u32) -> u32 {
    if health >= ATTACK_DAMAGE {
        (health - ATTACK_DAMAGE) as u32
    } else {
        0
    }
}

impl World {
    /// Whether the player is struck during a tick that ends at `now`.
    pub open spec fn strike_due(self, now: u64) -> bool {
        has_attacker(self.enemies) && cooldown_over(self.last_enemy_attack, now)
    }

    /// The world after all enemies have had their tick. Dead enemies are
    /// gone. If a strike is due the player loses `ATTACK_DAMAGE` once and the
    /// cooldown starts again.
    pub open spec fn enemies_updated(self, dt: int, now: u64) -> World {
        let enemies = advance_all(
            self.enemies,
            self.cells,
            self.player.x as int,
            self.player.y as int,
            dt,
            now,
        );
        if self.strike_due(now) {
            World {
                enemies,
                player: Player { health: struck(self.player.health), ..self.player },
                last_enemy_attack: now,
                wall_hit_flash: HIT_FLASH,
                ..self
            }
        } else {
            World { enemies, ..self }
        }
    }
}

/// Advancing leaves only live enemies, each on open ground, and adds none.
pub proof fn lemma_advance_all(
    enemies: Seq<Enemy>,
    cells: Seq<bool>,
    px: int,
    py: int,
    dt: int,
    now: u64,
)
    requires
        grid_wf(cells),
        forall|i: int| 0 <= i < enemies.len() ==> (#[trigger] enemies[i]).ok_in(cells),
    ensures
        advance_all(enemies, cells, px, py, dt, now).len() <= enemies.len(),
        forall|k: int|
            0 <= k < advance_all(enemies, cells, px, py, dt, now).len() ==> {
                &&& (#[trigger] advance_all(enemies, cells, px, py, dt, now)[k]).ok_in(cells)
                &&& advance_all(enemies, cells, px, py, dt, now)[k].alive()
            },
    decreases enemies.len(),
{
    if enemies.len() > 0 {
        let front = enemies.drop_last();
        assert forall|i: int| 0 <= i < front.len() implies (#[trigger] front[i]).ok_in(cells) by {
            assert(front[i] == enemies[i]);
        }
        lemma_advance_all(front, cells, px, py, dt, now);
        lemma_stepped_ok(enemies.last(), cells, px, py, dt, now);
    }
}

impl World {
    /// The enemies' tick keeps the world well formed, and takes at most one
    /// strike from the player however many enemies attack.
    pub proof fn lemma_enemies_updated(self, dt: int, now: u64)
        requires
            self.wf(),
        ensures
            self.enemies_updated(dt, now).wf(),
            self.enemies_updated(dt, now).player.health <= self.player.health,
            self.player.health - self.enemies_updated(dt, now).player.health <= ATTACK_DAMAGE,
            self.strike_due(now) ==> self.enemies_updated(dt, now).player.health == struck(
                self.player.health,
            ),
            !self.strike_due(now) ==> self.enemies_updated(dt, now).player == self.player,
    {
        lemma_advance_all(
            self.enemies,
            self.cells,
            self.player.x as int,
            self.player.y as int,
            dt,
            now,
        );
    }
}

impl GameState {
    /// Gives every live enemy its tick, removes the dead, and lets the
    /// attackers strike the player if their shared cooldown has run out.
    pub fn update_enemies(&mut self, dt: u32, now: u64)
        requires
            old(self)@.wf(),
        ensures
            final(self)@ == old(self)@.enemies_updated(dt as int, now),
            final(self)@.wf(),
            forall|i: int| 0 <= i < final(self)@.enemies.len() ==> (#[trigger] final(self)@.enemies[i]).alive(),
            old(self).player.health - final(self).player.health <= ATTACK_DAMAGE,
    {
        proof {
            lemma_open_point_is_inside(self.maze@, self.player.x as int, self.player.y as int);
        }
        let px: i64 = self.player.x;
        let py: i64 = self.player.y;
        let mut staged: Vec<Enemy> = Vec::new();
        let mut attacker_seen: bool = false;
        let mut i: usize = 0;
        while i < self.enemies.len()
            invariant
                i <= self.enemies@.len(),
                *self == *old(self),
                self@.wf(),
                in_world(px as int, py as int),
                staged@ == advance_all(
                    self.enemies@.take(i as int),
                    self.maze@,
                    px as int,
                    py as int,
                    dt as int,
                    now,
                ),
                attacker_seen == has_attacker(self.enemies@.take(i as int)),
                forall|k: int| 0 <= k < staged@.len() ==> (#[trigger] staged@[k]).ok_in(self.maze@),
                forall|k: int| 0 <= k < staged@.len() ==> (#[trigger] staged@[k]).alive(),
            decreases self.enemies@.len() - i,
        {
            let e: Enemy = self.enemies[i];
            proof {
                let before = self.enemies@.take(i as int);
                let upto = self.enemies@.take(i + 1);
                assert(upto.drop_last() == before);
                assert(upto.last() == e);
                assert(self@.enemies[i as int].ok_in(self@.cells));
                if is_attacker(e) {
                    assert(is_attacker(upto[i as int]));
                } else if has_attacker(upto) {
                    let w = choose|w: int| 0 <= w < upto.len() && is_attacker(#[trigger] upto[w]);
                    assert(is_attacker(before[w]));
                }
                if has_attacker(before) {
                    let w = choose|w: int| 0 <= w < before.len() && is_attacker(#[trigger] before[w]);
                    assert(is_attacker(upto[w]));
                }
            }
            if e.health > 0 {
                match e.state {
                    EnemyState::Attacking => {
                        attacker_seen = true;
                    },
                    _ => {},
                }
                staged.push(e.step(&self.maze, px, py, dt, now));
            }
            i += 1;
        }
        assert(self.enemies@.take(i as int) == self.enemies@);
        let waited: u64 = if now >= self.last_enemy_attack {
            now - self.last_enemy_attack
        } else {
            0
        };
        self.enemies = staged;
        if attacker_seen && waited > ATTACK_COOLDOWN {
            self.player.health = if self.player.health >= ATTACK_DAMAGE {
                self.player.health - ATTACK_DAMAGE
            } else {
                0
            };
            self.last_enemy_attack = now;
            self.wall_hit_flash = HIT_FLASH;
        }
    }
}

} // verus!
