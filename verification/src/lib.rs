//! A deterministic, fixed-point simulation core for a first-person maze game.
//!
//! Every quantity is an integer: lengths are thousandths of a world unit,
//! angles are microradians, time is microseconds. The crate holds the maze,
//! the player controller, the raycaster, the enemy state machine, combat
//! resolution and level progression; window, input and drawing live with the
//! caller.

pub mod units;
pub mod trig;
pub mod maze;
pub mod clock;
pub mod enemy;
pub mod themes;
pub mod game;
pub mod player;
pub mod ai;
pub mod combat;
pub mod level;
pub mod raycast;
pub mod tick;
pub mod sprites;
pub mod transport;
