//! Level themes: the palette and the captions that go with each level.
//!
//! A colour is four bytes, red, green, blue and opacity. Drawing with them is
//! the caller's business.

use crate::enemy::EnemyState;
use vstd::prelude::*;

verus! {

/// Brightness is given in thousandths; this is full brightness.
pub const FULL_BRIGHTNESS: u32 = 1000;

/// The look of a level.
#[derive(Clone, Copy, Debug, PartialEq, Eq, Structural)]
pub enum LevelTheme {
    CandyMaze,
    Cyberpunk,
    MoroccanBazaar,
}

/// A colour: red, green, blue and opacity.
#[derive(Clone, Copy, Debug, PartialEq, Eq, Structural)]
pub struct Rgba {
    pub r: u8,
    pub g: u8,
    pub b: u8,
    pub a: u8,
}

/// The palette of a theme.
#[derive(Clone, Copy, Debug, PartialEq, Eq, Structural)]
pub struct ThemeConfig {
    pub wall_primary: Rgba,
    pub wall_secondary: Rgba,
    pub wall_accent: Rgba,
    pub floor_color: Rgba,
    pub ceiling_color: Rgba,
    pub hud_primary: Rgba,
    pub hud_secondary: Rgba,
    pub hud_accent: Rgba,
    pub text_primary: Rgba,
    pub text_secondary: Rgba,
    pub glow_color: Rgba,
    pub particle_color: Rgba,
}

/// The colour with the given channels.
pub open spec fn rgba(r: u8, g: u8, b: u8, a: u8) -> Rgba {
    Rgba { r, g, b, a }
}

/// One channel at a brightness: channel and brightness are both fractions of
/// their full value, and the product is cut down to a whole byte.
pub open spec fn shaded_channel(channel: u8, brightness: int) -> int {
    (channel * brightness) / (255 * FULL_BRIGHTNESS)
}

/// A colour at a brightness, fully opaque.
pub open spec fn shaded(base: Rgba, brightness: int) -> Rgba {
    Rgba {
        r: shaded_channel(base.r, brightness) as u8,
        g: shaded_channel(base.g, brightness) as u8,
        b: shaded_channel(base.b, brightness) as u8,
        a: 255,
    }
}

impl LevelTheme {
    /// The theme of `level`. Levels without a theme of their own get the
    /// first one.
    pub open spec fn of_level(level: int) -> LevelTheme {
        if level == 2 {
            LevelTheme::Cyberpunk
        } else if level == 3 {
            LevelTheme::MoroccanBazaar
        } else {
            LevelTheme::CandyMaze
        }
    }

    /// The theme that follows this one when the player cycles through them.
    pub open spec fn next(self) -> LevelTheme {
        match self {
            LevelTheme::CandyMaze => LevelTheme::Cyberpunk,
            LevelTheme::Cyberpunk => LevelTheme::MoroccanBazaar,
            LevelTheme::MoroccanBazaar => LevelTheme::CandyMaze,
        }
    }

    /// The palette of the theme.
    pub open spec fn config(self) -> ThemeConfig {
        match self {
            LevelTheme::CandyMaze => ThemeConfig {
                wall_primary: rgba(255, 182, 193, 255),
                wall_secondary: rgba(255, 255, 255, 255),
                wall_accent: rgba(255, 105, 180, 255),
                floor_color: rgba(255, 192, 203, 255),
                ceiling_color: rgba(173, 216, 230, 255),
                hud_primary: rgba(255, 20, 147, 255),
                hud_secondary: rgba(255, 182, 193, 255),
                hud_accent: rgba(255, 255, 255, 255),
                text_primary: rgba(139, 69, 19, 255),
                text_secondary: rgba(255, 20, 147, 255),
                glow_color: rgba(255, 182, 193, 150),
                particle_color: rgba(255, 255, 255, 200),
            },
            LevelTheme::Cyberpunk => ThemeConfig {
                wall_primary: rgba(25, 25, 50, 255),
                wall_secondary: rgba(50, 25, 75, 255),
                wall_accent: rgba(255, 0, 255, 255),
                floor_color: rgba(20, 20, 40, 255),
                ceiling_color: rgba(10, 10, 30, 255),
                hud_primary: rgba(255, 0, 255, 255),
                hud_secondary: rgba(0, 255, 255, 255),
                hud_accent: rgba(255, 255, 255, 255),
                text_primary: rgba(0, 255, 255, 255),
                text_secondary: rgba(255, 0, 255, 255),
                glow_color: rgba(255, 0, 255, 100),
                particle_color: rgba(0, 255, 255, 150),
            },
            LevelTheme::MoroccanBazaar => ThemeConfig {
                wall_primary: rgba(205, 133, 63, 255),
                wall_secondary: rgba(160, 82, 45, 255),
                wall_accent: rgba(0, 128, 128, 255),
                floor_color: rgba(139, 69, 19, 255),
                ceiling_color: rgba(222, 184, 135, 255),
                hud_primary: rgba(218, 165, 32, 255),
                hud_secondary: rgba(160, 82, 45, 255),
                hud_accent: rgba(0, 128, 128, 255),
                text_primary: rgba(139, 69, 19, 255),
                text_secondary: rgba(218, 165, 32, 255),
                glow_color: rgba(255, 215, 0, 100),
                particle_color: rgba(218, 165, 32, 150),
            },
        }
    }

    /// The wall colour of screen column `ray_index` before shading: candy
    /// stripes eight columns wide, a neon line every thirty-second column, or
    /// a three-colour pattern in bands of four.
    pub open spec fn wall_base(self, config: ThemeConfig, ray_index: int) -> Rgba {
        match self {
            LevelTheme::CandyMaze => if ray_index % 16 < 8 {
                config.wall_primary
            } else {
                config.wall_secondary
            },
            LevelTheme::Cyberpunk => if ray_index % 32 == 0 {
                config.wall_accent
            } else {
                config.wall_primary
            },
            LevelTheme::MoroccanBazaar => if (ray_index / 4) % 3 == 0 {
                config.wall_primary
            } else if (ray_index / 4) % 3 == 1 {
                config.wall_secondary
            } else {
                config.wall_accent
            },
        }
    }

    /// The colour of an enemy in a given state.
    pub open spec fn enemy_color(self, state: EnemyState) -> Rgba {
        match self {
            LevelTheme::CandyMaze => match state {
                EnemyState::Patrolling => rgba(255, 182, 193, 255),
                EnemyState::Chasing => rgba(255, 105, 180, 255),
                EnemyState::Attacking => rgba(255, 20, 147, 255),
            },
            LevelTheme::Cyberpunk => match state {
                EnemyState::Patrolling => rgba(0, 255, 255, 255),
                EnemyState::Chasing => rgba(255, 255, 0, 255),
                EnemyState::Attacking => rgba(255, 0, 255, 255),
            },
            LevelTheme::MoroccanBazaar => match state {
                EnemyState::Patrolling => rgba(218, 165, 32, 255),
                EnemyState::Chasing => rgba(205, 133, 63, 255),
                EnemyState::Attacking => rgba(160, 82, 45, 255),
            },
        }
    }

    /// The theme of `level`.
    pub fn from_level(level: usize) -> (theme: LevelTheme)
        ensures
            theme == LevelTheme::of_level(level as int),
    {
        match level {
            2 => LevelTheme::Cyberpunk,
            3 => LevelTheme::MoroccanBazaar,
            _ => LevelTheme::CandyMaze,
        }
    }

    /// The theme that follows this one.
    pub fn cycled(&self) -> (theme: LevelTheme)
        ensures
            theme == self.next(),
    {
        match self {
            LevelTheme::CandyMaze => LevelTheme::Cyberpunk,
            LevelTheme::Cyberpunk => LevelTheme::MoroccanBazaar,
            LevelTheme::MoroccanBazaar => LevelTheme::CandyMaze,
        }
    }

    /// The palette of the theme.
    pub fn get_config(&self) -> (config: ThemeConfig)
        ensures
            config == self.config(),
    {
        match self {
            LevelTheme::CandyMaze => ThemeConfig {
                wall_primary: color(255, 182, 193, 255),
                wall_secondary: color(255, 255, 255, 255),
                wall_accent: color(255, 105, 180, 255),
                floor_color: color(255, 192, 203, 255),
                ceiling_color: color(173, 216, 230, 255),
                hud_primary: color(255, 20, 147, 255),
                hud_secondary: color(255, 182, 193, 255),
                hud_accent: color(255, 255, 255, 255),
                text_primary: color(139, 69, 19, 255),
                text_secondary: color(255, 20, 147, 255),
                glow_color: color(255, 182, 193, 150),
                particle_color: color(255, 255, 255, 200),
            },
            LevelTheme::Cyberpunk => ThemeConfig {
                wall_primary: color(25, 25, 50, 255),
                wall_secondary: color(50, 25, 75, 255),
                wall_accent: color(255, 0, 255, 255),
                floor_color: color(20, 20, 40, 255),
                ceiling_color: color(10, 10, 30, 255),
                hud_primary: color(255, 0, 255, 255),
                hud_secondary: color(0, 255, 255, 255),
                hud_accent: color(255, 255, 255, 255),
                text_primary: color(0, 255, 255, 255),
                text_secondary: color(255, 0, 255, 255),
                glow_color: color(255, 0, 255, 100),
                particle_color: color(0, 255, 255, 150),
            },
            LevelTheme::MoroccanBazaar => ThemeConfig {
                wall_primary: color(205, 133, 63, 255),
                wall_secondary: color(160, 82, 45, 255),
                wall_accent: color(0, 128, 128, 255),
                floor_color: color(139, 69, 19, 255),
                ceiling_color: color(222, 184, 135, 255),
                hud_primary: color(218, 165, 32, 255),
                hud_secondary: color(160, 82, 45, 255),
                hud_accent: color(0, 128, 128, 255),
                text_primary: color(139, 69, 19, 255),
                text_secondary: color(218, 165, 32, 255),
                glow_color: color(255, 215, 0, 100),
                particle_color: color(218, 165, 32, 150),
            },
        }
    }

    /// The caption above the overview map.
    pub fn get_minimap_title(&self) -> (title: &'static str)
        ensures
            title@ == (match *self {
                LevelTheme::CandyMaze => "CANDY MAP"@,
                LevelTheme::Cyberpunk => "TACTICAL SCAN"@,
                LevelTheme::MoroccanBazaar => "BAZAAR MAP"@,
            }),
    {
        match self {
            LevelTheme::CandyMaze => "CANDY MAP",
            LevelTheme::Cyberpunk => "TACTICAL SCAN",
            LevelTheme::MoroccanBazaar => "BAZAAR MAP",
        }
    }

    /// The line that tells the player what to do.
    pub fn get_objective_text(&self) -> (text: &'static str)
        ensures
            text@ == (match *self {
                LevelTheme::CandyMaze => "🍭 OBJECTIVE: Find the candy exit!"@,
                LevelTheme::Cyberpunk => "🎯 OBJECTIVE: Hack the exit portal"@,
                LevelTheme::MoroccanBazaar => "🏺 OBJECTIVE: Escape through the archway"@,
            }),
    {
        match self {
            LevelTheme::CandyMaze => "🍭 OBJECTIVE: Find the candy exit!",
            LevelTheme::Cyberpunk => "🎯 OBJECTIVE: Hack the exit portal",
            LevelTheme::MoroccanBazaar => "🏺 OBJECTIVE: Escape through the archway",
        }
    }

    /// The colour of the wall in screen column `ray_index`, at a brightness
    /// given in thousandths. Brightness above full counts as full.
    pub fn get_wall_color(&self, config: &ThemeConfig, brightness: u32, ray_index: usize) -> (c: Rgba)
        ensures
            c == shaded(
                self.wall_base(*config, ray_index as int),
                if brightness > FULL_BRIGHTNESS {
                    FULL_BRIGHTNESS as int
                } else {
                    brightness as int
                },
            ),
    {
        let base: Rgba = match self {
            LevelTheme::CandyMaze => if ray_index % 16 < 8 {
                config.wall_primary
            } else {
                config.wall_secondary
            },
            LevelTheme::Cyberpunk => if ray_index % 32 == 0 {
                config.wall_accent
            } else {
                config.wall_primary
            },
            LevelTheme::MoroccanBazaar => {
                let pattern: usize = (ray_index / 4) % 3;
                if pattern == 0 {
                    config.wall_primary
                } else if pattern == 1 {
                    config.wall_secondary
                } else {
                    config.wall_accent
                }
            },
        };
        let level: u32 = if brightness > FULL_BRIGHTNESS {
            FULL_BRIGHTNESS
        } else {
            brightness
        };
        Rgba {
            r: shade(base.r, level),
            g: shade(base.g, level),
            b: shade(base.b, level),
            a: 255,
        }
    }

    /// The colour of an enemy in a given state.
    pub fn get_enemy_color(&self, enemy_state: &EnemyState) -> (c: Rgba)
        ensures
            c == self.enemy_color(*enemy_state),
    {
        match self {
            LevelTheme::CandyMaze => match enemy_state {
                EnemyState::Patrolling => color(255, 182, 193, 255),
                EnemyState::Chasing => color(255, 105, 180, 255),
                EnemyState::Attacking => color(255, 20, 147, 255),
            },
            LevelTheme::Cyberpunk => match enemy_state {
                EnemyState::Patrolling => color(0, 255, 255, 255),
                EnemyState::Chasing => color(255, 255, 0, 255),
                EnemyState::Attacking => color(255, 0, 255, 255),
            },
            LevelTheme::MoroccanBazaar => match enemy_state {
                EnemyState::Patrolling => color(218, 165, 32, 255),
                EnemyState::Chasing => color(205, 133, 63, 255),
                EnemyState::Attacking => color(160, 82, 45, 255),
            },
        }
    }
}

/// The colour with the given channels.
pub fn color(r: u8, g: u8, b: u8, a: u8) -> (c: Rgba)
    ensures
        c == rgba(r, g, b, a),
{
    Rgba { r, g, b, a }
}

/// One channel at a brightness of at most `FULL_BRIGHTNESS` thousandths.
fn shade(channel: u8, brightness: u32) -> (c: u8)
    requires
        brightness <= FULL_BRIGHTNESS,
    ensures
        c == shaded_channel(channel, brightness as int),
        c <= 1,
{
    assert(channel * brightness <= 255 * 1000) by (nonlinear_arith)
        requires
            channel <= 255,
            brightness <= 1000,
    ;
    let product: u32 = channel as u32 * brightness;
    (product / 255_000) as u8
}

} // verus!
