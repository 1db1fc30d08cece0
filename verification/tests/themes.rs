use maze_sim::enemy::EnemyState;
use maze_sim::themes::{color, LevelTheme, Rgba};

#[test]
fn each_level_has_its_theme() {
    assert_eq!(LevelTheme::from_level(1), LevelTheme::CandyMaze);
    assert_eq!(LevelTheme::from_level(2), LevelTheme::Cyberpunk);
    assert_eq!(LevelTheme::from_level(3), LevelTheme::MoroccanBazaar);
    assert_eq!(LevelTheme::from_level(0), LevelTheme::CandyMaze);
    assert_eq!(LevelTheme::from_level(4), LevelTheme::CandyMaze);
    assert_eq!(LevelTheme::from_level(usize::MAX), LevelTheme::CandyMaze);
}

#[test]
fn themes_cycle_in_order() {
    assert_eq!(LevelTheme::CandyMaze.cycled(), LevelTheme::Cyberpunk);
    assert_eq!(LevelTheme::Cyberpunk.cycled(), LevelTheme::MoroccanBazaar);
    assert_eq!(LevelTheme::MoroccanBazaar.cycled(), LevelTheme::CandyMaze);
}

#[test]
fn candy_palette() {
    let c = LevelTheme::CandyMaze.get_config();
    assert_eq!(c.wall_primary, color(255, 182, 193, 255));
    assert_eq!(c.wall_secondary, color(255, 255, 255, 255));
    assert_eq!(c.wall_accent, color(255, 105, 180, 255));
    assert_eq!(c.floor_color, color(255, 192, 203, 255));
    assert_eq!(c.ceiling_color, color(173, 216, 230, 255));
    assert_eq!(c.hud_primary, color(255, 20, 147, 255));
    assert_eq!(c.hud_secondary, color(255, 182, 193, 255));
    assert_eq!(c.hud_accent, color(255, 255, 255, 255));
    assert_eq!(c.text_primary, color(139, 69, 19, 255));
    assert_eq!(c.text_secondary, color(255, 20, 147, 255));
    assert_eq!(c.glow_color, color(255, 182, 193, 150));
    assert_eq!(c.particle_color, color(255, 255, 255, 200));
}

#[test]
fn cyberpunk_palette() {
    let c = LevelTheme::Cyberpunk.get_config();
    assert_eq!(c.wall_primary, color(25, 25, 50, 255));
    assert_eq!(c.wall_secondary, color(50, 25, 75, 255));
    assert_eq!(c.wall_accent, color(255, 0, 255, 255));
    assert_eq!(c.floor_color, color(20, 20, 40, 255));
    assert_eq!(c.ceiling_color, color(10, 10, 30, 255));
    assert_eq!(c.hud_primary, color(255, 0, 255, 255));
    assert_eq!(c.hud_secondary, color(0, 255, 255, 255));
    assert_eq!(c.hud_accent, color(255, 255, 255, 255));
    assert_eq!(c.text_primary, color(0, 255, 255, 255));
    assert_eq!(c.text_secondary, color(255, 0, 255, 255));
    assert_eq!(c.glow_color, color(255, 0, 255, 100));
    assert_eq!(c.particle_color, color(0, 255, 255, 150));
}

#[test]
fn bazaar_palette() {
    let c = LevelTheme::MoroccanBazaar.get_config();
    assert_eq!(c.wall_primary, color(205, 133, 63, 255));
    assert_eq!(c.wall_secondary, color(160, 82, 45, 255));
    assert_eq!(c.wall_accent, color(0, 128, 128, 255));
    assert_eq!(c.floor_color, color(139, 69, 19, 255));
    assert_eq!(c.ceiling_color, color(222, 184, 135, 255));
    assert_eq!(c.hud_primary, color(218, 165, 32, 255));
    assert_eq!(c.hud_secondary, color(160, 82, 45, 255));
    assert_eq!(c.hud_accent, color(0, 128, 128, 255));
    assert_eq!(c.text_primary, color(139, 69, 19, 255));
    assert_eq!(c.text_secondary, color(218, 165, 32, 255));
    assert_eq!(c.glow_color, color(255, 215, 0, 100));
    assert_eq!(c.particle_color, color(218, 165, 32, 150));
}

#[test]
fn captions() {
    assert_eq!(LevelTheme::CandyMaze.get_minimap_title(), "CANDY MAP");
    assert_eq!(LevelTheme::Cyberpunk.get_minimap_title(), "TACTICAL SCAN");
    assert_eq!(LevelTheme::MoroccanBazaar.get_minimap_title(), "BAZAAR MAP");
    assert_eq!(LevelTheme::CandyMaze.get_objective_text(), "🍭 OBJECTIVE: Find the candy exit!");
    assert_eq!(LevelTheme::Cyberpunk.get_objective_text(), "🎯 OBJECTIVE: Hack the exit portal");
    assert_eq!(
        LevelTheme::MoroccanBazaar.get_objective_text(),
        "🏺 OBJECTIVE: Escape through the archway"
    );
}

#[test]
fn enemy_colours() {
    let candy = LevelTheme::CandyMaze;
    assert_eq!(candy.get_enemy_color(&EnemyState::Patrolling), color(255, 182, 193, 255));
    assert_eq!(candy.get_enemy_color(&EnemyState::Chasing), color(255, 105, 180, 255));
    assert_eq!(candy.get_enemy_color(&EnemyState::Attacking), color(255, 20, 147, 255));
    let cyber = LevelTheme::Cyberpunk;
    assert_eq!(cyber.get_enemy_color(&EnemyState::Patrolling), color(0, 255, 255, 255));
    assert_eq!(cyber.get_enemy_color(&EnemyState::Chasing), color(255, 255, 0, 255));
    assert_eq!(cyber.get_enemy_color(&EnemyState::Attacking), color(255, 0, 255, 255));
    let bazaar = LevelTheme::MoroccanBazaar;
    assert_eq!(bazaar.get_enemy_color(&EnemyState::Patrolling), color(218, 165, 32, 255));
    assert_eq!(bazaar.get_enemy_color(&EnemyState::Chasing), color(205, 133, 63, 255));
    assert_eq!(bazaar.get_enemy_color(&EnemyState::Attacking), color(160, 82, 45, 255));
}

#[test]
fn wall_colour_is_the_product_of_two_fractions() {
    let candy = LevelTheme::CandyMaze;
    let config = candy.get_config();
    // Column 0 takes the primary colour (255, 182, 193): only a full channel
    // at full brightness reaches one.
    assert_eq!(candy.get_wall_color(&config, 1000, 0), Rgba { r: 1, g: 0, b: 0, a: 255 });
    assert_eq!(candy.get_wall_color(&config, 999, 0), Rgba { r: 0, g: 0, b: 0, a: 255 });
    // Column 8 takes the secondary colour, white.
    assert_eq!(candy.get_wall_color(&config, 1000, 8), Rgba { r: 1, g: 1, b: 1, a: 255 });
    assert_eq!(candy.get_wall_color(&config, 5000, 8), Rgba { r: 1, g: 1, b: 1, a: 255 });
    assert_eq!(candy.get_wall_color(&config, 0, 8), Rgba { r: 0, g: 0, b: 0, a: 255 });
    assert_eq!(candy.get_wall_color(&config, 1000, 16), Rgba { r: 1, g: 0, b: 0, a: 255 });
}

#[test]
fn wall_patterns_follow_the_column() {
    let cyber = LevelTheme::Cyberpunk;
    let config = cyber.get_config();
    // Every thirty-second column is the accent (255, 0, 255), the rest the
    // primary (25, 25, 50).
    assert_eq!(cyber.get_wall_color(&config, 1000, 0), Rgba { r: 1, g: 0, b: 1, a: 255 });
    assert_eq!(cyber.get_wall_color(&config, 1000, 32), Rgba { r: 1, g: 0, b: 1, a: 255 });
    assert_eq!(cyber.get_wall_color(&config, 1000, 31), Rgba { r: 0, g: 0, b: 0, a: 255 });
    let bazaar = LevelTheme::MoroccanBazaar;
    // With a palette of full channels the three bands can be told apart.
    let mut probe = bazaar.get_config();
    probe.wall_primary = color(255, 0, 0, 255);
    probe.wall_secondary = color(0, 255, 0, 255);
    probe.wall_accent = color(0, 0, 255, 255);
    assert_eq!(bazaar.get_wall_color(&probe, 1000, 0), Rgba { r: 1, g: 0, b: 0, a: 255 });
    assert_eq!(bazaar.get_wall_color(&probe, 1000, 3), Rgba { r: 1, g: 0, b: 0, a: 255 });
    assert_eq!(bazaar.get_wall_color(&probe, 1000, 4), Rgba { r: 0, g: 1, b: 0, a: 255 });
    assert_eq!(bazaar.get_wall_color(&probe, 1000, 8), Rgba { r: 0, g: 0, b: 1, a: 255 });
    assert_eq!(bazaar.get_wall_color(&probe, 1000, 12), Rgba { r: 1, g: 0, b: 0, a: 255 });
}
