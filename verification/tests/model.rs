//! Unit tests of the grid model, coordinate conversions, validation,
//! pylon pools and the level rotation.

use pillar_climbers::climber::ClimberPosition;
use pillar_climbers::data::{
    level_1, level_2, level_3, level_4, test_level_data, validate_level_data, FaceDirection,
};
use pillar_climbers::face::Position;
use pillar_climbers::level::GameLevels;
use pillar_climbers::pillar::{Pillar, PylonPools};
use pillar_climbers::spawn::spawn_level;
use pillar_climbers::TileType;

#[test]
fn ground_is_false_outside_the_grid() {
    let level = spawn_level(&level_1());
    let face = &level.faces[0];
    // 5 x 7 grid: anything at or past the bounds has no ground,
    // regardless of stored content
    assert!(!face.has_ground_on_tile(5, 0));
    assert!(!face.has_ground_on_tile(0, 7));
    assert!(!face.has_ground_on_tile(5, 7));
    assert!(!face.has_ground_on_tile(60000, 60000));
    // in range, content decides
    assert!(face.has_ground_on_tile(1, 3));
    assert!(!face.has_ground_on_tile(0, 0));
}

#[test]
fn spawned_grid_matches_the_definition() {
    let level = spawn_level(&test_level_data());
    // west face: placements applied, climber spawn tile occupied
    assert_eq!(level.faces[0].tile(0, 0), TileType::StaticRod(true));
    assert_eq!(level.faces[0].tile(1, 1), TileType::MovableRod(false));
    assert_eq!(level.faces[0].tile(3, 3), TileType::StaticRod(false));
    assert_eq!(level.faces[0].tile(4, 6), TileType::MovableRod(false));
    assert_eq!(level.faces[0].tile(2, 2), TileType::Void);
    // east face
    assert_eq!(level.faces[2].tile(0, 0), TileType::StaticRod(true));
    assert_eq!(level.faces[2].tile(2, 2), TileType::MovableRod(false));
    // north and south faces exist with all-void grids
    assert_eq!(level.faces[1].tile(0, 0), TileType::Void);
    assert_eq!(level.faces[3].tile(4, 6), TileType::Void);
    assert_eq!(level.faces.len(), 4);
    assert_eq!(level.climbers.len(), 2);
    assert_eq!(level.pylons.len(), 2);
    assert_eq!(level.completion.pylons_count, 2);
}

#[test]
fn tile_anchor_has_exact_fixed_point_coordinates() {
    let level = spawn_level(&level_1());
    // pillar at the origin, width 5: the west origin is x = -1250,
    // z = -1250; the anchor of (1,3) offsets by half a tile and the
    // climber altitude
    let face = &level.faces[0];
    let pos = face.climber_get_pos_from_tile(&ClimberPosition { face: 0, i: 1, j: 3 });
    assert_eq!(pos, Position { x: -1250 - 500, y: 3 * 500 + 225, z: -1250 + 750 });
}

#[test]
fn tile_to_world_and_back_is_the_identity() {
    let level = spawn_level(&test_level_data());
    for f in 0..4usize {
        let face = &level.faces[f];
        for i in 0..5u16 {
            for j in 0..7u16 {
                let pos = face.climber_get_pos_from_tile(&ClimberPosition { face: f, i, j });
                assert_eq!(face.get_tile_coords_from_pos(pos), (i, j));
            }
        }
    }
}

#[test]
fn horizontal_conversion_truncates_and_vertical_rounds() {
    let level = spawn_level(&level_1());
    let face = &level.faces[0];
    let anchor = face.climber_get_pos_from_tile(&ClimberPosition { face: 0, i: 2, j: 2 });
    // moving almost half a tile up still rounds back to the same row
    let above = Position { x: anchor.x, y: anchor.y + 20, z: anchor.z };
    assert_eq!(face.get_tile_coords_from_pos(above), (2, 2));
    // moving within the tile along the row keeps the column by
    // truncation toward the pillar's centre
    let ahead = Position { x: anchor.x, y: anchor.y, z: anchor.z + 240 };
    assert_eq!(face.get_tile_coords_from_pos(ahead), (2, 2));
    // below the face origin saturates to the base row
    let deep = Position { x: anchor.x, y: -10_000, z: anchor.z };
    assert_eq!(face.get_tile_coords_from_pos(deep).1, 0);
}

#[test]
fn validation_accepts_the_shipped_levels() {
    assert!(validate_level_data(&test_level_data()));
    assert!(validate_level_data(&level_1()));
    assert!(validate_level_data(&level_2()));
    assert!(validate_level_data(&level_3()));
    assert!(validate_level_data(&level_4()));
}

#[test]
fn validation_rejects_malformed_levels() {
    // empty grid
    let mut d = level_1();
    d.pillars[0].w = 0;
    assert!(!validate_level_data(&d));
    // a rod placement outside the grid
    let mut d = level_1();
    d.pillars[0].faces[0].tiles[0].i = 5;
    assert!(!validate_level_data(&d));
    // a climber spawn outside the grid
    let mut d = level_1();
    d.pillars[0].faces[0].climbers[0].tile_j = 7;
    assert!(!validate_level_data(&d));
    // two faces with the same direction
    let mut d = level_1();
    d.pillars[0].faces[1].direction = FaceDirection::West;
    assert!(!validate_level_data(&d));
    // no climbers at all
    let mut d = level_1();
    d.pillars[0].faces[0].climbers.clear();
    assert!(!validate_level_data(&d));
}

#[test]
fn opposite_directions_pair_up() {
    assert_eq!(FaceDirection::West.get_opposite(), FaceDirection::East);
    assert_eq!(FaceDirection::East.get_opposite(), FaceDirection::West);
    assert_eq!(FaceDirection::North.get_opposite(), FaceDirection::South);
    assert_eq!(FaceDirection::South.get_opposite(), FaceDirection::North);
}

#[test]
fn pylon_pools_pop_in_fixed_priority_order() {
    let mut pillar = Pillar {
        unpowered_pylons: PylonPools {
            west: vec![1],
            north: vec![4],
            east: vec![2, 3],
            south: vec![],
        },
    };
    // the pool of the climber's own direction is preferred
    assert_eq!(pillar.get_pylon_from_face(&FaceDirection::West), Some(1));
    assert_eq!(pillar.get_pylon_from_face(&FaceDirection::West), None);
    // the fallback scans east, west, south, north and takes the last
    // pooled pylon
    assert_eq!(pillar.pop_first_available_pylon(), Some(3));
    assert_eq!(pillar.pop_first_available_pylon(), Some(2));
    assert_eq!(pillar.pop_first_available_pylon(), Some(4));
    assert_eq!(pillar.pop_first_available_pylon(), None);
    assert!(!pillar.has_any_pylon());
}

#[test]
fn level_rotation_advances_and_wraps() {
    let mut levels = GameLevels::new(vec![level_1(), level_2(), level_3()]);
    assert_eq!(levels.current_level_idx, 0);
    assert_eq!(levels.get_current_level_data().name, "I");
    levels.advance_level();
    assert_eq!(levels.get_current_level_data().name, "II");
    levels.advance_level();
    assert_eq!(levels.get_current_level_data().name, "III");
    levels.advance_level();
    assert_eq!(levels.current_level_idx, 0);
    assert_eq!(levels.get_current_level_data().name, "I");
}

#[test]
fn completion_reports_won_exactly_at_the_total() {
    let c = pillar_climbers::level::LevelCompletion { pylons_count: 2, powered_pylons_count: 1 };
    assert!(!c.is_won());
    let c = pillar_climbers::level::LevelCompletion { pylons_count: 2, powered_pylons_count: 2 };
    assert!(c.is_won());
}
