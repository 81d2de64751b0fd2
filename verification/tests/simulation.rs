//! End-to-end simulation scenarios: full climbs, rod toggles under a
//! climber, falls to the ground plane, and the win/loss transitions.

use pillar_climbers::climber::ClimberState;
use pillar_climbers::data::{
    validate_level_data, ClimberData, FaceData, FaceDirection, LevelData, PillarData, TileData,
    TileDataType,
};
use pillar_climbers::level::{Level, SimError};
use pillar_climbers::spawn::spawn_level;
use pillar_climbers::GameState;
use pillar_climbers::TileType;

fn tick_all(level: &mut Level) -> Vec<pillar_climbers::climber::ClimberEvent> {
    let motions = vec![true; level.climbers.len()];
    level.update_climbers(&motions).expect("pylon pool exhausted")
}

fn small_movable_level() -> LevelData {
    LevelData {
        name: "one movable rod".to_string(),
        pillars: vec![PillarData {
            w: 3,
            h: 3,
            x: 0,
            z: 0,
            faces: vec![FaceData {
                direction: FaceDirection::West,
                tiles: vec![TileData { i: 1, j: 1, kind: TileDataType::MovableRod }],
                climbers: vec![ClimberData { tile_i: 1, tile_j: 1 }],
            }],
        }],
    }
}

#[test]
fn full_climb_to_the_top_wins() {
    let data = pillar_climbers::data::level_1();
    assert!(validate_level_data(&data));
    let mut level = spawn_level(&data);
    assert_eq!(level.completion.pylons_count, 1);
    assert_eq!(level.completion.powered_pylons_count, 0);
    assert_eq!(level.phase, GameState::Playing);
    assert_eq!(level.rods.len(), 2);

    // bring the two east movable rods over to the west face
    assert!(level.activate_rod(0));
    level.rod_motion_completed(0);
    assert!(level.activate_rod(1));
    level.rod_motion_completed(1);

    // the climber walks (1,3) -> (2,4) -> (3,5) -> (4,6) and is saved
    let mut events = Vec::new();
    events.extend(tick_all(&mut level));
    assert!(matches!(
        level.climbers[0].state,
        ClimberState::Moving { to_tile } if to_tile.i == 2 && to_tile.j == 4
    ));
    events.extend(tick_all(&mut level));
    assert!(matches!(
        level.climbers[0].state,
        ClimberState::Waiting { on_tile } if on_tile.i == 2 && on_tile.j == 4
    ));
    events.extend(tick_all(&mut level));
    assert!(matches!(
        level.climbers[0].state,
        ClimberState::Moving { to_tile } if to_tile.i == 3 && to_tile.j == 5
    ));
    events.extend(tick_all(&mut level));
    events.extend(tick_all(&mut level));
    assert!(matches!(
        level.climbers[0].state,
        ClimberState::Moving { to_tile } if to_tile.i == 4 && to_tile.j == 6
    ));
    assert_eq!(level.phase, GameState::Playing);
    events.extend(tick_all(&mut level));
    assert!(matches!(level.climbers[0].state, ClimberState::Saved));
    assert_eq!(events.len(), 1, "exactly one reached-top event");
    assert_eq!(level.completion.powered_pylons_count, 1);
    assert_eq!(level.phase, GameState::Won, "won exactly when the last pylon powers");
    assert!(level.pylons[0].powered);
}

#[test]
fn toggling_rod_under_climber_makes_it_fall() {
    let data = small_movable_level();
    assert!(validate_level_data(&data));
    let mut level = spawn_level(&data);
    // west is face 0; the climber rests on the movable rod at (1,1)
    assert_eq!(level.rods.len(), 1);
    assert_eq!(level.rods[0].face, 0);
    assert!(level.faces[0].has_ground_on_tile(1, 1));

    assert!(level.activate_rod(0));
    level.rod_motion_completed(0);
    assert!(!level.faces[0].has_ground_on_tile(1, 1));

    // the next tick puts the climber into Falling, never directly into
    // Dead or Saved
    tick_all(&mut level);
    assert!(matches!(level.climbers[0].state, ClimberState::Falling { on_face: 0 }));
    assert_eq!(level.phase, GameState::Playing);
}

#[test]
fn falling_to_the_ground_plane_loses_once() {
    let data = small_movable_level();
    let mut level = spawn_level(&data);
    assert!(level.activate_rod(0));
    level.rod_motion_completed(0);
    tick_all(&mut level);
    assert!(matches!(level.climbers[0].state, ClimberState::Falling { .. }));

    let mut transitions_to_dead: u32 = 0;
    for _ in 0..40 {
        let was_dead = matches!(level.climbers[0].state, ClimberState::Dead);
        tick_all(&mut level);
        let is_dead = matches!(level.climbers[0].state, ClimberState::Dead);
        if is_dead && !was_dead {
            transitions_to_dead += 1;
            assert_eq!(level.phase, GameState::Lost);
        }
    }
    assert!(matches!(level.climbers[0].state, ClimberState::Dead));
    assert_eq!(transitions_to_dead, 1, "the loss is signalled exactly once");
    assert_eq!(level.phase, GameState::Lost);
    // terminal: further ticks change nothing
    let y = level.climbers[0].position.y;
    tick_all(&mut level);
    assert!(matches!(level.climbers[0].state, ClimberState::Dead));
    assert_eq!(level.climbers[0].position.y, y);
}

#[test]
fn forward_diagonal_preferred_over_backward() {
    let data = LevelData {
        name: "tie break".to_string(),
        pillars: vec![PillarData {
            w: 3,
            h: 2,
            x: 0,
            z: 0,
            faces: vec![FaceData {
                direction: FaceDirection::West,
                tiles: vec![
                    TileData { i: 1, j: 0, kind: TileDataType::StaticRod },
                    TileData { i: 0, j: 1, kind: TileDataType::StaticRod },
                    TileData { i: 2, j: 1, kind: TileDataType::StaticRod },
                ],
                climbers: vec![ClimberData { tile_i: 1, tile_j: 0 }],
            }],
        }],
    };
    assert!(validate_level_data(&data));
    let mut level = spawn_level(&data);
    // both (0,1) and (2,1) have ground; the increasing column wins
    assert!(level.faces[0].has_ground_on_tile(0, 1));
    assert!(level.faces[0].has_ground_on_tile(2, 1));
    tick_all(&mut level);
    assert!(matches!(
        level.climbers[0].state,
        ClimberState::Moving { to_tile } if to_tile.i == 2 && to_tile.j == 1
    ));
}

#[test]
fn win_happens_exactly_when_powered_reaches_total() {
    let data = LevelData {
        name: "short climb".to_string(),
        pillars: vec![PillarData {
            w: 3,
            h: 2,
            x: 0,
            z: 0,
            faces: vec![FaceData {
                direction: FaceDirection::West,
                tiles: vec![
                    TileData { i: 0, j: 0, kind: TileDataType::StaticRod },
                    TileData { i: 1, j: 1, kind: TileDataType::StaticRod },
                ],
                climbers: vec![ClimberData { tile_i: 0, tile_j: 0 }],
            }],
        }],
    };
    let mut level = spawn_level(&data);
    assert_eq!(level.completion.pylons_count, 1);
    tick_all(&mut level);
    assert_eq!(level.phase, GameState::Playing);
    assert!(level.completion.powered_pylons_count < level.completion.pylons_count);
    let events = tick_all(&mut level);
    assert_eq!(events.len(), 1);
    assert!(matches!(level.climbers[0].state, ClimberState::Saved));
    assert_eq!(level.completion.powered_pylons_count, level.completion.pylons_count);
    assert_eq!(level.phase, GameState::Won);
}

#[test]
fn pylon_exhaustion_is_reported() {
    let data = LevelData {
        name: "missing pylon".to_string(),
        pillars: vec![PillarData {
            w: 3,
            h: 2,
            x: 0,
            z: 0,
            faces: vec![FaceData {
                direction: FaceDirection::West,
                tiles: vec![
                    TileData { i: 0, j: 0, kind: TileDataType::StaticRod },
                    TileData { i: 1, j: 1, kind: TileDataType::StaticRod },
                ],
                climbers: vec![ClimberData { tile_i: 0, tile_j: 0 }],
            }],
        }],
    };
    let mut level = spawn_level(&data);
    // drain the only pylon to simulate malformed level data
    assert_eq!(level.pillars[0].pop_first_available_pylon(), Some(0));
    tick_all(&mut level);
    let motions = vec![true; level.climbers.len()];
    assert_eq!(level.update_climbers(&motions), Err(SimError::PylonsExhausted));
}

#[test]
fn rod_toggle_round_trip_restores_tiles_and_rod() {
    let mut level = spawn_level(&small_movable_level());
    // the climber occupies the rod tile; free it to get a clean
    // round trip of the unoccupied rod state
    let cp = pillar_climbers::climber::ClimberPosition { face: 0, i: 1, j: 1 };
    level.faces[0].set_free(&cp);
    assert_eq!(level.faces[0].tile(1, 1), TileType::MovableRod(false));
    assert_eq!(level.faces[2].tile(1, 1), TileType::Void);
    let rod0 = level.rods[0];

    assert!(level.activate_rod(0));
    assert_eq!(level.faces[0].tile(1, 1), TileType::Void);
    assert_eq!(level.faces[2].tile(1, 1), TileType::MovableRod(false));
    // re-activation while in flight is ignored, not queued
    assert!(!level.activate_rod(0));
    assert_eq!(level.faces[2].tile(1, 1), TileType::MovableRod(false));
    level.rod_motion_completed(0);

    assert!(level.activate_rod(0));
    level.rod_motion_completed(0);
    assert_eq!(level.faces[0].tile(1, 1), TileType::MovableRod(false));
    assert_eq!(level.faces[2].tile(1, 1), TileType::Void);
    assert_eq!(level.rods[0], rod0);
}

#[test]
fn saved_and_dead_climbers_stay_terminal() {
    let data = pillar_climbers::data::level_1();
    let mut level = spawn_level(&data);
    assert!(level.activate_rod(0));
    level.rod_motion_completed(0);
    assert!(level.activate_rod(1));
    level.rod_motion_completed(1);
    for _ in 0..6 {
        tick_all(&mut level);
    }
    assert!(matches!(level.climbers[0].state, ClimberState::Saved));
    let powered = level.completion.powered_pylons_count;
    for _ in 0..5 {
        let events = tick_all(&mut level);
        assert!(events.is_empty());
    }
    assert!(matches!(level.climbers[0].state, ClimberState::Saved));
    assert_eq!(level.completion.powered_pylons_count, powered);
}

#[test]
fn climbers_with_no_path_stay_waiting() {
    let data = pillar_climbers::data::level_2();
    assert!(validate_level_data(&data));
    let mut level = spawn_level(&data);
    assert_eq!(level.climbers.len(), 2);
    // neither climber can reach a diagonal with ground until a rod moves
    for _ in 0..5 {
        let events = tick_all(&mut level);
        assert!(events.is_empty());
    }
    assert!(matches!(
        level.climbers[0].state,
        ClimberState::Waiting { on_tile } if on_tile.i == 1 && on_tile.j == 3
    ));
    assert!(matches!(
        level.climbers[1].state,
        ClimberState::Waiting { on_tile } if on_tile.i == 2 && on_tile.j == 4
    ));
    assert_eq!(level.phase, GameState::Playing);
}

#[test]
fn falling_climber_lands_on_a_rod_below() {
    let data = LevelData {
        name: "landing".to_string(),
        pillars: vec![PillarData {
            w: 3,
            h: 3,
            x: 0,
            z: 0,
            faces: vec![FaceData {
                direction: FaceDirection::West,
                tiles: vec![
                    TileData { i: 1, j: 1, kind: TileDataType::StaticRod },
                    TileData { i: 1, j: 2, kind: TileDataType::MovableRod },
                ],
                climbers: vec![ClimberData { tile_i: 1, tile_j: 2 }],
            }],
        }],
    };
    assert!(validate_level_data(&data));
    let mut level = spawn_level(&data);
    assert_eq!(level.rods.len(), 1);
    assert!(level.activate_rod(0));
    level.rod_motion_completed(0);

    tick_all(&mut level);
    assert!(matches!(level.climbers[0].state, ClimberState::Falling { on_face: 0 }));
    // the anchor of (1,2) is 500 above the anchor of (1,1): ten fall
    // steps bring the climber into row 1, where it lands and snaps
    for _ in 0..10 {
        tick_all(&mut level);
    }
    assert!(matches!(
        level.climbers[0].state,
        ClimberState::Waiting { on_tile } if on_tile.i == 1 && on_tile.j == 1
    ));
    assert_eq!(level.faces[0].tile(1, 1), TileType::StaticRod(true));
    let expected = level.faces[0].climber_get_pos_from_tile(
        &pillar_climbers::climber::ClimberPosition { face: 0, i: 1, j: 1 },
    );
    assert_eq!(level.climbers[0].position, expected);
    assert_eq!(level.phase, GameState::Playing);
}

#[test]
fn two_climbers_never_claim_the_same_tile() {
    // both climbers could reach (1,1): the first one takes it and marks
    // it occupied, so the second one's search skips it and it stays put
    let data = LevelData {
        name: "shared candidate".to_string(),
        pillars: vec![PillarData {
            w: 3,
            h: 3,
            x: 0,
            z: 0,
            faces: vec![FaceData {
                direction: FaceDirection::West,
                tiles: vec![
                    TileData { i: 0, j: 0, kind: TileDataType::StaticRod },
                    TileData { i: 2, j: 0, kind: TileDataType::StaticRod },
                    TileData { i: 1, j: 1, kind: TileDataType::StaticRod },
                ],
                climbers: vec![
                    ClimberData { tile_i: 0, tile_j: 0 },
                    ClimberData { tile_i: 2, tile_j: 0 },
                ],
            }],
        }],
    };
    assert!(validate_level_data(&data));
    let mut level = spawn_level(&data);
    tick_all(&mut level);
    assert!(matches!(
        level.climbers[0].state,
        ClimberState::Moving { to_tile } if to_tile.i == 1 && to_tile.j == 1
    ));
    assert!(matches!(
        level.climbers[1].state,
        ClimberState::Waiting { on_tile } if on_tile.i == 2 && on_tile.j == 0
    ));
    // the tile stays occupied while the first climber moves onto it, so
    // the second climber keeps waiting every round
    tick_all(&mut level);
    tick_all(&mut level);
    assert!(matches!(
        level.climbers[0].state,
        ClimberState::Waiting { on_tile } if on_tile.i == 1 && on_tile.j == 1
    ));
    assert!(matches!(
        level.climbers[1].state,
        ClimberState::Waiting { on_tile } if on_tile.i == 2 && on_tile.j == 0
    ));
}

#[test]
fn spawning_on_a_duplicate_tile_is_rejected() {
    let mut data = small_movable_level();
    data.pillars[0].faces[0]
        .climbers
        .push(ClimberData { tile_i: 1, tile_j: 1 });
    assert!(!validate_level_data(&data));
}
