use tellus_42::level::{LayerKind, Level, LevelError};

#[test]
fn new_level_is_blank() {
    let level = Level::new(3, 2).unwrap();
    assert_eq!((level.width, level.height, level.entity_count), (3, 2, 0));
    for layer in [LayerKind::Ground, LayerKind::Detail, LayerKind::Logic] {
        for y in 0..2 {
            for x in 0..3 {
                assert_eq!(level.tile(layer, x, y), Ok(0));
            }
        }
    }
}

#[test]
fn empty_level_is_refused() {
    let err = Level::new(0, 5).unwrap_err();
    assert_eq!(err, LevelError::EmptyLevel { width: 0, height: 5 });
    assert_eq!(err.to_string(), "level must be at least 1x1, got 0x5");
}

#[test]
fn read_after_write() {
    let mut level = Level::new(4, 3).unwrap();
    level.set_tile(LayerKind::Detail, 3, 2, 11).unwrap();
    assert_eq!(level.tile(LayerKind::Detail, 3, 2), Ok(11));
    assert_eq!(level.tile(LayerKind::Ground, 3, 2), Ok(0));
    assert_eq!(level.tile(LayerKind::Detail, 2, 2), Ok(0));
    assert_eq!(level.detail[2 * 4 + 3], 11);
}

#[test]
fn out_of_bounds_is_refused() {
    let mut level = Level::new(4, 3).unwrap();
    let err = level.set_tile(LayerKind::Logic, 4, 0, 1).unwrap_err();
    assert_eq!(err, LevelError::OutOfBounds { x: 4, y: 0, width: 4, height: 3 });
    assert_eq!(err.to_string(), "tile (4, 0) is outside the 4x3 level");
    assert!(level.tile(LayerKind::Logic, 0, 3).is_err());
}

#[test]
fn duplicate_copies_tiles() {
    let mut level = Level::new(2, 2).unwrap();
    level.set_tile(LayerKind::Ground, 1, 1, 4).unwrap();
    let copy = level.duplicate();
    level.set_tile(LayerKind::Ground, 1, 1, 5).unwrap();
    assert_eq!(copy.tile(LayerKind::Ground, 1, 1), Ok(4));
    assert_eq!(level.tile(LayerKind::Ground, 1, 1), Ok(5));
}
