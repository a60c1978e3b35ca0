use pitch_trail::mosaic::{refresh_due, tile_center, tile_place, Mosaic};

#[test]
fn new_mosaic_lights_the_first_tile() {
    let mosaic = Mosaic::new();
    assert_eq!(mosaic.lit(), [0u8; 16]);
    assert!(mosaic.is_lit(0));
    assert!(!mosaic.is_lit(1));
}

#[test]
fn refresh_is_due_every_tenth_frame() {
    assert!(refresh_due(0));
    assert!(refresh_due(10));
    assert!(refresh_due(1230));
    assert!(!refresh_due(1));
    assert!(!refresh_due(9));
    assert!(!refresh_due(11));
}

#[test]
fn drawn_tiles_are_on_the_grid() {
    for _ in 0..200 {
        for tile in Mosaic::draw() {
            assert!(tile < 144);
        }
    }
}

#[test]
fn draws_differ() {
    let first = Mosaic::draw();
    let mut differs = false;
    for _ in 0..50 {
        if Mosaic::draw() != first {
            differs = true;
        }
    }
    assert!(differs);
}

#[test]
fn update_keeps_tiles_between_refreshes() {
    let mut mosaic = Mosaic::new();
    assert!(mosaic.accept([3, 1, 4, 1, 5, 9, 2, 6, 5, 3, 5, 8, 9, 7, 9, 143]));
    for frame in 1..10 {
        mosaic.update(frame);
        assert_eq!(mosaic.lit(), [3, 1, 4, 1, 5, 9, 2, 6, 5, 3, 5, 8, 9, 7, 9, 143]);
    }
    mosaic.update(10);
    for tile in mosaic.lit() {
        assert!(tile < 144);
    }
}

#[test]
fn accept_refuses_tiles_off_the_grid() {
    let mut mosaic = Mosaic::new();
    assert!(!mosaic.accept([0, 0, 0, 0, 0, 0, 0, 0, 0, 0, 0, 0, 0, 0, 0, 144]));
    assert_eq!(mosaic.lit(), [0u8; 16]);
    assert!(mosaic.accept([143; 16]));
    assert!(mosaic.is_lit(143));
    assert!(!mosaic.is_lit(0));
}

#[test]
fn tiles_are_laid_out_row_by_row() {
    assert_eq!(tile_place(0), (0, 0));
    assert_eq!(tile_place(15), (15, 0));
    assert_eq!(tile_place(16), (0, 1));
    assert_eq!(tile_place(143), (15, 8));
    assert_eq!(tile_center(0, 0), (-1200, -640));
    assert_eq!(tile_center(15, 8), (1200, 640));
    assert_eq!(tile_center(8, 4), (80, 0));
}
