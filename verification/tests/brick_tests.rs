use unblocked::brick::{b2s, Brick, Point};
use unblocked::consts::{BRICK_DEF_SPEED, BRICK_FALL_SPEED, BRICK_SIZE, EPSILON};
use unblocked::field::BrickKind;

#[test]
fn new_brick_rests_on_its_cell() {
    let b = Brick::new(3, 9, BrickKind::K4);
    assert_eq!(b.x, 3);
    assert_eq!(b.y, 9);
    assert_eq!(b.kind, BrickKind::K4);
    assert_eq!(b.scr_pos, Point { x: 3 * BRICK_SIZE, y: 9 * BRICK_SIZE });
    assert_eq!(b.vel, Point { x: 0, y: 0 });
    assert!(!b.is_moving());
    assert!(!b.is_moving_down());
}

#[test]
fn b2s_scales_by_cell_size() {
    assert_eq!(b2s(0, 0), Point { x: 0, y: 0 });
    assert_eq!(b2s(2, 5), Point { x: 96_000, y: 240_000 });
}

#[test]
fn motion_needs_more_than_the_tolerance() {
    let mut b = Brick::new(1, 1, BrickKind::K1);
    b.vel = Point { x: EPSILON, y: -EPSILON };
    assert!(!b.is_moving());
    b.vel = Point { x: EPSILON + 1, y: 0 };
    assert!(b.is_moving());
    assert!(!b.is_moving_down());
    b.vel = Point { x: 0, y: -EPSILON - 1 };
    assert!(b.is_moving());
    assert!(b.is_moving_down());
}

#[test]
fn fall_takes_three_ticks_for_a_cell() {
    let mut b = Brick::new(2, 10, BrickKind::K2);
    b.fall(BRICK_FALL_SPEED);
    assert!(b.is_moving());
    assert_eq!(b.vel, Point { x: 0, y: BRICK_FALL_SPEED });
    assert_eq!(b.limit, Point { x: 2 * BRICK_SIZE, y: 11 * BRICK_SIZE });
    b.update();
    assert_eq!(b.scr_pos.y, 10 * BRICK_SIZE + 16_000);
    assert_eq!(b.y, 10);
    assert!(b.is_moving());
    b.update();
    assert!(b.is_moving());
    b.update();
    assert!(!b.is_moving());
    assert_eq!(b.y, 11);
    assert_eq!(b.x, 2);
    assert_eq!(b.scr_pos, Point { x: 2 * BRICK_SIZE, y: 11 * BRICK_SIZE });
}

#[test]
fn fall_of_a_falling_brick_extends_the_limit() {
    let mut b = Brick::new(2, 10, BrickKind::K2);
    b.fall(BRICK_FALL_SPEED);
    b.update();
    b.fall(BRICK_FALL_SPEED);
    assert_eq!(b.vel, Point { x: 0, y: BRICK_FALL_SPEED });
    assert_eq!(b.limit, Point { x: 2 * BRICK_SIZE, y: 12 * BRICK_SIZE });
    for _ in 0..4 {
        b.update();
        assert!(b.is_moving());
    }
    b.update();
    assert!(!b.is_moving());
    assert_eq!(b.y, 12);
}

#[test]
fn update_never_passes_the_limit() {
    let mut b = Brick::new(5, 5, BrickKind::K3);
    b.start_moving(Point { x: -70_000, y: 0 }, b2s(4, 5));
    b.update();
    assert!(!b.is_moving());
    assert_eq!(b.scr_pos, Point { x: 4 * BRICK_SIZE, y: 5 * BRICK_SIZE });
    assert_eq!((b.x, b.y), (4, 5));
}

#[test]
fn update_leaves_a_resting_brick_alone() {
    let mut b = Brick::new(5, 5, BrickKind::K3);
    let before = b;
    b.update();
    assert_eq!(b, before);
}

#[test]
fn update_stops_only_on_the_limit() {
    let mut b = Brick::new(0, 0, BrickKind::K1);
    // one step ends fifty units short of the limit: the brick goes on
    b.start_moving(Point { x: 0, y: 47_950 }, b2s(0, 1));
    b.update();
    assert!(b.is_moving());
    assert_eq!(b.scr_pos, Point { x: 0, y: 47_950 });
    assert_eq!((b.x, b.y), (0, 0));
    b.update();
    assert!(!b.is_moving());
    assert_eq!(b.scr_pos, Point { x: 0, y: BRICK_SIZE });
    assert_eq!((b.x, b.y), (0, 1));
}

#[test]
fn update_holds_each_coordinate_at_the_limit() {
    let mut b = Brick::new(1, 14, BrickKind::K1);
    // fourteen steps of 3429 pass a cell by 6 units: the row waits for the column
    b.start_moving(Point { x: BRICK_DEF_SPEED, y: -3429 }, b2s(15, 13));
    for k in 1..14 {
        b.update();
        assert!(b.is_moving());
        assert_eq!(b.scr_pos, Point { x: (1 + k) * BRICK_SIZE, y: 14 * BRICK_SIZE - k * 3429 });
    }
    b.update();
    assert!(!b.is_moving());
    assert_eq!(b.scr_pos, Point { x: 15 * BRICK_SIZE, y: 13 * BRICK_SIZE });
    assert_eq!((b.x, b.y), (15, 13));
}

#[test]
fn update_waits_for_the_slower_coordinate() {
    let mut b = Brick::new(2, 2, BrickKind::K1);
    b.start_moving(Point { x: BRICK_SIZE, y: 12_000 }, b2s(3, 3));
    b.update();
    assert!(b.is_moving());
    assert_eq!(b.scr_pos, Point { x: 3 * BRICK_SIZE, y: 2 * BRICK_SIZE + 12_000 });
    b.update();
    b.update();
    assert!(b.is_moving());
    assert_eq!(b.scr_pos, Point { x: 3 * BRICK_SIZE, y: 2 * BRICK_SIZE + 36_000 });
    b.update();
    assert!(!b.is_moving());
    assert_eq!((b.x, b.y), (3, 3));
}

#[test]
fn stop_takes_the_cell_from_the_position() {
    let mut b = Brick::new(3, 3, BrickKind::K5);
    b.start_moving(Point { x: BRICK_DEF_SPEED, y: 0 }, b2s(6, 3));
    b.update();
    b.stop();
    assert!(!b.is_moving());
    assert_eq!((b.x, b.y), (4, 3));
    assert_eq!(b.scr_pos, Point { x: 4 * BRICK_SIZE, y: 3 * BRICK_SIZE });
}
