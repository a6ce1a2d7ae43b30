use chess_lib::board::{Offset, Position};

fn pos(x: u8, y: u8) -> Position {
    Position::new(x, y).unwrap()
}

fn off(x: i8, y: i8) -> Offset {
    Offset::new(x, y).unwrap()
}

#[test]
fn test_offset_positive_n() {
    assert_eq!(pos(6, 6), pos(6, 5).add(off(0, 1)).unwrap());
}

#[test]
fn test_offset_positive_ne() {
    assert_eq!(pos(6, 6), pos(5, 5).add(off(1, 1)).unwrap());
}

#[test]
fn test_offset_negative_s() {
    assert_eq!(pos(6, 5), pos(6, 6).add(off(0, -1)).unwrap());
}

#[test]
fn test_offset_negative_sw() {
    assert_eq!(pos(5, 5), pos(6, 6).add(off(-1, -1)).unwrap());
}

#[test]
fn mailbox_test_offset_positive_n() {
    assert_eq!(pos(6, 6), pos(6, 5).add(off(0, 1)).unwrap());
}

#[test]
fn mailbox_test_offset_positive_ne() {
    assert_eq!(pos(6, 6), pos(5, 5).add(off(1, 1)).unwrap());
}

#[test]
fn mailbox_test_offset_negative_s() {
    assert_eq!(pos(6, 5), pos(6, 6).add(off(0, -1)).unwrap());
}

#[test]
fn mailbox_test_offset_negative_sw() {
    assert_eq!(pos(5, 5), pos(6, 6).add(off(-1, -1)).unwrap());
}

#[test]
fn mod_test_offset_positive_n() {
    assert_eq!(pos(6, 6), pos(6, 5).add(off(0, 1)).unwrap());
}

#[test]
fn mod_test_offset_positive_ne() {
    assert_eq!(pos(6, 6), pos(5, 5).add(off(1, 1)).unwrap());
}

#[test]
fn mod_test_offset_negative_s() {
    assert_eq!(pos(6, 5), pos(6, 6).add(off(0, -1)).unwrap());
}

#[test]
fn mod_test_offset_negative_sw() {
    assert_eq!(pos(5, 5), pos(6, 6).add(off(-1, -1)).unwrap());
}

#[test]
fn position_new_round_trips_in_bounds() {
    for x in 0..8u8 {
        for y in 0..8u8 {
            let p = Position::new(x, y).unwrap();
            assert_eq!(p.x(), x);
            assert_eq!(p.y(), y);
        }
    }
}

#[test]
fn position_new_rejects_out_of_bounds() {
    assert!(Position::new(3, 4).is_ok());
    assert!(Position::new(8, 2).is_err());
    assert!(Position::new(4, 8).is_err());
    assert!(Position::new(8, 8).is_err());
    assert!(Position::new(255, 0).is_err());
}

#[test]
fn offset_new_rejects_out_of_bounds() {
    assert!(Offset::new(-2, 4).is_ok());
    assert!(Offset::new(8, -2).is_err());
    assert!(Offset::new(4, -8).is_err());
    assert!(Offset::new(7, -7).is_ok());
}

#[test]
fn add_succeeds_iff_sum_stays_on_board() {
    assert_eq!(pos(0, 0).add(off(7, 7)).unwrap(), pos(7, 7));
    assert!(pos(7, 7).add(off(1, 0)).is_err());
    assert!(pos(7, 7).add(off(0, 1)).is_err());
    assert!(pos(0, 0).add(off(-1, 0)).is_err());
    assert!(pos(0, 0).add(off(0, -1)).is_err());
    assert_eq!(pos(3, 4).add(off(-3, -4)).unwrap(), pos(0, 0));
}
