use lidar_faselase::sections::needs_filter;
use lidar_faselase::{Point, Sections};

fn p(len: u16, dir: u16) -> Point {
    Point { len, dir }
}

#[test]
fn hands_out_a_section_when_the_direction_leaves_it() {
    // 8 sections of 720 steps
    let mut s = Sections::new(8);
    assert_eq!(s.push(p(10, 0)), None);
    assert_eq!(s.push(p(11, 719)), None);
    assert_eq!(s.push(p(12, 720)), Some(vec![p(10, 0), p(11, 719)]));
    assert_eq!(s.push(p(13, 1439)), None);
    assert_eq!(s.push(p(14, 5759)), Some(vec![p(12, 720), p(13, 1439)]));
    assert_eq!(s.push(p(15, 3)), Some(vec![p(14, 5759)]));
}

#[test]
fn drops_points_without_distance() {
    let mut s = Sections::new(8);
    assert_eq!(s.push(p(0, 1)), None);
    assert_eq!(s.push(p(5, 2)), None);
    assert_eq!(s.push(p(0, 800)), Some(vec![p(5, 2)]));
    // a point without distance still starts its section
    assert_eq!(s.push(p(7, 1500)), Some(vec![]));
}

#[test]
fn first_points_outside_section_zero_hand_out_an_empty_section() {
    let mut s = Sections::new(4);
    assert_eq!(s.push(p(3, 1440)), Some(vec![]));
    assert_eq!(s.push(p(4, 0)), Some(vec![p(3, 1440)]));
}

#[test]
fn accept_applies_the_filter_verdict() {
    let mut s = Sections::new(8);
    assert_eq!(s.accept(p(10, 0), true), None);
    assert_eq!(s.accept(p(11, 1), false), None);
    // beyond one revolution: dropped, no section change
    assert_eq!(s.accept(p(12, 5760), true), None);
    assert_eq!(s.accept(p(13, 8000), true), None);
    assert_eq!(s.accept(p(14, 720), true), Some(vec![p(10, 0)]));
}

#[test]
fn needs_filter_only_for_samples_with_distance() {
    assert!(needs_filter(p(1, 0)));
    assert!(needs_filter(p(1, 5759)));
    assert!(!needs_filter(p(0, 10)));
    assert!(!needs_filter(p(1, 5760)));
}
