use lidar_faselase::Point;
use std::convert::TryFrom;

#[test]
fn decodes_valid_frames() {
    assert_eq!(Point::try_from(0xe161_7343u32), Ok(Point { len: 999, dir: 4321 }));
    assert_eq!(Point::try_from(0x8000_0010u32), Ok(Point { len: 0, dir: 0 }));
    assert_eq!(Point::try_from(0xff6c_7f37u32), Ok(Point { len: 2047, dir: 5759 }));
    assert_eq!(Point::try_from(0xf02e_3230u32), Ok(Point { len: 100, dir: 6000 }));
    assert_eq!(Point::try_from(0x8140_0030u32), Ok(Point { len: 1, dir: 1 }));
}

#[test]
fn refuses_frames_without_the_marker() {
    // last byte's top bit clear
    assert_eq!(Point::try_from(0x6161_7343u32), Err(()));
    // a top bit set in another byte
    assert_eq!(Point::try_from(0xe161_f343u32), Err(()));
    assert_eq!(Point::try_from(0xe1e1_7343u32), Err(()));
    assert_eq!(Point::try_from(0xe161_73c3u32), Err(()));
    assert_eq!(Point::try_from(0u32), Err(()));
}

#[test]
fn refuses_frames_with_a_wrong_check() {
    assert_eq!(Point::try_from(0xe161_7353u32), Err(()));
    assert_eq!(Point::try_from(0xe161_7303u32), Err(()));
}

#[test]
fn refuses_distances_of_2048_and_more() {
    // distance 0x800 with a correct check
    assert_eq!(Point::try_from(2315255864u32), Err(()));
}

#[test]
fn decodes_through_try_into() {
    let r: Result<Point, ()> = 0xe161_7343u32.try_into();
    assert_eq!(r, Ok(Point { len: 999, dir: 4321 }));
}

#[test]
fn decoded_points_survive_packing() {
    for bits in [0xe161_7343u32, 0x8000_0010, 0xff6c_7f37, 0xf02e_3230, 0x8140_0030] {
        let p = Point::try_from(bits).unwrap();
        assert_eq!(lidar_faselase::unzip(&lidar_faselase::zip(p)), p);
    }
}
