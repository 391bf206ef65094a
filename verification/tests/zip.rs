use lidar_faselase::zip::PointZipped;
use lidar_faselase::{unzip, zip, Point};

#[test]
fn assert_size() {
    assert_eq!(std::mem::size_of::<[PointZipped; 7]>(), 21);
}

#[test]
fn zip_assert_assign() {
    let p0 = PointZipped::new(999, 7777);
    assert_eq!(p0.len(), 999);
    assert_eq!(p0.dir(), 7777);

    let p1 = PointZipped::new(2047, 8191);
    assert_eq!(p1.len(), 2047);
    assert_eq!(p1.dir(), 8191);
}

#[test]
fn lib_assert_assign() {
    // an arbitrary pair of values
    const P0: Point = Point { len: 999, dir: 7777 };
    assert_eq!(unzip(&zip(P0)), P0);

    // the largest values the device can report
    const P1: Point = Point { len: 2000, dir: 5759 };
    assert_eq!(unzip(&zip(P1)), P1);

    // the largest values the packing holds
    const P2: Point = Point { len: 2047, dir: 8191 };
    assert_eq!(unzip(&zip(P2)), P2);
}

#[test]
fn zip_bytes_are_exact() {
    assert_eq!(zip(Point { len: 999, dir: 7777 }), [0xe7, 0x61, (3 << 5) | 30]);
    assert_eq!(PointZipped::new(2047, 8191).0, [0xff, 0xff, 0xff]);
    assert_eq!(PointZipped::new(0, 0).0, [0, 0, 0]);
}

#[test]
fn zip_drops_bits_beyond_the_packing() {
    // a distance of 2048 needs a twelfth bit, which the packing drops
    let z = PointZipped::new(2048, 0);
    assert_eq!(z.len(), 0);
    // a direction of 8192 spills into the distance's bits
    let z = PointZipped::new(5, 8192);
    assert_eq!(z.len(), 261);
    assert_eq!(z.dir(), 0);
}

#[test]
fn unzip_then_zip_gives_the_bytes_back() {
    for b in [[0u8, 0, 0], [1, 2, 3], [0xff, 0xff, 0xff], [0x12, 0x34, 0xe5]] {
        let p = unzip(&b);
        assert_eq!(zip(p), b);
        let z = PointZipped(b);
        assert_eq!(PointZipped::new(z.len(), z.dir()).0, b);
    }
}

#[test]
fn unzip_reads_only_the_first_three_bytes() {
    let p = unzip(&[0xe7, 0x61, (3 << 5) | 30, 0x55, 0x66]);
    assert_eq!(p, Point { len: 999, dir: 7777 });
}
