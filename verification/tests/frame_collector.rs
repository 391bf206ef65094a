use lidar_faselase::{FrameCollector, Point};

#[test]
fn new_collector_writes_an_empty_frame() {
    let c = FrameCollector::new();
    let mut buf = vec![9u8];
    c.write_to(&mut buf);
    assert_eq!(buf, vec![9, 0, 0]);
}

#[test]
fn put_adds_empty_sections_before() {
    let mut c = FrameCollector::new();
    c.put(2, vec![Point { len: 999, dir: 7777 }], vec![(1, -2)]);
    assert_eq!(c.sections.len(), 3);
    assert!(c.sections[0].0.is_empty() && c.sections[0].1.is_empty());
    assert!(c.sections[1].0.is_empty());
    assert_eq!(c.sections[2].0.len(), 1);
    assert_eq!(c.sections[2].0[0].0, [0xe7, 0x61, (3 << 5) | 30]);
    assert_eq!(c.sections[2].1, vec![(1, -2)]);
}

#[test]
fn write_to_counts_and_packs_all_points() {
    let mut c = FrameCollector::new();
    c.put(1, vec![Point { len: 1, dir: 2 }, Point { len: 0x7ff, dir: 0x1fff }], vec![]);
    c.put(0, vec![Point { len: 0x100, dir: 0x100 }], vec![]);
    let mut buf = Vec::new();
    c.write_to(&mut buf);
    assert_eq!(buf, vec![3, 0, 0, 0, 0x21, 1, 2, 0, 0xff, 0xff, 0xff]);
}

#[test]
fn put_replaces_a_section_and_clear_drops_all() {
    let mut c = FrameCollector::new();
    c.put(0, vec![Point { len: 1, dir: 1 }, Point { len: 2, dir: 2 }], vec![]);
    c.put(0, vec![Point { len: 3, dir: 3 }], vec![(3, 3)]);
    assert_eq!(c.sections.len(), 1);
    let mut buf = Vec::new();
    c.write_to(&mut buf);
    assert_eq!(buf, vec![1, 0, 3, 3, 0]);
    c.clear();
    assert!(c.sections.is_empty());
}

#[test]
fn frame_gives_back_the_points_put() {
    let pts0 = vec![Point { len: 999, dir: 7777 }, Point { len: 2047, dir: 8191 }];
    let pts2 = vec![Point { len: 12, dir: 5000 }];
    let mut c = FrameCollector::new();
    c.put(0, pts0.clone(), vec![]);
    c.put(2, pts2.clone(), vec![]);
    let mut buf = Vec::new();
    c.write_to(&mut buf);
    assert_eq!(u16::from_le_bytes([buf[0], buf[1]]), 3);
    let read: Vec<Point> = buf[2..].chunks(3).map(lidar_faselase::unzip).collect();
    assert_eq!(read, vec![pts0[0], pts0[1], pts2[0]]);
}
