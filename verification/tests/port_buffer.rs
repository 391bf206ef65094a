use lidar_faselase::{Point, PortBuffer};

fn feed<const LEN: usize>(buffer: &mut PortBuffer<LEN>, bytes: &[u8]) {
    let tail = buffer.as_buf();
    assert!(bytes.len() <= tail.len());
    tail[..bytes.len()].copy_from_slice(bytes);
    buffer.notify_received(bytes.len());
}

const F999: [u8; 4] = [67, 115, 97, 225];
const F0: [u8; 4] = [16, 0, 0, 128];
const F2047: [u8; 4] = [55, 127, 108, 255];

#[test]
fn empty_buffer_yields_nothing() {
    let mut b: PortBuffer<64> = Default::default();
    assert_eq!(b.as_buf().len(), 64);
    assert_eq!(b.next(), None);
    assert_eq!(b.as_buf().len(), 64);
}

#[test]
fn yields_frames_in_order() {
    let mut b: PortBuffer<64> = Default::default();
    feed(&mut b, &F999);
    feed(&mut b, &F0);
    feed(&mut b, &F2047);
    assert_eq!(b.as_buf().len(), 52);
    assert_eq!(b.next(), Some(Point { len: 999, dir: 4321 }));
    assert_eq!(b.next(), Some(Point { len: 0, dir: 0 }));
    assert_eq!(b.next(), Some(Point { len: 2047, dir: 5759 }));
    // consuming frames frees nothing yet
    assert_eq!(b.as_buf().len(), 52);
    assert_eq!(b.next(), None);
    assert_eq!(b.as_buf().len(), 64);
}

#[test]
fn skips_bytes_until_a_frame() {
    let mut b: PortBuffer<64> = Default::default();
    feed(&mut b, &[0x80, 0x01, 225]);
    feed(&mut b, &F999);
    assert_eq!(b.next(), Some(Point { len: 999, dir: 4321 }));
    assert_eq!(b.next(), None);
}

#[test]
fn keeps_a_partial_frame_for_later() {
    let mut b: PortBuffer<64> = Default::default();
    feed(&mut b, &[1, 2, 3, 4, 5]);
    feed(&mut b, &F999[..3]);
    assert_eq!(b.next(), None);
    // the three bytes that may begin a frame move to the front
    assert_eq!(b.as_buf().len(), 61);
    feed(&mut b, &F999[3..]);
    assert_eq!(b.next(), Some(Point { len: 999, dir: 4321 }));
    assert_eq!(b.next(), None);
    assert_eq!(b.as_buf().len(), 64);
}

#[test]
fn fills_completely() {
    let mut b: PortBuffer<8> = Default::default();
    feed(&mut b, &F0);
    feed(&mut b, &F999);
    assert_eq!(b.as_buf().len(), 0);
    assert_eq!(b.next(), Some(Point { len: 0, dir: 0 }));
    assert_eq!(b.next(), Some(Point { len: 999, dir: 4321 }));
    assert_eq!(b.next(), None);
    assert_eq!(b.as_buf().len(), 8);
}

#[test]
fn record_read_counts_only_bytes() {
    let mut b: PortBuffer<64> = Default::default();
    assert!(!b.record_read(None));
    assert!(!b.record_read(Some(0)));
    assert_eq!(b.as_buf().len(), 64);
    b.as_buf()[..4].copy_from_slice(&F2047);
    assert!(b.record_read(Some(4)));
    assert_eq!(b.as_buf().len(), 60);
    assert_eq!(b.next(), Some(Point { len: 2047, dir: 5759 }));
}
