//! Decoding and buffering for a serial lidar that reports points as
//! four-byte frames, with a three-byte packing of points.
use vstd::prelude::*;

pub mod frame_collector;
pub mod point;
pub mod port_buffer;
pub mod sections;
pub mod zip;

pub use frame_collector::FrameCollector;
pub use point::Point;
pub use port_buffer::PortBuffer;
pub use sections::Sections;
pub use zip::PointZipped;

use point::{decode, frame_dir, frame_len};
use zip::{lemma_zip_then_unzip, zip_dir_limit, zip_len_limit, zipped_bytes, zipped_dir, zipped_len};

verus! {

/// Distance steps per meter.
pub const LEN_METER: u16 = 100;

/// Direction steps per revolution.
pub const DIR_ROUND: u16 = 5760;

/// Bytes of a packed point.
pub const ZIPPED_SIZE: usize = 3;

/// Packs a point into three bytes (see [`zip::zipped_bytes`]).
pub fn zip(p: Point) -> (b: [u8; ZIPPED_SIZE])
    ensures
        b@ == zipped_bytes(p.len, p.dir),
{
    let Point { len, dir } = p;
    let b = [len as u8, dir as u8, ((len >> 8 << 5) | (dir >> 8)) as u8];
    assert(b@ =~= zipped_bytes(len, dir));
    b
}

/// Unpacks the point that the first three bytes of `buf` hold.
pub fn unzip(buf: &[u8]) -> (p: Point)
    requires
        buf.len() >= ZIPPED_SIZE,
    ensures
        p.len == zipped_len(buf@),
        p.dir == zipped_dir(buf@),
{
    Point {
        len: ((buf[2] as u16 >> 5) << 8) | (buf[0] as u16),
        dir: (((buf[2] & 0x1f) as u16) << 8) | (buf[1] as u16),
    }
}

/// Every point that a frame decodes to fits the packing: its distance is
/// below 2048, its direction below 8192, and packing then unpacking gives it
/// back.
pub proof fn lemma_decoded_point_survives_zip(bits: u32)
    requires
        decode(bits) is Ok,
    ensures
        ({
            let p = decode(bits)->Ok_0;
            &&& p.len < zip_len_limit()
            &&& p.dir < zip_dir_limit()
            &&& zipped_len(zipped_bytes(p.len, p.dir)) == p.len
            &&& zipped_dir(zipped_bytes(p.len, p.dir)) == p.dir
        }),
{
    assert(((bits >> 16u32) & 0x3f) <= 63 && ((bits >> 24u32) & 0x7f) <= 127) by (bit_vector);
    let p = decode(bits)->Ok_0;
    assert(p.len == frame_len(bits) && p.dir == frame_dir(bits));
    lemma_zip_then_unzip(p.len, p.dir);
}

} // verus!
