//! A lidar point packed into three bytes.
//!
//! Byte 0 holds the low eight bits of the distance, byte 1 the low eight
//! bits of the direction, and byte 2 the distance's bits 8..11 in its top
//! three bits and the direction's bits 8..13 in its low five bits.
use vstd::prelude::*;

verus! {

/// The three bytes that pack a distance and a direction, as the packing
/// writes them: every bit that does not fit is dropped.
pub open spec fn zipped_bytes(len: u16, dir: u16) -> Seq<u8> {
    seq![len as u8, dir as u8, (((len >> 8u16) << 5u16) | (dir >> 8u16)) as u8]
}

/// The distance that three packed bytes hold.
pub open spec fn zipped_len(b: Seq<u8>) -> u16 {
    (((b[2] as u16) >> 5u16) << 8u16) | (b[0] as u16)
}

/// The direction that three packed bytes hold.
pub open spec fn zipped_dir(b: Seq<u8>) -> u16 {
    (((b[2] & 0x1f) as u16) << 8u16) | (b[1] as u16)
}

/// The largest distance that the packing keeps (eleven bits).
pub open spec fn zip_len_limit() -> u16 {
    0x800
}

/// The largest direction that the packing keeps (thirteen bits).
pub open spec fn zip_dir_limit() -> u16 {
    0x2000
}

/// A lidar point, compressed to three bytes.
#[derive(Clone, Copy, Debug, PartialEq, Eq)]
pub struct PointZipped(pub [u8; 3]);

impl PointZipped {
    /// Packs a distance and a direction.
    pub fn new(len: u16, dir: u16) -> (z: Self)
        ensures
            z.0@ == zipped_bytes(len, dir),
    {
        let z = PointZipped([len as u8, dir as u8, (((len >> 8) << 5) | (dir >> 8)) as u8]);
        assert(z.0@ =~= zipped_bytes(len, dir));
        z
    }

    /// The distance held by the packed bytes.
    pub fn len(&self) -> (l: u16)
        ensures
            l == zipped_len(self.0@),
    {
        ((self.0[2] as u16 >> 5) << 8) | (self.0[0] as u16)
    }

    /// The direction held by the packed bytes.
    pub fn dir(&self) -> (d: u16)
        ensures
            d == zipped_dir(self.0@),
    {
        (((self.0[2] & 0x1f) as u16) << 8) | (self.0[1] as u16)
    }
}

/// Packing keeps every distance below 2048 and every direction below 8192:
/// unpacking gives both back.
pub proof fn lemma_zip_then_unzip(len: u16, dir: u16)
    requires
        len < zip_len_limit(),
        dir < zip_dir_limit(),
    ensures
        zipped_len(zipped_bytes(len, dir)) == len,
        zipped_dir(zipped_bytes(len, dir)) == dir,
{
    let b = zipped_bytes(len, dir);
    let b0 = len as u8;
    let b1 = dir as u8;
    let b2 = (((len >> 8u16) << 5u16) | (dir >> 8u16)) as u8;
    assert(b[0] == b0 && b[1] == b1 && b[2] == b2);
    assert((((b2 as u16) >> 5u16) << 8u16) | (b0 as u16) == len) by (bit_vector)
        requires
            len < 0x800u16,
            b0 == len as u8,
            b2 == (((len >> 8u16) << 5u16) | (dir >> 8u16)) as u8,
            dir < 0x2000u16,
    ;
    assert((((b2 & 0x1f) as u16) << 8u16) | (b1 as u16) == dir) by (bit_vector)
        requires
            dir < 0x2000u16,
            b1 == dir as u8,
            b2 == (((len >> 8u16) << 5u16) | (dir >> 8u16)) as u8,
    ;
}

/// Unpacking loses nothing: packing what three bytes hold gives the same
/// three bytes back, whatever they are.
pub proof fn lemma_unzip_then_zip(b: Seq<u8>)
    requires
        b.len() == 3,
    ensures
        zipped_bytes(zipped_len(b), zipped_dir(b)) == b,
{
    let b0 = b[0];
    let b1 = b[1];
    let b2 = b[2];
    let len = zipped_len(b);
    let dir = zipped_dir(b);
    assert(len as u8 == b0 && dir as u8 == b1 && (((len >> 8u16) << 5u16) | (dir >> 8u16)) as u8
        == b2) by (bit_vector)
        requires
            len == (((b2 as u16) >> 5u16) << 8u16) | (b0 as u16),
            dir == (((b2 & 0x1f) as u16) << 8u16) | (b1 as u16),
    ;
    assert(zipped_bytes(len, dir) =~= b);
}

} // verus!
