//! A lidar point and its four-byte wire frame.
//!
//! The device sends each point as a 32-bit little-endian word:
//!
//! | bits   | meaning                                              |
//! |--------|------------------------------------------------------|
//! | 0..4   | distance bits 8..12                                  |
//! | 4..7   | check: number of set bits in bytes 1..4, modulo 8    |
//! | 7      | always 0                                             |
//! | 8..15  | distance bits 1..8                                   |
//! | 15     | always 0                                             |
//! | 16..22 | direction bits 7..13                                 |
//! | 22     | distance bit 0                                       |
//! | 23     | always 0                                             |
//! | 24..31 | direction bits 0..7                                  |
//! | 31     | always 1: marks the frame's last byte                |
use vstd::prelude::*;

verus! {

/// A point reported by the lidar: a distance and a direction.
#[derive(Clone, Copy, Debug, PartialEq, Eq, Structural)]
pub struct Point {
    pub len: u16,
    pub dir: u16,
}

/// The number of set bits of a byte.
pub open spec fn popcount(b: u8) -> nat {
    ((b & 1) + ((b >> 1u8) & 1) + ((b >> 2u8) & 1) + ((b >> 3u8) & 1) + ((b >> 4u8) & 1) + ((b
        >> 5u8) & 1) + ((b >> 6u8) & 1) + ((b >> 7u8) & 1)) as nat
}

/// Byte `i` (0 is the least significant) of a word.
pub open spec fn byte_of(bits: u32, i: u32) -> u8 {
    ((bits >> (8 * i) as u32) & 0xff) as u8
}

/// The frame's fixed bits hold: the top bit of the last byte is set and the
/// top bits of the other three bytes are clear.
pub open spec fn frame_marker_ok(bits: u32) -> bool {
    bits & 0x8080_8080 == 0x8000_0000
}

/// The check value that the frame carries.
pub open spec fn stored_check(bits: u32) -> nat {
    ((bits >> 4u32) & 0x7) as nat
}

/// The check value computed from the frame: the number of set bits of
/// bytes 1, 2 and 3, modulo 8.
pub open spec fn computed_check(bits: u32) -> nat {
    (popcount(byte_of(bits, 1)) + popcount(byte_of(bits, 2)) + popcount(byte_of(bits, 3))) % 8
}

/// The distance that a frame carries.
pub open spec fn frame_len(bits: u32) -> int {
    (bits & 0xf) * 256 + ((bits >> 8u32) & 0x7f) * 2 + ((bits >> 22u32) & 1)
}

/// The direction that a frame carries.
pub open spec fn frame_dir(bits: u32) -> int {
    ((bits >> 16u32) & 0x3f) * 128 + ((bits >> 24u32) & 0x7f)
}

/// What a frame decodes to: a point where the fixed bits, the check and the
/// distance bound (below 2048) all hold, an error otherwise.
pub open spec fn decode(bits: u32) -> Result<Point, ()> {
    if frame_marker_ok(bits) && computed_check(bits) == stored_check(bits) && frame_len(bits)
        < 0x800 {
        Ok(Point { len: frame_len(bits) as u16, dir: frame_dir(bits) as u16 })
    } else {
        Err(())
    }
}

/// The number of set bits of a byte.
fn bit_count(b: u8) -> (n: u8)
    ensures
        n == popcount(b),
        n <= 8,
{
    assert((b & 1) <= 1 && ((b >> 1u8) & 1) <= 1 && ((b >> 2u8) & 1) <= 1 && ((b >> 3u8) & 1) <= 1
        && ((b >> 4u8) & 1) <= 1 && ((b >> 5u8) & 1) <= 1 && ((b >> 6u8) & 1) <= 1 && ((b >> 7u8)
        & 1) <= 1) by (bit_vector);
    (b & 1) + ((b >> 1) & 1) + ((b >> 2) & 1) + ((b >> 3) & 1) + ((b >> 4) & 1) + ((b >> 5) & 1)
        + ((b >> 6) & 1) + ((b >> 7) & 1)
}

impl TryFrom<u32> for Point {
    type Error = ();

    /// Decodes one frame; see [`decode`].
    fn try_from(bits: u32) -> (r: Result<Self, Self::Error>)
        ensures
            r == decode(bits),
    {
        if (bits & 0x8080_8080) != 0x8000_0000 {
            return Err(());
        }
        let l2: u16 = (bits & 0xf) as u16;
        let cb: u8 = ((bits >> 4) & 0x7) as u8;
        let l1: u16 = ((bits >> 8) & 0x7f) as u16;
        let d1: u16 = ((bits >> 16) & 0x3f) as u16;
        let l0: u16 = ((bits >> 22) & 1) as u16;
        let d0: u16 = ((bits >> 24) & 0x7f) as u16;
        let b1: u8 = (bits >> 8) as u8;
        let b2: u8 = (bits >> 16) as u8;
        let b3: u8 = (bits >> 24) as u8;
        proof {
            assert(b1 == byte_of(bits, 1) && b2 == byte_of(bits, 2) && b3 == byte_of(bits, 3)) by {
                assert(b1 == ((bits >> 8u32) & 0xff) as u8 && b2 == ((bits >> 16u32) & 0xff) as u8
                    && b3 == ((bits >> 24u32) & 0xff) as u8) by (bit_vector)
                    requires
                        b1 == (bits >> 8u32) as u8,
                        b2 == (bits >> 16u32) as u8,
                        b3 == (bits >> 24u32) as u8,
                ;
            }
            assert(l2 == (bits & 0xf) && l2 < 16 && cb == ((bits >> 4u32) & 0x7) && l1 == ((bits
                >> 8u32) & 0x7f) && l1 < 128 && d1 == ((bits >> 16u32) & 0x3f) && d1 < 64 && l0 == ((
            bits >> 22u32) & 1) && l0 < 2 && d0 == ((bits >> 24u32) & 0x7f) && d0 < 128)
                by (bit_vector)
                requires
                    l2 == (bits & 0xf) as u16,
                    cb == ((bits >> 4u32) & 0x7) as u8,
                    l1 == ((bits >> 8u32) & 0x7f) as u16,
                    d1 == ((bits >> 16u32) & 0x3f) as u16,
                    l0 == ((bits >> 22u32) & 1) as u16,
                    d0 == ((bits >> 24u32) & 0x7f) as u16,
            ;
        }
        let sum: u8 = bit_count(b1) + bit_count(b2) + bit_count(b3);
        assert(sum & 0x7 == sum % 8) by (bit_vector);
        if sum & 0x7 == cb {
            let len: u16 = (l2 << 8) | (l1 << 1) | l0;
            let dir: u16 = (d1 << 7) | d0;
            assert(len == l2 * 256 + l1 * 2 + l0 && dir == d1 * 128 + d0) by (bit_vector)
                requires
                    l2 < 16,
                    l1 < 128,
                    l0 < 2,
                    d1 < 64,
                    d0 < 128,
                    len == (l2 << 8u16) | (l1 << 1u16) | l0,
                    dir == (d1 << 7u16) | d0,
            ;
            if len < 0x800 {
                Ok(Point { len, dir })
            } else {
                Err(())
            }
        } else {
            Err(())
        }
    }
}

impl vstd::std_specs::convert::TryFromSpecImpl<u32> for Point {
    open spec fn obeys_try_from_spec() -> bool {
        true
    }

    open spec fn try_from_spec(v: u32) -> Result<Self, Self::Error> {
        decode(v)
    }
}

/// The frame layout, read with arithmetic: a word whose fields hold a
/// distance below 2048 and a direction below 8192 where the table above puts
/// them decodes, if at all, to that distance and direction; its fixed bits
/// are bits 7, 15 and 23 clear and bit 31 set; its check is bits 4..7.
pub proof fn lemma_frame_layout(w: u32, len: u16, dir: u16)
    requires
        len < 2048,
        dir < 8192,
        w % 16 == len / 256,
        (w / 0x100) % 128 == (len / 2) % 128,
        (w / 0x40_0000) % 2 == len % 2,
        (w / 0x1_0000) % 64 == dir / 128,
        (w / 0x100_0000) % 128 == dir % 128,
    ensures
        decode(w) is Ok ==> decode(w) == Ok::<Point, ()>(Point { len, dir }),
        frame_marker_ok(w) <==> (w / 0x8000_0000 == 1 && (w / 0x80) % 2 == 0 && (w / 0x8000) % 2
            == 0 && (w / 0x80_0000) % 2 == 0),
        stored_check(w) == (w / 16) % 8,
        frame_marker_ok(w) && computed_check(w) == stored_check(w) ==> decode(w) == Ok::<
            Point,
            (),
        >(Point { len, dir }),
{
    assert(w & 0xf == w % 16 && (w >> 8u32) & 0x7f == (w / 0x100) % 128 && (w >> 22u32) & 1 == (w
        / 0x40_0000) % 2 && (w >> 16u32) & 0x3f == (w / 0x1_0000) % 64 && (w >> 24u32) & 0x7f == (w
        / 0x100_0000) % 128 && (w >> 4u32) & 0x7 == (w / 16) % 8) by (bit_vector);
    assert((w & 0x8080_8080 == 0x8000_0000) <==> (w / 0x8000_0000 == 1 && (w / 0x80) % 2 == 0 && (w
        / 0x8000) % 2 == 0 && (w / 0x80_0000) % 2 == 0)) by (bit_vector);
    assert(len == (len / 256) * 256 + ((len / 2) % 128) * 2 + len % 2) by (bit_vector)
        requires
            len < 2048,
    ;
    assert(dir == (dir / 128) * 128 + dir % 128) by (bit_vector);
}

/// The number of set bits, read with arithmetic: the sum over the eight
/// bit positions of the bit there.
pub proof fn lemma_popcount_counts_bits(b: u8)
    ensures
        popcount(b) == b % 2 + (b / 2) % 2 + (b / 4) % 2 + (b / 8) % 2 + (b / 16) % 2 + (b / 32) % 2
            + (b / 64) % 2 + (b / 128) % 2,
{
    assert((b & 1) == b % 2 && ((b >> 1u8) & 1) == (b / 2) % 2 && ((b >> 2u8) & 1) == (b / 4) % 2
        && ((b >> 3u8) & 1) == (b / 8) % 2 && ((b >> 4u8) & 1) == (b / 16) % 2 && ((b >> 5u8) & 1)
        == (b / 32) % 2 && ((b >> 6u8) & 1) == (b / 64) % 2 && ((b >> 7u8) & 1) == (b / 128) % 2)
        by (bit_vector);
}

/// Bytes 1, 2 and 3 of a word, read with arithmetic.
pub proof fn lemma_byte_of_arith(w: u32)
    ensures
        byte_of(w, 1) == (w / 0x100) % 0x100,
        byte_of(w, 2) == (w / 0x1_0000) % 0x100,
        byte_of(w, 3) == w / 0x100_0000,
{
    assert(((w >> 8u32) & 0xff) == (w / 0x100) % 0x100 && ((w >> 16u32) & 0xff) == (w / 0x1_0000)
        % 0x100 && ((w >> 24u32) & 0xff) == w / 0x100_0000) by (bit_vector);
}

/// The check catches every single flipped bit in bytes 1 to 3: where a
/// frame decodes, the same frame with any one of bits 8 to 31 flipped does
/// not.
pub proof fn lemma_check_catches_single_bit_errors(w: u32, k: u32)
    requires
        decode(w) is Ok,
        8 <= k < 32,
    ensures
        decode(w ^ (1u32 << k)) is Err,
{
    let v = w ^ (1u32 << k);
    let bw1 = byte_of(w, 1);
    let bw2 = byte_of(w, 2);
    let bw3 = byte_of(w, 3);
    let bv1 = byte_of(v, 1);
    let bv2 = byte_of(v, 2);
    let bv3 = byte_of(v, 3);
    assert(((bits_in(bv1) + bits_in(bv2) + bits_in(bv3)) == (bits_in(bw1) + bits_in(bw2) + bits_in(
        bw3)) + 1) || ((bits_in(bv1) + bits_in(bv2) + bits_in(bv3)) + 1 == (bits_in(bw1) + bits_in(
        bw2) + bits_in(bw3)))) by (bit_vector)
        requires
            8 <= k < 32,
            v == w ^ (1u32 << k),
            bw1 == ((w >> 8u32) & 0xff) as u8,
            bw2 == ((w >> 16u32) & 0xff) as u8,
            bw3 == ((w >> 24u32) & 0xff) as u8,
            bv1 == ((v >> 8u32) & 0xff) as u8,
            bv2 == ((v >> 16u32) & 0xff) as u8,
            bv3 == ((v >> 24u32) & 0xff) as u8,
    ;
    assert(((v >> 4u32) & 0x7) == ((w >> 4u32) & 0x7)) by (bit_vector)
        requires
            8 <= k < 32,
            v == w ^ (1u32 << k),
    ;
}

/// The number of set bits of a byte, as a fixed-width sum.
spec fn bits_in(b: u8) -> u32 {
    ((b & 1) + ((b >> 1u8) & 1) + ((b >> 2u8) & 1) + ((b >> 3u8) & 1) + ((b >> 4u8) & 1) + ((b
        >> 5u8) & 1) + ((b >> 6u8) & 1) + ((b >> 7u8) & 1)) as u32
}

} // verus!
