//! A fixed-size receive buffer that the serial port fills and that yields
//! the points of the frames it holds.
use vstd::prelude::*;
use crate::point::{decode, Point};

verus! {

/// The 32-bit word that the first four bytes of `s` form, little-endian.
pub open spec fn frame_bits(s: Seq<u8>) -> u32 {
    (s[0] as u32) | ((s[1] as u32) << 8u32) | ((s[2] as u32) << 16u32) | ((s[3] as u32) << 24u32)
}

/// What scanning the pending bytes `s` finds: the point of the first offset
/// at which four bytes decode, with what follows that frame; or, where no
/// offset does, nothing, with the last bytes (fewer than four) that could
/// still begin a frame.
pub open spec fn scan(s: Seq<u8>) -> (Option<Point>, Seq<u8>)
    decreases s.len(),
{
    if s.len() < 4 {
        (None, s)
    } else {
        match decode(frame_bits(s)) {
            Ok(p) => (Some(p), s.skip(4)),
            Err(_) => scan(s.skip(1)),
        }
    }
}

/// A receive buffer of `LEN` bytes. The bytes between the read cursor and
/// the write cursor have been received and not consumed yet.
pub struct PortBuffer<const LEN: usize> {
    buffer: [u8; LEN],
    cursor_r: usize,
    cursor_w: usize,
}

impl<const LEN: usize> PortBuffer<LEN> {
    /// All `LEN` bytes of the buffer.
    pub closed spec fn bytes(self) -> Seq<u8> {
        self.buffer@
    }

    /// Where the next frame is looked for.
    pub closed spec fn read_pos(self) -> nat {
        self.cursor_r as nat
    }

    /// Where the next received byte goes.
    pub closed spec fn write_pos(self) -> nat {
        self.cursor_w as nat
    }

    /// The cursors lie in order within the buffer.
    pub open spec fn wf(self) -> bool {
        &&& self.read_pos() <= self.write_pos() <= LEN
        &&& self.bytes().len() == LEN
    }

    /// The received bytes that no call of `next` has consumed yet.
    pub open spec fn pending(self) -> Seq<u8> {
        self.bytes().subrange(self.read_pos() as int, self.write_pos() as int)
    }

    /// How many more bytes fit behind the write cursor.
    pub open spec fn space(self) -> nat {
        (LEN - self.write_pos()) as nat
    }

    /// `self` is `prev` after the free part behind the write cursor was
    /// handed out and came back holding `filled`.
    pub open spec fn after_fill(self, prev: Self, filled: Seq<u8>) -> bool {
        &&& self.wf()
        &&& self.read_pos() == prev.read_pos()
        &&& self.write_pos() == prev.write_pos()
        &&& self.bytes() == prev.bytes().take(prev.write_pos() as int) + filled
    }

    /// `self` is `prev` after `n` more bytes were announced as received.
    pub open spec fn after_notify(self, prev: Self, n: nat) -> bool {
        &&& self.wf()
        &&& self.bytes() == prev.bytes()
        &&& self.read_pos() == prev.read_pos()
        &&& self.write_pos() == prev.write_pos() + n
    }

    /// The free part of the buffer, behind the write cursor, for the port to
    /// write into. What it holds when the borrow ends is what the buffer holds
    /// there from then on.
    pub fn as_buf<'a>(&'a mut self) -> (tail: &'a mut [u8])
        requires
            old(self).wf(),
        ensures
            tail@ == old(self).bytes().skip(old(self).write_pos() as int),
            final(self).after_fill(*old(self), final(tail)@),
    {
        let w = self.cursor_w;
        let (_, tail) = self.buffer.split_at_mut(w);
        tail
    }

    /// Announces that the port wrote `n` bytes at the write cursor.
    pub fn notify_received(&mut self, n: usize)
        requires
            old(self).wf(),
            n <= old(self).space(),
        ensures
            final(self).after_notify(*old(self), n as nat),
    {
        self.cursor_w += n;
    }

    /// Records the outcome of one read of the port into the part handed out
    /// by `as_buf`: `None` where the read failed, `Some(n)` where it wrote
    /// `n` bytes. Tells whether anything was received; a read that failed or
    /// wrote nothing leaves the buffer as it was.
    pub fn record_read(&mut self, read: Option<usize>) -> (received: bool)
        requires
            old(self).wf(),
            read matches Some(n) ==> n <= old(self).space(),
        ensures
            received == (read matches Some(n) && n > 0),
            received ==> final(self).after_notify(*old(self), read.unwrap() as nat),
            !received ==> *final(self) == *old(self),
    {
        match read {
            Some(n) => {
                if n > 0 {
                    self.notify_received(n);
                    true
                } else {
                    false
                }
            },
            None => false,
        }
    }

    /// Takes the point of the first frame among the pending bytes, consuming
    /// it and every byte before it. Where no frame is found, consumes all but
    /// the last bytes (fewer than four) and moves those to the front of the
    /// buffer, so that the whole rest is free for the port.
    pub fn next(&mut self) -> (r: Option<Point>)
        requires
            old(self).wf(),
        ensures
            final(self).wf(),
            (r, final(self).pending()) == scan(old(self).pending()),
            r is Some ==> final(self).write_pos() == old(self).write_pos() && final(self).bytes()
                == old(self).bytes(),
            r is None ==> {
                &&& final(self).read_pos() == 0
                &&& final(self).write_pos() < 4
                &&& final(self).bytes().skip(final(self).write_pos() as int) == old(self).bytes().skip(final(self).write_pos() as int)
            },
    {
        loop
            invariant
                self.wf(),
                scan(self.pending()) == scan(old(self).pending()),
                self.write_pos() == old(self).write_pos(),
                self.bytes() == old(self).bytes(),
            decreases self.write_pos() - self.read_pos(),
        {
            let r = self.cursor_r;
            let w = self.cursor_w;
            if w - r >= 4 {
                let bits: u32 = (self.buffer[r] as u32) | ((self.buffer[r + 1] as u32) << 8) | ((
                self.buffer[r + 2] as u32) << 16) | ((self.buffer[r + 3] as u32) << 24);
                let ghost s = self.pending();
                assert(bits == frame_bits(s));
                match Point::try_from(bits) {
                    Ok(p) => {
                        self.cursor_r = r + 4;
                        assert(self.pending() =~= s.skip(4));
                        return Some(p);
                    },
                    Err(_) => {
                        self.cursor_r = r + 1;
                        assert(self.pending() =~= s.skip(1));
                    },
                }
            } else {
                let ghost s = self.pending();
                let ghost before = self.bytes();
                let n = w - r;
                let mut i: usize = 0;
                while i < n
                    invariant
                        self.wf(),
                        self.read_pos() == r,
                        self.write_pos() == w,
                        n == w - r,
                        r <= w <= LEN,
                        i <= n,
                        before.len() == LEN,
                        forall|j: int| 0 <= j < i ==> self.bytes()[j] == before[r + j],
                        forall|j: int| i <= j < LEN ==> self.bytes()[j] == before[j],
                    decreases n - i,
                {
                    let b = self.buffer[r + i];
                    self.buffer[i] = b;
                    i += 1;
                }
                self.cursor_r = 0;
                self.cursor_w = n;
                assert(self.pending() =~= s);
                assert(self.bytes().skip(n as int) =~= before.skip(n as int));
                return None;
            }
        }
    }
}

impl<const LEN: usize> Default for PortBuffer<LEN> {
    /// An empty buffer, all zero.
    fn default() -> (b: Self)
        ensures
            b.wf(),
            b.read_pos() == 0,
            b.write_pos() == 0,
            b.bytes() == Seq::new(LEN as nat, |i: int| 0u8),
    {
        let b = PortBuffer { buffer: [0u8; LEN], cursor_r: 0, cursor_w: 0 };
        assert(b.bytes() =~= Seq::new(LEN as nat, |i: int| 0u8));
        b
    }
}

/// The frame that begins at offset `j` of `s`, decoded.
pub open spec fn frame_at(s: Seq<u8>, j: int) -> Result<Point, ()> {
    decode(frame_bits(s.skip(j)))
}

proof fn lemma_frame_at_shift(s: Seq<u8>, j: int)
    requires
        0 <= j,
        j + 1 <= s.len(),
    ensures
        frame_at(s, j + 1) == frame_at(s.skip(1), j),
{
    assert(s.skip(1).skip(j) =~= s.skip(j + 1));
}

/// Scanning finds the earliest frame: where it yields a point, that point is
/// the frame at some offset `k`, no earlier offset holds a frame, and what
/// remains is what follows that frame.
pub proof fn lemma_scan_finds_first_frame(s: Seq<u8>, p: Point) -> (k: int)
    requires
        scan(s).0 == Some(p),
    ensures
        0 <= k,
        k + 4 <= s.len(),
        frame_at(s, k) == Ok::<Point, ()>(p),
        scan(s).1 == s.skip(k + 4),
        forall|j: int| 0 <= j < k ==> #[trigger] frame_at(s, j) is Err,
    decreases s.len(),
{
    assert(s.skip(0) =~= s);
    if decode(frame_bits(s)) is Err {
        let t = s.skip(1);
        let k = lemma_scan_finds_first_frame(t, p);
        lemma_frame_at_shift(s, k);
        assert(t.skip(k + 4) =~= s.skip(k + 5));
        assert forall|j: int| 0 <= j < k + 1 implies #[trigger] frame_at(s, j) is Err by {
            if j > 0 {
                lemma_frame_at_shift(s, j - 1);
            }
        }
        k + 1
    } else {
        0
    }
}

/// Where scanning yields nothing, no offset holds a frame, and what remains
/// is the last three bytes (all of `s` where it is shorter than four).
pub proof fn lemma_scan_finds_no_frame(s: Seq<u8>)
    requires
        scan(s).0 is None,
    ensures
        forall|j: int| 0 <= j && j + 4 <= s.len() ==> #[trigger] frame_at(s, j) is Err,
        scan(s).1 == if s.len() < 4 {
            s
        } else {
            s.skip(s.len() - 3)
        },
    decreases s.len(),
{
    if s.len() >= 4 {
        assert(s.skip(0) =~= s);
        let t = s.skip(1);
        lemma_scan_finds_no_frame(t);
        assert forall|j: int| 0 <= j && j + 4 <= s.len() implies #[trigger] frame_at(s, j) is Err by {
            if j > 0 {
                lemma_frame_at_shift(s, j - 1);
            }
        }
        if t.len() >= 4 {
            assert(t.skip(t.len() - 3) =~= s.skip(s.len() - 3));
        } else {
            assert(t =~= s.skip(s.len() - 3));
        }
    }
}

/// What the port writes into the part that `as_buf` hands out, once
/// `notify_received` announces `n` of those bytes, is pending right behind
/// what was pending before, in the order written.
pub proof fn lemma_received_bytes_follow_pending<const LEN: usize>(
    b0: PortBuffer<LEN>,
    b1: PortBuffer<LEN>,
    b2: PortBuffer<LEN>,
    filled: Seq<u8>,
    n: nat,
)
    requires
        b0.wf(),
        b1.after_fill(b0, filled),
        n <= b1.space(),
        b2.after_notify(b1, n),
    ensures
        b2.pending() == b0.pending() + filled.take(n as int),
{
    assert(b2.pending() =~= b0.pending() + filled.take(n as int));
}

/// The word decoded at an offset is the four bytes there read
/// little-endian, unaltered.
pub proof fn lemma_frame_bits_little_endian(s: Seq<u8>)
    requires
        s.len() >= 4,
    ensures
        frame_bits(s) as int == s[0] + s[1] * 0x100 + s[2] * 0x1_0000 + s[3] * 0x100_0000,
{
    let b0 = s[0];
    let b1 = s[1];
    let b2 = s[2];
    let b3 = s[3];
    let w = frame_bits(s);
    assert(w == b0 + b1 * 0x100u32 + b2 * 0x1_0000u32 + b3 * 0x100_0000u32) by (bit_vector)
        requires
            w == (b0 as u32) | ((b1 as u32) << 8u32) | ((b2 as u32) << 16u32) | ((b3 as u32)
                << 24u32),
    ;
}

/// Four pending bytes that are the little-endian bytes of a word that
/// decodes to `p` yield `p`, and nothing stays pending.
pub proof fn lemma_single_frame_yields_its_point(s: Seq<u8>, w: u32, p: Point)
    requires
        s.len() == 4,
        s[0] + s[1] * 0x100 + s[2] * 0x1_0000 + s[3] * 0x100_0000 == w as int,
        decode(w) == Ok::<Point, ()>(p),
    ensures
        scan(s) == (Some(p), Seq::<u8>::empty()),
{
    lemma_frame_bits_little_endian(s);
    assert(s.skip(4) =~= Seq::<u8>::empty());
}

} // verus!
