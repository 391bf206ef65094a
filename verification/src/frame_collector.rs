//! Collects the sections of a revolution, packed, with their points placed
//! in the plane, and writes a frame of all packed points.
use vstd::prelude::*;
use crate::point::Point;
use crate::zip::{
    lemma_zip_then_unzip, zip_dir_limit, zip_len_limit, zipped_bytes, zipped_dir, zipped_len,
    PointZipped,
};

verus! {

/// The bytes of the packed points `zs`, one after another.
pub open spec fn packed_bytes(zs: Seq<PointZipped>) -> Seq<u8>
    decreases zs.len(),
{
    if zs.len() == 0 {
        Seq::empty()
    } else {
        packed_bytes(zs.drop_last()) + zs.last().0@
    }
}

/// How many packed points the sections `secs` hold in all.
pub open spec fn count_all(secs: Seq<Seq<PointZipped>>) -> nat
    decreases secs.len(),
{
    if secs.len() == 0 {
        0
    } else {
        count_all(secs.drop_last()) + secs.last().len()
    }
}

/// The bytes of the packed points of all sections `secs`, section after
/// section.
pub open spec fn packed_all(secs: Seq<Seq<PointZipped>>) -> Seq<u8>
    decreases secs.len(),
{
    if secs.len() == 0 {
        Seq::empty()
    } else {
        packed_all(secs.drop_last()) + packed_bytes(secs.last())
    }
}

/// A 16-bit value as two bytes, little-endian.
pub open spec fn u16_le(x: u16) -> Seq<u8> {
    seq![x as u8, (x >> 8u16) as u8]
}

/// The packing of each point of `pts`.
pub open spec fn zipped_points(pts: Seq<Point>) -> Seq<Seq<u8>> {
    pts.map_values(|p: Point| zipped_bytes(p.len, p.dir))
}

/// The sections of one revolution: for each, its points packed and its
/// points placed in the plane.
pub struct FrameCollector {
    pub sections: Vec<(Vec<PointZipped>, Vec<(i16, i16)>)>,
}

impl FrameCollector {
    /// The packed points of each section.
    pub open spec fn zipped(self) -> Seq<Seq<PointZipped>> {
        Seq::new(self.sections@.len(), |k: int| self.sections@[k].0@)
    }

    /// The placed points of each section.
    pub open spec fn placed(self) -> Seq<Seq<(i16, i16)>> {
        Seq::new(self.sections@.len(), |k: int| self.sections@[k].1@)
    }

    /// A collector with no section.
    pub fn new() -> (c: Self)
        ensures
            c.sections@.len() == 0,
    {
        Self { sections: Vec::new() }
    }

    /// Drops all sections.
    pub fn clear(&mut self)
        ensures
            final(self).sections@.len() == 0,
    {
        self.sections.clear();
    }

    /// Sets section `i` to the points `section`, packed, and the same points
    /// placed in the plane, `placed`; adds empty sections first where there
    /// are not yet more than `i`.
    pub fn put(&mut self, i: usize, section: Vec<Point>, placed: Vec<(i16, i16)>)
        requires
            i < usize::MAX,
        ensures
            final(self).sections@.len() == if i < old(self).sections@.len() {
                old(self).sections@.len() as int
            } else {
                i + 1
            },
            forall|k: int|
                0 <= k < old(self).sections@.len() && k != i ==> #[trigger] final(self).sections@[k] == old(self).sections@[k],
            forall|k: int|
                old(self).sections@.len() <= k < final(self).sections@.len() && k != i ==> {
                    &&& (#[trigger] final(self).sections@[k]).0@.len() == 0
                    &&& final(self).sections@[k].1@.len() == 0
                },
            final(self).sections@[i as int].0@.len() == section@.len(),
            forall|k: int|
                0 <= k < section@.len() ==> (#[trigger] final(self).sections@[i as int].0@[k]).0@
                    == zipped_bytes(section@[k].len, section@[k].dir),
            final(self).sections@[i as int].1@ == placed@,
    {
        while self.sections.len() <= i
            invariant
                i < usize::MAX,
                old(self).sections@.len() <= self.sections@.len() <= if i < old(self).sections@.len() {
                    old(self).sections@.len() as int
                } else {
                    i + 1
                },
                forall|k: int|
                    0 <= k < old(self).sections@.len() ==> #[trigger] self.sections@[k] == old(self).sections@[k],
                forall|k: int|
                    old(self).sections@.len() <= k < self.sections@.len() ==> {
                        &&& (#[trigger] self.sections@[k]).0@.len() == 0
                        &&& self.sections@[k].1@.len() == 0
                    },
            decreases i + 1 - self.sections@.len(),
        {
            self.sections.push((Vec::new(), Vec::new()));
        }
        let mut zipped: Vec<PointZipped> = Vec::new();
        let mut k: usize = 0;
        while k < section.len()
            invariant
                k <= section@.len(),
                zipped@.len() == k,
                forall|j: int|
                    0 <= j < k ==> (#[trigger] zipped@[j]).0@ == zipped_bytes(
                        section@[j].len,
                        section@[j].dir,
                    ),
            decreases section@.len() - k,
        {
            let p = section[k];
            zipped.push(PointZipped::new(p.len, p.dir));
            k += 1;
        }
        self.sections.set(i, (zipped, placed));
    }

    /// Appends the frame of all packed points to `buf`: their number, as two
    /// bytes little-endian (modulo 65536), then the three bytes of each
    /// packed point, section after section.
    pub fn write_to(&self, buf: &mut Vec<u8>)
        requires
            count_all(self.zipped()) <= usize::MAX,
        ensures
            final(buf)@ == old(buf)@ + u16_le(count_all(self.zipped()) as u16) + packed_all(
                self.zipped(),
            ),
            final(buf)@.len() == old(buf)@.len() + 2 + 3 * count_all(self.zipped()),
            final(buf)@[old(buf)@.len() as int] == count_all(self.zipped()) % 256,
            final(buf)@[old(buf)@.len() + 1int] == (count_all(self.zipped()) / 256) % 256,
    {
        let n = self.sections.len();
        let ghost secs = self.zipped();
        let mut len: usize = 0;
        let mut k: usize = 0;
        while k < n
            invariant
                n == secs.len(),
                secs == self.zipped(),
                count_all(secs) <= usize::MAX,
                k <= n,
                len == count_all(secs.take(k as int)),
            decreases n - k,
        {
            proof {
                lemma_count_prefix(secs, k + 1);
                assert(secs.take(k + 1).drop_last() =~= secs.take(k as int));
            }
            len = len + self.sections[k].0.len();
            k += 1;
        }
        assert(secs.take(n as int) =~= secs);
        proof {
            lemma_frame_header(len);
            lemma_packed_all_len(secs);
        }
        let count = len as u16;
        buf.push(count as u8);
        buf.push((count >> 8) as u8);
        let ghost head = old(buf)@ + u16_le(count);
        assert(buf@ =~= head);
        let mut k: usize = 0;
        while k < n
            invariant
                n == secs.len(),
                secs == self.zipped(),
                k <= n,
                buf@ == head + packed_all(secs.take(k as int)),
            decreases n - k,
        {
            let zs = &self.sections[k].0;
            let ghost before = buf@;
            let mut j: usize = 0;
            while j < zs.len()
                invariant
                    j <= zs@.len(),
                    zs@ == secs[k as int],
                    buf@ == before + packed_bytes(zs@.take(j as int)),
                decreases zs@.len() - j,
            {
                let z = zs[j];
                buf.push(z.0[0]);
                buf.push(z.0[1]);
                buf.push(z.0[2]);
                proof {
                    assert(zs@.take(j + 1).drop_last() =~= zs@.take(j as int));
                    assert(z.0@ =~= seq![z.0[0], z.0[1], z.0[2]]);
                }
                j += 1;
            }
            proof {
                assert(zs@.take(j as int) =~= zs@);
                assert(secs.take(k + 1).drop_last() =~= secs.take(k as int));
            }
            k += 1;
        }
        assert(secs.take(n as int) =~= secs);
    }
}

/// The points of a prefix of the sections are no more than those of all.
proof fn lemma_count_prefix(secs: Seq<Seq<PointZipped>>, k: int)
    requires
        0 <= k <= secs.len(),
    ensures
        count_all(secs.take(k)) <= count_all(secs),
    decreases secs.len(),
{
    if k < secs.len() {
        lemma_count_prefix(secs.drop_last(), k);
        assert(secs.drop_last().take(k) =~= secs.take(k));
    } else {
        assert(secs.take(k) =~= secs);
    }
}

/// The packed points lie three bytes each, in order.
proof fn lemma_packed_bytes_at(zs: Seq<PointZipped>, j: int)
    requires
        0 <= j < zs.len(),
    ensures
        packed_bytes(zs).len() == 3 * zs.len(),
        packed_bytes(zs).subrange(3 * j, 3 * j + 3) == zs[j].0@,
    decreases zs.len(),
{
    lemma_packed_bytes_len(zs);
    let init = zs.drop_last();
    if j < zs.len() - 1 {
        lemma_packed_bytes_at(init, j);
        assert(packed_bytes(zs).subrange(3 * j, 3 * j + 3) =~= packed_bytes(init).subrange(
            3 * j,
            3 * j + 3,
        ));
    } else {
        lemma_packed_bytes_len(init);
        assert(packed_bytes(zs).subrange(3 * j, 3 * j + 3) =~= zs[j].0@);
    }
}

proof fn lemma_packed_bytes_len(zs: Seq<PointZipped>)
    ensures
        packed_bytes(zs).len() == 3 * zs.len(),
    decreases zs.len(),
{
    if zs.len() > 0 {
        lemma_packed_bytes_len(zs.drop_last());
    }
}

proof fn lemma_packed_all_len(secs: Seq<Seq<PointZipped>>)
    ensures
        packed_all(secs).len() == 3 * count_all(secs),
    decreases secs.len(),
{
    if secs.len() > 0 {
        lemma_packed_all_len(secs.drop_last());
        lemma_packed_bytes_len(secs.last());
    }
}

/// Each packed point stands in the frame at its place: the `j`-th point of
/// section `i` is point number `count_all(secs.take(i)) + j` of the frame's
/// body, three bytes each.
pub proof fn lemma_frame_point_at(secs: Seq<Seq<PointZipped>>, i: int, j: int)
    requires
        0 <= i < secs.len(),
        0 <= j < secs[i].len(),
    ensures
        packed_all(secs).len() == 3 * count_all(secs),
        ({
            let m = count_all(secs.take(i)) + j;
            packed_all(secs).subrange(3 * m, 3 * m + 3) == secs[i][j].0@
        }),
    decreases secs.len(),
{
    lemma_packed_all_len(secs);
    let init = secs.drop_last();
    let m = count_all(secs.take(i)) + j;
    if i < secs.len() - 1 {
        lemma_frame_point_at(init, i, j);
        assert(init.take(i) =~= secs.take(i));
        lemma_packed_all_len(init);
        lemma_count_prefix(init, i + 1);
        assert(init.take(i + 1).drop_last() =~= init.take(i));
        assert(packed_all(secs).subrange(3 * m, 3 * m + 3) =~= packed_all(init).subrange(
            3 * m,
            3 * m + 3,
        ));
    } else {
        assert(secs.take(i) =~= init);
        lemma_packed_all_len(init);
        lemma_packed_bytes_at(secs.last(), j);
        assert(packed_all(secs).subrange(3 * m, 3 * m + 3) =~= packed_bytes(secs.last()).subrange(
            3 * j,
            3 * j + 3,
        ));
    }
}

/// A frame gives back the points that were put: where a packed point holds
/// the packing of `p`, with a distance below 2048 and a direction below 8192,
/// unpacking its three bytes of the frame's body gives `p`.
pub proof fn lemma_frame_gives_back_point(secs: Seq<Seq<PointZipped>>, i: int, j: int, p: Point)
    requires
        0 <= i < secs.len(),
        0 <= j < secs[i].len(),
        secs[i][j].0@ == zipped_bytes(p.len, p.dir),
        p.len < zip_len_limit(),
        p.dir < zip_dir_limit(),
    ensures
        ({
            let m = count_all(secs.take(i)) + j;
            let b = packed_all(secs).subrange(3 * m, 3 * m + 3);
            zipped_len(b) == p.len && zipped_dir(b) == p.dir
        }),
{
    lemma_frame_point_at(secs, i, j);
    lemma_zip_then_unzip(p.len, p.dir);
}

/// The frame's header holds the number of points, little-endian, modulo
/// 65536: its first byte is the number modulo 256 and its second the number
/// divided by 256, modulo 256.
pub proof fn lemma_frame_header(n: usize)
    ensures
        u16_le(n as u16).len() == 2,
        u16_le(n as u16)[0] == n % 256,
        u16_le(n as u16)[1] == (n / 256) % 256,
{
    let x = n as u16;
    assert(x as u8 == n % 256 && (x >> 8u16) as u8 == (n / 256) % 256) by (bit_vector)
        requires
            x == n as u16,
    ;
}

} // verus!
