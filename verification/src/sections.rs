//! Splits the stream of points of one revolution into sections of equal
//! angle, handing out each section when the direction leaves it.
use vstd::prelude::*;
use crate::point::Point;
use crate::DIR_ROUND;

verus! {

/// The section that a point falls in, where each section spans `len_each`
/// direction steps (the index kept in a byte, as the splitter keeps it).
pub open spec fn section_of(p: Point, len_each: u16) -> u8 {
    (p.dir / len_each) as u8
}

/// What a point adds to a section: itself where it has a distance, nothing
/// where its distance is 0.
pub open spec fn kept(p: Point) -> Seq<Point> {
    if p.len > 0 {
        seq![p]
    } else {
        seq![]
    }
}

/// One push of `p` on the splitter state (`current` section, `buffer` of the
/// current section's points): the new section index, the new buffer, and the
/// section handed out, if the point starts another section.
pub open spec fn push_step(len_each: u16, current: u8, buffer: Seq<Point>, p: Point) -> (
    u8,
    Seq<Point>,
    Option<Seq<Point>>,
) {
    let i = section_of(p, len_each);
    if current == i {
        (current, buffer + kept(p), None)
    } else {
        (i, kept(p), Some(buffer))
    }
}

/// What the driver hands to the splitter for a point whose direction lies
/// within one revolution: the point as it came, or with its distance cleared
/// where it has a distance and the filter refused it.
pub open spec fn filtered(p: Point, keep: bool) -> Point {
    if p.len != 0 && !keep {
        Point { len: 0, dir: p.dir }
    } else {
        p
    }
}

/// The view of an optional vector.
pub open spec fn opt_view(r: Option<Vec<Point>>) -> Option<Seq<Point>> {
    match r {
        Some(v) => Some(v@),
        None => None,
    }
}

/// Whether the driver asks its filter about a point: only about a point
/// within one revolution that has a distance.
pub fn needs_filter(p: Point) -> (b: bool)
    ensures
        b == (p.dir < DIR_ROUND && p.len != 0),
{
    p.dir < DIR_ROUND && p.len != 0
}

/// Splits the points of a revolution into sections.
pub struct Sections {
    len_each: u16,
    current: u8,
    buffer: Vec<Point>,
}

impl Sections {
    /// How many direction steps each section spans.
    pub closed spec fn len_each(self) -> u16 {
        self.len_each
    }

    /// The index of the section being collected.
    pub closed spec fn current(self) -> u8 {
        self.current
    }

    /// The points collected for the current section.
    pub closed spec fn collected(self) -> Seq<Point> {
        self.buffer@
    }

    /// Sections span at least one direction step.
    pub open spec fn wf(self) -> bool {
        self.len_each() > 0
    }

    /// A splitter into `len` sections of a revolution of 5760 steps, each of
    /// `5760 / len` steps, starting in section 0 with nothing collected.
    pub fn new(len: u8) -> (s: Self)
        requires
            len > 0,
        ensures
            s.wf(),
            s.len_each() == DIR_ROUND / (len as u16),
            s.current() == 0,
            s.collected() == Seq::<Point>::empty(),
    {
        let len_each = DIR_ROUND / len as u16;
        assert(len_each > 0) by (nonlinear_arith)
            requires
                len_each == 5760u16 / (len as u16),
                0 < len <= 255,
        ;
        Self { len_each, current: 0, buffer: Vec::with_capacity(len_each as usize / 10) }
    }

    /// Adds a point. Where the point lies in another section than the
    /// current one, hands out what was collected and starts collecting that
    /// section. The point itself is collected where it has a distance.
    pub fn push(&mut self, p: Point) -> (r: Option<Vec<Point>>)
        requires
            old(self).wf(),
        ensures
            final(self).wf(),
            final(self).len_each() == old(self).len_each(),
            (final(self).current(), final(self).collected(), opt_view(r)) == push_step(
                old(self).len_each(),
                old(self).current(),
                old(self).collected(),
                p,
            ),
    {
        let i = (p.dir / self.len_each) as u8;
        let result = if self.current == i {
            None
        } else {
            self.current = i;
            let mut fresh: Vec<Point> = Vec::with_capacity(self.len_each as usize / 10);
            std::mem::swap(&mut self.buffer, &mut fresh);
            Some(fresh)
        };
        if p.len > 0 {
            self.buffer.push(p);
        }
        proof {
            assert(self.buffer@ =~= push_step(old(self).len_each, old(self).current, old(self).buffer@, p).1);
        }
        result
    }

    /// The driver's handling of one decoded point: a point beyond one
    /// revolution (direction 5760 or more) carries no sample and is dropped;
    /// any other point goes to `push`, with its distance cleared where it has
    /// a distance and `keep`, the filter's verdict on it, is false.
    pub fn accept(&mut self, p: Point, keep: bool) -> (r: Option<Vec<Point>>)
        requires
            old(self).wf(),
        ensures
            final(self).wf(),
            final(self).len_each() == old(self).len_each(),
            p.dir >= DIR_ROUND ==> r is None && *final(self) == *old(self),
            p.dir < DIR_ROUND ==> (final(self).current(), final(self).collected(), opt_view(r))
                == push_step(
                old(self).len_each(),
                old(self).current(),
                old(self).collected(),
                filtered(p, keep),
            ),
    {
        if p.dir < DIR_ROUND {
            let mut q = p;
            if q.len != 0 && !keep {
                q.len = 0;
            }
            self.push(q)
        } else {
            None
        }
    }
}

/// Pushing the points `pts` one after another, from section `current` with
/// `buffer` collected: the section index and the buffer at the end, and the
/// sections handed out on the way, in order.
pub open spec fn run(len_each: u16, current: u8, buffer: Seq<Point>, pts: Seq<Point>) -> (
    u8,
    Seq<Point>,
    Seq<Seq<Point>>,
)
    decreases pts.len(),
{
    if pts.len() == 0 {
        (current, buffer, Seq::empty())
    } else {
        let (c1, b1, e) = push_step(len_each, current, buffer, pts[0]);
        let (c2, b2, es) = run(len_each, c1, b1, pts.skip(1));
        (
            c2,
            b2,
            match e {
                Some(out) => seq![out] + es,
                None => es,
            },
        )
    }
}

/// The sections `es` one after another.
pub open spec fn concat_all(es: Seq<Seq<Point>>) -> Seq<Point>
    decreases es.len(),
{
    if es.len() == 0 {
        Seq::empty()
    } else {
        es[0] + concat_all(es.skip(1))
    }
}

/// The points of `pts` that have a distance, in order.
pub open spec fn kept_all(pts: Seq<Point>) -> Seq<Point>
    decreases pts.len(),
{
    if pts.len() == 0 {
        Seq::empty()
    } else {
        kept(pts[0]) + kept_all(pts.skip(1))
    }
}

/// Every point of `s` lies in section `i`.
pub open spec fn all_in_section(s: Seq<Point>, len_each: u16, i: u8) -> bool {
    forall|k: int| 0 <= k < s.len() ==> section_of(#[trigger] s[k], len_each) == i
}

/// No point is lost, duplicated or reordered: the sections handed out while
/// pushing `pts`, followed by what is collected at the end, are what was
/// collected at the start followed by the points of `pts` that have a
/// distance.
pub proof fn lemma_run_keeps_every_point(
    len_each: u16,
    current: u8,
    buffer: Seq<Point>,
    pts: Seq<Point>,
)
    ensures
        ({
            let (c, b, es) = run(len_each, current, buffer, pts);
            concat_all(es) + b == buffer + kept_all(pts)
        }),
    decreases pts.len(),
{
    if pts.len() > 0 {
        let p = pts[0];
        let rest = pts.skip(1);
        let (c1, b1, e) = push_step(len_each, current, buffer, p);
        lemma_run_keeps_every_point(len_each, c1, b1, rest);
        let (c2, b2, es2) = run(len_each, c1, b1, rest);
        match e {
            Some(out) => {
                let es = seq![out] + es2;
                assert(es.skip(1) =~= es2);
                assert(concat_all(es) == out + concat_all(es2));
                assert(concat_all(es) + b2 =~= buffer + (kept(p) + kept_all(rest)));
            },
            None => {
                assert(concat_all(es2) + b2 =~= buffer + (kept(p) + kept_all(rest)));
            },
        }
    }
}

/// Sections do not mix: where everything collected lies in the current
/// section, every section handed out while pushing `pts` lies in a single
/// section, and so does everything collected at the end, in the section that
/// is current then.
pub proof fn lemma_run_sections_do_not_mix(
    len_each: u16,
    current: u8,
    buffer: Seq<Point>,
    pts: Seq<Point>,
)
    requires
        all_in_section(buffer, len_each, current),
    ensures
        ({
            let (c, b, es) = run(len_each, current, buffer, pts);
            &&& all_in_section(b, len_each, c)
            &&& forall|k: int, a: int|
                0 <= k < es.len() && 0 <= a < es[k].len() ==> all_in_section(
                    es[k],
                    len_each,
                    section_of(#[trigger] es[k][a], len_each),
                )
        }),
    decreases pts.len(),
{
    if pts.len() > 0 {
        let p = pts[0];
        let rest = pts.skip(1);
        let (c1, b1, e) = push_step(len_each, current, buffer, p);
        assert(all_in_section(b1, len_each, c1));
        lemma_run_sections_do_not_mix(len_each, c1, b1, rest);
        let (c2, b2, es2) = run(len_each, c1, b1, rest);
        match e {
            Some(out) => {
                let es = seq![out] + es2;
                assert forall|k: int, a: int|
                    0 <= k < es.len() && 0 <= a < es[k].len() implies all_in_section(
                    es[k],
                    len_each,
                    section_of(#[trigger] es[k][a], len_each),
                ) by {
                    if k > 0 {
                        assert(es[k] == es2[k - 1]);
                    }
                }
            },
            None => {},
        }
    }
}

/// A point with a distance is collected, whatever its distance; a point
/// without one is not.
pub proof fn lemma_kept_is_the_point_with_distance(p: Point)
    ensures
        p.len > 0 ==> kept(p) == seq![p],
        p.len == 0 ==> kept(p).len() == 0,
{
}

/// After a push of a point with a distance, the collected points end with
/// that point: after those collected before where it stays in the current
/// section, alone where it starts another.
pub proof fn lemma_push_collects_point(len_each: u16, current: u8, buffer: Seq<Point>, p: Point)
    requires
        p.len > 0,
    ensures
        ({
            let (c, b, out) = push_step(len_each, current, buffer, p);
            &&& b.len() >= 1
            &&& b.last() == p
            &&& section_of(p, len_each) == current ==> b.drop_last() == buffer && out is None
            &&& section_of(p, len_each) != current ==> b.len() == 1 && out == Some(buffer)
            &&& c == section_of(p, len_each)
        }),
{
    let (c, b, out) = push_step(len_each, current, buffer, p);
    if section_of(p, len_each) == current {
        assert(b.drop_last() =~= buffer);
    }
}

/// Refusing a point clears only its distance: the point handed on keeps its
/// direction, keeps its distance where the filter keeps it, and has distance
/// 0 where the filter refuses a point with a distance.
pub proof fn lemma_filter_clears_only_distance(p: Point, keep: bool)
    ensures
        filtered(p, keep).dir == p.dir,
        keep ==> filtered(p, keep) == p,
        p.len == 0 ==> filtered(p, keep) == p,
        !keep ==> filtered(p, keep).len == 0,
{
}

/// A refused point of the current section hands nothing out and changes
/// neither the current section nor what is collected.
pub proof fn lemma_refused_point_changes_nothing(
    len_each: u16,
    current: u8,
    buffer: Seq<Point>,
    p: Point,
)
    requires
        section_of(p, len_each) == current,
    ensures
        push_step(len_each, current, buffer, filtered(p, false)) == (
            current,
            buffer,
            None::<Seq<Point>>,
        ),
{
    assert(buffer + Seq::<Point>::empty() =~= buffer);
}

/// A point whose direction lies in the span of the current section
/// (directions `current * len_each` up to, not including,
/// `(current + 1) * len_each`) hands nothing out and keeps the section; a
/// point of a direction outside that span (below 256 sections) hands out
/// what was collected and starts the section whose span holds it.
pub proof fn lemma_push_follows_direction_spans(
    len_each: u16,
    current: u8,
    buffer: Seq<Point>,
    p: Point,
)
    requires
        len_each > 0,
    ensures
        current * len_each <= p.dir < (current + 1) * len_each ==> {
            &&& push_step(len_each, current, buffer, p).0 == current
            &&& push_step(len_each, current, buffer, p).2 is None
        },
        !(current * len_each <= p.dir < (current + 1) * len_each) && p.dir < 256 * len_each ==> {
            let k = push_step(len_each, current, buffer, p).0;
            &&& k * len_each <= p.dir < (k + 1) * len_each
            &&& push_step(len_each, current, buffer, p).2 == Some(buffer)
        },
{
    let d = p.dir;
    let q = d / len_each;
    assert(q * len_each <= d < (q + 1) * len_each) by (nonlinear_arith)
        requires
            len_each > 0,
            q == d / len_each,
    ;
    if current * len_each <= d < (current + 1) * len_each {
        assert(q == current) by (nonlinear_arith)
            requires
                q * len_each <= d < (q + 1) * len_each,
                current * len_each <= d < (current + 1) * len_each,
                len_each > 0,
        ;
    } else if d < 256 * len_each {
        assert(q < 256) by (nonlinear_arith)
            requires
                q * len_each <= d,
                d < 256 * len_each,
                len_each > 0,
        ;
        assert(section_of(p, len_each) == q);
    }
}

} // verus!
