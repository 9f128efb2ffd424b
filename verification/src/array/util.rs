//! What all builders share: counting the parts of a geometry before it is
//! pushed, and appending its parts to the buffers of a builder.
//!
//! A builder first counts (so that a geometry that does not fit leaves it
//! untouched) and then appends. The appending functions here take the buffers of
//! one nesting level each and say what the runs of that level are afterwards.

use vstd::prelude::*;
use crate::coord::{Coord, CoordBufferBuilder};
use crate::geo_traits::{
    LineStringTrait, MultiLineStringTrait, MultiPointTrait, MultiPolygonTrait, PointTrait,
    PolygonTrait, polygon_num_rings, polygon_ring,
};
use crate::offsets::{
    OffsetsBuilder, covers_exactly, lemma_runs_child_grows, lemma_runs_push, offsets_wf, run,
    run_count, runs,
};

verus! {

/// The total number of items in a sequence of sequences.
pub open spec fn total_len<T>(parts: Seq<Seq<T>>) -> nat
    decreases parts.len(),
{
    if parts.len() == 0 {
        0
    } else {
        total_len(parts.drop_last()) + parts.last().len()
    }
}

/// The total number of items two levels down: the number of coordinates in a
/// sequence of polygons.
pub open spec fn total_len2<T>(parts: Seq<Seq<Seq<T>>>) -> nat
    decreases parts.len(),
{
    if parts.len() == 0 {
        0
    } else {
        total_len2(parts.drop_last()) + total_len(parts.last())
    }
}

/// The total number of items three levels down: the number of coordinates in a
/// sequence of multi polygons.
pub open spec fn total_len3<T>(parts: Seq<Seq<Seq<Seq<T>>>>) -> nat
    decreases parts.len(),
{
    if parts.len() == 0 {
        0
    } else {
        total_len3(parts.drop_last()) + total_len2(parts.last())
    }
}

/// All items of all parts, in order.
pub open spec fn flat<T>(parts: Seq<Seq<T>>) -> Seq<T>
    decreases parts.len(),
{
    if parts.len() == 0 {
        Seq::empty()
    } else {
        flat(parts.drop_last()) + parts.last()
    }
}

/// The items of all parts are as many as the parts hold together.
pub proof fn lemma_flat_len<T>(parts: Seq<Seq<T>>)
    ensures
        flat(parts).len() == total_len(parts),
    decreases parts.len(),
{
    if parts.len() > 0 {
        lemma_flat_len(parts.drop_last());
    }
}

/// The items of one more part come after those of the parts before it.
pub proof fn lemma_flat_step<T>(parts: Seq<Seq<T>>, i: int)
    requires
        0 <= i < parts.len(),
    ensures
        flat(parts.take(i + 1)) == flat(parts.take(i)) + parts[i],
{
    assert(parts.take(i + 1).drop_last() =~= parts.take(i));
}

/// Taking one more part adds that part's length.
pub proof fn lemma_total_len_step<T>(parts: Seq<Seq<T>>, i: int)
    requires
        0 <= i < parts.len(),
    ensures
        total_len(parts.take(i + 1)) == total_len(parts.take(i)) + parts[i].len(),
        total_len(parts.take(0)) == 0,
        total_len(parts.take(parts.len() as int)) == total_len(parts),
{
    assert(parts.take(i + 1).drop_last() =~= parts.take(i));
    assert(parts.take(parts.len() as int) =~= parts);
}

/// Taking one more part adds that part's total.
pub proof fn lemma_total_len2_step<T>(parts: Seq<Seq<Seq<T>>>, i: int)
    requires
        0 <= i < parts.len(),
    ensures
        total_len2(parts.take(i + 1)) == total_len2(parts.take(i)) + total_len(parts[i]),
        total_len2(parts.take(0)) == 0,
        total_len2(parts.take(parts.len() as int)) == total_len2(parts),
{
    assert(parts.take(i + 1).drop_last() =~= parts.take(i));
    assert(parts.take(parts.len() as int) =~= parts);
}

/// A single part holds as many items as it has.
pub proof fn lemma_total_len_one<T>(part: Seq<T>)
    ensures
        total_len(seq![part]) == part.len(),
{
    assert(seq![part].drop_last() =~= Seq::<Seq<T>>::empty());
    assert(total_len(Seq::<Seq<T>>::empty()) == 0);
    assert(seq![part].last() == part);
}

/// A single part holds as many items two levels down as its parts hold.
pub proof fn lemma_total_len2_one<T>(part: Seq<Seq<T>>)
    ensures
        total_len2(seq![part]) == total_len(part),
{
    assert(seq![part].drop_last() =~= Seq::<Seq<Seq<T>>>::empty());
    assert(total_len2(Seq::<Seq<Seq<T>>>::empty()) == 0);
    assert(seq![part].last() == part);
}

/// Taking one more part adds that part's total two levels down.
pub proof fn lemma_total_len3_step<T>(parts: Seq<Seq<Seq<Seq<T>>>>, i: int)
    requires
        0 <= i < parts.len(),
    ensures
        total_len3(parts.take(i + 1)) == total_len3(parts.take(i)) + total_len2(parts[i]),
        total_len3(parts.take(0)) == 0,
        total_len3(parts.take(parts.len() as int)) == total_len3(parts),
{
    assert(parts.take(i + 1).drop_last() =~= parts.take(i));
    assert(parts.take(parts.len() as int) =~= parts);
}

/// A prefix holds no more items three levels down than the whole.
pub proof fn lemma_total_len3_prefix<T>(parts: Seq<Seq<Seq<Seq<T>>>>, i: int)
    requires
        0 <= i <= parts.len(),
    ensures
        total_len3(parts.take(i)) <= total_len3(parts),
    decreases parts.len() - i,
{
    if i < parts.len() {
        lemma_total_len3_step(parts, i);
        lemma_total_len3_prefix(parts, i + 1);
    } else {
        assert(parts.take(i) =~= parts);
    }
}

/// An absent element takes no room below it: an empty run appended to the runs
/// of any level leaves the number of items on every level below unchanged. So a
/// builder that pushes an absent line string, polygon or multi shape closes an
/// empty run and appends no ring, no polygon and no coordinate.
pub proof fn lemma_absent_takes_no_room<T>(
    lines: Seq<Seq<T>>,
    polygons: Seq<Seq<Seq<T>>>,
    multi_polygons: Seq<Seq<Seq<Seq<T>>>>,
)
    ensures
        total_len(lines.push(Seq::empty())) == total_len(lines),
        total_len(polygons.push(Seq::empty())) == total_len(polygons),
        total_len2(polygons.push(Seq::empty())) == total_len2(polygons),
        total_len(multi_polygons.push(Seq::empty())) == total_len(multi_polygons),
        total_len2(multi_polygons.push(Seq::empty())) == total_len2(multi_polygons),
        total_len3(multi_polygons.push(Seq::empty())) == total_len3(multi_polygons),
{
    assert(lines.push(Seq::empty()).drop_last() =~= lines);
    assert(polygons.push(Seq::empty()).drop_last() =~= polygons);
    assert(multi_polygons.push(Seq::empty()).drop_last() =~= multi_polygons);
    lemma_total_len_empty::<T>();
}

/// Nothing holds nothing.
pub proof fn lemma_total_len_empty<T>()
    ensures
        total_len(Seq::<Seq<T>>::empty()) == 0,
        total_len2(Seq::<Seq<Seq<T>>>::empty()) == 0,
        total_len3(Seq::<Seq<Seq<Seq<T>>>>::empty()) == 0,
{
}

/// A prefix holds no more items than the whole.
pub proof fn lemma_total_len_prefix<T>(parts: Seq<Seq<T>>, i: int)
    requires
        0 <= i <= parts.len(),
    ensures
        total_len(parts.take(i)) <= total_len(parts),
    decreases parts.len() - i,
{
    if i < parts.len() {
        lemma_total_len_step(parts, i);
        lemma_total_len_prefix(parts, i + 1);
    } else {
        assert(parts.take(i) =~= parts);
    }
}

/// A prefix holds no more items two levels down than the whole.
pub proof fn lemma_total_len2_prefix<T>(parts: Seq<Seq<Seq<T>>>, i: int)
    requires
        0 <= i <= parts.len(),
    ensures
        total_len2(parts.take(i)) <= total_len2(parts),
    decreases parts.len() - i,
{
    if i < parts.len() {
        lemma_total_len2_step(parts, i);
        lemma_total_len2_prefix(parts, i + 1);
    } else {
        assert(parts.take(i) =~= parts);
    }
}

/// The number of coordinates in the rings of a polygon, or `None` where the
/// machine cannot count that many.
pub fn polygon_coord_count<P: PolygonTrait>(polygon: &P) -> (n: Option<usize>)
    requires
        polygon.wf(),
    ensures
        total_len(polygon.model()) <= usize::MAX ==> n == Some(
            total_len(polygon.model()) as usize,
        ),
        total_len(polygon.model()) > usize::MAX ==> n is None,
{
    let rings = polygon_num_rings(polygon);
    let mut total: usize = 0;
    let mut i: usize = 0;
    proof {
        if rings > 0 {
            lemma_total_len_step(polygon.model(), 0);
        } else {
            assert(polygon.model().take(0) =~= polygon.model());
        }
    }
    while i < rings
        invariant
            polygon.wf(),
            rings == polygon.model().len(),
            i <= rings,
            total == total_len(polygon.model().take(i as int)),
        decreases rings - i,
    {
        let ring = polygon_ring(polygon, i);
        proof {
            lemma_total_len_step(polygon.model(), i as int);
            lemma_total_len_prefix(polygon.model(), i + 1);
        }
        match total.checked_add(ring.num_coords()) {
            Some(sum) => {
                total = sum;
            },
            None => {
                return None;
            },
        }
        i += 1;
    }
    proof {
        assert(polygon.model().take(rings as int) =~= polygon.model());
    }
    Some(total)
}

/// The number of coordinates in the parts of a multi line string, or `None`
/// where the machine cannot count that many.
pub fn multi_line_string_coord_count<M: MultiLineStringTrait>(lines: &M) -> (n: Option<usize>)
    requires
        lines.wf(),
    ensures
        total_len(lines.model()) <= usize::MAX ==> n == Some(total_len(lines.model()) as usize),
        total_len(lines.model()) > usize::MAX ==> n is None,
{
    let parts = lines.num_lines();
    let mut total: usize = 0;
    let mut i: usize = 0;
    proof {
        if parts > 0 {
            lemma_total_len_step(lines.model(), 0);
        } else {
            assert(lines.model().take(0) =~= lines.model());
        }
    }
    while i < parts
        invariant
            lines.wf(),
            parts == lines.model().len(),
            i <= parts,
            total == total_len(lines.model().take(i as int)),
        decreases parts - i,
    {
        let line = lines.line(i).unwrap();
        proof {
            lemma_total_len_step(lines.model(), i as int);
            lemma_total_len_prefix(lines.model(), i + 1);
        }
        match total.checked_add(line.num_coords()) {
            Some(sum) => {
                total = sum;
            },
            None => {
                return None;
            },
        }
        i += 1;
    }
    proof {
        assert(lines.model().take(parts as int) =~= lines.model());
    }
    Some(total)
}

/// The number of rings and the number of coordinates in the polygons of a multi
/// polygon, or `None` where the machine cannot count that many of either.
pub fn multi_polygon_counts<M: MultiPolygonTrait>(polygons: &M) -> (n: Option<(usize, usize)>)
    requires
        polygons.wf(),
    ensures
        total_len(polygons.model()) <= usize::MAX && total_len2(polygons.model()) <= usize::MAX
            ==> n == Some(
            (total_len(polygons.model()) as usize, total_len2(polygons.model()) as usize),
        ),
        total_len(polygons.model()) > usize::MAX || total_len2(polygons.model()) > usize::MAX
            ==> n is None,
{
    let parts = polygons.num_polygons();
    let mut rings: usize = 0;
    let mut coords: usize = 0;
    let mut i: usize = 0;
    proof {
        if parts > 0 {
            lemma_total_len_step(polygons.model(), 0);
            lemma_total_len2_step(polygons.model(), 0);
        } else {
            assert(polygons.model().take(0) =~= polygons.model());
        }
    }
    while i < parts
        invariant
            polygons.wf(),
            parts == polygons.model().len(),
            i <= parts,
            rings == total_len(polygons.model().take(i as int)),
            coords == total_len2(polygons.model().take(i as int)),
        decreases parts - i,
    {
        let polygon = polygons.polygon(i).unwrap();
        proof {
            lemma_total_len_step(polygons.model(), i as int);
            lemma_total_len_prefix(polygons.model(), i + 1);
            lemma_total_len2_step(polygons.model(), i as int);
            lemma_total_len2_prefix(polygons.model(), i + 1);
        }
        let more_coords = match polygon_coord_count(&polygon) {
            Some(c) => c,
            None => {
                return None;
            },
        };
        match (rings.checked_add(polygon_num_rings(&polygon)), coords.checked_add(more_coords)) {
            (Some(r), Some(c)) => {
                rings = r;
                coords = c;
            },
            _ => {
                return None;
            },
        }
        i += 1;
    }
    proof {
        assert(polygons.model().take(parts as int) =~= polygons.model());
    }
    Some((rings, coords))
}

/// Appends the coordinates of a line string to a coordinate buffer.
pub fn extend_from_line_string<L: LineStringTrait>(coords: &mut CoordBufferBuilder, line: &L)
    requires
        old(coords).wf(),
        line.wf(),
    ensures
        final(coords).wf(),
        final(coords)@ == old(coords)@ + line.model(),
        final(coords).spec_coord_type() == old(coords).spec_coord_type(),
{
    let n = line.num_coords();
    let mut i: usize = 0;
    assert(coords@ =~= old(coords)@ + line.model().take(0));
    while i < n
        invariant
            line.wf(),
            n == line.model().len(),
            i <= n,
            coords.wf(),
            coords@ == old(coords)@ + line.model().take(i as int),
            coords.spec_coord_type() == old(coords).spec_coord_type(),
        decreases n - i,
    {
        let c = line.coord(i).unwrap();
        coords.push_coord(c);
        assert(coords@ =~= old(coords)@ + line.model().take(i + 1));
        i += 1;
    }
    assert(line.model().take(n as int) =~= line.model());
}

/// Appends the points of a multi point to a coordinate buffer.
pub fn extend_from_multi_point<M: MultiPointTrait>(coords: &mut CoordBufferBuilder, points: &M)
    requires
        old(coords).wf(),
        points.wf(),
    ensures
        final(coords).wf(),
        final(coords)@ == old(coords)@ + points.model(),
        final(coords).spec_coord_type() == old(coords).spec_coord_type(),
{
    let n = points.num_points();
    let mut i: usize = 0;
    assert(coords@ =~= old(coords)@ + points.model().take(0));
    while i < n
        invariant
            points.wf(),
            n == points.model().len(),
            i <= n,
            coords.wf(),
            coords@ == old(coords)@ + points.model().take(i as int),
            coords.spec_coord_type() == old(coords).spec_coord_type(),
        decreases n - i,
    {
        let p = points.point(i).unwrap();
        coords.push_coord(Coord { x: p.x(), y: p.y() });
        assert(coords@ =~= old(coords)@ + points.model().take(i + 1));
        i += 1;
    }
    assert(points.model().take(n as int) =~= points.model());
}

/// One level of nesting is in order: the offsets are a builder's, and they cover
/// a child of `child_len` items exactly.
pub open spec fn level_wf(offsets: &OffsetsBuilder, child_len: nat) -> bool {
    offsets.wf() && offsets@.last() == child_len
}

/// Closing a run over items that were appended to the child: the runs are the
/// old runs and the appended items as one more run.
pub proof fn lemma_close_run<T>(child: Seq<T>, more: Seq<T>, offsets: Seq<int>)
    requires
        offsets_wf(offsets),
        offsets.last() == child.len(),
    ensures
        runs(child + more, offsets.push((child.len() + more.len()) as int)) =~= runs(
            child,
            offsets,
        ).push(
            more,
        ),
{
    let grown = child + more;
    lemma_runs_push(grown, offsets, (child.len() + more.len()) as int);
    lemma_runs_child_grows(child, more, offsets);
    assert(grown.subrange(offsets.last(), (child.len() + more.len()) as int) =~= more);
}

/// Appends a line string as one more run: its coordinates to the coordinate
/// buffer, its end to the offsets.
pub fn push_line_string_run<L: LineStringTrait>(
    coords: &mut CoordBufferBuilder,
    offsets: &mut OffsetsBuilder,
    line: &L,
)
    requires
        old(coords).wf(),
        level_wf(old(offsets), old(coords)@.len()),
        line.wf(),
        old(coords)@.len() + line.model().len() <= old(offsets).spec_width().limit(),
    ensures
        final(coords).wf(),
        level_wf(final(offsets), final(coords)@.len()),
        final(coords)@ == old(coords)@ + line.model(),
        final(offsets)@ == old(offsets)@.push((old(coords)@.len() + line.model().len()) as int),
        runs(final(coords)@, final(offsets)@) == runs(old(coords)@, old(offsets)@).push(
            line.model(),
        ),
        final(coords).spec_coord_type() == old(coords).spec_coord_type(),
        final(offsets).spec_width() == old(offsets).spec_width(),
{
    let n = line.num_coords();
    extend_from_line_string(coords, line);
    let pushed = offsets.try_push_usize(n);
    proof {
        lemma_close_run(old(coords)@, line.model(), old(offsets)@);
    }
}

/// Appends a multi point as one more run: its points to the coordinate buffer,
/// its end to the offsets.
pub fn push_multi_point_run<M: MultiPointTrait>(
    coords: &mut CoordBufferBuilder,
    offsets: &mut OffsetsBuilder,
    points: &M,
)
    requires
        old(coords).wf(),
        level_wf(old(offsets), old(coords)@.len()),
        points.wf(),
        old(coords)@.len() + points.model().len() <= old(offsets).spec_width().limit(),
    ensures
        final(coords).wf(),
        level_wf(final(offsets), final(coords)@.len()),
        final(coords)@ == old(coords)@ + points.model(),
        final(offsets)@ == old(offsets)@.push(
            (old(coords)@.len() + points.model().len()) as int,
        ),
        runs(final(coords)@, final(offsets)@) == runs(old(coords)@, old(offsets)@).push(
            points.model(),
        ),
        final(coords).spec_coord_type() == old(coords).spec_coord_type(),
        final(offsets).spec_width() == old(offsets).spec_width(),
{
    let n = points.num_points();
    extend_from_multi_point(coords, points);
    let pushed = offsets.try_push_usize(n);
    proof {
        lemma_close_run(old(coords)@, points.model(), old(offsets)@);
    }
}

/// Appends a polygon as one more run of rings: each ring as a run of
/// coordinates, then the end of the polygon to `geom_offsets`.
pub fn push_polygon_run<P: PolygonTrait>(
    coords: &mut CoordBufferBuilder,
    ring_offsets: &mut OffsetsBuilder,
    geom_offsets: &mut OffsetsBuilder,
    polygon: &P,
)
    requires
        old(coords).wf(),
        level_wf(old(ring_offsets), old(coords)@.len()),
        level_wf(old(geom_offsets), run_count(old(ring_offsets)@)),
        polygon.wf(),
        old(coords)@.len() + total_len(polygon.model()) <= old(ring_offsets).spec_width().limit(),
        run_count(old(ring_offsets)@) + polygon.model().len() <= old(
            geom_offsets,
        ).spec_width().limit(),
    ensures
        final(coords).wf(),
        level_wf(final(ring_offsets), final(coords)@.len()),
        level_wf(final(geom_offsets), run_count(final(ring_offsets)@)),
        final(coords)@.len() == old(coords)@.len() + total_len(polygon.model()),
        runs(final(coords)@, final(ring_offsets)@) == runs(old(coords)@, old(ring_offsets)@)
            + polygon.model(),
        runs(runs(final(coords)@, final(ring_offsets)@), final(geom_offsets)@) == runs(
            runs(old(coords)@, old(ring_offsets)@),
            old(geom_offsets)@,
        ).push(polygon.model()),
        final(coords).spec_coord_type() == old(coords).spec_coord_type(),
        final(ring_offsets).spec_width() == old(ring_offsets).spec_width(),
        final(geom_offsets).spec_width() == old(geom_offsets).spec_width(),
{
    let ghost rings_before = runs(old(coords)@, old(ring_offsets)@);
    let n = polygon_num_rings(polygon);
    let mut i: usize = 0;
    proof {
        assert(rings_before + polygon.model().take(0) =~= rings_before);
        if n > 0 {
            lemma_total_len_step(polygon.model(), 0);
        }
    }
    while i < n
        invariant
            polygon.wf(),
            n == polygon.model().len(),
            i <= n,
            coords.wf(),
            level_wf(ring_offsets, coords@.len()),
            rings_before == runs(old(coords)@, old(ring_offsets)@),
            runs(coords@, ring_offsets@) == rings_before + polygon.model().take(i as int),
            coords@.len() == old(coords)@.len() + total_len(polygon.model().take(i as int)),
            old(coords)@.len() + total_len(polygon.model()) <= old(
                ring_offsets,
            ).spec_width().limit(),
            coords.spec_coord_type() == old(coords).spec_coord_type(),
            ring_offsets.spec_width() == old(ring_offsets).spec_width(),
        decreases n - i,
    {
        let ring = polygon_ring(polygon, i);
        proof {
            lemma_total_len_step(polygon.model(), i as int);
            lemma_total_len_prefix(polygon.model(), i + 1);
        }
        push_line_string_run(coords, ring_offsets, &ring);
        assert(rings_before + polygon.model().take(i + 1) =~= (rings_before
            + polygon.model().take(i as int)).push(polygon.model()[i as int]));
        i += 1;
    }
    proof {
        assert(polygon.model().take(n as int) =~= polygon.model());
        assert(rings_before.len() == run_count(old(ring_offsets)@));
        lemma_close_run(rings_before, polygon.model(), old(geom_offsets)@);
    }
    let pushed = geom_offsets.try_push_usize(n);
}

/// Appends a multi line string as one more run of line strings: each line string
/// as a run of coordinates, then the end of the multi line string to
/// `geom_offsets`.
pub fn push_multi_line_string_run<M: MultiLineStringTrait>(
    coords: &mut CoordBufferBuilder,
    ring_offsets: &mut OffsetsBuilder,
    geom_offsets: &mut OffsetsBuilder,
    lines: &M,
)
    requires
        old(coords).wf(),
        level_wf(old(ring_offsets), old(coords)@.len()),
        level_wf(old(geom_offsets), run_count(old(ring_offsets)@)),
        lines.wf(),
        old(coords)@.len() + total_len(lines.model()) <= old(ring_offsets).spec_width().limit(),
        run_count(old(ring_offsets)@) + lines.model().len() <= old(
            geom_offsets,
        ).spec_width().limit(),
    ensures
        final(coords).wf(),
        level_wf(final(ring_offsets), final(coords)@.len()),
        level_wf(final(geom_offsets), run_count(final(ring_offsets)@)),
        final(coords)@.len() == old(coords)@.len() + total_len(lines.model()),
        runs(final(coords)@, final(ring_offsets)@) == runs(old(coords)@, old(ring_offsets)@)
            + lines.model(),
        runs(runs(final(coords)@, final(ring_offsets)@), final(geom_offsets)@) == runs(
            runs(old(coords)@, old(ring_offsets)@),
            old(geom_offsets)@,
        ).push(lines.model()),
        final(coords).spec_coord_type() == old(coords).spec_coord_type(),
        final(ring_offsets).spec_width() == old(ring_offsets).spec_width(),
        final(geom_offsets).spec_width() == old(geom_offsets).spec_width(),
{
    let ghost lines_before = runs(old(coords)@, old(ring_offsets)@);
    let n = lines.num_lines();
    let mut i: usize = 0;
    proof {
        assert(lines_before + lines.model().take(0) =~= lines_before);
        if n > 0 {
            lemma_total_len_step(lines.model(), 0);
        }
    }
    while i < n
        invariant
            lines.wf(),
            n == lines.model().len(),
            i <= n,
            coords.wf(),
            level_wf(ring_offsets, coords@.len()),
            lines_before == runs(old(coords)@, old(ring_offsets)@),
            runs(coords@, ring_offsets@) == lines_before + lines.model().take(i as int),
            coords@.len() == old(coords)@.len() + total_len(lines.model().take(i as int)),
            old(coords)@.len() + total_len(lines.model()) <= old(
                ring_offsets,
            ).spec_width().limit(),
            coords.spec_coord_type() == old(coords).spec_coord_type(),
            ring_offsets.spec_width() == old(ring_offsets).spec_width(),
        decreases n - i,
    {
        let line = lines.line(i).unwrap();
        proof {
            lemma_total_len_step(lines.model(), i as int);
            lemma_total_len_prefix(lines.model(), i + 1);
        }
        push_line_string_run(coords, ring_offsets, &line);
        assert(lines_before + lines.model().take(i + 1) =~= (lines_before + lines.model().take(
            i as int,
        )).push(lines.model()[i as int]));
        i += 1;
    }
    proof {
        assert(lines.model().take(n as int) =~= lines.model());
        assert(lines_before.len() == run_count(old(ring_offsets)@));
        lemma_close_run(lines_before, lines.model(), old(geom_offsets)@);
    }
    let pushed = geom_offsets.try_push_usize(n);
}

/// Appends a multi polygon as one more run of polygons: each polygon as a run of
/// rings, then the end of the multi polygon to `geom_offsets`.
pub fn push_multi_polygon_run<M: MultiPolygonTrait>(
    coords: &mut CoordBufferBuilder,
    ring_offsets: &mut OffsetsBuilder,
    polygon_offsets: &mut OffsetsBuilder,
    geom_offsets: &mut OffsetsBuilder,
    polygons: &M,
)
    requires
        old(coords).wf(),
        level_wf(old(ring_offsets), old(coords)@.len()),
        level_wf(old(polygon_offsets), run_count(old(ring_offsets)@)),
        level_wf(old(geom_offsets), run_count(old(polygon_offsets)@)),
        polygons.wf(),
        old(coords)@.len() + total_len2(polygons.model()) <= old(
            ring_offsets,
        ).spec_width().limit(),
        run_count(old(ring_offsets)@) + total_len(polygons.model()) <= old(
            polygon_offsets,
        ).spec_width().limit(),
        run_count(old(polygon_offsets)@) + polygons.model().len() <= old(
            geom_offsets,
        ).spec_width().limit(),
    ensures
        final(coords).wf(),
        level_wf(final(ring_offsets), final(coords)@.len()),
        level_wf(final(polygon_offsets), run_count(final(ring_offsets)@)),
        level_wf(final(geom_offsets), run_count(final(polygon_offsets)@)),
        final(coords)@.len() == old(coords)@.len() + total_len2(polygons.model()),
        run_count(final(ring_offsets)@) == run_count(old(ring_offsets)@) + total_len(
            polygons.model(),
        ),
        run_count(final(polygon_offsets)@) == run_count(old(polygon_offsets)@)
            + polygons.model().len(),
        runs(
            runs(runs(final(coords)@, final(ring_offsets)@), final(polygon_offsets)@),
            final(geom_offsets)@,
        ) == runs(
            runs(runs(old(coords)@, old(ring_offsets)@), old(polygon_offsets)@),
            old(geom_offsets)@,
        ).push(polygons.model()),
        final(coords).spec_coord_type() == old(coords).spec_coord_type(),
        final(ring_offsets).spec_width() == old(ring_offsets).spec_width(),
        final(polygon_offsets).spec_width() == old(polygon_offsets).spec_width(),
        final(geom_offsets).spec_width() == old(geom_offsets).spec_width(),
{
    let ghost polygons_before = runs(
        runs(old(coords)@, old(ring_offsets)@),
        old(polygon_offsets)@,
    );
    let n = polygons.num_polygons();
    let mut i: usize = 0;
    proof {
        assert(polygons_before + polygons.model().take(0) =~= polygons_before);
        if n > 0 {
            lemma_total_len_step(polygons.model(), 0);
            lemma_total_len2_step(polygons.model(), 0);
        }
    }
    while i < n
        invariant
            polygons.wf(),
            n == polygons.model().len(),
            i <= n,
            coords.wf(),
            level_wf(ring_offsets, coords@.len()),
            level_wf(polygon_offsets, run_count(ring_offsets@)),
            polygons_before == runs(runs(old(coords)@, old(ring_offsets)@), old(polygon_offsets)@),
            runs(runs(coords@, ring_offsets@), polygon_offsets@) == polygons_before
                + polygons.model().take(i as int),
            coords@.len() == old(coords)@.len() + total_len2(polygons.model().take(i as int)),
            run_count(ring_offsets@) == run_count(old(ring_offsets)@) + total_len(
                polygons.model().take(i as int),
            ),
            old(coords)@.len() + total_len2(polygons.model()) <= old(
                ring_offsets,
            ).spec_width().limit(),
            run_count(old(ring_offsets)@) + total_len(polygons.model()) <= old(
                polygon_offsets,
            ).spec_width().limit(),
            coords.spec_coord_type() == old(coords).spec_coord_type(),
            ring_offsets.spec_width() == old(ring_offsets).spec_width(),
            polygon_offsets.spec_width() == old(polygon_offsets).spec_width(),
        decreases n - i,
    {
        let polygon = polygons.polygon(i).unwrap();
        proof {
            lemma_total_len_step(polygons.model(), i as int);
            lemma_total_len_prefix(polygons.model(), i + 1);
            lemma_total_len2_step(polygons.model(), i as int);
            lemma_total_len2_prefix(polygons.model(), i + 1);
        }
        let ghost rings_then = runs(coords@, ring_offsets@);
        push_polygon_run(coords, ring_offsets, polygon_offsets, &polygon);
        proof {
            assert(runs(coords@, ring_offsets@).len() == rings_then.len() + polygon.model().len());
            assert(polygons_before + polygons.model().take(i + 1) =~= (polygons_before
                + polygons.model().take(i as int)).push(polygons.model()[i as int]));
        }
        i += 1;
    }
    proof {
        assert(polygons.model().take(n as int) =~= polygons.model());
        assert(polygons_before.len() == run_count(old(polygon_offsets)@));
        lemma_close_run(polygons_before, polygons.model(), old(geom_offsets)@);
    }
    let pushed = geom_offsets.try_push_usize(n);
}

/// The runs that offsets delimit hold, all together, the items between the
/// first offset and the last.
pub proof fn lemma_runs_total<T>(child: Seq<T>, offsets: Seq<int>)
    requires
        offsets_wf(offsets),
        offsets.last() <= child.len(),
    ensures
        total_len(runs(child, offsets)) == offsets.last() - offsets[0],
    decreases offsets.len(),
{
    if offsets.len() > 1 {
        let front = offsets.drop_last();
        assert(front[0] == offsets[0]);
        assert(front.last() == offsets[offsets.len() - 2]);
        lemma_runs_total(child, front);
        assert(runs(child, offsets).drop_last() =~= runs(child, front));
        assert(runs(child, offsets).last() == child.subrange(
            offsets[offsets.len() - 2],
            offsets.last(),
        ));
    } else {
        assert(runs(child, offsets) =~= Seq::<Seq<T>>::empty());
    }
}

/// The total of a stretch of parts that ends where another begins adds up.
pub proof fn lemma_total_len_split<T>(parts: Seq<Seq<T>>, a: int, b: int, c: int)
    requires
        0 <= a <= b <= c <= parts.len(),
    ensures
        total_len(parts.subrange(a, c)) == total_len(parts.subrange(a, b)) + total_len(
            parts.subrange(b, c),
        ),
    decreases c - b,
{
    if b < c {
        lemma_total_len_split(parts, a, b, c - 1);
        assert(parts.subrange(a, c).drop_last() =~= parts.subrange(a, c - 1));
        assert(parts.subrange(b, c).drop_last() =~= parts.subrange(b, c - 1));
        assert(parts.subrange(a, c).last() == parts[c - 1]);
        assert(parts.subrange(b, c).last() == parts[c - 1]);
    } else {
        assert(parts.subrange(b, c) =~= Seq::<Seq<T>>::empty());
        assert(parts.subrange(a, c) =~= parts.subrange(a, b));
    }
}

/// Offsets that cover a child exactly are fixed by the runs that they delimit:
/// each is the number of items in the runs before it, and the child holds as
/// many items as the runs together.
pub proof fn lemma_offsets_are_totals<T>(child: Seq<T>, offsets: Seq<int>, k: int)
    requires
        covers_exactly(offsets, child.len()),
        0 <= k < offsets.len(),
    ensures
        offsets[k] == total_len(runs(child, offsets).take(k)),
        child.len() == total_len(runs(child, offsets)),
    decreases k,
{
    let parts = runs(child, offsets);
    lemma_runs_total(child, offsets);
    if k == 0 {
        assert(parts.take(0) =~= Seq::<Seq<T>>::empty());
        lemma_total_len_empty::<T>();
    } else {
        lemma_offsets_are_totals(child, offsets, k - 1);
        lemma_total_len_step(parts, k - 1);
        assert(offsets[k - 1] <= offsets[k] <= offsets.last());
        assert(parts[k - 1].len() == offsets[k] - offsets[k - 1]);
    }
}

/// The runs that offsets delimit, put one after the other, are the child again
/// where the offsets cover it exactly.
pub proof fn lemma_flat_runs<T>(child: Seq<T>, offsets: Seq<int>)
    requires
        covers_exactly(offsets, child.len()),
    ensures
        flat(runs(child, offsets)) == child,
    decreases offsets.len(),
{
    let parts = runs(child, offsets);
    if offsets.len() == 1 {
        assert(parts =~= Seq::<Seq<T>>::empty());
        assert(child =~= Seq::<T>::empty());
    } else {
        let front = offsets.drop_last();
        let cut = front.last();
        assert(cut == offsets[offsets.len() - 2]);
        assert(0 <= cut <= offsets.last());
        let head = child.take(cut);
        assert(front[0] == offsets[0]);
        lemma_flat_runs(head, front);
        assert(runs(head, front) =~= parts.drop_last()) by {
            assert forall|i: int| 0 <= i < run_count(front) implies run(head, front, i) == run(
                child,
                offsets,
                i,
            ) by {
                assert(front[i] == offsets[i]);
                assert(front[i + 1] == offsets[i + 1]);
                assert(0 <= offsets[i] <= offsets[i + 1] <= cut);
                assert(head.subrange(offsets[i], offsets[i + 1]) =~= child.subrange(
                    offsets[i],
                    offsets[i + 1],
                ));
            }
        }
        assert(parts.last() == child.subrange(cut, offsets.last()));
        assert(head + child.subrange(cut, offsets.last()) =~= child);
    }
}

/// The runs that offsets delimit over parts hold, two levels down, what the
/// parts between the first offset and the last hold.
pub proof fn lemma_runs_total2<T>(parts: Seq<Seq<T>>, offsets: Seq<int>)
    requires
        offsets_wf(offsets),
        offsets.last() <= parts.len(),
    ensures
        total_len2(runs(parts, offsets)) == total_len(
            parts.subrange(offsets[0], offsets.last()),
        ),
    decreases offsets.len(),
{
    if offsets.len() > 1 {
        let front = offsets.drop_last();
        assert(front[0] == offsets[0]);
        assert(front.last() == offsets[offsets.len() - 2]);
        lemma_runs_total2(parts, front);
        assert(runs(parts, offsets).drop_last() =~= runs(parts, front));
        assert(runs(parts, offsets).last() == parts.subrange(
            offsets[offsets.len() - 2],
            offsets.last(),
        ));
        lemma_total_len_split(parts, offsets[0], offsets[offsets.len() - 2], offsets.last());
    } else {
        assert(runs(parts, offsets) =~= Seq::<Seq<Seq<T>>>::empty());
        assert(parts.subrange(offsets[0], offsets.last()) =~= Seq::<Seq<T>>::empty());
    }
}

} // verus!
