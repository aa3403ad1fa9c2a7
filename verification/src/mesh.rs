//! Triangle index lists of the meshes the machine is drawn with.
//!
//! Vertex positions are floating point and are laid out by the renderer; the
//! order in which it lays them out is fixed, and these lists say which
//! vertices form each triangle of that layout.

use vstd::prelude::*;

verus! {

/// How a quad over the four vertices `b .. b+3` of a two-row strip (`b`,
/// `b+1` one column, `b+2`, `b+3` the next) is split into two triangles.
#[derive(Clone, Copy, Debug, PartialEq, Eq, Structural)]
pub enum QuadSplit {
    /// `(b, b+1, b+3)`, `(b, b+3, b+2)`.
    Forward,
    /// `(b, b+3, b+1)`, `(b, b+2, b+3)`: the opposite facing.
    Backward,
    /// `Forward`'s two triangles in the other order.
    ForwardSwapped,
    /// `Backward`'s two triangles in the other order.
    BackwardSwapped,
}

/// The six indices of the quad at `b`.
pub open spec fn quad(b: int, split: QuadSplit) -> Seq<int> {
    match split {
        QuadSplit::Forward => seq![b, b + 1, b + 3, b, b + 3, b + 2],
        QuadSplit::Backward => seq![b, b + 3, b + 1, b, b + 2, b + 3],
        QuadSplit::ForwardSwapped => seq![b, b + 3, b + 2, b, b + 1, b + 3],
        QuadSplit::BackwardSwapped => seq![b, b + 2, b + 3, b, b + 3, b + 1],
    }
}

/// A strip of `segments` quads over vertex pairs starting at `base`.
pub open spec fn ladder(base: int, segments: nat, split: QuadSplit) -> Seq<int>
    decreases segments,
{
    if segments == 0 {
        Seq::empty()
    } else {
        ladder(base, (segments - 1) as nat, split) + quad(base + 2 * (segments - 1), split)
    }
}

/// An index list, read as integers.
pub open spec fn as_ints(v: Seq<u32>) -> Seq<int> {
    v.map_values(|x: u32| x as int)
}

/// Every index of `s` names one of the first `count` vertices.
pub open spec fn indices_below(s: Seq<int>, count: int) -> bool {
    forall|k: int| 0 <= k < s.len() ==> 0 <= #[trigger] s[k] < count
}

/// A strip only uses its own `2·(segments + 1)` vertices.
proof fn lemma_ladder_in_range(base: int, segments: nat, split: QuadSplit)
    requires
        base >= 0,
    ensures
        ladder(base, segments, split).len() == 6 * segments,
        forall|k: int|
            0 <= k < ladder(base, segments, split).len() ==> base <= #[trigger] ladder(
                base,
                segments,
                split,
            )[k] < base + 2 * segments + 2,
    decreases segments,
{
    if segments > 0 {
        lemma_ladder_in_range(base, (segments - 1) as nat, split);
    }
}

/// Appends the quad at `b`.
fn push_quad(idx: &mut Vec<u32>, b: u32, split: QuadSplit)
    requires
        b + 3 <= u32::MAX,
    ensures
        as_ints(final(idx)@) == as_ints(old(idx)@) + quad(b as int, split),
{
    match split {
        QuadSplit::Forward => {
            idx.push(b);
            idx.push(b + 1);
            idx.push(b + 3);
            idx.push(b);
            idx.push(b + 3);
            idx.push(b + 2);
        },
        QuadSplit::Backward => {
            idx.push(b);
            idx.push(b + 3);
            idx.push(b + 1);
            idx.push(b);
            idx.push(b + 2);
            idx.push(b + 3);
        },
        QuadSplit::ForwardSwapped => {
            idx.push(b);
            idx.push(b + 3);
            idx.push(b + 2);
            idx.push(b);
            idx.push(b + 1);
            idx.push(b + 3);
        },
        QuadSplit::BackwardSwapped => {
            idx.push(b);
            idx.push(b + 2);
            idx.push(b + 3);
            idx.push(b);
            idx.push(b + 3);
            idx.push(b + 1);
        },
    }
    assert(as_ints(idx@) =~= as_ints(old(idx)@) + quad(b as int, split));
}

/// Appends a strip of `segments` quads starting at vertex `base`.
fn push_ladder(idx: &mut Vec<u32>, base: u32, segments: u32, split: QuadSplit)
    requires
        base + 2 * segments + 1 <= u32::MAX,
    ensures
        as_ints(final(idx)@) == as_ints(old(idx)@) + ladder(base as int, segments as nat, split),
{
    let ghost start = as_ints(idx@);
    let mut i: u32 = 0;
    while i < segments
        invariant
            base + 2 * segments + 1 <= u32::MAX,
            i <= segments,
            as_ints(idx@) == start + ladder(base as int, i as nat, split),
        decreases segments - i,
    {
        push_quad(idx, base + i * 2, split);
        assert(start + ladder(base as int, (i + 1) as nat, split) =~= start + ladder(
            base as int,
            i as nat,
            split,
        ) + quad(base + 2 * i, split));
        i = i + 1;
    }
}

/// A strip of `segments` quads covers its vertex pairs in order: quad `k`
/// is the quad over vertices `base + 2k .. base + 2k + 3`, so index `6k` of
/// the strip is `base + 2k`.
pub proof fn lemma_strip_quads_step_through_the_vertex_pairs(
    base: int,
    segments: nat,
    split: QuadSplit,
    k: int,
    j: int,
)
    requires
        0 <= k < segments,
        0 <= j < 6,
    ensures
        ladder(base, segments, split).len() == 6 * segments,
        ladder(base, segments, split)[6 * k + j] == quad(base + 2 * k, split)[j],
        ladder(base, segments, split)[6 * k] == base + 2 * k,
        base + 2 * k <= ladder(base, segments, split)[6 * k + j] <= base + 2 * k + 3,
    decreases segments,
{
    lemma_ladder_len(base, segments, split);
    if k < segments - 1 {
        lemma_strip_quads_step_through_the_vertex_pairs(base, (segments - 1) as nat, split, k, j);
        lemma_ladder_len(base, (segments - 1) as nat, split);
    } else {
        lemma_ladder_len(base, (segments - 1) as nat, split);
    }
}

/// Length of a strip: six indices per quad.
proof fn lemma_ladder_len(base: int, segments: nat, split: QuadSplit)
    ensures
        ladder(base, segments, split).len() == 6 * segments,
    decreases segments,
{
    if segments > 0 {
        lemma_ladder_len(base, (segments - 1) as nat, split);
    }
}

/// Every segment of the yoke ring is drawn: on the outer wall, segment `k`
/// is the two triangles `(2k, 2k+1, 2k+3)` and `(2k, 2k+3, 2k+2)`, and the
/// inner wall, top cap and bottom cap start their segment `k` at vertex
/// `2k` of their own strip of `2·(segments + 1)` vertices.
pub proof fn lemma_every_ring_segment_is_drawn(segments: nat, k: int, strip: int)
    requires
        0 <= k < segments,
        0 <= strip < 4,
    ensures
        ({
            let r = spec_ring_mesh_indices(segments);
            &&& r.len() == 24 * segments
            &&& r[6 * k] == 2 * k
            &&& r[6 * k + 1] == 2 * k + 1
            &&& r[6 * k + 2] == 2 * k + 3
            &&& r[6 * k + 3] == 2 * k
            &&& r[6 * k + 4] == 2 * k + 3
            &&& r[6 * k + 5] == 2 * k + 2
            &&& r[6 * segments * strip + 6 * k] == 2 * (segments + 1) * strip + 2 * k
        }),
{
    let w: int = (2 * (segments + 1)) as int;
    let a = ladder(0, segments, QuadSplit::Forward);
    let b = ladder(w, segments, QuadSplit::Backward);
    let c = ladder(2 * w, segments, QuadSplit::Forward);
    let d = ladder(3 * w, segments, QuadSplit::Backward);
    lemma_ladder_len(0, segments, QuadSplit::Forward);
    lemma_ladder_len(w, segments, QuadSplit::Backward);
    lemma_ladder_len(2 * w, segments, QuadSplit::Forward);
    lemma_ladder_len(3 * w, segments, QuadSplit::Backward);
    let r = spec_ring_mesh_indices(segments);
    assert(r == a + b + c + d);
    let n6: int = (6 * segments) as int;
    assert forall|j: int| 0 <= j < 6 implies #[trigger] r[6 * k + j] == a[6 * k + j] by {
        lemma_strip_quads_step_through_the_vertex_pairs(0, segments, QuadSplit::Forward, k, j);
    }
    lemma_strip_quads_step_through_the_vertex_pairs(0, segments, QuadSplit::Forward, k, 0);
    assert(r[6 * k + 0] == a[6 * k + 0]);
    assert(r[6 * k + 1] == a[6 * k + 1]);
    assert(r[6 * k + 2] == a[6 * k + 2]);
    assert(r[6 * k + 3] == a[6 * k + 3]);
    assert(r[6 * k + 4] == a[6 * k + 4]);
    assert(r[6 * k + 5] == a[6 * k + 5]);
    lemma_strip_quads_step_through_the_vertex_pairs(0, segments, QuadSplit::Forward, k, 1);
    lemma_strip_quads_step_through_the_vertex_pairs(0, segments, QuadSplit::Forward, k, 2);
    lemma_strip_quads_step_through_the_vertex_pairs(0, segments, QuadSplit::Forward, k, 3);
    lemma_strip_quads_step_through_the_vertex_pairs(0, segments, QuadSplit::Forward, k, 4);
    lemma_strip_quads_step_through_the_vertex_pairs(0, segments, QuadSplit::Forward, k, 5);
    assert(6 * segments * strip == n6 * strip);
    if strip == 0 {
        assert(r[n6 * strip + 6 * k] == a[6 * k]);
    } else if strip == 1 {
        lemma_strip_quads_step_through_the_vertex_pairs(w, segments, QuadSplit::Backward, k, 0);
        assert(r[n6 + 6 * k] == b[6 * k]);
    } else if strip == 2 {
        lemma_strip_quads_step_through_the_vertex_pairs(2 * w, segments, QuadSplit::Forward, k, 0);
        assert(r[2 * n6 + 6 * k] == c[6 * k]);
    } else {
        lemma_strip_quads_step_through_the_vertex_pairs(3 * w, segments, QuadSplit::Backward, k, 0);
        assert(r[3 * n6 + 6 * k] == d[6 * k]);
    }
}

/// Indices of a full ring (annulus) extruded along the axis: outer wall,
/// inner wall, top cap, bottom cap, each a strip of `segments` quads.
pub open spec fn spec_ring_mesh_indices(segments: nat) -> Seq<int> {
    let w: int = (2 * (segments + 1)) as int;
    ladder(0, segments, QuadSplit::Forward) + ladder(w, segments, QuadSplit::Backward) + ladder(
        2 * w,
        segments,
        QuadSplit::Forward,
    ) + ladder(3 * w, segments, QuadSplit::Backward)
}

/// Vertices of a ring mesh: four strips of `segments + 1` vertex pairs.
pub open spec fn ring_vertex_count(segments: nat) -> int {
    8 * (segments + 1) as int
}

/// Triangle indices of the stator yoke ring.
pub fn ring_mesh_indices(segments: u32) -> (r: Vec<u32>)
    requires
        8 * (segments + 1) + 8 <= u32::MAX,
    ensures
        as_ints(r@) == spec_ring_mesh_indices(segments as nat),
{
    let w: u32 = 2 * (segments + 1);
    let mut idx: Vec<u32> = Vec::new();
    assert(as_ints(idx@) =~= Seq::<int>::empty());
    push_ladder(&mut idx, 0, segments, QuadSplit::Forward);
    push_ladder(&mut idx, w, segments, QuadSplit::Backward);
    push_ladder(&mut idx, 2 * w, segments, QuadSplit::Forward);
    push_ladder(&mut idx, 3 * w, segments, QuadSplit::Backward);
    assert(as_ints(idx@) =~= spec_ring_mesh_indices(segments as nat));
    idx
}

/// Indices of a tooth: the ring's four strips over a sector, then the two
/// radial side walls, one quad each.
pub open spec fn spec_tooth_mesh_indices(segments: nat) -> Seq<int> {
    let side = ring_vertex_count(segments);
    spec_ring_mesh_indices(segments) + quad(side, QuadSplit::Forward) + quad(
        side + 4,
        QuadSplit::Backward,
    )
}

/// Triangle indices of one stator tooth.
pub fn tooth_mesh_indices(segments: u32) -> (r: Vec<u32>)
    requires
        8 * (segments + 1) + 8 <= u32::MAX,
    ensures
        as_ints(r@) == spec_tooth_mesh_indices(segments as nat),
{
    let mut idx = ring_mesh_indices(segments);
    let side = 8 * (segments + 1);
    push_quad(&mut idx, side, QuadSplit::Forward);
    push_quad(&mut idx, side + 4, QuadSplit::Backward);
    idx
}

/// Indices of a rotor pole sector: outer and inner walls, top and bottom
/// caps, then the radial faces at the start and end of the sweep.
pub open spec fn spec_rotor_sector_indices(segments: nat) -> Seq<int> {
    let w: int = (2 * (segments + 1)) as int;
    let side = 4 * w;
    ladder(0, segments, QuadSplit::Backward) + ladder(w, segments, QuadSplit::Forward) + ladder(
        2 * w,
        segments,
        QuadSplit::Forward,
    ) + ladder(3 * w, segments, QuadSplit::Backward) + quad(side, QuadSplit::ForwardSwapped)
        + quad(side + 4, QuadSplit::BackwardSwapped)
}

/// Triangle indices of one rotor pole sector.
pub fn rotor_sector_indices(segments: u32) -> (r: Vec<u32>)
    requires
        8 * (segments + 1) + 8 <= u32::MAX,
    ensures
        as_ints(r@) == spec_rotor_sector_indices(segments as nat),
{
    let w: u32 = 2 * (segments + 1);
    let mut idx: Vec<u32> = Vec::new();
    assert(as_ints(idx@) =~= Seq::<int>::empty());
    push_ladder(&mut idx, 0, segments, QuadSplit::Backward);
    push_ladder(&mut idx, w, segments, QuadSplit::Forward);
    push_ladder(&mut idx, 2 * w, segments, QuadSplit::Forward);
    push_ladder(&mut idx, 3 * w, segments, QuadSplit::Backward);
    push_quad(&mut idx, 4 * w, QuadSplit::ForwardSwapped);
    push_quad(&mut idx, 4 * w + 4, QuadSplit::BackwardSwapped);
    assert(as_ints(idx@) =~= spec_rotor_sector_indices(segments as nat));
    idx
}

/// Every index of a ring, tooth or rotor sector names one of its vertices.
pub proof fn lemma_solid_meshes_index_their_own_vertices(segments: nat)
    ensures
        indices_below(spec_ring_mesh_indices(segments), ring_vertex_count(segments)),
        indices_below(spec_tooth_mesh_indices(segments), ring_vertex_count(segments) + 8),
        indices_below(spec_rotor_sector_indices(segments), ring_vertex_count(segments) + 8),
        spec_ring_mesh_indices(segments).len() == 24 * segments,
        spec_tooth_mesh_indices(segments).len() == 24 * segments + 12,
        spec_rotor_sector_indices(segments).len() == 24 * segments + 12,
{
    let w: int = (2 * (segments + 1)) as int;
    lemma_ladder_in_range(0, segments, QuadSplit::Forward);
    lemma_ladder_in_range(0, segments, QuadSplit::Backward);
    lemma_ladder_in_range(w, segments, QuadSplit::Forward);
    lemma_ladder_in_range(w, segments, QuadSplit::Backward);
    lemma_ladder_in_range(2 * w, segments, QuadSplit::Forward);
    lemma_ladder_in_range(3 * w, segments, QuadSplit::Backward);
    let a = ladder(0, segments, QuadSplit::Forward);
    let b = ladder(w, segments, QuadSplit::Backward);
    let c = ladder(2 * w, segments, QuadSplit::Forward);
    let d = ladder(3 * w, segments, QuadSplit::Backward);
    let ring = spec_ring_mesh_indices(segments);
    assert forall|k: int| 0 <= k < ring.len() implies 0 <= #[trigger] ring[k] < ring_vertex_count(
        segments,
    ) by {
        if k < a.len() {
            assert(ring[k] == a[k]);
        } else if k < a.len() + b.len() {
            assert(ring[k] == b[k - a.len()]);
        } else if k < a.len() + b.len() + c.len() {
            assert(ring[k] == c[k - a.len() - b.len()]);
        } else {
            assert(ring[k] == d[k - a.len() - b.len() - c.len()]);
        }
    }
    let tooth = spec_tooth_mesh_indices(segments);
    assert forall|k: int| 0 <= k < tooth.len() implies 0 <= #[trigger] tooth[k]
        < ring_vertex_count(segments) + 8 by {
        if k < ring.len() {
            assert(tooth[k] == ring[k]);
        }
    }
    let ra = ladder(0, segments, QuadSplit::Backward);
    let rb = ladder(w, segments, QuadSplit::Forward);
    let rotor = spec_rotor_sector_indices(segments);
    assert forall|k: int| 0 <= k < rotor.len() implies 0 <= #[trigger] rotor[k]
        < ring_vertex_count(segments) + 8 by {
        if k < ra.len() {
            assert(rotor[k] == ra[k]);
        } else if k < ra.len() + rb.len() {
            assert(rotor[k] == rb[k - ra.len()]);
        } else if k < ra.len() + rb.len() + c.len() {
            assert(rotor[k] == c[k - ra.len() - rb.len()]);
        } else if k < ra.len() + rb.len() + c.len() + d.len() {
            assert(rotor[k] == d[k - ra.len() - rb.len() - c.len()]);
        }
    }
}

/// The quad of a cap grid whose inner corner is `ii`, the outer ring
/// `stride` vertices further on; `top` caps face up, bottom caps down.
pub open spec fn grid_quad(ii: int, stride: int, top: bool) -> Seq<int> {
    let oi = ii + stride;
    if top {
        seq![ii, ii + 1, oi + 1, ii, oi + 1, oi]
    } else {
        seq![ii, oi + 1, ii + 1, ii, oi, oi + 1]
    }
}

/// One ring band of a cap grid: `count` quads starting at vertex `start`.
pub open spec fn grid_row(start: int, stride: int, count: nat, top: bool) -> Seq<int>
    decreases count,
{
    if count == 0 {
        Seq::empty()
    } else {
        grid_row(start, stride, (count - 1) as nat, top) + grid_quad(
            start + count - 1,
            stride,
            top,
        )
    }
}

/// A cap grid of `rows` ring bands of `segments` quads, rings `stride`
/// vertices apart, starting at vertex `base`.
pub open spec fn grid(base: int, stride: int, rows: nat, segments: nat, top: bool) -> Seq<int>
    decreases rows,
{
    if rows == 0 {
        Seq::empty()
    } else {
        grid(base, stride, (rows - 1) as nat, segments, top) + grid_row(
            base + (rows - 1) * stride,
            stride,
            segments,
            top,
        )
    }
}

/// Indices of an MMF field lobe: the top and bottom caps, each a grid of
/// `rings` radial rings of `segments + 1` vertices, then the outer and inner
/// walls as strips.
pub open spec fn spec_field_sector_indices(segments: nat, rings: nat) -> Seq<int> {
    let stride: int = (segments + 1) as int;
    let walls: int = 2 * rings * stride;
    grid(0, stride, (rings - 1) as nat, segments, true) + grid(
        rings * stride,
        stride,
        (rings - 1) as nat,
        segments,
        false,
    ) + ladder(walls, segments, QuadSplit::Forward) + ladder(
        walls + 2 * stride,
        segments,
        QuadSplit::Backward,
    )
}

/// Vertices of a field lobe: two caps of `rings` rings and two walls of two
/// rows, each row `segments + 1` vertices.
pub open spec fn field_sector_vertex_count(segments: nat, rings: nat) -> int {
    ((2 * rings + 4) * (segments + 1)) as int
}

/// Appends one ring band of a cap grid.
fn push_grid_row(idx: &mut Vec<u32>, start: u32, stride: u32, count: u32, top: bool)
    requires
        start + stride + count + 1 <= u32::MAX,
    ensures
        as_ints(final(idx)@) == as_ints(old(idx)@) + grid_row(
            start as int,
            stride as int,
            count as nat,
            top,
        ),
{
    let ghost before = as_ints(idx@);
    let mut i: u32 = 0;
    while i < count
        invariant
            start + stride + count + 1 <= u32::MAX,
            i <= count,
            as_ints(idx@) == before + grid_row(start as int, stride as int, i as nat, top),
        decreases count - i,
    {
        let ii = start + i;
        let oi = ii + stride;
        let ghost prev = idx@;
        if top {
            idx.push(ii);
            idx.push(ii + 1);
            idx.push(oi + 1);
            idx.push(ii);
            idx.push(oi + 1);
            idx.push(oi);
        } else {
            idx.push(ii);
            idx.push(oi + 1);
            idx.push(ii + 1);
            idx.push(ii);
            idx.push(oi);
            idx.push(oi + 1);
        }
        assert(as_ints(idx@) =~= as_ints(prev) + grid_quad(ii as int, stride as int, top));
        assert(before + grid_row(start as int, stride as int, (i + 1) as nat, top) =~= before
            + grid_row(start as int, stride as int, i as nat, top) + grid_quad(
            ii as int,
            stride as int,
            top,
        ));
        i = i + 1;
    }
}

/// Appends a cap grid.
fn push_grid(idx: &mut Vec<u32>, base: u32, stride: u32, rows: u32, segments: u32, top: bool)
    requires
        base + (rows + 1) * stride + segments + 1 <= u32::MAX,
    ensures
        as_ints(final(idx)@) == as_ints(old(idx)@) + grid(
            base as int,
            stride as int,
            rows as nat,
            segments as nat,
            top,
        ),
{
    let ghost before = as_ints(idx@);
    let mut ring: u32 = 0;
    while ring < rows
        invariant
            base + (rows + 1) * stride + segments + 1 <= u32::MAX,
            ring <= rows,
            as_ints(idx@) == before + grid(
                base as int,
                stride as int,
                ring as nat,
                segments as nat,
                top,
            ),
        decreases rows - ring,
    {
        proof {
            assert(ring * stride + stride <= (rows + 1) * stride) by (nonlinear_arith)
                requires
                    ring < rows,
            ;
            assert(ring * stride >= 0) by (nonlinear_arith);
        }
        let start = base + ring * stride;
        push_grid_row(idx, start, stride, segments, top);
        assert(before + grid(base as int, stride as int, (ring + 1) as nat, segments as nat, top)
            =~= before + grid(base as int, stride as int, ring as nat, segments as nat, top)
            + grid_row(start as int, stride as int, segments as nat, top));
        ring = ring + 1;
    }
}

/// Triangle indices of an MMF field lobe with `rings` radial rings.
pub fn field_sector_indices(segments: u32, rings: u32) -> (r: Vec<u32>)
    requires
        rings >= 1,
        (2 * rings + 4) * (segments + 1) <= u32::MAX,
    ensures
        as_ints(r@) == spec_field_sector_indices(segments as nat, rings as nat),
{
    proof {
        let st = segments + 1;
        assert(rings * st >= 0) by (nonlinear_arith)
            requires
                st == segments + 1,
                segments >= 0,
                rings >= 0,
        ;
        assert(2 * (rings * st) == 2 * rings * st) by (nonlinear_arith);
        assert(2 * (rings * st) + 2 * st + 2 * segments + 1 <= (2 * rings + 4) * st)
            by (nonlinear_arith)
            requires
                st == segments + 1,
        ;
        assert(((rings - 1) + 1) * st == rings * st);
    }
    let stride = segments + 1;
    let band = rings * stride;
    let walls = 2 * band;
    let mut idx: Vec<u32> = Vec::new();
    assert(as_ints(idx@) =~= Seq::<int>::empty());
    push_grid(&mut idx, 0, stride, rings - 1, segments, true);
    push_grid(&mut idx, band, stride, rings - 1, segments, false);
    push_ladder(&mut idx, walls, segments, QuadSplit::Forward);
    push_ladder(&mut idx, walls + 2 * stride, segments, QuadSplit::Backward);
    assert(as_ints(idx@) =~= spec_field_sector_indices(segments as nat, rings as nat));
    idx
}

/// A cap grid only uses its own `(rows + 1)` rings.
proof fn lemma_grid_in_range(base: int, stride: int, rows: nat, segments: nat, top: bool)
    requires
        base >= 0,
        stride == segments + 1,
    ensures
        grid(base, stride, rows, segments, top).len() == 6 * rows * segments,
        forall|k: int|
            0 <= k < grid(base, stride, rows, segments, top).len() ==> base <= #[trigger] grid(
                base,
                stride,
                rows,
                segments,
                top,
            )[k] < base + (rows + 1) * stride,
    decreases rows,
{
    if rows == 0 {
        assert(6 * rows * segments == 0) by (nonlinear_arith)
            requires
                rows == 0,
        ;
    } else {
        let r1 = (rows - 1) as nat;
        lemma_grid_in_range(base, stride, r1, segments, top);
        let start = base + r1 * stride;
        assert(r1 * stride >= 0) by (nonlinear_arith)
            requires
                stride >= 1,
        ;
        lemma_grid_row_in_range(start, stride, segments, top);
        assert((r1 + 1) * stride == r1 * stride + stride) by (nonlinear_arith);
        assert((rows + 1) * stride == r1 * stride + 2 * stride) by (nonlinear_arith)
            requires
                r1 == rows - 1,
        ;
        assert(6 * rows * segments == 6 * r1 * segments + 6 * segments) by (nonlinear_arith)
            requires
                r1 == rows - 1,
        ;
        let g = grid(base, stride, rows, segments, top);
        let head = grid(base, stride, r1, segments, top);
        let tail = grid_row(start, stride, segments, top);
        assert forall|k: int| 0 <= k < g.len() implies base <= #[trigger] g[k] < base + (rows + 1)
            * stride by {
            if k < head.len() {
                assert(g[k] == head[k]);
            } else {
                assert(g[k] == tail[k - head.len()]);
            }
        }
    }
}

/// A ring band reaches from its start to the far end of the next ring.
proof fn lemma_grid_row_in_range(start: int, stride: int, count: nat, top: bool)
    requires
        start >= 0,
        stride >= count + 1,
    ensures
        grid_row(start, stride, count, top).len() == 6 * count,
        forall|k: int|
            0 <= k < grid_row(start, stride, count, top).len() ==> start <= #[trigger] grid_row(
                start,
                stride,
                count,
                top,
            )[k] <= start + stride + count,
    decreases count,
{
    if count > 0 {
        lemma_grid_row_in_range(start, stride, (count - 1) as nat, top);
    }
}

/// Every index of a field lobe names one of its vertices.
pub proof fn lemma_field_sector_indexes_its_own_vertices(segments: nat, rings: nat)
    requires
        rings >= 1,
    ensures
        indices_below(
            spec_field_sector_indices(segments, rings),
            field_sector_vertex_count(segments, rings),
        ),
{
    let stride: int = (segments + 1) as int;
    let r1 = (rings - 1) as nat;
    let band: int = rings * stride;
    let walls: int = 2 * rings * stride;
    assert(band >= 0 && walls == 2 * band) by (nonlinear_arith)
        requires
            band == rings * stride,
            walls == 2 * rings * stride,
            stride >= 1,
    ;
    assert((r1 + 1) * stride == band);
    assert(field_sector_vertex_count(segments, rings) == walls + 4 * stride) by (nonlinear_arith)
        requires
            walls == 2 * rings * stride,
            stride == segments + 1,
    ;
    lemma_grid_in_range(0, stride, r1, segments, true);
    lemma_grid_in_range(band, stride, r1, segments, false);
    lemma_ladder_in_range(walls, segments, QuadSplit::Forward);
    lemma_ladder_in_range(walls + 2 * stride, segments, QuadSplit::Backward);
    let a = grid(0, stride, r1, segments, true);
    let b = grid(band, stride, r1, segments, false);
    let c = ladder(walls, segments, QuadSplit::Forward);
    let d = ladder(walls + 2 * stride, segments, QuadSplit::Backward);
    let all = spec_field_sector_indices(segments, rings);
    assert forall|k: int| 0 <= k < all.len() implies 0 <= #[trigger] all[k]
        < field_sector_vertex_count(segments, rings) by {
        if k < a.len() {
            assert(all[k] == a[k]);
        } else if k < a.len() + b.len() {
            assert(all[k] == b[k - a.len()]);
        } else if k < a.len() + b.len() + c.len() {
            assert(all[k] == c[k - a.len() - b.len()]);
        } else {
            assert(all[k] == d[k - a.len() - b.len() - c.len()]);
        }
    }
}

/// The quad of an endwinding tube between ring `i` and ring `i + 1` at
/// cross-section vertex `j`, wrapping round the `ring_verts` of a ring.
pub open spec fn tube_quad(i: int, j: int, ring_verts: int) -> Seq<int> {
    let a = i * ring_verts + j;
    let b = i * ring_verts + (j + 1) % ring_verts;
    let c = (i + 1) * ring_verts + j;
    let d = (i + 1) * ring_verts + (j + 1) % ring_verts;
    seq![a, c, b, b, c, d]
}

/// The first `count` quads joining ring `i` to ring `i + 1`.
pub open spec fn tube_band(i: int, ring_verts: int, count: nat) -> Seq<int>
    decreases count,
{
    if count == 0 {
        Seq::empty()
    } else {
        tube_band(i, ring_verts, (count - 1) as nat) + tube_quad(i, count - 1, ring_verts)
    }
}

/// Indices of a tube of `rings + 1` rings of `ring_verts` vertices: every
/// consecutive pair of rings joined all the way round.
pub open spec fn spec_tube_indices(rings: nat, ring_verts: nat) -> Seq<int>
    decreases rings,
{
    if rings == 0 {
        Seq::empty()
    } else {
        spec_tube_indices((rings - 1) as nat, ring_verts) + tube_band(
            rings - 1,
            ring_verts as int,
            ring_verts,
        )
    }
}

/// Triangle indices of an endwinding tube: `rings` bands joining `rings + 1`
/// cross-section rings of `ring_verts` vertices each.
pub fn tube_indices(rings: u32, ring_verts: u32) -> (r: Vec<u32>)
    requires
        (rings + 1) * ring_verts <= u32::MAX,
    ensures
        as_ints(r@) == spec_tube_indices(rings as nat, ring_verts as nat),
{
    let mut idx: Vec<u32> = Vec::new();
    let mut i: u32 = 0;
    while i < rings
        invariant
            (rings + 1) * ring_verts <= u32::MAX,
            i <= rings,
            as_ints(idx@) == spec_tube_indices(i as nat, ring_verts as nat),
        decreases rings - i,
    {
        let ghost band_start = as_ints(idx@);
        let mut j: u32 = 0;
        while j < ring_verts
            invariant
                (rings + 1) * ring_verts <= u32::MAX,
                i < rings,
                j <= ring_verts,
                band_start == spec_tube_indices(i as nat, ring_verts as nat),
                as_ints(idx@) == band_start + tube_band(i as int, ring_verts as int, j as nat),
            decreases ring_verts - j,
        {
            proof {
                assert((i + 2) * ring_verts <= (rings + 1) * ring_verts) by (nonlinear_arith)
                    requires
                        i < rings,
                ;
                assert((i + 1) * ring_verts == i * ring_verts + ring_verts) by (nonlinear_arith);
                assert((i + 2) * ring_verts == (i + 1) * ring_verts + ring_verts)
                    by (nonlinear_arith);
                assert(i * ring_verts >= 0) by (nonlinear_arith);
                vstd::arithmetic::div_mod::lemma_mod_bound((j + 1) as int, ring_verts as int);
            }
            let next = (j + 1) % ring_verts;
            let a = i * ring_verts + j;
            let b = i * ring_verts + next;
            let c = (i + 1) * ring_verts + j;
            let d = (i + 1) * ring_verts + next;
            let ghost prev = idx@;
            idx.push(a);
            idx.push(c);
            idx.push(b);
            idx.push(b);
            idx.push(c);
            idx.push(d);
            assert(as_ints(idx@) =~= as_ints(prev) + tube_quad(
                i as int,
                j as int,
                ring_verts as int,
            ));
            assert(band_start + tube_band(i as int, ring_verts as int, (j + 1) as nat) =~= band_start
                + tube_band(i as int, ring_verts as int, j as nat) + tube_quad(
                i as int,
                j as int,
                ring_verts as int,
            ));
            j = j + 1;
        }
        assert(spec_tube_indices((i + 1) as nat, ring_verts as nat) =~= band_start + tube_band(
            i as int,
            ring_verts as int,
            ring_verts as nat,
        ));
        i = i + 1;
    }
    idx
}

/// One tube band only joins its own two rings.
proof fn lemma_tube_band_in_range(i: int, ring_verts: int, count: nat)
    requires
        0 <= i,
        count <= ring_verts,
    ensures
        tube_band(i, ring_verts, count).len() == 6 * count,
        forall|k: int|
            0 <= k < tube_band(i, ring_verts, count).len() ==> i * ring_verts <= #[trigger] tube_band(
                i,
                ring_verts,
                count,
            )[k] < (i + 2) * ring_verts,
    decreases count,
{
    if count > 0 {
        lemma_tube_band_in_range(i, ring_verts, (count - 1) as nat);
        let j = count - 1;
        vstd::arithmetic::div_mod::lemma_mod_bound(j + 1, ring_verts);
        assert((i + 1) * ring_verts == i * ring_verts + ring_verts) by (nonlinear_arith);
        assert((i + 2) * ring_verts == (i + 1) * ring_verts + ring_verts) by (nonlinear_arith);
    }
}

/// Every index of a tube names one of its `(rings + 1)·ring_verts`
/// vertices.
pub proof fn lemma_tube_indexes_its_own_vertices(rings: nat, ring_verts: nat)
    ensures
        indices_below(spec_tube_indices(rings, ring_verts), ((rings + 1) * ring_verts) as int),
        spec_tube_indices(rings, ring_verts).len() == 6 * rings * ring_verts,
    decreases rings,
{
    if rings == 0 {
        assert(6 * rings * ring_verts == 0) by (nonlinear_arith)
            requires
                rings == 0,
        ;
    } else {
        let r1 = (rings - 1) as nat;
        lemma_tube_indexes_its_own_vertices(r1, ring_verts);
        lemma_tube_band_in_range(r1 as int, ring_verts as int, ring_verts);
        assert((r1 + 1) * ring_verts <= (rings + 1) * ring_verts) by (nonlinear_arith)
            requires
                r1 == rings - 1,
        ;
        assert((r1 + 2) * ring_verts == (rings + 1) * ring_verts) by (nonlinear_arith)
            requires
                r1 == rings - 1,
        ;
        assert(r1 * ring_verts >= 0) by (nonlinear_arith);
        assert(6 * rings * ring_verts == 6 * r1 * ring_verts + 6 * ring_verts) by (nonlinear_arith)
            requires
                r1 == rings - 1,
        ;
        let all = spec_tube_indices(rings, ring_verts);
        let head = spec_tube_indices(r1, ring_verts);
        let tail = tube_band(r1 as int, ring_verts as int, ring_verts);
        assert forall|k: int| 0 <= k < all.len() implies 0 <= #[trigger] all[k] < (rings + 1)
            * ring_verts by {
            if k < head.len() {
                assert(all[k] == head[k]);
            } else {
                assert(all[k] == tail[k - head.len()]);
            }
        }
    }
}

} // verus!
