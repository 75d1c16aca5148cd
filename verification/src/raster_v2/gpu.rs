use crate::primative::ImtGeometry;
use crate::raster::cache_key;
use crate::raster_v2::ImtRasterOps;
use crate::scale::{ImtScale, ImtTextHeight};
use std::collections::HashMap;
use vstd::prelude::*;

verus! {

/// The glyphs of a batch that need work, each with the place in the batch
/// where it first stands, in the order of their indices.
#[derive(Debug)]
pub struct ImtBatchPlan {
    /// The glyphs without a bitmap at the text height.
    pub raster: Vec<(u16, usize)>,
    /// Those of them without vertices.
    pub upload: Vec<(u16, usize)>,
}

/// Whether the glyphs of the list increase from each to the next.
pub open spec fn ascending(list: Seq<(u16, usize)>) -> bool {
    forall|a: int, b: int| 0 <= a < b < list.len() ==> (#[trigger] list[a]).0 < (#[trigger] list[b]).0
}

/// Whether the glyph stands in the list.
pub open spec fn listed(list: Seq<(u16, usize)>, glyph: u16) -> bool {
    exists|a: int| 0 <= a < list.len() && (#[trigger] list[a]).0 == glyph
}

/// Whether `at` is the first place of the glyph in the batch.
pub open spec fn first_place(batch: Seq<u16>, glyph: u16, at: int) -> bool {
    &&& 0 <= at < batch.len()
    &&& batch[at] == glyph
    &&& forall|k: int| 0 <= k < at ==> #[trigger] batch[k] != glyph
}

/// Whether `list` is the plan for the first `n` glyphs of the batch, those
/// in `skip` needing no work: it holds each other glyph once, with its
/// first place, in ascending order.
pub open spec fn plans(batch: Seq<u16>, n: int, skip: Set<u16>, list: Seq<(u16, usize)>) -> bool {
    &&& ascending(list)
    &&& forall|a: int|
        0 <= a < list.len() ==> first_place(batch, (#[trigger] list[a]).0, list[a].1 as int)
            && list[a].1 < n && !skip.contains(list[a].0)
    &&& forall|j: int| 0 <= j < n && !skip.contains(#[trigger] batch[j]) ==> listed(list, batch[j])
}

/// Puts the glyph with its place into the ascending list, unless the list
/// holds the glyph already.
fn note(list: &mut Vec<(u16, usize)>, glyph: u16, at: usize)
    requires
        ascending(old(list)@),
    ensures
        ascending(final(list)@),
        listed(old(list)@, glyph) ==> final(list)@ == old(list)@,
        !listed(old(list)@, glyph) ==> exists|p: int|
            0 <= p <= old(list)@.len() && final(list)@ == #[trigger] old(list)@.insert(
                p,
                (glyph, at),
            ),
{
    let mut p: usize = 0;
    while p < list.len() && list[p].0 < glyph
        invariant
            p <= list@.len(),
            list@ == old(list)@,
            forall|a: int| 0 <= a < p ==> (#[trigger] list@[a]).0 < glyph,
        decreases list@.len() - p,
    {
        p += 1;
    }
    if p < list.len() && list[p].0 == glyph {
        assert(listed(list@, glyph));
    } else {
        proof {
            assert forall|a: int| 0 <= a < list@.len() implies (#[trigger] list@[a]).0 != glyph by {
                if a >= p {
                    assert(list@[p as int].0 <= list@[a].0);
                }
            }
        }
        list.insert(p, (glyph, at));
        proof {
            let before = old(list)@;
            let after = list@;
            assert(after == before.insert(p as int, (glyph, at)));
            assert forall|a: int, b: int| 0 <= a < b < after.len() implies (#[trigger] after[a]).0
                < (#[trigger] after[b]).0 by {
                if a < p && b > p {
                    assert(after[a] == before[a] && after[b] == before[b - 1]);
                } else if a > p {
                    assert(after[a] == before[a - 1] && after[b] == before[b - 1]);
                } else if b < p {
                    assert(after[a] == before[a] && after[b] == before[b]);
                } else if a == p {
                    assert(after[b] == before[b - 1]);
                    assert(before[p as int].0 <= before[b - 1].0);
                }
            }
        }
    }
}

proof fn lemma_noted(
    batch: Seq<u16>,
    n: int,
    skip: Set<u16>,
    before: Seq<(u16, usize)>,
    after: Seq<(u16, usize)>,
)
    requires
        0 <= n < batch.len(),
        plans(batch, n, skip, before),
        !skip.contains(batch[n]),
        ascending(after),
        listed(before, batch[n]) ==> after == before,
        !listed(before, batch[n]) ==> exists|p: int|
            0 <= p <= before.len() && after == #[trigger] before.insert(p, (batch[n], n as usize)),
        n <= usize::MAX,
    ensures
        plans(batch, n + 1, skip, after),
{
    let glyph = batch[n];
    if listed(before, glyph) {
    } else {
        let p = choose|p: int|
            0 <= p <= before.len() && after == #[trigger] before.insert(p, (glyph, n as usize));
        assert forall|k: int| 0 <= k < n implies #[trigger] batch[k] != glyph by {
            if batch[k] == glyph {
                assert(listed(before, batch[k]));
            }
        }
        assert forall|a: int| 0 <= a < after.len() implies first_place(
            batch,
            (#[trigger] after[a]).0,
            after[a].1 as int,
        ) && after[a].1 < n + 1 && !skip.contains(after[a].0) by {
            if a < p {
                assert(after[a] == before[a]);
            } else if a > p {
                assert(after[a] == before[a - 1]);
            }
        }
        assert forall|j: int| 0 <= j < n + 1 && !skip.contains(#[trigger] batch[j]) implies listed(
            after,
            batch[j],
        ) by {
            if j == n {
                assert(after[p].0 == glyph);
            } else {
                let a = choose|a: int| 0 <= a < before.len() && (#[trigger] before[a]).0 == batch[j];
                if a < p {
                    assert(after[a] == before[a]);
                } else {
                    assert(after[a + 1] == before[a]);
                }
            }
        }
    }
}

proof fn lemma_skipped(batch: Seq<u16>, n: int, skip: Set<u16>, list: Seq<(u16, usize)>)
    requires
        0 <= n < batch.len(),
        plans(batch, n, skip, list),
        skip.contains(batch[n]),
    ensures
        plans(batch, n + 1, skip, list),
{
}

/// The sizes and bearing of the bitmap that a stencil gives, in pixels.
#[derive(Clone, Copy, Debug, PartialEq, Eq, Structural)]
pub struct ImtStencilMetrics {
    pub width: u32,
    pub height: u32,
    pub bearing_x: i64,
    pub bearing_y: i64,
}

/// The glyphs of a font that a stencil rasterizer has worked on: the
/// vertices of each, none where its outline is empty, and the bitmap of each
/// at each text height.
pub struct ImtRasterGpu<V, B> {
    ops: ImtRasterOps,
    vert_bufs: HashMap<u16, Option<V>>,
    bitmaps: HashMap<u64, B>,
}

impl<V, B> ImtRasterGpu<V, B> {
    /// The choices of the rasterizer.
    pub closed spec fn spec_ops(self) -> ImtRasterOps {
        self.ops
    }

    /// The vertices of each glyph that was worked on, none for an empty
    /// outline.
    pub closed spec fn spec_vert_bufs(self) -> Map<u16, Option<V>> {
        self.vert_bufs@
    }

    /// The bitmaps, by `cache_key`.
    pub closed spec fn spec_bitmaps(self) -> Map<u64, B> {
        self.bitmaps@
    }

    /// The glyphs that have a bitmap at the height.
    pub open spec fn rastered(self, bits: u32) -> Set<u16> {
        Set::new(|g: u16| self.spec_bitmaps().contains_key(cache_key(bits, g)))
    }

    /// The glyphs that have a bitmap at the height, or vertices.
    pub open spec fn uploaded(self, bits: u32) -> Set<u16> {
        Set::new(
            |g: u16|
                self.spec_bitmaps().contains_key(cache_key(bits, g))
                    || self.spec_vert_bufs().contains_key(g),
        )
    }

    /// A rasterizer that has worked on no glyph yet.
    pub fn new(ops: ImtRasterOps) -> (r: Result<Self, crate::error::ImtError>)
        ensures
            r matches Ok(raster) && raster.spec_ops() == ops && raster.spec_vert_bufs() == Map::<
                u16,
                Option<V>,
            >::empty() && raster.spec_bitmaps() == Map::<u64, B>::empty(),
    {
        Ok(ImtRasterGpu { ops, vert_bufs: HashMap::new(), bitmaps: HashMap::new() })
    }

    /// The choices of the rasterizer.
    pub fn ops(&self) -> (o: ImtRasterOps)
        ensures
            o == self.spec_ops(),
    {
        self.ops
    }

    /// What of the batch `glyphs`, the glyph index of each shaped glyph in
    /// order, needs work at the height.
    pub fn plan(&self, glyphs: &Vec<u16>, height: ImtTextHeight) -> (plan: ImtBatchPlan)
        ensures
            plans(glyphs@, glyphs@.len() as int, self.rastered(height.bits()), plan.raster@),
            plans(glyphs@, glyphs@.len() as int, self.uploaded(height.bits()), plan.upload@),
    {
        let bits = height.to_bits();
        let mut raster: Vec<(u16, usize)> = Vec::new();
        let mut upload: Vec<(u16, usize)> = Vec::new();
        let mut i: usize = 0;
        while i < glyphs.len()
            invariant
                i <= glyphs@.len(),
                bits == height.bits(),
                plans(glyphs@, i as int, self.rastered(bits), raster@),
                plans(glyphs@, i as int, self.uploaded(bits), upload@),
            decreases glyphs@.len() - i,
        {
            let glyph = glyphs[i];
            let key = bits as u64 * 0x1_0000 + glyph as u64;
            let ghost raster_before = raster@;
            let ghost upload_before = upload@;
            if !self.bitmaps.contains_key(&key) {
                note(&mut raster, glyph, i);
                proof {
                    lemma_noted(glyphs@, i as int, self.rastered(bits), raster_before, raster@);
                }
                if !self.vert_bufs.contains_key(&glyph) {
                    note(&mut upload, glyph, i);
                    proof {
                        lemma_noted(glyphs@, i as int, self.uploaded(bits), upload_before, upload@);
                    }
                } else {
                    proof {
                        lemma_skipped(glyphs@, i as int, self.uploaded(bits), upload@);
                    }
                }
            } else {
                proof {
                    lemma_skipped(glyphs@, i as int, self.rastered(bits), raster@);
                    lemma_skipped(glyphs@, i as int, self.uploaded(bits), upload@);
                }
            }
            i += 1;
        }
        ImtBatchPlan { raster, upload }
    }

    /// The vertices of the glyph: `None` where none were stored, `Some(None)`
    /// where its outline was found empty.
    pub fn vert_buf(&self, glyph: u16) -> (r: Option<&Option<V>>)
        ensures
            r is Some <==> self.spec_vert_bufs().contains_key(glyph),
            r matches Some(v) ==> *v == self.spec_vert_bufs()[glyph],
    {
        self.vert_bufs.get(&glyph)
    }

    /// Stores the vertices of the glyph, or that it has none.
    pub fn set_vert_buf(&mut self, glyph: u16, vertices: Option<V>)
        ensures
            final(self).spec_vert_bufs() == old(self).spec_vert_bufs().insert(glyph, vertices),
            final(self).spec_bitmaps() == old(self).spec_bitmaps(),
            final(self).spec_ops() == old(self).spec_ops(),
    {
        self.vert_bufs.insert(glyph, vertices);
    }

    /// The bitmap of the glyph at the height.
    pub fn bitmap(&self, glyph: u16, height: ImtTextHeight) -> (r: Option<&B>)
        ensures
            r is Some <==> self.spec_bitmaps().contains_key(cache_key(height.bits(), glyph)),
            r matches Some(b) ==> *b == self.spec_bitmaps()[cache_key(height.bits(), glyph)],
    {
        let key = height.to_bits() as u64 * 0x1_0000 + glyph as u64;
        self.bitmaps.get(&key)
    }

    /// Stores the bitmap of the glyph at the height.
    pub fn set_bitmap(&mut self, glyph: u16, height: ImtTextHeight, bitmap: B)
        ensures
            final(self).spec_bitmaps() == old(self).spec_bitmaps().insert(
                cache_key(height.bits(), glyph),
                bitmap,
            ),
            final(self).spec_vert_bufs() == old(self).spec_vert_bufs(),
            final(self).spec_ops() == old(self).spec_ops(),
    {
        let key = height.to_bits() as u64 * 0x1_0000 + glyph as u64;
        self.bitmaps.insert(key, bitmap);
    }
}

/// The vertices that the pieces before the `i`th need: three for the
/// triangle of a line, six for the two triangles of a curve.
pub open spec fn vertices_needed(g: Seq<ImtGeometry>, i: int) -> int
    decreases i,
{
    if i <= 0 {
        0
    } else {
        vertices_needed(g, i - 1) + if g[i - 1] is Line {
            3int
        } else {
            6int
        }
    }
}

/// `vertices_needed` for the whole outline, where it fits the machine.
pub fn vertex_count(geometry: &Vec<ImtGeometry>) -> (n: Option<usize>)
    ensures
        n is Some <==> vertices_needed(geometry@, geometry@.len() as int) <= usize::MAX,
        n matches Some(count) ==> count == vertices_needed(geometry@, geometry@.len() as int),
{
    let mut count: usize = 0;
    let mut i: usize = 0;
    while i < geometry.len()
        invariant
            i <= geometry@.len(),
            count == vertices_needed(geometry@, i as int),
        decreases geometry@.len() - i,
    {
        let more: usize = match geometry[i] {
            ImtGeometry::Line(_) => 3,
            ImtGeometry::Curve(_) => 6,
        };
        if count > usize::MAX - more {
            proof {
                lemma_vertices_grow(geometry@, i + 1, geometry@.len() as int);
            }
            return None;
        }
        count = count + more;
        i += 1;
    }
    Some(count)
}

proof fn lemma_vertices_grow(g: Seq<ImtGeometry>, i: int, j: int)
    requires
        0 <= i <= j,
    ensures
        vertices_needed(g, i) <= vertices_needed(g, j),
    decreases j - i,
{
    if i < j {
        lemma_vertices_grow(g, i, j - 1);
    }
}

/// The size in pixels of `hi - lo` design units at scale `s`, rounded up;
/// none where `hi` is not above `lo`.
pub open spec fn stencil_side(s: ImtScale, lo: int, hi: int) -> int {
    let e = s.ceil_px(hi - lo);
    if e < 0 {
        0
    } else {
        e
    }
}

/// The size and bearing of the bitmap of a glyph with the box `min_x` to
/// `max_x` by `min_y` to `max_y` and the font's `ascender`, all in design
/// units: the sides of the box in pixels, rounded up, and the bearings
/// rounded down. `None` where a side is nothing or does not fit 32 bits:
/// such a glyph has an empty bitmap.
pub fn stencil_metrics(
    s: &ImtScale,
    min_x: i32,
    min_y: i32,
    max_x: i32,
    max_y: i32,
    ascender: i32,
) -> (r: Option<ImtStencilMetrics>)
    ensures
        ({
            let w = stencil_side(*s, min_x as int, max_x as int);
            let h = stencil_side(*s, min_y as int, max_y as int);
            &&& r is Some <==> 0 < w <= u32::MAX && 0 < h <= u32::MAX
            &&& r matches Some(m) ==> m.width == w && m.height == h && m.bearing_x == s.floor_px(
                min_x as int,
            ) && m.bearing_y == s.floor_px(ascender - max_y)
        }),
{
    let w = s.ceil_pixels(max_x as i64 - min_x as i64);
    let h = s.ceil_pixels(max_y as i64 - min_y as i64);
    if w <= 0 || h <= 0 || w > u32::MAX as i64 || h > u32::MAX as i64 {
        return None;
    }
    Some(
        ImtStencilMetrics {
            width: w as u32,
            height: h as u32,
            bearing_x: s.floor_pixels(min_x as i64),
            bearing_y: s.floor_pixels(ascender as i64 - max_y as i64),
        },
    )
}

} // verus!
