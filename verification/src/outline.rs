use crate::primative::{closed_chain, ImtGeometry, ImtPoint};
use vstd::prelude::*;

verus! {

/// A control point of a contour, in design units.
#[derive(Clone, Copy, Debug, PartialEq, Eq, Structural)]
pub struct ImtContourPoint {
    pub x: i16,
    pub y: i16,
    pub on_curve: bool,
}

/// The range of the offsets by which a component of a glyph is placed.
pub open spec fn offset_ok(o: int) -> bool {
    -0x1_0000 <= o <= 0x1_0000
}

/// The control point `p`, moved by the offset.
pub open spec fn placed(p: ImtContourPoint, gox: int, goy: int) -> ImtPoint {
    ImtPoint { x: ((p.x + gox) * 1024) as i32, y: ((p.y + goy) * 1024) as i32 }
}

/// The point half way between `p` and `q`, moved by the offset.
pub open spec fn midway(p: ImtContourPoint, q: ImtContourPoint, gox: int, goy: int) -> ImtPoint {
    ImtPoint {
        x: ((p.x + q.x) * 512 + gox * 1024) as i32,
        y: ((p.y + q.y) * 512 + goy * 1024) as i32,
    }
}

/// The index after `j` in a contour of `n` points.
pub open spec fn next_index(n: int, j: int) -> int {
    if j == n - 1 {
        0
    } else {
        j + 1
    }
}

/// The index before `j` in a contour of `n` points.
pub open spec fn prev_index(n: int, j: int) -> int {
    if j == 0 {
        n - 1
    } else {
        j - 1
    }
}

/// The end, towards its neighbour `k`, of the curve about the off-curve point
/// `j`: the neighbour itself where it lies on the curve, else the point half
/// way to it.
pub open spec fn anchor(c: Seq<ImtContourPoint>, j: int, k: int, gox: int, goy: int) -> ImtPoint {
    if c[k].on_curve {
        placed(c[k], gox, goy)
    } else {
        midway(c[k], c[j], gox, goy)
    }
}

/// What the point `j` of the contour `c` gives: a curve about an off-curve
/// point, a line from an on-curve point to an on-curve successor, nothing
/// from an on-curve point with an off-curve successor.
pub open spec fn contour_piece(c: Seq<ImtContourPoint>, j: int, gox: int, goy: int) -> Seq<
    ImtGeometry,
> {
    let n = c.len() as int;
    if !c[j].on_curve {
        seq![
            ImtGeometry::Curve(
                [
                    anchor(c, j, prev_index(n, j), gox, goy),
                    placed(c[j], gox, goy),
                    anchor(c, j, next_index(n, j), gox, goy),
                ],
            ),
        ]
    } else if c[next_index(n, j)].on_curve {
        seq![ImtGeometry::Line([placed(c[j], gox, goy), placed(c[next_index(n, j)], gox, goy)])]
    } else {
        seq![]
    }
}

/// The pieces that the first `j` points of the contour give, in order.
pub open spec fn contour_pieces(c: Seq<ImtContourPoint>, j: int, gox: int, goy: int) -> Seq<
    ImtGeometry,
>
    decreases j,
{
    if j <= 0 {
        seq![]
    } else {
        contour_pieces(c, j - 1, gox, goy) + contour_piece(c, j - 1, gox, goy)
    }
}

/// The outline of one contour.
pub open spec fn contour_geometry(c: Seq<ImtContourPoint>, gox: int, goy: int) -> Seq<ImtGeometry> {
    contour_pieces(c, c.len() as int, gox, goy)
}

fn place(p: &ImtContourPoint, gox: i32, goy: i32) -> (r: ImtPoint)
    requires
        offset_ok(gox as int),
        offset_ok(goy as int),
    ensures
        r == placed(*p, gox as int, goy as int),
        r.x == (p.x + gox) * 1024,
        r.y == (p.y + goy) * 1024,
{
    ImtPoint { x: (p.x as i32 + gox) * 1024, y: (p.y as i32 + goy) * 1024 }
}

fn anchor_point(neighbour: &ImtContourPoint, p: &ImtContourPoint, gox: i32, goy: i32) -> (r:
    ImtPoint)
    requires
        offset_ok(gox as int),
        offset_ok(goy as int),
    ensures
        r == if neighbour.on_curve {
            placed(*neighbour, gox as int, goy as int)
        } else {
            midway(*neighbour, *p, gox as int, goy as int)
        },
{
    if neighbour.on_curve {
        place(neighbour, gox, goy)
    } else {
        ImtPoint {
            x: (neighbour.x as i32 + p.x as i32) * 512 + gox * 1024,
            y: (neighbour.y as i32 + p.y as i32) * 512 + goy * 1024,
        }
    }
}

/// Appends the outline of the contour to `out`.
pub fn draw_contour(contour: &Vec<ImtContourPoint>, gox: i32, goy: i32, out: &mut Vec<ImtGeometry>)
    requires
        offset_ok(gox as int),
        offset_ok(goy as int),
    ensures
        final(out)@ == old(out)@ + contour_geometry(contour@, gox as int, goy as int),
{
    let n = contour.len();
    let mut j: usize = 0;
    while j < n
        invariant
            j <= n,
            n == contour.len(),
            offset_ok(gox as int),
            offset_ok(goy as int),
            out@ == old(out)@ + contour_pieces(contour@, j as int, gox as int, goy as int),
        decreases n - j,
    {
        let ghost before = out@;
        let p = contour[j];
        let n_i = if j == n - 1 {
            0
        } else {
            j + 1
        };
        if !p.on_curve {
            let p_i = if j == 0 {
                n - 1
            } else {
                j - 1
            };
            let a = anchor_point(&contour[p_i], &p, gox, goy);
            let c = anchor_point(&contour[n_i], &p, gox, goy);
            let b = place(&p, gox, goy);
            out.push(ImtGeometry::Curve([a, b, c]));
        } else if contour[n_i].on_curve {
            let a = place(&p, gox, goy);
            let b = place(&contour[n_i], gox, goy);
            out.push(ImtGeometry::Line([a, b]));
        }
        proof {
            let piece = contour_piece(contour@, j as int, gox as int, goy as int);
            assert(out@ =~= before + piece);
            assert(out@ =~= old(out)@ + (contour_pieces(contour@, j as int, gox as int, goy as int)
                + piece));
        }
        j += 1;
    }
}

/// Where the outline passes from the point `a` of a contour to its successor `b`.
pub open spec fn junction(c: Seq<ImtContourPoint>, a: int, b: int, gox: int, goy: int) -> ImtPoint {
    if c[b].on_curve {
        placed(c[b], gox, goy)
    } else if c[a].on_curve {
        placed(c[a], gox, goy)
    } else {
        midway(c[a], c[b], gox, goy)
    }
}

/// Where the outline stands before the point `j` of the contour is visited.
pub open spec fn cursor(c: Seq<ImtContourPoint>, j: int, gox: int, goy: int) -> ImtPoint {
    let n = c.len() as int;
    if j <= 0 {
        junction(c, n - 1, 0, gox, goy)
    } else {
        junction(c, j - 1, next_index(n, j - 1), gox, goy)
    }
}

/// Each piece begins where the one before it ended.
pub open spec fn linked(g: Seq<ImtGeometry>) -> bool {
    forall|i: int| 0 <= i < g.len() - 1 ==> (#[trigger] g[i]).end() == g[i + 1].start()
}

proof fn lemma_piece_ends(c: Seq<ImtContourPoint>, j: int, gox: int, goy: int)
    requires
        0 <= j < c.len(),
    ensures
        ({
            let e = contour_piece(c, j, gox, goy);
            let n = c.len() as int;
            &&& e.len() <= 1
            &&& e.len() == 1 ==> e[0].start() == cursor(c, j, gox, goy) && e[0].end() == cursor(
                c,
                j + 1,
                gox,
                goy,
            )
            &&& e.len() == 0 ==> cursor(c, j, gox, goy) == cursor(c, j + 1, gox, goy)
                && c[j].on_curve && !c[next_index(n, j)].on_curve
        }),
{
    let n = c.len() as int;
    let p = prev_index(n, j);
    let q = next_index(n, j);
    assert(cursor(c, j, gox, goy) == junction(c, p, j, gox, goy));
    assert(cursor(c, j + 1, gox, goy) == junction(c, j, q, gox, goy));
}

proof fn lemma_pieces_linked(c: Seq<ImtContourPoint>, j: int, gox: int, goy: int)
    requires
        0 <= j <= c.len(),
    ensures
        ({
            let g = contour_pieces(c, j, gox, goy);
            let n = c.len() as int;
            &&& linked(g)
            &&& g.len() > 0 ==> g[0].start() == cursor(c, 0, gox, goy) && g.last().end() == cursor(
                c,
                j,
                gox,
                goy,
            )
            &&& g.len() == 0 ==> cursor(c, j, gox, goy) == cursor(c, 0, gox, goy)
                && forall|i: int|
                    0 <= i < j ==> (#[trigger] c[i]).on_curve && !c[next_index(n, i)].on_curve
        }),
    decreases j,
{
    if j > 0 {
        lemma_pieces_linked(c, j - 1, gox, goy);
        lemma_piece_ends(c, j - 1, gox, goy);
        let before = contour_pieces(c, j - 1, gox, goy);
        let e = contour_piece(c, j - 1, gox, goy);
        let g = contour_pieces(c, j, gox, goy);
        assert(g == before + e);
        if e.len() == 0 {
            assert(g =~= before);
        } else {
            assert(g =~= before.push(e[0]));
            assert forall|i: int| 0 <= i < g.len() - 1 implies (#[trigger] g[i]).end() == g[i
                + 1].start() by {
                if i < before.len() - 1 {
                    assert(g[i] == before[i]);
                    assert(g[i + 1] == before[i + 1]);
                }
            }
        }
    }
}

/// The outline of a contour of at least one point is a closed chain: its
/// last piece ends where its first begins.
pub proof fn lemma_contour_closed(c: Seq<ImtContourPoint>, gox: int, goy: int)
    requires
        c.len() > 0,
    ensures
        closed_chain(contour_geometry(c, gox, goy)),
{
    let n = c.len() as int;
    lemma_pieces_linked(c, n, gox, goy);
    let g = contour_geometry(c, gox, goy);
    if g.len() == 0 {
        let k = next_index(n, 0);
        assert(c[0].on_curve && !c[k].on_curve);
        assert(c[k].on_curve);
    }
    assert(cursor(c, n, gox, goy) == cursor(c, 0, gox, goy));
}

} // verus!
