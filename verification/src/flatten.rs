use crate::outline::{contour_geometry, lemma_contour_closed, linked, ImtContourPoint};
use crate::primative::{closed_chain, ImtGeometry, ImtPoint};
use crate::scale::{ceil_div, div_ceil, lemma_floor_ceil, ImtScale};
use vstd::arithmetic::div_mod::{lemma_fundamental_div_mod, lemma_fundamental_div_mod_converse};
use vstd::prelude::*;

verus! {

/// One coordinate of the quadratic curve through `a` and `c` with control
/// `b`, at the `k`th of `n` equal steps of its parameter, rounded down.
pub open spec fn curve_coord(a: int, b: int, c: int, k: int, n: int) -> int {
    ((n - k) * (n - k) * a + 2 * (n - k) * k * b + k * k * c) / (n * n)
}

/// The point of the curve at the `k`th of `n` steps.
pub open spec fn curve_point(a: ImtPoint, b: ImtPoint, c: ImtPoint, k: int, n: int) -> ImtPoint {
    ImtPoint {
        x: curve_coord(a.x as int, b.x as int, c.x as int, k, n) as i32,
        y: curve_coord(a.y as int, b.y as int, c.y as int, k, n) as i32,
    }
}

/// A curve begins at its first point and ends at its last.
pub proof fn lemma_curve_ends(a: ImtPoint, b: ImtPoint, c: ImtPoint, n: int)
    requires
        n > 0,
    ensures
        curve_point(a, b, c, 0, n) == a,
        curve_point(a, b, c, n, n) == c,
{
    lemma_coord_ends(a.x as int, b.x as int, c.x as int, n);
    lemma_coord_ends(a.y as int, b.y as int, c.y as int, n);
}

proof fn lemma_coord_ends(a: int, b: int, c: int, n: int)
    requires
        n > 0,
    ensures
        curve_coord(a, b, c, 0, n) == a,
        curve_coord(a, b, c, n, n) == c,
{
    let nn = n * n;
    assert(nn > 0) by (nonlinear_arith)
        requires
            n > 0,
            nn == n * n,
    ;
    assert((n - 0) * (n - 0) * a + 2 * (n - 0) * 0 * b + 0 * 0 * c == a * nn + 0) by (nonlinear_arith)
        requires
            nn == n * n,
    ;
    assert((n - n) * (n - n) * a + 2 * (n - n) * n * b + n * n * c == c * nn + 0) by (nonlinear_arith)
        requires
            nn == n * n,
    ;
    lemma_fundamental_div_mod_converse(a * nn + 0, nn, a, 0);
    lemma_fundamental_div_mod_converse(c * nn + 0, nn, c, 0);
}

fn min3(a: i32, b: i32, c: i32) -> (m: i32)
    ensures
        m <= a && m <= b && m <= c,
        m == a || m == b || m == c,
{
    let m = if a < b {
        a
    } else {
        b
    };
    if m < c {
        m
    } else {
        c
    }
}

fn coord_at(a: i32, b: i32, c: i32, k: u32, n: u32) -> (r: i32)
    requires
        0 < n,
        k <= n,
    ensures
        r == curve_coord(a as int, b as int, c as int, k as int, n as int),
{
    let lo = min3(a, b, c);
    let da: u128 = (a as i64 - lo as i64) as u128;
    let db: u128 = (b as i64 - lo as i64) as u128;
    let dc: u128 = (c as i64 - lo as i64) as u128;
    let j: u128 = (n - k) as u128;
    let k: u128 = k as u128;
    let n: u128 = n as u128;
    assert(j * j <= 0xffff_ffff * 0xffff_ffff && j * k <= 0xffff_ffff * 0xffff_ffff && k * k
        <= 0xffff_ffff * 0xffff_ffff && n * n <= 0xffff_ffff * 0xffff_ffff && n * n > 0)
        by (nonlinear_arith)
        requires
            j <= 0xffff_ffff,
            k <= 0xffff_ffff,
            0 < n <= 0xffff_ffff,
    ;
    let w0: u128 = j * j;
    let w1: u128 = 2 * (j * k);
    let w2: u128 = k * k;
    let nn: u128 = n * n;
    assert(w0 + w1 + w2 == nn) by (nonlinear_arith)
        requires
            w0 == j * j,
            w1 == 2 * (j * k),
            w2 == k * k,
            nn == n * n,
            j + k == n,
    ;
    assert(w0 * da <= 0xffff_ffff * 0xffff_ffff * 0xffff_ffff && w1 * db <= 2 * 0xffff_ffff
        * 0xffff_ffff * 0xffff_ffff && w2 * dc <= 0xffff_ffff * 0xffff_ffff * 0xffff_ffff)
        by (nonlinear_arith)
        requires
            w0 <= 0xffff_ffff * 0xffff_ffff,
            w1 <= 2 * 0xffff_ffff * 0xffff_ffff,
            w2 <= 0xffff_ffff * 0xffff_ffff,
            da <= 0xffff_ffff,
            db <= 0xffff_ffff,
            dc <= 0xffff_ffff,
    ;
    let num: u128 = w0 * da + w1 * db + w2 * dc;
    let q: u128 = num / nn;
    proof {
        let whole = (n - k) * (n - k) * a + 2 * (n - k) * k * b + k * k * c;
        let r = (num % nn) as int;
        lemma_fundamental_div_mod(num as int, nn as int);
        assert(whole == w0 * a + w1 * b + w2 * c) by (nonlinear_arith)
            requires
                whole == (n - k) * (n - k) * a + 2 * (n - k) * k * b + k * k * c,
                w0 == j * j,
                w1 == 2 * (j * k),
                w2 == k * k,
                j == n - k,
        ;
        assert(w0 * da == w0 * a - w0 * lo) by (nonlinear_arith)
            requires
                da == a - lo,
        ;
        assert(w1 * db == w1 * b - w1 * lo) by (nonlinear_arith)
            requires
                db == b - lo,
        ;
        assert(w2 * dc == w2 * c - w2 * lo) by (nonlinear_arith)
            requires
                dc == c - lo,
        ;
        assert((q + lo) * nn == nn * q + (w0 * lo + w1 * lo + w2 * lo)) by (nonlinear_arith)
            requires
                w0 + w1 + w2 == nn,
        ;
        assert(whole == (q + lo) * nn + r);
        lemma_fundamental_div_mod_converse(whole, nn as int, q + lo, r);
        assert(num <= 0xffff_ffff * nn) by (nonlinear_arith)
            requires
                num == w0 * da + w1 * db + w2 * dc,
                w0 + w1 + w2 == nn,
                da <= 0xffff_ffff,
                db <= 0xffff_ffff,
                dc <= 0xffff_ffff,
        ;
        assert(q <= 0xffff_ffff) by (nonlinear_arith)
            requires
                num <= 0xffff_ffff * nn,
                num == nn * q + r,
                r >= 0,
                nn > 0,
        ;
        assert(q + lo <= 0x7fff_ffff) by {
            let hi: int = if a >= b && a >= c {
                a as int
            } else if b >= c {
                b as int
            } else {
                c as int
            };
            assert(num <= (hi - lo) * nn) by (nonlinear_arith)
                requires
                    num == w0 * da + w1 * db + w2 * dc,
                    w0 + w1 + w2 == nn,
                    0 <= da <= hi - lo,
                    0 <= db <= hi - lo,
                    0 <= dc <= hi - lo,
            ;
            assert(q <= hi - lo) by (nonlinear_arith)
                requires
                    num <= (hi - lo) * nn,
                    num == nn * q + r,
                    r >= 0,
                    nn > 0,
            ;
        }
    }
    (lo as i64 + q as i64) as i32
}

/// The point of the curve at the `k`th of `n` steps.
pub fn curve_at(a: &ImtPoint, b: &ImtPoint, c: &ImtPoint, k: u32, n: u32) -> (p: ImtPoint)
    requires
        0 < n,
        k <= n,
    ensures
        p == curve_point(*a, *b, *c, k as int, n as int),
{
    ImtPoint { x: coord_at(a.x, b.x, c.x, k, n), y: coord_at(a.y, b.y, c.y, k, n) }
}

/// The number of steps of the trial that measures a curve.
pub const IMT_PILOT_STEPS: u32 = 10;

/// The length of the first `k` of the ten lines that stand for the curve
/// when it is measured.
pub open spec fn pilot_length(a: ImtPoint, b: ImtPoint, c: ImtPoint, k: int) -> int
    decreases k,
{
    if k <= 0 {
        0
    } else {
        pilot_length(a, b, c, k - 1) + curve_point(a, b, c, k - 1, IMT_PILOT_STEPS as int).spec_dist(
            curve_point(a, b, c, k, IMT_PILOT_STEPS as int),
        )
    }
}

/// Into how many lines the curve is cut at scale `s`: twice its measured
/// length in pixels, rounded up, and three at least.
pub open spec fn chord_count(a: ImtPoint, b: ImtPoint, c: ImtPoint, s: ImtScale) -> int {
    let n = ceil_div(
        2 * pilot_length(a, b, c, IMT_PILOT_STEPS as int) * s.num(),
        s.den() * 1024,
    );
    if n < 3 {
        3
    } else {
        n
    }
}

/// `chord_count` of the curve.
pub fn count_chords(a: &ImtPoint, b: &ImtPoint, c: &ImtPoint, s: &ImtScale) -> (n: u64)
    ensures
        n == chord_count(*a, *b, *c, *s),
{
    let mut length: u64 = 0;
    let mut last = *a;
    let mut k: u32 = 1;
    proof {
        lemma_curve_ends(*a, *b, *c, IMT_PILOT_STEPS as int);
    }
    while k <= IMT_PILOT_STEPS
        invariant
            1 <= k <= IMT_PILOT_STEPS + 1,
            last == curve_point(*a, *b, *c, k - 1, IMT_PILOT_STEPS as int),
            length == pilot_length(*a, *b, *c, k - 1),
            length <= (k - 1) * 0x2_0000_0000,
        decreases IMT_PILOT_STEPS + 1 - k,
    {
        let next = curve_at(a, b, c, k, IMT_PILOT_STEPS);
        length = length + last.dist(&next);
        last = next;
        k = k + 1;
    }
    let num = s.numerator();
    let den = s.denominator();
    assert(2 * length * num <= 0x4000_0000_0000_0000) by (nonlinear_arith)
        requires
            length <= 10 * 0x2_0000_0000,
            num < 0x100_0000,
    ;
    let n = div_ceil((2 * length * num as u64) as i64, den * 1024);
    proof {
        lemma_floor_ceil(2 * length * num, den * 1024);
        assert(n >= 0) by (nonlinear_arith)
            requires
                2 * length * num <= n * (den * 1024),
                den > 0,
                2 * length * num >= 0,
        ;
    }
    if n < 3 {
        3
    } else {
        n as u64
    }
}

/// The `n` lines into which a curve is cut.
pub open spec fn chords(a: ImtPoint, b: ImtPoint, c: ImtPoint, n: int) -> Seq<(ImtPoint, ImtPoint)> {
    Seq::new(
        if n > 0 {
            n as nat
        } else {
            0
        },
        |k: int| (curve_point(a, b, c, k, n), curve_point(a, b, c, k + 1, n)),
    )
}

/// The lines that stand for one piece of an outline at scale `s`.
pub open spec fn piece_lines(g: ImtGeometry, s: ImtScale) -> Seq<(ImtPoint, ImtPoint)> {
    match g {
        ImtGeometry::Line(p) => seq![(p[0], p[1])],
        ImtGeometry::Curve(p) => chords(p[0], p[1], p[2], chord_count(p[0], p[1], p[2], s)),
    }
}

/// Whether the piece can be cut: a curve of at most 2^32 - 1 lines.
pub open spec fn piece_fits(g: ImtGeometry, s: ImtScale) -> bool {
    g matches ImtGeometry::Curve(p) ==> chord_count(p[0], p[1], p[2], s) <= u32::MAX
}

/// The lines that stand for the first `i` pieces of an outline.
pub open spec fn outline_lines(g: Seq<ImtGeometry>, i: int, s: ImtScale) -> Seq<
    (ImtPoint, ImtPoint),
>
    decreases i,
{
    if i <= 0 {
        seq![]
    } else {
        outline_lines(g, i - 1, s) + piece_lines(g[i - 1], s)
    }
}

/// Whether every curve of the outline can be cut into lines.
pub open spec fn outline_fits(g: Seq<ImtGeometry>, s: ImtScale) -> bool {
    forall|i: int| 0 <= i < g.len() ==> piece_fits(#[trigger] g[i], s)
}

/// An outline has lines exactly where it has pieces.
pub proof fn lemma_outline_lines_empty(g: Seq<ImtGeometry>, i: int, s: ImtScale)
    requires
        0 <= i <= g.len(),
    ensures
        outline_lines(g, i, s).len() == 0 <==> i == 0,
    decreases i,
{
    if i > 0 {
        lemma_outline_lines_empty(g, i - 1, s);
        lemma_piece_lines(g[i - 1], s);
    }
}

/// Appends the line from `a` to `b`.
pub fn draw_line(lines: &mut Vec<(ImtPoint, ImtPoint)>, a: &ImtPoint, b: &ImtPoint)
    ensures
        final(lines)@ == old(lines)@.push((*a, *b)),
{
    lines.push((ImtPoint { x: a.x, y: a.y }, ImtPoint { x: b.x, y: b.y }));
}

/// Appends the `n` lines into which the curve is cut.
pub fn draw_curve(
    lines: &mut Vec<(ImtPoint, ImtPoint)>,
    a: &ImtPoint,
    b: &ImtPoint,
    c: &ImtPoint,
    n: u32,
)
    requires
        n > 0,
    ensures
        final(lines)@ == old(lines)@ + chords(*a, *b, *c, n as int),
{
    let mut last = *a;
    let mut k: u32 = 0;
    proof {
        lemma_curve_ends(*a, *b, *c, n as int);
    }
    while k < n
        invariant
            k <= n,
            n > 0,
            last == curve_point(*a, *b, *c, k as int, n as int),
            lines@ == old(lines)@ + chords(*a, *b, *c, n as int).take(k as int),
        decreases n - k,
    {
        let ghost before = lines@;
        let next = curve_at(a, b, c, k + 1, n);
        draw_line(lines, &last, &next);
        last = next;
        proof {
            let all = chords(*a, *b, *c, n as int);
            assert(all.take(k + 1) =~= all.take(k as int).push(all[k as int]));
            assert(lines@ =~= old(lines)@ + all.take(k + 1));
        }
        k = k + 1;
    }
    proof {
        let all = chords(*a, *b, *c, n as int);
        assert(all.take(n as int) =~= all);
    }
}

/// Appends the lines that stand for the piece at scale `s`, unless it is a
/// curve of too many lines: then nothing is appended.
pub fn draw_geometry(lines: &mut Vec<(ImtPoint, ImtPoint)>, geo: &ImtGeometry, s: &ImtScale) -> (fits:
    bool)
    ensures
        fits == piece_fits(*geo, *s),
        fits ==> final(lines)@ == old(lines)@ + piece_lines(*geo, *s),
        !fits ==> final(lines)@ == old(lines)@,
{
    match geo {
        ImtGeometry::Line(points) => {
            draw_line(lines, &points[0], &points[1]);
            proof {
                assert(lines@ =~= old(lines)@ + piece_lines(*geo, *s));
            }
            true
        },
        ImtGeometry::Curve(points) => {
            let n = count_chords(&points[0], &points[1], &points[2], s);
            if n > u32::MAX as u64 {
                false
            } else {
                draw_curve(lines, &points[0], &points[1], &points[2], n as u32);
                true
            }
        },
    }
}

/// Each line begins where the one before it ended.
pub open spec fn linked_lines(l: Seq<(ImtPoint, ImtPoint)>) -> bool {
    forall|i: int| 0 <= i < l.len() - 1 ==> (#[trigger] l[i]).1 == l[i + 1].0
}

/// Whether the lines form a closed chain: each begins where the one before
/// it ended, and the first where the last ended.
pub open spec fn closed_polygon(l: Seq<(ImtPoint, ImtPoint)>) -> bool {
    &&& l.len() > 0
    &&& linked_lines(l)
    &&& l.last().1 == l[0].0
}

/// The lines of a piece lead from its start to its end.
pub proof fn lemma_piece_lines(g: ImtGeometry, s: ImtScale)
    ensures
        piece_lines(g, s).len() > 0,
        linked_lines(piece_lines(g, s)),
        piece_lines(g, s)[0].0 == g.start(),
        piece_lines(g, s).last().1 == g.end(),
{
    match g {
        ImtGeometry::Line(p) => {},
        ImtGeometry::Curve(p) => {
            let n = chord_count(p[0], p[1], p[2], s);
            lemma_curve_ends(p[0], p[1], p[2], n);
        },
    }
}

proof fn lemma_outline_linked(g: Seq<ImtGeometry>, i: int, s: ImtScale)
    requires
        linked(g),
        0 <= i <= g.len(),
    ensures
        linked_lines(outline_lines(g, i, s)),
        i > 0 ==> outline_lines(g, i, s).len() > 0 && outline_lines(g, i, s)[0].0 == g[0].start()
            && outline_lines(g, i, s).last().1 == g[i - 1].end(),
    decreases i,
{
    if i > 0 {
        lemma_outline_linked(g, i - 1, s);
        lemma_piece_lines(g[i - 1], s);
        let before = outline_lines(g, i - 1, s);
        let piece = piece_lines(g[i - 1], s);
        let all = outline_lines(g, i, s);
        assert(all == before + piece);
        if i > 1 {
            assert(g[i - 2].end() == g[i - 2 + 1].start());
        }
        assert forall|k: int| 0 <= k < all.len() - 1 implies (#[trigger] all[k]).1 == all[k
            + 1].0 by {
            if k < before.len() - 1 {
                assert(all[k] == before[k] && all[k + 1] == before[k + 1]);
            } else if k == before.len() - 1 {
                assert(all[k] == before.last() && all[k + 1] == piece[0]);
            } else {
                assert(all[k] == piece[k - before.len()] && all[k + 1] == piece[k - before.len()
                    + 1]);
            }
        }
    }
}

/// Cutting the curves of a closed chain of pieces leaves a closed chain of
/// lines.
pub proof fn lemma_closed_outline(g: Seq<ImtGeometry>, s: ImtScale)
    requires
        closed_chain(g),
    ensures
        closed_polygon(outline_lines(g, g.len() as int, s)),
{
    lemma_outline_linked(g, g.len() as int, s);
}

/// The lines that stand for a contour of at least one point form a closed
/// chain, whatever the scale.
pub proof fn lemma_contour_lines_closed(c: Seq<ImtContourPoint>, gox: int, goy: int, s: ImtScale)
    requires
        c.len() > 0,
    ensures
        closed_polygon(
            outline_lines(
                contour_geometry(c, gox, goy),
                contour_geometry(c, gox, goy).len() as int,
                s,
            ),
        ),
{
    lemma_contour_closed(c, gox, goy);
    lemma_closed_outline(contour_geometry(c, gox, goy), s);
}

} // verus!
