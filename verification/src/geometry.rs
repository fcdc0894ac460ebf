use vstd::prelude::*;
use rug::Rational;
use crate::frac::{
    Frac, frac_eq, frac_le, frac_zero, frac_add, frac_sub, frac_mul, frac_div,
    lemma_frac_eq_trans, lemma_frac_eq_scale, lemma_frac_sub_cong, lemma_frac_add_cong,
    lemma_frac_sign, lemma_frac_div_unit, lemma_frac_div_cong, lemma_mul_pos, lemma_mul_nonneg, lemma_mul_distrib_sub, lemma_mul_distrib_add,
    lemma_mul_comm, lemma_mul3, lemma_mul4, lemma_mul_distrib_sub_left, lemma_mul_expand2,
    lemma_mul_distrib6,
};
use crate::exact::{
    rat_num, rat_den, rat_v, rat_from_int, rat_from_pair, rat_add, rat_sub, rat_mul, rat_div,
    rat_lt, rat_eq, rat_clone,
};

verus! {

// ---------------------------------------------------------------------------
// Specification model: a planar point with exact rational coordinates is
// abstracted as a homogeneous integer triple (x, y, w) with w > 0, denoting
// the point (x/w, y/w). The triple of a `Point` is built from the canonical
// numerator/denominator pairs of its two coordinates.
// ---------------------------------------------------------------------------

/// A point (or vector) `(x/w, y/w)` in homogeneous integer coordinates.
pub ghost struct Pt3 {
    pub x: int,
    pub y: int,
    pub w: int,
}

/// The homogeneous triple denoting the point `(fx, fy)`.
pub open spec fn mk_pt3(fx: Frac, fy: Frac) -> Pt3 {
    Pt3 { x: fx.n * fy.d, y: fy.n * fx.d, w: fx.d * fy.d }
}

/// Two triples denote the same point of the plane.
pub open spec fn pt_eq(a: Pt3, b: Pt3) -> bool {
    a.x * b.w == b.x * a.w && a.y * b.w == b.y * a.w
}

/// The difference `a - b`, as a homogeneous vector.
pub open spec fn hsub(a: Pt3, b: Pt3) -> Pt3 {
    Pt3 { x: a.x * b.w - b.x * a.w, y: a.y * b.w - b.y * a.w, w: a.w * b.w }
}

/// The 2D cross product ("determinant") of two vectors, as an exact fraction.
pub open spec fn cross2(u: Pt3, v: Pt3) -> Frac {
    Frac { n: u.x * v.y - u.y * v.x, d: u.w * v.w }
}

/// The dot product of two vectors, as an exact fraction.
pub open spec fn dot2(u: Pt3, v: Pt3) -> Frac {
    Frac { n: u.x * v.x + u.y * v.y, d: u.w * v.w }
}

/// The orientation determinant of the triple (a, b, c): positive when the
/// walk a -> b -> c turns left (anticlockwise), negative when it turns right,
/// and zero exactly when the three points are collinear.
pub open spec fn det3(a: Pt3, b: Pt3, c: Pt3) -> int {
    a.x * (b.y * c.w - c.y * b.w) - a.y * (b.x * c.w - c.x * b.w) + a.w * (b.x * c.y - c.x * b.y)
}

/// The orientation of point `c` relative to the directed line a -> b:
/// `Some(true)` for left of the line, `Some(false)` for right of it, `None`
/// for exactly on it.
pub open spec fn orient_of(a: Pt3, b: Pt3, c: Pt3) -> Option<bool> {
    if det3(a, b, c) > 0 {
        Some(true)
    } else if det3(a, b, c) < 0 {
        Some(false)
    } else {
        None
    }
}

// ---------------------------------------------------------------------------
// Lemmas about the model.
// ---------------------------------------------------------------------------

/// Swapping the two line points negates the orientation determinant.
pub proof fn lemma_det3_swap(a: Pt3, b: Pt3, c: Pt3)
    ensures
        det3(b, a, c) == -det3(a, b, c),
{
    lemma_mul_distrib_sub_left(a.x, b.y * c.w, c.y * b.w);
    lemma_mul_distrib_sub_left(a.y, b.x * c.w, c.x * b.w);
    lemma_mul_distrib_sub_left(a.w, b.x * c.y, c.x * b.y);
    lemma_mul_distrib_sub_left(b.x, a.y * c.w, c.y * a.w);
    lemma_mul_distrib_sub_left(b.y, a.x * c.w, c.x * a.w);
    lemma_mul_distrib_sub_left(b.w, a.x * c.y, c.x * a.y);
    lemma_mul3(a.y, b.x, c.w);
    lemma_mul3(a.w, b.x, c.y);
    lemma_mul3(a.x, b.y, c.w);
    lemma_mul3(a.w, c.x, b.y);
    lemma_mul3(a.x, c.y, b.w);
    lemma_mul3(a.y, c.x, b.w);
}

/// The cross product of the two difference vectors out of `a` is the
/// orientation determinant, up to the positive factor `a.w`.
pub proof fn lemma_cross2_hsub_det3(a: Pt3, b: Pt3, c: Pt3)
    ensures
        cross2(hsub(b, a), hsub(c, a)).n == a.w * det3(a, b, c),
        cross2(hsub(b, a), hsub(c, a)).d == (b.w * a.w) * (c.w * a.w),
{
    lemma_mul_expand2(b.x * a.w, a.x * b.w, c.y * a.w, a.y * c.w);
    lemma_mul_expand2(b.y * a.w, a.y * b.w, c.x * a.w, a.x * c.w);
    lemma_mul_distrib_sub_left(a.x, b.y * c.w, c.y * b.w);
    lemma_mul_distrib_sub_left(a.y, b.x * c.w, c.x * b.w);
    lemma_mul_distrib_sub_left(a.w, b.x * c.y, c.x * b.y);
    lemma_mul_distrib6(
        a.w,
        a.x * (b.y * c.w),
        a.x * (c.y * b.w),
        a.y * (b.x * c.w),
        a.y * (c.x * b.w),
        a.w * (b.x * c.y),
        a.w * (c.x * b.y),
    );
    assert((b.x * a.w) * (c.y * a.w) == a.w * (a.w * (b.x * c.y))) by (nonlinear_arith);
    assert((b.x * a.w) * (a.y * c.w) == a.w * (a.y * (b.x * c.w))) by (nonlinear_arith);
    assert((a.x * b.w) * (c.y * a.w) == a.w * (a.x * (c.y * b.w))) by (nonlinear_arith);
    assert((a.x * b.w) * (a.y * c.w) == (a.y * b.w) * (a.x * c.w)) by (nonlinear_arith);
    assert((b.y * a.w) * (c.x * a.w) == a.w * (a.w * (c.x * b.y))) by (nonlinear_arith);
    assert((b.y * a.w) * (a.x * c.w) == a.w * (a.x * (b.y * c.w))) by (nonlinear_arith);
    assert((a.y * b.w) * (c.x * a.w) == a.w * (a.y * (c.x * b.w))) by (nonlinear_arith);
}

/// The cross product respects pointwise `pt_eq` of its arguments.
pub proof fn lemma_cross2_cong(u: Pt3, v: Pt3, u2: Pt3, v2: Pt3)
    requires
        pt_eq(u, u2),
        pt_eq(v, v2),
    ensures
        frac_eq(cross2(u, v), cross2(u2, v2)),
{
    assert((u.x * v.y) * (u2.w * v2.w) == (u2.x * v2.y) * (u.w * v.w)) by (nonlinear_arith)
        requires
            u.x * u2.w == u2.x * u.w,
            v.y * v2.w == v2.y * v.w,
    ;
    assert((u.y * v.x) * (u2.w * v2.w) == (u2.y * v2.x) * (u.w * v.w)) by (nonlinear_arith)
        requires
            u.y * u2.w == u2.y * u.w,
            v.x * v2.w == v2.x * v.w,
    ;
    assert((u.x * v.y - u.y * v.x) * (u2.w * v2.w) == (u.x * v.y) * (u2.w * v2.w) - (u.y * v.x)
        * (u2.w * v2.w)) by (nonlinear_arith);
    assert((u2.x * v2.y - u2.y * v2.x) * (u.w * v.w) == (u2.x * v2.y) * (u.w * v.w) - (u2.y * v2.x)
        * (u.w * v.w)) by (nonlinear_arith);
}

/// The dot product respects pointwise `pt_eq` of its arguments.
pub proof fn lemma_dot2_cong(u: Pt3, v: Pt3, u2: Pt3, v2: Pt3)
    requires
        pt_eq(u, u2),
        pt_eq(v, v2),
    ensures
        frac_eq(dot2(u, v), dot2(u2, v2)),
{
    assert((u.x * v.x) * (u2.w * v2.w) == (u2.x * v2.x) * (u.w * v.w)) by (nonlinear_arith)
        requires
            u.x * u2.w == u2.x * u.w,
            v.x * v2.w == v2.x * v.w,
    ;
    assert((u.y * v.y) * (u2.w * v2.w) == (u2.y * v2.y) * (u.w * v.w)) by (nonlinear_arith)
        requires
            u.y * u2.w == u2.y * u.w,
            v.y * v2.w == v2.y * v.w,
    ;
    assert((u.x * v.x + u.y * v.y) * (u2.w * v2.w) == (u.x * v.x) * (u2.w * v2.w) + (u.y * v.y)
        * (u2.w * v2.w)) by (nonlinear_arith);
    assert((u2.x * v2.x + u2.y * v2.y) * (u.w * v.w) == (u2.x * v2.x) * (u.w * v.w) + (u2.y * v2.y)
        * (u.w * v.w)) by (nonlinear_arith);
}

/// Building a triple from equal fractions gives equal points.
pub proof fn lemma_mk_pt3_cong(fx: Frac, fy: Frac, gx: Frac, gy: Frac)
    requires
        frac_eq(fx, gx),
        frac_eq(fy, gy),
    ensures
        pt_eq(mk_pt3(fx, fy), mk_pt3(gx, gy)),
{
    assert((fx.n * fy.d) * (gx.d * gy.d) == (gx.n * gy.d) * (fx.d * fy.d)) by (nonlinear_arith)
        requires
            fx.n * gx.d == gx.n * fx.d,
            fy.n * gy.d == gy.n * fy.d,
    ;
    assert((fy.n * fx.d) * (gx.d * gy.d) == (gy.n * gx.d) * (fx.d * fy.d)) by (nonlinear_arith)
        requires
            fx.n * gx.d == gx.n * fx.d,
            fy.n * gy.d == gy.n * fy.d,
    ;
}

/// With positive denominators, two triples denote the same point exactly
/// when the coordinates agree as fractions.
pub proof fn lemma_pt_eq_coords(fx: Frac, fy: Frac, gx: Frac, gy: Frac)
    requires
        fx.d > 0,
        fy.d > 0,
        gx.d > 0,
        gy.d > 0,
    ensures
        pt_eq(mk_pt3(fx, fy), mk_pt3(gx, gy)) == (frac_eq(fx, gx) && frac_eq(fy, gy)),
{
    if frac_eq(fx, gx) && frac_eq(fy, gy) {
        lemma_mk_pt3_cong(fx, fy, gx, gy);
    }
    if pt_eq(mk_pt3(fx, fy), mk_pt3(gx, gy)) {
        assert(frac_eq(fx, gx)) by (nonlinear_arith)
            requires
                (fx.n * fy.d) * (gx.d * gy.d) == (gx.n * gy.d) * (fx.d * fy.d),
                fy.d > 0,
                gy.d > 0,
        ;
        assert(frac_eq(fy, gy)) by (nonlinear_arith)
            requires
                (fy.n * fx.d) * (gx.d * gy.d) == (gy.n * gx.d) * (fx.d * fy.d),
                fx.d > 0,
                gx.d > 0,
        ;
    }
}

/// Coordinate-wise exact differences assemble into the homogeneous
/// difference of the two points.
pub proof fn lemma_sub_bridge(rx: Frac, ry: Frac, sx: Frac, sy: Frac, px: Frac, py: Frac)
    requires
        frac_eq(rx, frac_sub(sx, px)),
        frac_eq(ry, frac_sub(sy, py)),
        rx.d > 0,
        ry.d > 0,
        sx.d > 0,
        sy.d > 0,
        px.d > 0,
        py.d > 0,
    ensures
        pt_eq(mk_pt3(rx, ry), hsub(mk_pt3(sx, sy), mk_pt3(px, py))),
{
    let s3 = mk_pt3(sx, sy);
    let p3 = mk_pt3(px, py);
    let h = hsub(s3, p3);
    let sxf = Frac { n: s3.x, d: s3.w };
    let pxf = Frac { n: p3.x, d: p3.w };
    let axf = Frac { n: rx.n * ry.d, d: rx.d * ry.d };
    lemma_frac_eq_scale(rx, ry.d);
    lemma_frac_eq_scale(sx, sy.d);
    lemma_frac_eq_scale(px, py.d);
    lemma_frac_sub_cong(sxf, pxf, sx, px);
    lemma_frac_eq_trans(axf, rx, frac_sub(sx, px));
    lemma_mul_pos(sx.d, px.d);
    lemma_frac_eq_trans(axf, frac_sub(sx, px), frac_sub(sxf, pxf));
    assert(frac_sub(sxf, pxf) == Frac { n: h.x, d: h.w });
    let syf = Frac { n: s3.y, d: s3.w };
    let pyf = Frac { n: p3.y, d: p3.w };
    let ayf = Frac { n: ry.n * rx.d, d: rx.d * ry.d };
    lemma_frac_eq_scale(ry, rx.d);
    lemma_mul_comm(rx.d, ry.d);
    assert(ayf == Frac { n: ry.n * rx.d, d: ry.d * rx.d });
    lemma_frac_eq_scale(sy, sx.d);
    lemma_mul_comm(sx.d, sy.d);
    assert(syf == Frac { n: sy.n * sx.d, d: sy.d * sx.d });
    lemma_frac_eq_scale(py, px.d);
    lemma_mul_comm(px.d, py.d);
    assert(pyf == Frac { n: py.n * px.d, d: py.d * px.d });
    lemma_frac_sub_cong(syf, pyf, sy, py);
    lemma_frac_eq_trans(ayf, ry, frac_sub(sy, py));
    lemma_mul_pos(sy.d, py.d);
    lemma_frac_eq_trans(ayf, frac_sub(sy, py), frac_sub(syf, pyf));
    assert(frac_sub(syf, pyf) == Frac { n: h.y, d: h.w });
}

/// An exec-level multiply/multiply/subtract chain over the coordinates of
/// two well-formed vectors computes their cross product.
pub proof fn lemma_det_bridge(
    rm1: Frac,
    rm2: Frac,
    rr: Frac,
    fxs: Frac,
    fys: Frac,
    fxv: Frac,
    fyv: Frac,
)
    requires
        frac_eq(rm1, frac_mul(fxs, fyv)),
        frac_eq(rm2, frac_mul(fys, fxv)),
        frac_eq(rr, frac_sub(rm1, rm2)),
        rm1.d > 0,
        rm2.d > 0,
        fxs.d > 0,
        fys.d > 0,
        fxv.d > 0,
        fyv.d > 0,
    ensures
        frac_eq(rr, cross2(mk_pt3(fxs, fys), mk_pt3(fxv, fyv))),
{
    let s = mk_pt3(fxs, fys);
    let v = mk_pt3(fxv, fyv);
    let t1 = Frac { n: s.x * v.y, d: s.w * v.w };
    let t2 = Frac { n: s.y * v.x, d: s.w * v.w };
    lemma_mul4(fxs.n, fys.d, fyv.n, fxv.d);
    lemma_mul4(fxs.d, fys.d, fxv.d, fyv.d);
    assert(t1 == Frac {
        n: frac_mul(fxs, fyv).n * (fys.d * fxv.d),
        d: frac_mul(fxs, fyv).d * (fys.d * fxv.d),
    });
    lemma_frac_eq_scale(frac_mul(fxs, fyv), fys.d * fxv.d);
    assert(frac_eq(frac_mul(fxs, fyv), t1));
    lemma_mul4(fys.n, fxs.d, fxv.n, fyv.d);
    assert(t2 == Frac {
        n: frac_mul(fys, fxv).n * (fxs.d * fyv.d),
        d: frac_mul(fys, fxv).d * (fxs.d * fyv.d),
    });
    lemma_frac_eq_scale(frac_mul(fys, fxv), fxs.d * fyv.d);
    assert(frac_eq(frac_mul(fys, fxv), t2));
    lemma_mul_pos(fxs.d, fyv.d);
    lemma_mul_pos(fys.d, fxv.d);
    lemma_mul_pos(fxs.d, fys.d);
    lemma_mul_pos(fxv.d, fyv.d);
    lemma_mul_pos(s.w, v.w);
    lemma_frac_eq_trans(rm1, frac_mul(fxs, fyv), t1);
    lemma_frac_eq_trans(rm2, frac_mul(fys, fxv), t2);
    lemma_frac_sub_cong(rm1, rm2, t1, t2);
    lemma_mul_pos(rm1.d, rm2.d);
    lemma_frac_eq_trans(rr, frac_sub(rm1, rm2), frac_sub(t1, t2));
    lemma_mul_distrib_sub(s.x * v.y, s.y * v.x, s.w * v.w);
    assert(frac_sub(t1, t2) == Frac {
        n: cross2(s, v).n * (s.w * v.w),
        d: cross2(s, v).d * (s.w * v.w),
    });
    lemma_frac_eq_scale(cross2(s, v), s.w * v.w);
    lemma_mul_pos(t1.d, t2.d);
    lemma_frac_eq_trans(rr, frac_sub(t1, t2), cross2(s, v));
}

/// An exec-level multiply/multiply/add chain over the coordinates of two
/// well-formed vectors computes their dot product.
pub proof fn lemma_dot_bridge(
    rm1: Frac,
    rm2: Frac,
    rr: Frac,
    fxs: Frac,
    fys: Frac,
    fxv: Frac,
    fyv: Frac,
)
    requires
        frac_eq(rm1, frac_mul(fxs, fxv)),
        frac_eq(rm2, frac_mul(fys, fyv)),
        frac_eq(rr, frac_add(rm1, rm2)),
        rm1.d > 0,
        rm2.d > 0,
        fxs.d > 0,
        fys.d > 0,
        fxv.d > 0,
        fyv.d > 0,
    ensures
        frac_eq(rr, dot2(mk_pt3(fxs, fys), mk_pt3(fxv, fyv))),
{
    let s = mk_pt3(fxs, fys);
    let v = mk_pt3(fxv, fyv);
    let t1 = Frac { n: s.x * v.x, d: s.w * v.w };
    let t2 = Frac { n: s.y * v.y, d: s.w * v.w };
    lemma_mul4(fxs.n, fys.d, fxv.n, fyv.d);
    lemma_mul4(fxs.d, fys.d, fxv.d, fyv.d);
    assert(t1 == Frac {
        n: frac_mul(fxs, fxv).n * (fys.d * fyv.d),
        d: frac_mul(fxs, fxv).d * (fys.d * fyv.d),
    });
    lemma_frac_eq_scale(frac_mul(fxs, fxv), fys.d * fyv.d);
    assert(frac_eq(frac_mul(fxs, fxv), t1));
    lemma_mul4(fys.n, fxs.d, fyv.n, fxv.d);
    assert(t2 == Frac {
        n: frac_mul(fys, fyv).n * (fxs.d * fxv.d),
        d: frac_mul(fys, fyv).d * (fxs.d * fxv.d),
    });
    lemma_frac_eq_scale(frac_mul(fys, fyv), fxs.d * fxv.d);
    assert(frac_eq(frac_mul(fys, fyv), t2));
    lemma_mul_pos(fxs.d, fxv.d);
    lemma_mul_pos(fys.d, fyv.d);
    lemma_mul_pos(fxs.d, fys.d);
    lemma_mul_pos(fxv.d, fyv.d);
    lemma_mul_pos(s.w, v.w);
    lemma_frac_eq_trans(rm1, frac_mul(fxs, fxv), t1);
    lemma_frac_eq_trans(rm2, frac_mul(fys, fyv), t2);
    lemma_frac_add_cong(rm1, rm2, t1, t2);
    lemma_mul_pos(rm1.d, rm2.d);
    lemma_frac_eq_trans(rr, frac_add(rm1, rm2), frac_add(t1, t2));
    lemma_mul_distrib_add(s.x * v.x, s.y * v.y, s.w * v.w);
    assert(frac_add(t1, t2) == Frac {
        n: dot2(s, v).n * (s.w * v.w),
        d: dot2(s, v).d * (s.w * v.w),
    });
    lemma_frac_eq_scale(dot2(s, v), s.w * v.w);
    lemma_mul_pos(t1.d, t2.d);
    lemma_frac_eq_trans(rr, frac_add(t1, t2), dot2(s, v));
}

// ---------------------------------------------------------------------------
// Executable types: Point and Vect2D.
// ---------------------------------------------------------------------------

/// A point of the plane with two exact rational coordinates. Identity is
/// positional: two points with equal coordinate values are the same point.
pub struct Point {
    pub x: Rational,
    pub y: Rational,
}

impl View for Point {
    type V = Pt3;

    open spec fn view(&self) -> Pt3 {
        mk_pt3(rat_v(self.x), rat_v(self.y))
    }
}

/// A 2D vector with exact rational components; only an intermediate value of
/// the geometric predicates.
pub struct Vect2D {
    pub x: Rational,
    pub y: Rational,
}

impl View for Vect2D {
    type V = Pt3;

    open spec fn view(&self) -> Pt3 {
        mk_pt3(rat_v(self.x), rat_v(self.y))
    }
}

impl Point {
    /// Both coordinates are held in rug's canonical form, so their
    /// denominators are positive, and so is the homogeneous weight.
    pub open spec fn wf(self) -> bool {
        rat_den(self.x) > 0 && rat_den(self.y) > 0
    }

    /// A well-formed point has a positive homogeneous weight.
    pub proof fn lemma_wf_w_pos(self)
        by (nonlinear_arith)
        requires
            self.wf(),
        ensures
            self@.w > 0,
    {
    }

    /// Builds a point from two exact rational coordinates.
    pub fn new(x: &Rational, y: &Rational) -> (p: Point)
        ensures
            p.wf(),
            p@ == mk_pt3(rat_v(*x), rat_v(*y)),
    {
        Point { x: rat_clone(x), y: rat_clone(y) }
    }

    /// Builds the point `(xn/xd, yn/yd)`.
    pub fn from_fracs(xn: i64, xd: i64, yn: i64, yd: i64) -> (p: Point)
        requires
            xd != 0,
            yd != 0,
        ensures
            p.wf(),
            pt_eq(p@, mk_pt3(Frac { n: xn as int, d: xd as int }, Frac { n: yn as int, d: yd as int })),
    {
        let x = rat_from_pair(xn, xd);
        let y = rat_from_pair(yn, yd);
        proof {
            lemma_mk_pt3_cong(
                rat_v(x),
                rat_v(y),
                Frac { n: xn as int, d: xd as int },
                Frac { n: yn as int, d: yd as int },
            );
        }
        Point { x, y }
    }

    /// Builds the point `(x, y)` with integer coordinates.
    pub fn from_ints(x: i64, y: i64) -> (p: Point)
        ensures
            p.wf(),
            pt_eq(p@, Pt3 { x: x as int, y: y as int, w: 1 }),
    {
        let p = Point::from_fracs(x, 1, y, 1);
        p
    }

    /// Exact positional equality of two points.
    pub fn coincides(&self, p: &Point) -> (r: bool)
        requires
            self.wf(),
            p.wf(),
        ensures
            r == pt_eq(self@, p@),
    {
        let ex = rat_eq(&self.x, &p.x);
        let ey = rat_eq(&self.y, &p.y);
        proof {
            lemma_pt_eq_coords(rat_v(self.x), rat_v(self.y), rat_v(p.x), rat_v(p.y));
        }
        ex && ey
    }

    /// Calculates `self - p` as a vector.
    pub fn subtract(&self, p: &Point) -> (v: Vect2D)
        requires
            self.wf(),
            p.wf(),
        ensures
            v.wf(),
            pt_eq(v@, hsub(self@, p@)),
    {
        let vx = rat_sub(&self.x, &p.x);
        let vy = rat_sub(&self.y, &p.y);
        proof {
            lemma_sub_bridge(
                rat_v(vx),
                rat_v(vy),
                rat_v(self.x),
                rat_v(self.y),
                rat_v(p.x),
                rat_v(p.y),
            );
        }
        Vect2D { x: vx, y: vy }
    }
}

impl Vect2D {
    /// Both components are held in rug's canonical form.
    pub open spec fn wf(self) -> bool {
        rat_den(self.x) > 0 && rat_den(self.y) > 0
    }

    /// A well-formed vector has a positive homogeneous weight.
    pub proof fn lemma_wf_w_pos(self)
        by (nonlinear_arith)
        requires
            self.wf(),
        ensures
            self@.w > 0,
    {
    }

    /// The magnitude of `self x v`: the 2D cross product, also called the
    /// determinant of the pair.
    pub fn det(&self, v: &Vect2D) -> (r: Rational)
        requires
            self.wf(),
            v.wf(),
        ensures
            rat_den(r) > 0,
            frac_eq(rat_v(r), cross2(self@, v@)),
    {
        let m1 = rat_mul(&self.x, &v.y);
        let m2 = rat_mul(&self.y, &v.x);
        let r = rat_sub(&m1, &m2);
        proof {
            lemma_det_bridge(
                rat_v(m1),
                rat_v(m2),
                rat_v(r),
                rat_v(self.x),
                rat_v(self.y),
                rat_v(v.x),
                rat_v(v.y),
            );
        }
        r
    }

    /// The dot product of the two vectors.
    pub fn dot(&self, v: &Vect2D) -> (r: Rational)
        requires
            self.wf(),
            v.wf(),
        ensures
            rat_den(r) > 0,
            frac_eq(rat_v(r), dot2(self@, v@)),
    {
        let m1 = rat_mul(&self.x, &v.x);
        let m2 = rat_mul(&self.y, &v.y);
        let r = rat_add(&m1, &m2);
        proof {
            lemma_dot_bridge(
                rat_v(m1),
                rat_v(m2),
                rat_v(r),
                rat_v(self.x),
                rat_v(self.y),
                rat_v(v.x),
                rat_v(v.y),
            );
        }
        r
    }

    /// The squared euclidean norm: the dot product of the vector with itself.
    pub fn norm(&self) -> (r: Rational)
        requires
            self.wf(),
        ensures
            rat_den(r) > 0,
            frac_eq(rat_v(r), dot2(self@, self@)),
    {
        self.dot(self)
    }

    /// Reinterprets the vector as the point with the same coordinates.
    pub fn as_point(&self) -> (p: Point)
        requires
            self.wf(),
        ensures
            p.wf(),
            p@ == self@,
    {
        Point { x: rat_clone(&self.x), y: rat_clone(&self.y) }
    }
}

// ---------------------------------------------------------------------------
// Segments and the exact geometric predicates.
// ---------------------------------------------------------------------------

/// The model of an edge: an ordered pair of points.
pub ghost struct SegV {
    pub a: Pt3,
    pub b: Pt3,
}

/// The direction vector of a segment, from its first to its second point.
pub open spec fn seg_dir(s: SegV) -> Pt3 {
    hsub(s.b, s.a)
}

/// A segment with two distinct endpoints.
pub open spec fn seg_nondegen(s: SegV) -> bool {
    !pt_eq(s.a, s.b)
}

/// The two segments have (at least) one endpoint in common, by position.
pub open spec fn seg_shares_endpoint(s: SegV, t: SegV) -> bool {
    pt_eq(s.a, t.a) || pt_eq(s.a, t.b) || pt_eq(s.b, t.a) || pt_eq(s.b, t.b)
}

/// The point `p` lies on the closed segment `s`: it is on the segment's
/// line, and the scalar projection of `p - s.a` onto `s.b - s.a`, divided by
/// the squared length of the segment, lies in `[0, 1]`. The quotient is
/// stated by the equivalent exact comparison `0 <= dot <= |dir|^2`.
pub open spec fn seg_has_point(s: SegV, p: Pt3) -> bool {
    det3(s.a, s.b, p) == 0 && frac_le(frac_zero(), dot2(hsub(p, s.a), seg_dir(s))) && frac_le(
        dot2(hsub(p, s.a), seg_dir(s)),
        dot2(seg_dir(s), seg_dir(s)),
    )
}

/// The orientation-sign test for two segments, without the shared-endpoint
/// policy: each segment's endpoints must lie on strictly opposite sides of
/// the other segment's line, and every collinear endpoint falls back to a
/// closed-segment containment test.
pub open spec fn seg_cross_raw(s: SegV, t: SegV) -> bool {
    let o1 = det3(s.a, s.b, t.a);
    let o2 = det3(s.a, s.b, t.b);
    let u1 = det3(t.a, t.b, s.a);
    let u2 = det3(t.a, t.b, s.b);
    if o1 != 0 && o2 != 0 && ((o1 > 0) == (o2 > 0)) {
        false
    } else if u1 != 0 && u2 != 0 && ((u1 > 0) == (u2 > 0)) {
        false
    } else if o1 != 0 && o2 != 0 && u1 != 0 && u2 != 0 {
        true
    } else {
        (o1 == 0 && seg_has_point(s, t.a)) || (o2 == 0 && seg_has_point(s, t.b)) || (u1 == 0
            && seg_has_point(t, s.a)) || (u2 == 0 && seg_has_point(t, s.b))
    }
}

/// Whether two segments cross, for visibility pruning. Segments that share
/// an endpoint by position are never counted as crossing: two edges that
/// meet at a common vertex do not block one another.
pub open spec fn seg_cross(s: SegV, t: SegV) -> bool {
    if seg_shares_endpoint(s, t) {
        false
    } else {
        seg_cross_raw(s, t)
    }
}

/// A vector equal (as a point of the plane) to a nonzero vector has a
/// positive squared norm.
pub proof fn lemma_norm_sq_pos(v: Pt3, dvec: Pt3)
    requires
        pt_eq(v, dvec),
        v.w > 0,
        dvec.w > 0,
        dvec.x != 0 || dvec.y != 0,
    ensures
        dot2(v, v).n > 0,
        dot2(v, v).d > 0,
{
    if dvec.x != 0 {
        assert(v.x != 0) by (nonlinear_arith)
            requires
                v.x * dvec.w == dvec.x * v.w,
                v.w > 0,
                dvec.x != 0,
        ;
    } else {
        assert(v.y != 0) by (nonlinear_arith)
            requires
                v.y * dvec.w == dvec.y * v.w,
                v.w > 0,
                dvec.y != 0,
        ;
    }
    assert(v.x * v.x + v.y * v.y > 0) by (nonlinear_arith)
        requires
            v.x != 0 || v.y != 0,
    ;
    lemma_mul_pos(v.w, v.w);
}

/// Orientation antisymmetry: the orientation of a point relative to the
/// reversed segment is the opposite of its orientation relative to the
/// segment; in particular, for a point off the segment's line, the one is
/// the logical negation of the other.
pub open spec fn opposite_orient(r: Option<bool>) -> Option<bool> {
    match r {
        Some(x) => Some(!x),
        None => None,
    }
}

/// Orientation antisymmetry (see `opposite_orient`): reversing the directed
/// line a -> b negates the orientation of every point.
pub proof fn lemma_orient_antisymmetry(a: Pt3, b: Pt3, p: Pt3)
    ensures
        orient_of(b, a, p) == opposite_orient(orient_of(a, b, p)),
{
    lemma_det3_swap(a, b, p);
}

/// Containment holds of points on the segment by construction: both
/// endpoints of a segment lie on it.
pub proof fn lemma_endpoints_contained(s: SegV)
    requires
        s.a.w > 0,
        s.b.w > 0,
    ensures
        seg_has_point(s, s.a),
        seg_has_point(s, s.b),
{
    assert(s.a.x * (s.b.y * s.a.w - s.a.y * s.b.w) - s.a.y * (s.b.x * s.a.w - s.a.x * s.b.w)
        + s.a.w * (s.b.x * s.a.y - s.a.x * s.b.y) == 0) by (nonlinear_arith);
    assert(s.a.x * (s.b.y * s.b.w - s.b.y * s.b.w) - s.a.y * (s.b.x * s.b.w - s.b.x * s.b.w)
        + s.a.w * (s.b.x * s.b.y - s.b.x * s.b.y) == 0) by (nonlinear_arith);
    let u = seg_dir(s);
    let qa = hsub(s.a, s.a);
    assert(qa.x == 0 && qa.y == 0);
    assert(dot2(qa, u).n == 0) by (nonlinear_arith)
        requires
            qa.x == 0,
            qa.y == 0,
    ;
    assert(dot2(u, u).n >= 0) by (nonlinear_arith);
    lemma_mul_pos(s.a.w, s.a.w);
    lemma_mul_pos(s.b.w, s.a.w);
    lemma_mul_pos(qa.w, u.w);
    lemma_mul_nonneg(dot2(u, u).n, dot2(qa, u).d);
    lemma_mul_nonneg(dot2(u, u).n, dot2(u, u).d);
    assert(frac_le(dot2(qa, u), dot2(u, u)));
}

/// A point strictly off a segment's line does not lie on the segment.
pub proof fn lemma_off_line_not_contained(s: SegV, p: Pt3)
    requires
        det3(s.a, s.b, p) != 0,
    ensures
        !seg_has_point(s, p),
{
}

/// The shared-endpoint policy, pinned: two segments that share an endpoint
/// by position never count as crossing.
pub proof fn lemma_shared_endpoint_not_crossing(s: SegV, t: SegV)
    requires
        seg_shares_endpoint(s, t),
    ensures
        !seg_cross(s, t),
{
}

/// Crossing is symmetric in the two segments.
pub proof fn lemma_seg_cross_symm(s: SegV, t: SegV)
    ensures
        seg_cross(s, t) == seg_cross(t, s),
{
}

// ---------------------------------------------------------------------------
// The executable Edge type.
// ---------------------------------------------------------------------------

/// An edge: an ordered pair of points, always derived from vertex indices
/// into a point set rather than stored persistently.
pub struct Edge {
    pub v1: Point,
    pub v2: Point,
}

impl View for Edge {
    type V = SegV;

    open spec fn view(&self) -> SegV {
        SegV { a: self.v1@, b: self.v2@ }
    }
}

impl Point {
    /// An exact copy of the point.
    pub fn clone_point(&self) -> (p: Point)
        ensures
            p.wf(),
            p@ == self@,
            rat_num(p.x) == rat_num(self.x),
            rat_den(p.x) == rat_den(self.x),
            rat_num(p.y) == rat_num(self.y),
            rat_den(p.y) == rat_den(self.y),
    {
        Point { x: rat_clone(&self.x), y: rat_clone(&self.y) }
    }

    /// The scalar projection of `self - e.v1` onto the direction of `e`,
    /// normalized by the squared length of `e`.
    pub fn project_to(&self, e: &Edge) -> (r: Rational)
        requires
            self.wf(),
            e.wf(),
            seg_nondegen(e@),
        ensures
            rat_den(r) > 0,
            frac_eq(
                rat_v(r),
                frac_div(dot2(hsub(self@, e@.a), seg_dir(e@)), dot2(seg_dir(e@), seg_dir(e@))),
            ),
    {
        let v = e.as_vect();
        let s = self.subtract(&e.v1);
        let dt = s.dot(&v);
        let nm = v.norm();
        proof {
            let av = e.v1@;
            let bv = e.v2@;
            let u = seg_dir(e@);
            let q = hsub(self@, av);
            e.v1.lemma_wf_w_pos();
            e.v2.lemma_wf_w_pos();
            self.lemma_wf_w_pos();
            v.lemma_wf_w_pos();
            s.lemma_wf_w_pos();
            lemma_mul_pos(bv.w, av.w);
            lemma_norm_sq_pos(v@, u);
            lemma_mul_pos(v@.w, v@.w);
            lemma_frac_sign(rat_v(nm), dot2(v@, v@));
        }
        let r = rat_div(&dt, &nm);
        proof {
            let av = e.v1@;
            let u = seg_dir(e@);
            let q = hsub(self@, av);
            lemma_mul_pos(s@.w, v@.w);
            lemma_frac_div_cong(rat_v(dt), rat_v(nm), dot2(s@, v@), dot2(v@, v@));
            lemma_mul_pos(rat_den(dt), rat_num(nm));
            lemma_frac_eq_trans(
                rat_v(r),
                frac_div(rat_v(dt), rat_v(nm)),
                frac_div(dot2(s@, v@), dot2(v@, v@)),
            );
            lemma_dot2_cong(s@, v@, q, u);
            lemma_dot2_cong(v@, v@, u, u);
            lemma_frac_div_cong(dot2(s@, v@), dot2(v@, v@), dot2(q, u), dot2(u, u));
            lemma_norm_sq_pos(v@, u);
            lemma_mul_pos(u.w, u.w);
            lemma_frac_sign(dot2(v@, v@), dot2(u, u));
            lemma_mul_pos(dot2(s@, v@).d, dot2(v@, v@).n);
            lemma_frac_eq_trans(
                rat_v(r),
                frac_div(dot2(s@, v@), dot2(v@, v@)),
                frac_div(dot2(q, u), dot2(u, u)),
            );
        }
        r
    }
}

impl Edge {
    /// Both endpoints are well-formed.
    pub open spec fn wf(self) -> bool {
        self.v1.wf() && self.v2.wf()
    }

    /// Builds an edge from two points.
    pub fn new(v1: &Point, v2: &Point) -> (e: Edge)
        requires
            v1.wf(),
            v2.wf(),
        ensures
            e.wf(),
            e@ == (SegV { a: v1@, b: v2@ }),
    {
        Edge { v1: v1.clone_point(), v2: v2.clone_point() }
    }

    /// The direction vector of the edge: `v2 - v1`.
    pub fn as_vect(&self) -> (v: Vect2D)
        requires
            self.wf(),
        ensures
            v.wf(),
            pt_eq(v@, seg_dir(self@)),
    {
        self.v2.subtract(&self.v1)
    }

    /// Whether `self.v1`, `self.v2`, `p` wind anticlockwise — that is,
    /// whether `p` lies to the left of the directed edge. `None` means `p`
    /// is exactly on the edge's line. Decided by the exact sign of a cross
    /// product; no tolerance is involved.
    pub fn orient_point(&self, p: &Point) -> (r: Option<bool>)
        requires
            self.wf(),
            p.wf(),
        ensures
            r == orient_of(self.v1@, self.v2@, p@),
    {
        let v2 = p.subtract(&self.v1);
        let u = self.as_vect();
        let det = u.det(&v2);
        let zero = rat_from_int(0);
        let is_pos = rat_lt(&zero, &det);
        let is_neg = rat_lt(&det, &zero);
        proof {
            let a = self.v1@;
            let b = self.v2@;
            let pp = p@;
            self.v1.lemma_wf_w_pos();
            self.v2.lemma_wf_w_pos();
            p.lemma_wf_w_pos();
            u.lemma_wf_w_pos();
            v2.lemma_wf_w_pos();
            lemma_cross2_cong(u@, v2@, hsub(b, a), hsub(pp, a));
            lemma_cross2_hsub_det3(a, b, pp);
            lemma_mul_pos(u@.w, v2@.w);
            lemma_frac_eq_trans(rat_v(det), cross2(u@, v2@), cross2(hsub(b, a), hsub(pp, a)));
            lemma_mul_pos(b.w, a.w);
            lemma_mul_pos(pp.w, a.w);
            lemma_mul_pos(b.w * a.w, pp.w * a.w);
            lemma_frac_sign(rat_v(det), cross2(hsub(b, a), hsub(pp, a)));
            assert((a.w * det3(a, b, pp) > 0) == (det3(a, b, pp) > 0)) by (nonlinear_arith)
                requires
                    a.w > 0,
            ;
            assert((a.w * det3(a, b, pp) < 0) == (det3(a, b, pp) < 0)) by (nonlinear_arith)
                requires
                    a.w > 0,
            ;
        }
        if is_pos {
            Some(true)
        } else if is_neg {
            Some(false)
        } else {
            None
        }
    }

    /// Whether the line extending this edge contains the point.
    pub fn line_contains_point(&self, p: &Point) -> (r: bool)
        requires
            self.wf(),
            p.wf(),
        ensures
            r == (det3(self.v1@, self.v2@, p@) == 0),
    {
        match self.orient_point(p) {
            None => true,
            Some(_x) => false,
        }
    }

    /// Whether the point lies on the closed segment: exactly collinear with
    /// the endpoints, with its projection onto the edge lying within it.
    pub fn contains_point(&self, p: &Point) -> (r: bool)
        requires
            self.wf(),
            p.wf(),
            seg_nondegen(self@),
        ensures
            r == seg_has_point(self@, p@),
    {
        if let Some(_x) = self.orient_point(p) {
            return false;
        }
        let proj = p.project_to(self);
        let zero = rat_from_int(0);
        let one = rat_from_int(1);
        let ge0 = !rat_lt(&proj, &zero);
        let le1 = !rat_lt(&one, &proj);
        proof {
            let u = seg_dir(self@);
            let q = hsub(p@, self@.a);
            self.v1.lemma_wf_w_pos();
            self.v2.lemma_wf_w_pos();
            p.lemma_wf_w_pos();
            lemma_mul_pos(self.v2@.w, self.v1@.w);
            lemma_mul_pos(p@.w, self.v1@.w);
            lemma_mul_pos(q.w, u.w);
            lemma_mul_pos(u.w, u.w);
            lemma_norm_sq_pos(u, u);
            lemma_frac_div_unit(rat_v(proj), dot2(q, u), dot2(u, u));
        }
        ge0 && le1
    }

    /// Whether this edge and `e` share an endpoint, by position.
    pub fn shares_endpoint(&self, e: &Edge) -> (r: bool)
        requires
            self.wf(),
            e.wf(),
        ensures
            r == seg_shares_endpoint(self@, e@),
    {
        self.v1.coincides(&e.v1) || self.v1.coincides(&e.v2) || self.v2.coincides(&e.v1)
            || self.v2.coincides(&e.v2)
    }

    /// Whether the two closed segments cross. Endpoints of one segment that
    /// lie exactly on the other's line fall back to containment tests, and
    /// segments sharing an endpoint by position are classified as
    /// non-crossing.
    pub fn intersect(&self, e: &Edge) -> (r: bool)
        requires
            self.wf(),
            e.wf(),
            seg_nondegen(self@),
            seg_nondegen(e@),
        ensures
            r == seg_cross(self@, e@),
    {
        if self.shares_endpoint(e) {
            return false;
        }
        let o1 = self.orient_point(&e.v1);
        let o2 = self.orient_point(&e.v2);
        let o = xor_option(o1, o2);
        let u1 = e.orient_point(&self.v1);
        let u2 = e.orient_point(&self.v2);
        let u = xor_option(u1, u2);
        if matches!(o, Some(false)) {
            return false;
        }
        if matches!(u, Some(false)) {
            return false;
        }
        if matches!(xor_option(o, u), Some(false)) {
            return true;
        }
        if o1.is_none() && self.contains_point(&e.v1) {
            return true;
        }
        if o2.is_none() && self.contains_point(&e.v2) {
            return true;
        }
        if u1.is_none() && e.contains_point(&self.v1) {
            return true;
        }
        if u2.is_none() && e.contains_point(&self.v2) {
            return true;
        }
        false
    }
}

/// Exclusive-or lifted over tri-state orientation values.
pub open spec fn xor_option_of(a: Option<bool>, b: Option<bool>) -> Option<bool> {
    match (a, b) {
        (Some(x), Some(y)) => Some(x != y),
        _ => None,
    }
}

/// Combines two orientation values: `Some(true)` when they are opposite
/// sides, `Some(false)` when the same side, `None` when either is collinear.
pub fn xor_option(a: Option<bool>, b: Option<bool>) -> (r: Option<bool>)
    ensures
        r == xor_option_of(a, b),
{
    match (a, b) {
        (Some(x), Some(y)) => Some(x ^ y),
        _ => None,
    }
}

} // verus!
