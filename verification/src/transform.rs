//! The transform policy and the coordinate-transform decorator.
//!
//! The policy is a family of pure functions that remap points, rectangles and
//! sizes according to three boolean axes — mirror-X, mirror-Y and transpose —
//! applied unconditionally in that fixed order. Mirroring is always measured
//! in the decorator's own logical (already transpose-adjusted) width and
//! height, never in the wrapped surface's raw dimensions.

use vstd::prelude::*;

use crate::geometry::{cell_in_rect, Point, Rectangle, Size};
use crate::surface::{fill_rect_map, write_points, Surface};

verus! {

/// The three independent boolean axes of a coordinate transform, fixed at
/// construction time. Eight combinations exist; each has a canonical name
/// exposed as a constructor.
#[derive(Clone, Copy, Debug, PartialEq, Eq, Structural)]
pub struct TransformConfig {
    pub mirror_x: bool,
    pub mirror_y: bool,
    pub transpose: bool,
}

/// The identity configuration.
pub open spec fn spec_rotate_0() -> TransformConfig {
    TransformConfig { mirror_x: false, mirror_y: false, transpose: false }
}

/// Mirror along the x-axis only.
pub open spec fn spec_mirror_x() -> TransformConfig {
    TransformConfig { mirror_x: true, mirror_y: false, transpose: false }
}

/// Mirror along the y-axis only.
pub open spec fn spec_mirror_y() -> TransformConfig {
    TransformConfig { mirror_x: false, mirror_y: true, transpose: false }
}

/// Mirror along both axes; equivalent to a 180-degree rotation.
pub open spec fn spec_mirror_xy() -> TransformConfig {
    TransformConfig { mirror_x: true, mirror_y: true, transpose: false }
}

/// Swap the x and y axes.
pub open spec fn spec_transpose_xy() -> TransformConfig {
    TransformConfig { mirror_x: false, mirror_y: false, transpose: true }
}

/// Rotate by 90 degrees: mirror-X combined with transpose.
pub open spec fn spec_rotate_90() -> TransformConfig {
    TransformConfig { mirror_x: true, mirror_y: false, transpose: true }
}

/// Rotate by 180 degrees: the same configuration as mirror-XY.
pub open spec fn spec_rotate_180() -> TransformConfig {
    TransformConfig { mirror_x: true, mirror_y: true, transpose: false }
}

/// Rotate by 270 degrees: mirror-Y combined with transpose.
pub open spec fn spec_rotate_270() -> TransformConfig {
    TransformConfig { mirror_x: false, mirror_y: true, transpose: true }
}

impl TransformConfig {
    pub fn new(mirror_x: bool, mirror_y: bool, transpose: bool) -> (c: TransformConfig)
        ensures
            c == (TransformConfig { mirror_x, mirror_y, transpose }),
    {
        TransformConfig { mirror_x, mirror_y, transpose }
    }

    pub fn rotate_0() -> (c: TransformConfig)
        ensures
            c == spec_rotate_0(),
    {
        TransformConfig { mirror_x: false, mirror_y: false, transpose: false }
    }

    pub fn mirror_x() -> (c: TransformConfig)
        ensures
            c == spec_mirror_x(),
    {
        TransformConfig { mirror_x: true, mirror_y: false, transpose: false }
    }

    pub fn mirror_y() -> (c: TransformConfig)
        ensures
            c == spec_mirror_y(),
    {
        TransformConfig { mirror_x: false, mirror_y: true, transpose: false }
    }

    pub fn mirror_xy() -> (c: TransformConfig)
        ensures
            c == spec_mirror_xy(),
    {
        TransformConfig { mirror_x: true, mirror_y: true, transpose: false }
    }

    pub fn transpose_xy() -> (c: TransformConfig)
        ensures
            c == spec_transpose_xy(),
    {
        TransformConfig { mirror_x: false, mirror_y: false, transpose: true }
    }

    pub fn rotate_90() -> (c: TransformConfig)
        ensures
            c == spec_rotate_90(),
    {
        TransformConfig { mirror_x: true, mirror_y: false, transpose: true }
    }

    pub fn rotate_180() -> (c: TransformConfig)
        ensures
            c == spec_rotate_180(),
    {
        TransformConfig { mirror_x: true, mirror_y: true, transpose: false }
    }

    pub fn rotate_270() -> (c: TransformConfig)
        ensures
            c == spec_rotate_270(),
    {
        TransformConfig { mirror_x: false, mirror_y: true, transpose: true }
    }
}

/// The decorator's logical width over a wrapped surface of raw dimensions
/// `(sw, sh)`: the raw height if the axes are transposed, else the raw width.
pub open spec fn logical_width(cfg: TransformConfig, sw: int, sh: int) -> int {
    if cfg.transpose {
        sh
    } else {
        sw
    }
}

/// The decorator's logical height; see [`logical_width`].
pub open spec fn logical_height(cfg: TransformConfig, sw: int, sh: int) -> int {
    if cfg.transpose {
        sw
    } else {
        sh
    }
}

/// One mirror step along the x-axis: reflect the x coordinate around the
/// midpoint of a row of `lw` cells. A disabled axis is a no-op.
pub open spec fn mirror_x_step(on: bool, lw: int, k: (int, int)) -> (int, int) {
    if on {
        (lw - 1 - k.0, k.1)
    } else {
        k
    }
}

/// One mirror step along the y-axis over a column of `lh` cells.
pub open spec fn mirror_y_step(on: bool, lh: int, k: (int, int)) -> (int, int) {
    if on {
        (k.0, lh - 1 - k.1)
    } else {
        k
    }
}

/// One transpose step: swap the two coordinates.
pub open spec fn transpose_step(on: bool, k: (int, int)) -> (int, int) {
    if on {
        (k.1, k.0)
    } else {
        k
    }
}

/// Remap one point from the decorator's logical space (of dimensions
/// `lw` x `lh`) to the wrapped surface's space: mirror-X, then mirror-Y,
/// then transpose, each step measured in the logical dimensions.
pub open spec fn point_remap(cfg: TransformConfig, lw: int, lh: int, k: (int, int)) -> (int, int) {
    transpose_step(cfg.transpose, mirror_y_step(cfg.mirror_y, lh, mirror_x_step(cfg.mirror_x, lw, k)))
}

/// One mirror step along the x-axis of a whole rectangle `(x, y, w, h)`:
/// the span is mirrored as a whole, so the new origin is `lw - x - w`.
pub open spec fn rect_mirror_x_step(on: bool, lw: int, r: (int, int, int, int)) -> (int, int, int, int) {
    if on {
        (lw - r.0 - r.2, r.1, r.2, r.3)
    } else {
        r
    }
}

/// One mirror step along the y-axis of a whole rectangle.
pub open spec fn rect_mirror_y_step(on: bool, lh: int, r: (int, int, int, int)) -> (int, int, int, int) {
    if on {
        (r.0, lh - r.1 - r.3, r.2, r.3)
    } else {
        r
    }
}

/// One transpose step of a rectangle: swap the origin coordinates and swap
/// width with height.
pub open spec fn rect_transpose_step(on: bool, r: (int, int, int, int)) -> (int, int, int, int) {
    if on {
        (r.1, r.0, r.3, r.2)
    } else {
        r
    }
}

/// Remap a whole rectangle `(x, y, w, h)` from logical space to the wrapped
/// surface's space, by the same three steps in the same fixed order.
pub open spec fn rect_remap(cfg: TransformConfig, lw: int, lh: int, r: (int, int, int, int)) -> (int, int, int, int) {
    rect_transpose_step(cfg.transpose, rect_mirror_y_step(cfg.mirror_y, lh, rect_mirror_x_step(cfg.mirror_x, lw, r)))
}

/// A rectangle value as the four integers (origin x, origin y, width, height).
pub open spec fn rect_model(r: Rectangle) -> (int, int, int, int) {
    (r.top_left.x as int, r.top_left.y as int, r.size.width as int, r.size.height as int)
}

/// Whether the grid cell `k` lies inside the rectangle `(x, y, w, h)`.
pub open spec fn in_rect(r: (int, int, int, int), k: (int, int)) -> bool {
    cell_in_rect(r.0, r.1, r.2, r.3, k)
}

/// Whether the mirror arithmetic of a point remap stays within `i32`.
pub open spec fn point_remap_fits(cfg: TransformConfig, lw: int, lh: int, p: Point) -> bool {
    &&& (cfg.mirror_x ==> lw - 1 - p.x <= i32::MAX)
    &&& (cfg.mirror_y ==> lh - 1 - p.y <= i32::MAX)
}

/// Whether the mirror arithmetic of a rectangle remap stays within `i32`.
pub open spec fn rect_remap_fits(cfg: TransformConfig, lw: int, lh: int, r: Rectangle) -> bool {
    &&& (cfg.mirror_x ==> i32::MIN <= lw - r.top_left.x - r.size.width <= i32::MAX)
    &&& (cfg.mirror_y ==> i32::MIN <= lh - r.top_left.y - r.size.height <= i32::MAX)
}

/// Remap one point from logical space (of dimensions `lw` x `lh`) to the
/// wrapped surface's space.
pub fn remap_point(cfg: TransformConfig, lw: u32, lh: u32, p: Point) -> (q: Point)
    requires
        point_remap_fits(cfg, lw as int, lh as int, p),
    ensures
        (q.x as int, q.y as int) == point_remap(cfg, lw as int, lh as int, (p.x as int, p.y as int)),
{
    let mut x = p.x;
    let mut y = p.y;
    if cfg.mirror_x {
        let v: i64 = lw as i64 - 1 - p.x as i64;
        assert(i32::MIN <= v <= i32::MAX);
        x = v as i32;
    }
    if cfg.mirror_y {
        let v: i64 = lh as i64 - 1 - p.y as i64;
        assert(i32::MIN <= v <= i32::MAX);
        y = v as i32;
    }
    if cfg.transpose {
        Point { x: y, y: x }
    } else {
        Point { x, y }
    }
}

/// Remap a whole rectangle from logical space to the wrapped surface's space.
pub fn remap_rect(cfg: TransformConfig, lw: u32, lh: u32, r: Rectangle) -> (q: Rectangle)
    requires
        rect_remap_fits(cfg, lw as int, lh as int, r),
    ensures
        rect_model(q) == rect_remap(cfg, lw as int, lh as int, rect_model(r)),
{
    let mut x = r.top_left.x;
    let mut y = r.top_left.y;
    let mut w = r.size.width;
    let mut h = r.size.height;
    if cfg.mirror_x {
        let v: i64 = lw as i64 - r.top_left.x as i64 - r.size.width as i64;
        assert(i32::MIN <= v <= i32::MAX);
        x = v as i32;
    }
    if cfg.mirror_y {
        let v: i64 = lh as i64 - r.top_left.y as i64 - r.size.height as i64;
        assert(i32::MIN <= v <= i32::MAX);
        y = v as i32;
    }
    if cfg.transpose {
        Rectangle { top_left: Point { x: y, y: x }, size: Size { width: h, height: w } }
    } else {
        Rectangle { top_left: Point { x, y }, size: Size { width: w, height: h } }
    }
}

/// The decorator's reported size over a wrapped surface of size
/// `surface_size`: width and height swapped exactly when transpose is set.
pub fn remap_size(cfg: TransformConfig, surface_size: Size) -> (s: Size)
    ensures
        s.width as int == logical_width(cfg, surface_size.width as int, surface_size.height as int),
        s.height as int == logical_height(cfg, surface_size.width as int, surface_size.height as int),
{
    if cfg.transpose {
        Size { width: surface_size.height, height: surface_size.width }
    } else {
        Size { width: surface_size.width, height: surface_size.height }
    }
}

/// Coordinate-order law: for every configuration and every point, the remap
/// equals the closed-form per-axis formulas — mirror-X first, then mirror-Y,
/// then transpose, each measured in the decorator's logical width and height.
pub proof fn lemma_coordinate_order(cfg: TransformConfig, lw: int, lh: int, k: (int, int))
    ensures
        point_remap(cfg, lw, lh, k) == ({
            let x1 = if cfg.mirror_x { lw - 1 - k.0 } else { k.0 };
            let y1 = if cfg.mirror_y { lh - 1 - k.1 } else { k.1 };
            if cfg.transpose { (y1, x1) } else { (x1, y1) }
        }),
{
}

/// The inverse of [`point_remap`]: undo the transpose, then undo each mirror.
pub open spec fn point_unremap(cfg: TransformConfig, lw: int, lh: int, k: (int, int)) -> (int, int) {
    mirror_x_step(cfg.mirror_x, lw, mirror_y_step(cfg.mirror_y, lh, transpose_step(cfg.transpose, k)))
}

/// The point remap is a bijection on the whole integer grid:
/// [`point_unremap`] inverts it in both directions.
pub proof fn lemma_point_remap_bijective(cfg: TransformConfig, lw: int, lh: int, k: (int, int))
    ensures
        point_unremap(cfg, lw, lh, point_remap(cfg, lw, lh, k)) == k,
        point_remap(cfg, lw, lh, point_unremap(cfg, lw, lh, k)) == k,
{
}

/// A cell lies in a rectangle exactly when its remapped image lies in the
/// remapped rectangle: the whole-rectangle remap and the per-point remap
/// carve out the same region of the wrapped surface.
pub proof fn lemma_rect_point_correspondence(cfg: TransformConfig, lw: int, lh: int, r: (int, int, int, int), k: (int, int))
    ensures
        in_rect(r, k) <==> in_rect(rect_remap(cfg, lw, lh, r), point_remap(cfg, lw, lh, k)),
{
}

/// Remapping the full logical rectangle yields the full rectangle of the
/// wrapped surface, under every configuration: a bijective remap of
/// "everything" is still "everything".
pub proof fn lemma_full_rect_remap(cfg: TransformConfig, sw: int, sh: int)
    ensures
        rect_remap(
            cfg,
            logical_width(cfg, sw, sh),
            logical_height(cfg, sw, sh),
            (0int, 0int, logical_width(cfg, sw, sh), logical_height(cfg, sw, sh)),
        ) == (0int, 0int, sw, sh),
{
}

/// Rotation-group composition. A stack of decorators remaps from the
/// outermost logical space inward, each layer with its own logical
/// dimensions: over a surface of raw dimensions `(sw, sh)`, a rotate-90
/// layer directly over the surface uses `(sh, sw)`, the next layer `(sw, sh)`,
/// and so on alternating. Composing rotate-90 twice equals mirror-XY
/// (rotate-180), three times equals rotate-270, and four times the identity.
pub proof fn lemma_rotation_group(sw: int, sh: int, k: (int, int))
    ensures
        point_remap(spec_rotate_90(), sh, sw, point_remap(spec_rotate_90(), sw, sh, k))
            == point_remap(spec_rotate_180(), sw, sh, k),
        point_remap(spec_rotate_90(), sh, sw,
            point_remap(spec_rotate_90(), sw, sh, point_remap(spec_rotate_90(), sh, sw, k)))
            == point_remap(spec_rotate_270(), sh, sw, k),
        point_remap(spec_rotate_90(), sh, sw,
            point_remap(spec_rotate_90(), sw, sh,
                point_remap(spec_rotate_90(), sh, sw, point_remap(spec_rotate_90(), sw, sh, k))))
            == point_remap(spec_rotate_0(), sw, sh, k),
        point_remap(spec_rotate_0(), sw, sh, k) == k,
{
}

/// The cells named by a sequence of point/color pairs, each remapped from
/// logical space to the wrapped surface's space.
pub open spec fn remap_points_seq<C>(cfg: TransformConfig, lw: int, lh: int, pts: Seq<(Point, C)>) -> Seq<((int, int), C)> {
    pts.map_values(|pc: (Point, C)| (point_remap(cfg, lw, lh, (pc.0.x as int, pc.0.y as int)), pc.1))
}

/// A sequence of cell/color pairs, each cell remapped from logical space to
/// the wrapped surface's space.
pub open spec fn remap_keys_seq<C>(cfg: TransformConfig, lw: int, lh: int, pts: Seq<((int, int), C)>) -> Seq<((int, int), C)> {
    pts.map_values(|kc: ((int, int), C)| (point_remap(cfg, lw, lh, kc.0), kc.1))
}

/// Remapping point/color pairs is the same as taking their cells and
/// remapping those.
pub proof fn lemma_remap_points_keys<C>(cfg: TransformConfig, lw: int, lh: int, pts: Seq<(Point, C)>)
    ensures
        remap_points_seq(cfg, lw, lh, pts) == remap_keys_seq(cfg, lw, lh, crate::surface::points_keys(pts)),
{
    assert(remap_points_seq(cfg, lw, lh, pts)
        =~= remap_keys_seq(cfg, lw, lh, crate::surface::points_keys(pts)));
}

/// Fill/point equivalence at the decorator: when `pts` enumerates exactly
/// the cells of the rectangle `r`, each with color `c`, drawing `pts`
/// through the transform (the pixel state promised by `draw_points`) leaves
/// the wrapped surface in exactly the state that filling the remapped
/// rectangle (the pixel state promised by `fill_rectangle`) does.
pub proof fn lemma_fill_equals_draw_points<C>(
    cfg: TransformConfig,
    lw: int,
    lh: int,
    m: Map<(int, int), Option<C>>,
    r: (int, int, int, int),
    pts: Seq<(Point, C)>,
    c: C,
)
    requires
        crate::surface::points_keys(pts) == crate::surface::rect_points_seq(r.0, r.1, r.2, r.3, c),
    ensures
        write_points(m, remap_points_seq(cfg, lw, lh, pts))
            == fill_rect_map(m, rect_remap(cfg, lw, lh, r), c),
{
    lemma_remap_points_keys(cfg, lw, lh, pts);
    lemma_fill_point_equivalence(cfg, lw, lh, m, r, c);
}

/// Fill/point equivalence through the transform: filling the remapped image
/// of a rectangle with one color produces exactly the same pixel state as
/// expanding the rectangle into its constituent points, remapping each, and
/// writing them one by one.
pub proof fn lemma_fill_point_equivalence<C>(
    cfg: TransformConfig,
    lw: int,
    lh: int,
    m: Map<(int, int), Option<C>>,
    r: (int, int, int, int),
    c: C,
)
    ensures
        fill_rect_map(m, rect_remap(cfg, lw, lh, r), c) == write_points(
            m,
            remap_keys_seq(cfg, lw, lh, crate::surface::rect_points_seq(r.0, r.1, r.2, r.3, c)),
        ),
{
    let pts = crate::surface::rect_points_seq::<C>(r.0, r.1, r.2, r.3, c);
    let rpts = remap_keys_seq(cfg, lw, lh, pts);
    let q = rect_remap(cfg, lw, lh, r);
    assert forall|i: int| 0 <= i < rpts.len() implies (#[trigger] rpts[i]).1 == c by {
        assert(pts[i].1 == c);
    }
    crate::surface::lemma_write_points_same_color(m, rpts, c);
    crate::surface::lemma_write_points_dom(m, rpts);
    let fm = fill_rect_map(m, q, c);
    let wm = write_points(m, rpts);
    assert forall|k: (int, int)| #[trigger] m.dom().contains(k) implies fm[k] == wm[k] by {
        lemma_remapped_rect_covers::<C>(cfg, lw, lh, r, c, k);
    }
    assert(fm =~= wm);
}

/// The remapped expansion of a rectangle covers exactly the cells of the
/// remapped rectangle.
proof fn lemma_remapped_rect_covers<C>(cfg: TransformConfig, lw: int, lh: int, r: (int, int, int, int), c: C, k: (int, int))
    ensures
        crate::surface::covers(
            remap_keys_seq(cfg, lw, lh, crate::surface::rect_points_seq(r.0, r.1, r.2, r.3, c)),
            k,
        ) <==> in_rect(rect_remap(cfg, lw, lh, r), k),
{
    let pts = crate::surface::rect_points_seq::<C>(r.0, r.1, r.2, r.3, c);
    let rpts = remap_keys_seq(cfg, lw, lh, pts);
    let q = rect_remap(cfg, lw, lh, r);
    if crate::surface::covers(rpts, k) {
        let i = choose|i: int| 0 <= i < rpts.len() && (#[trigger] rpts[i]).0 == k;
        let k0 = pts[i].0;
        crate::surface::lemma_rect_points_cover::<C>(r.0, r.1, r.2, r.3, c, k0);
        assert(crate::surface::covers(pts, k0));
        assert(cell_in_rect(r.0, r.1, r.2, r.3, k0));
        lemma_rect_point_correspondence(cfg, lw, lh, r, k0);
        assert(rpts[i].0 == point_remap(cfg, lw, lh, k0));
        assert(in_rect(q, k));
    }
    if in_rect(q, k) {
        let k0 = point_unremap(cfg, lw, lh, k);
        lemma_point_remap_bijective(cfg, lw, lh, k);
        lemma_rect_point_correspondence(cfg, lw, lh, r, k0);
        assert(cell_in_rect(r.0, r.1, r.2, r.3, k0));
        crate::surface::lemma_rect_points_cover::<C>(r.0, r.1, r.2, r.3, c, k0);
        let i = choose|i: int| 0 <= i < pts.len() && (#[trigger] pts[i]).0 == k0;
        assert(rpts[i].0 == point_remap(cfg, lw, lh, k0));
        assert(rpts[i].0 == k);
        assert(crate::surface::covers(rpts, k));
    }
}

/// A coordinate-transform decorator: wraps a drawing surface exclusively and
/// remaps the coordinates of every drawing operation by a fixed
/// [`TransformConfig`] before delegating. Everything else — including every
/// failure of the wrapped surface — passes through unchanged.
pub struct CoordinateTransform<D> {
    pub surface: D,
    pub config: TransformConfig,
}

impl<D> CoordinateTransform<D> {
    /// Create a decorator, taking ownership of the wrapped surface.
    pub fn new(surface: D, config: TransformConfig) -> (t: CoordinateTransform<D>)
        ensures
            t.surface == surface,
            t.config == config,
    {
        CoordinateTransform { surface, config }
    }

    /// Consume the decorator, returning ownership of the wrapped surface
    /// unchanged.
    pub fn into_inner(self) -> (d: D)
        ensures
            d == self.surface,
    {
        self.surface
    }

    /// Borrow the wrapped surface. Operations invoked through this reference
    /// bypass the transform entirely: coordinates are untransformed.
    pub fn borrow(&self) -> (d: &D)
        ensures
            *d == self.surface,
    {
        &self.surface
    }

    /// Mutably borrow the wrapped surface, bypassing the transform entirely.
    pub fn borrow_mut(&mut self) -> (d: &mut D)
        ensures
            *d == old(self).surface,
            final(self).surface == *final(d),
            final(self).config == old(self).config,
    {
        &mut self.surface
    }
}

impl<D: Surface> CoordinateTransform<D> {
    /// The decorator's logical width: the wrapped surface's height when the
    /// axes are transposed, else its width.
    pub open spec fn logical_w(&self) -> int {
        logical_width(self.config, self.surface.width() as int, self.surface.height() as int)
    }

    /// The decorator's logical height; see [`Self::logical_w`].
    pub open spec fn logical_h(&self) -> int {
        logical_height(self.config, self.surface.width() as int, self.surface.height() as int)
    }

    /// Report the decorator's size: the wrapped surface's size with width and
    /// height swapped exactly when transpose is set.
    pub fn size(&self) -> (s: Size)
        ensures
            s.width as int == self.logical_w(),
            s.height as int == self.logical_h(),
    {
        remap_size(self.config, self.surface.size())
    }

    /// Draw a sequence of point/color pairs: each point is remapped from
    /// logical space and the remapped sequence is delegated, in the same
    /// order, to the wrapped surface's bulk point draw. Fails exactly when
    /// the wrapped surface's call fails, with the same error value.
    pub fn draw_points(&mut self, points: &Vec<(Point, D::Color)>) -> (r: Result<(), D::Err>)
        requires
            forall|i: int| #![auto] 0 <= i < points@.len()
                ==> point_remap_fits(old(self).config, old(self).logical_w(), old(self).logical_h(), points@[i].0),
        ensures
            final(self).config == old(self).config,
            final(self).surface.width() == old(self).surface.width(),
            final(self).surface.height() == old(self).surface.height(),
            final(self).surface.pixels().dom() == old(self).surface.pixels().dom(),
            r is Ok ==> final(self).surface.pixels() == write_points(
                old(self).surface.pixels(),
                remap_points_seq(old(self).config, old(self).logical_w(), old(self).logical_h(), points@),
            ),
    {
        let cfg = self.config;
        let s = remap_size(cfg, self.surface.size());
        let lw = s.width;
        let lh = s.height;
        let mut out: Vec<(Point, D::Color)> = Vec::new();
        let mut i: usize = 0;
        while i < points.len()
            invariant
                0 <= i <= points@.len(),
                lw as int == old(self).logical_w(),
                lh as int == old(self).logical_h(),
                cfg == old(self).config,
                forall|j: int| #![auto] 0 <= j < points@.len()
                    ==> point_remap_fits(cfg, lw as int, lh as int, points@[j].0),
                out@.len() == i,
                forall|j: int| #![auto] 0 <= j < i as int ==> (out@[j].0.x as int, out@[j].0.y as int)
                    == point_remap(cfg, lw as int, lh as int, (points@[j].0.x as int, points@[j].0.y as int)),
                forall|j: int| #![auto] 0 <= j < i as int ==> out@[j].1 == points@[j].1,
            decreases points@.len() - i,
        {
            let (p, c) = points[i];
            let q = remap_point(cfg, lw, lh, p);
            out.push((q, c));
            i += 1;
        }
        proof {
            assert(crate::surface::points_keys(out@)
                =~= remap_points_seq(cfg, lw as int, lh as int, points@));
        }
        self.surface.draw_points(&out)
    }

    /// Fill a rectangle: the whole rectangle is remapped from logical space
    /// and delegated to the wrapped surface's optimized rectangle fill.
    /// Fails exactly when the wrapped surface's call fails, with the same
    /// error value.
    pub fn fill_rectangle(&mut self, area: &Rectangle, color: D::Color) -> (r: Result<(), D::Err>)
        requires
            rect_remap_fits(old(self).config, old(self).logical_w(), old(self).logical_h(), *area),
        ensures
            final(self).config == old(self).config,
            final(self).surface.width() == old(self).surface.width(),
            final(self).surface.height() == old(self).surface.height(),
            final(self).surface.pixels().dom() == old(self).surface.pixels().dom(),
            r is Ok ==> final(self).surface.pixels() == fill_rect_map(
                old(self).surface.pixels(),
                rect_remap(old(self).config, old(self).logical_w(), old(self).logical_h(), rect_model(*area)),
                color,
            ),
    {
        let cfg = self.config;
        let s = remap_size(cfg, self.surface.size());
        let q = remap_rect(cfg, s.width, s.height, *area);
        self.surface.fill_rectangle(&q, color)
    }

    /// Clear the wrapped surface: delegated directly and unchanged. Clearing
    /// is defined over the whole surface, and any bijective remap of
    /// "everything" is still "everything" (see [`lemma_clear_invariance`]).
    pub fn clear(&mut self, color: D::Color) -> (r: Result<(), D::Err>)
        ensures
            final(self).config == old(self).config,
            final(self).surface.width() == old(self).surface.width(),
            final(self).surface.height() == old(self).surface.height(),
            final(self).surface.pixels().dom() == old(self).surface.pixels().dom(),
            r is Ok ==> final(self).surface.pixels()
                == crate::surface::cleared(old(self).surface.pixels(), color),
    {
        self.surface.clear(color)
    }
}

/// Size-swap law: for every mirror-flag combination, the decorator's
/// reported dimensions over a surface of raw dimensions `(sw, sh)` are
/// `(sh, sw)` when transpose is set and `(sw, sh)` otherwise.
pub proof fn lemma_size_swap(mirror_x: bool, mirror_y: bool, transpose: bool, sw: int, sh: int)
    ensures
        logical_width((TransformConfig { mirror_x, mirror_y, transpose }), sw, sh)
            == if transpose { sh } else { sw },
        logical_height((TransformConfig { mirror_x, mirror_y, transpose }), sw, sh)
            == if transpose { sw } else { sh },
{
}

/// Clear-invariance law: under every configuration, filling the remapped
/// image of the full logical rectangle has the same effect on a wrapped
/// surface whose cells all lie in its `(sw, sh)` grid — namely, every cell
/// takes the clear color. The transform is invisible to `clear`.
pub proof fn lemma_clear_invariance<C>(cfg: TransformConfig, sw: int, sh: int, m: Map<(int, int), Option<C>>, c: C)
    requires
        forall|k: (int, int)| #[trigger] m.dom().contains(k) ==> crate::geometry::in_grid(sw, sh, k),
    ensures
        fill_rect_map(
            m,
            rect_remap(
                cfg,
                logical_width(cfg, sw, sh),
                logical_height(cfg, sw, sh),
                (0int, 0int, logical_width(cfg, sw, sh), logical_height(cfg, sw, sh)),
            ),
            c,
        ) == crate::surface::cleared(m, c),
{
    lemma_full_rect_remap(cfg, sw, sh);
    assert forall|k: (int, int)| #[trigger] m.dom().contains(k)
        implies cell_in_rect(0int, 0int, sw, sh, k) by {
        assert(crate::geometry::in_grid(sw, sh, k));
    }
    assert(fill_rect_map(m, (0int, 0int, sw, sh), c) =~= crate::surface::cleared(m, c));
}

} // verus!
