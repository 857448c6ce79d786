//! The drawing-surface abstraction and an in-memory reference surface.
//!
//! A [`Surface`] is a 2D pixel-addressable output target offering a size
//! query, bulk point drawing, whole-rectangle fill and clear. Its pixel state
//! is modelled as a map from grid cells to optional colors; a cell holding
//! `None` has never been drawn (or holds unspecified initial content).

use vstd::prelude::*;

use crate::geometry::{cell_in_rect, in_grid, Point, Rectangle, Size};

verus! {

/// The pixel state after writing `pts` in order onto `m`: each listed cell
/// that the surface has (a key of `m`) takes the listed color, later writes
/// overwriting earlier ones; cells the surface does not have are ignored.
pub open spec fn write_points<C>(m: Map<(int, int), Option<C>>, pts: Seq<((int, int), C)>) -> Map<(int, int), Option<C>>
    decreases pts.len(),
{
    if pts.len() == 0 {
        m
    } else {
        let prev = write_points(m, pts.drop_last());
        let key = pts.last().0;
        if prev.dom().contains(key) {
            prev.insert(key, Some(pts.last().1))
        } else {
            prev
        }
    }
}

/// The pixel state after filling the rectangle `r = (x, y, w, h)` with `c`
/// on `m`: every cell of the surface inside `r` takes `c`, all other cells
/// are unchanged. The surface's set of cells never changes.
pub open spec fn fill_rect_map<C>(m: Map<(int, int), Option<C>>, r: (int, int, int, int), c: C) -> Map<(int, int), Option<C>> {
    Map::new(
        |k: (int, int)| m.dom().contains(k),
        |k: (int, int)| if cell_in_rect(r.0, r.1, r.2, r.3, k) { Some(c) } else { m[k] },
    )
}

/// The pixel state after clearing with `c`: every cell of the surface
/// takes `c`.
pub open spec fn cleared<C>(m: Map<(int, int), Option<C>>, c: C) -> Map<(int, int), Option<C>> {
    Map::new(|k: (int, int)| m.dom().contains(k), |k: (int, int)| Some(c))
}

/// The cells named by a sequence of point/color pairs, as integer keys.
pub open spec fn points_keys<C>(pts: Seq<(Point, C)>) -> Seq<((int, int), C)> {
    pts.map_values(|pc: (Point, C)| ((pc.0.x as int, pc.0.y as int), pc.1))
}

/// The number of cells of a rectangle of extent `(w, h)`.
pub open spec fn rect_cell_count(w: int, h: int) -> nat {
    if w <= 0 || h <= 0 {
        0
    } else {
        (w * h) as nat
    }
}

/// The cells of the rectangle `(x, y, w, h)` enumerated row by row, each
/// paired with the color `c`: the expansion of a whole-rectangle fill into
/// its constituent points.
pub open spec fn rect_points_seq<C>(x: int, y: int, w: int, h: int, c: C) -> Seq<((int, int), C)> {
    Seq::new(rect_cell_count(w, h), |i: int| ((x + i % w, y + i / w), c))
}

/// Whether some entry of `pts` names the cell `k`.
pub open spec fn covers<C>(pts: Seq<((int, int), C)>, k: (int, int)) -> bool {
    exists|i: int| 0 <= i < pts.len() && (#[trigger] pts[i]).0 == k
}

/// Writing points never changes which cells the surface has.
pub proof fn lemma_write_points_dom<C>(m: Map<(int, int), Option<C>>, pts: Seq<((int, int), C)>)
    ensures
        write_points(m, pts).dom() == m.dom(),
    decreases pts.len(),
{
    if pts.len() > 0 {
        lemma_write_points_dom(m, pts.drop_last());
        assert(write_points(m, pts).dom() =~= m.dom());
    }
}

/// Writing a sequence of points that all carry one color `c` paints exactly
/// the cells the sequence covers, and leaves every other cell unchanged.
pub proof fn lemma_write_points_same_color<C>(m: Map<(int, int), Option<C>>, pts: Seq<((int, int), C)>, c: C)
    requires
        forall|i: int| 0 <= i < pts.len() ==> (#[trigger] pts[i]).1 == c,
    ensures
        write_points(m, pts) == Map::new(
            |k: (int, int)| m.dom().contains(k),
            |k: (int, int)| if covers(pts, k) { Some(c) } else { m[k] },
        ),
    decreases pts.len(),
{
    let target = Map::new(
        |k: (int, int)| m.dom().contains(k),
        |k: (int, int)| if covers(pts, k) { Some(c) } else { m[k] },
    );
    lemma_write_points_dom(m, pts);
    if pts.len() == 0 {
        assert(forall|k: (int, int)| !covers(pts, k));
        assert(write_points(m, pts) =~= target);
    } else {
        let init = pts.drop_last();
        lemma_write_points_same_color(m, init, c);
        lemma_write_points_dom(m, init);
        assert forall|k: (int, int)|
            covers(pts, k) <==> (covers(init, k) || pts.last().0 == k) by {
            if covers(pts, k) {
                let i = choose|i: int| 0 <= i < pts.len() && (#[trigger] pts[i]).0 == k;
                if i < pts.len() - 1 {
                    assert(init[i] == pts[i]);
                    assert(covers(init, k));
                }
            }
            if covers(init, k) {
                let i = choose|i: int| 0 <= i < init.len() && (#[trigger] init[i]).0 == k;
                assert(pts[i] == init[i]);
                assert(covers(pts, k));
            }
            if pts.last().0 == k {
                assert(0 <= pts.len() - 1 < pts.len() && pts[pts.len() - 1].0 == k);
                assert(covers(pts, k));
            }
        }
        assert(pts.last().1 == c);
        assert(write_points(m, pts) =~= target);
    }
}

/// The cells that the row-major expansion of a rectangle covers are exactly
/// the cells of the rectangle.
pub proof fn lemma_rect_points_cover<C>(x: int, y: int, w: int, h: int, c: C, k: (int, int))
    ensures
        covers(rect_points_seq(x, y, w, h, c), k) <==> cell_in_rect(x, y, w, h, k),
{
    let pts = rect_points_seq::<C>(x, y, w, h, c);
    if cell_in_rect(x, y, w, h, k) {
        let i = (k.1 - y) * w + (k.0 - x);
        assert(0 <= i < w * h) by (nonlinear_arith)
            requires
                0 <= k.0 - x < w,
                0 <= k.1 - y < h,
                i == (k.1 - y) * w + (k.0 - x),
        ;
        vstd::arithmetic::div_mod::lemma_fundamental_div_mod_converse(i, w, k.1 - y, k.0 - x);
        assert(0 <= i < pts.len() && pts[i].0 == k);
    }
    if covers(pts, k) {
        let i = choose|i: int| 0 <= i < pts.len() && (#[trigger] pts[i]).0 == k;
        assert(w > 0 && h > 0);
        vstd::arithmetic::div_mod::lemma_mod_bound(i, w);
        vstd::arithmetic::div_mod::lemma_fundamental_div_mod(i, w);
        assert(0 <= i / w < h) by (nonlinear_arith)
            requires
                w > 0,
                0 <= i < w * h,
                i == w * (i / w) + i % w,
                0 <= i % w < w,
        ;
        assert(cell_in_rect(x, y, w, h, k));
    }
}

/// Fill/point equivalence at the surface: filling a rectangle with one color
/// is exactly the same pixel state as writing its row-major expansion point
/// by point.
pub proof fn lemma_fill_is_write_points<C>(m: Map<(int, int), Option<C>>, x: int, y: int, w: int, h: int, c: C)
    ensures
        fill_rect_map(m, (x, y, w, h), c) == write_points(m, rect_points_seq(x, y, w, h, c)),
{
    let pts = rect_points_seq::<C>(x, y, w, h, c);
    lemma_write_points_same_color(m, pts, c);
    assert forall|k: (int, int)| covers(pts, k) <==> cell_in_rect(x, y, w, h, k) by {
        lemma_rect_points_cover::<C>(x, y, w, h, c, k);
    }
    assert(fill_rect_map(m, (x, y, w, h), c) =~= write_points(m, pts));
}

/// A pixel-addressable drawing target.
///
/// `width`/`height` are the surface's fixed raw dimensions and `pixels` its
/// pixel state; the drawing operations relate the new state to the old one.
/// A failure is internal to the surface (out-of-range coordinates, a device
/// fault); when an operation fails, the trait promises nothing of the pixel
/// state beyond the dimensions staying fixed.
pub trait Surface: Sized {
    type Color: Copy;

    type Err;

    /// The surface's raw width in pixels.
    spec fn width(&self) -> u32;

    /// The surface's raw height in pixels.
    spec fn height(&self) -> u32;

    /// The surface's pixel state: a map whose keys are the cells the surface
    /// has, holding `Some(color)` once drawn and `None` while untouched.
    spec fn pixels(&self) -> Map<(int, int), Option<Self::Color>>;

    /// Report the surface's size.
    fn size(&self) -> (s: Size)
        ensures
            s.width == self.width(),
            s.height == self.height(),
    ;

    /// Draw a sequence of point/color pairs in order; on overlapping points
    /// the last write wins.
    fn draw_points(&mut self, points: &Vec<(Point, Self::Color)>) -> (r: Result<(), Self::Err>)
        ensures
            final(self).width() == old(self).width(),
            final(self).height() == old(self).height(),
            final(self).pixels().dom() == old(self).pixels().dom(),
            r is Ok ==> final(self).pixels() == write_points(old(self).pixels(), points_keys(points@)),
    ;

    /// Fill a whole rectangle with one color.
    fn fill_rectangle(&mut self, area: &Rectangle, color: Self::Color) -> (r: Result<(), Self::Err>)
        ensures
            final(self).width() == old(self).width(),
            final(self).height() == old(self).height(),
            final(self).pixels().dom() == old(self).pixels().dom(),
            r is Ok ==> final(self).pixels() == fill_rect_map(
                old(self).pixels(),
                (area.top_left.x as int, area.top_left.y as int, area.size.width as int, area.size.height as int),
                color,
            ),
    ;

    /// Set every pixel of the surface to one color.
    fn clear(&mut self, color: Self::Color) -> (r: Result<(), Self::Err>)
        ensures
            final(self).width() == old(self).width(),
            final(self).height() == old(self).height(),
            final(self).pixels().dom() == old(self).pixels().dom(),
            r is Ok ==> final(self).pixels() == cleared(old(self).pixels(), color),
    ;
}

/// The error of [`BufferSurface`]: a drawing operation named a cell outside
/// the surface.
#[derive(Clone, Copy, Debug, PartialEq, Eq, Structural)]
pub struct OutOfBounds;

/// An in-memory drawing surface: a `width` x `height` grid of optional
/// colors, row-major. It rejects any operation that names a cell outside the
/// grid, leaving the pixel state unchanged, and records drawn pixels so they
/// can be read back.
pub struct BufferSurface<C> {
    width: u32,
    height: u32,
    cells: Vec<Option<C>>,
}

impl<C> BufferSurface<C> {
    #[verifier::type_invariant]
    spec fn wf(self) -> bool {
        &&& self.width <= i32::MAX
        &&& self.height <= i32::MAX
        &&& self.cells.len() == self.width * self.height
    }
}

/// The cells a row-major scan of a `w`-column grid has visited when it
/// stands at row `y`, column `x`: every cell of an earlier row, and the
/// earlier cells of the current row.
spec fn scanned(w: int, y: int, x: int, k: (int, int)) -> bool {
    0 <= k.0 < w && 0 <= k.1 && (k.1 < y || (k.1 == y && k.0 < x))
}

/// In a row-major grid of `w` columns, distinct in-grid cells have distinct
/// flat indices.
proof fn lemma_flat_index_injective(w: int, h: int, a: (int, int), b: (int, int))
    requires
        in_grid(w, h, a),
        in_grid(w, h, b),
        a.1 * w + a.0 == b.1 * w + b.0,
    ensures
        a == b,
{
    assert(a.0 == b.0 && a.1 == b.1) by (nonlinear_arith)
        requires
            0 <= a.0 < w,
            0 <= b.0 < w,
            a.1 * w + a.0 == b.1 * w + b.0,
    ;
}

/// The flat index of an in-grid cell lies within the grid's cell count.
proof fn lemma_flat_index_bound(w: int, h: int, k: (int, int))
    requires
        in_grid(w, h, k),
    ensures
        0 <= k.1 * w + k.0,
        k.1 * w + k.0 < h * w,
        k.1 * w + k.0 < w * h,
{
    assert(0 <= k.1 * w + k.0 && k.1 * w + k.0 < h * w && k.1 * w + k.0 < w * h) by (nonlinear_arith)
        requires
            0 <= k.0 < w,
            0 <= k.1 < h,
    ;
}

impl<C: Copy> BufferSurface<C> {
    /// Create a surface of the given dimensions with every cell untouched.
    pub fn new(width: u32, height: u32) -> (s: BufferSurface<C>)
        requires
            width <= i32::MAX,
            height <= i32::MAX,
            width * height <= usize::MAX,
        ensures
            s.width() == width,
            s.height() == height,
            s.pixels().dom() == Set::new(|k: (int, int)| in_grid(width as int, height as int, k)),
            forall|k: (int, int)| #[trigger] s.pixels().dom().contains(k) ==> s.pixels()[k] is None,
    {
        let n: usize = (width as usize) * (height as usize);
        let mut cells: Vec<Option<C>> = Vec::new();
        while cells.len() < n
            invariant
                cells.len() <= n,
                forall|i: int| 0 <= i < cells@.len() ==> cells@[i] is None,
            decreases n - cells.len(),
        {
            cells.push(None);
        }
        let s = BufferSurface { width, height, cells };
        proof {
            assert(s.pixels().dom() =~= Set::new(|k: (int, int)| in_grid(width as int, height as int, k)));
            assert forall|k: (int, int)| #[trigger] s.pixels().dom().contains(k)
                implies s.pixels()[k] is None by {
                lemma_flat_index_bound(width as int, height as int, k);
                assert(s.cells@.len() == (width as int) * (height as int));
                assert(s.cells@[k.1 * (width as int) + k.0] is None);
            }
        }
        s
    }

    /// Read one pixel back: the drawn color of an in-grid cell, `None` for an
    /// untouched or out-of-grid cell.
    pub fn get_pixel(&self, x: i32, y: i32) -> (c: Option<C>)
        ensures
            in_grid(self.width() as int, self.height() as int, (x as int, y as int))
                ==> c == self.pixels()[(x as int, y as int)],
            !in_grid(self.width() as int, self.height() as int, (x as int, y as int))
                ==> c is None,
    {
        proof {
            use_type_invariant(self);
        }
        if x >= 0 && y >= 0 && (x as u32) < self.width && (y as u32) < self.height {
            let len = self.cells.len();
            proof {
                lemma_flat_index_bound(self.width as int, self.height as int, (x as int, y as int));
                assert((y as int) * (self.width as int) + (x as int) < len);
            }
            let idx: usize = (y as usize) * (self.width as usize) + (x as usize);
            self.cells[idx]
        } else {
            None
        }
    }

    /// Paint one in-grid cell.
    fn set_cell(&mut self, x: u32, y: u32, color: C)
        requires
            x < old(self).width(),
            y < old(self).height(),
        ensures
            final(self).width() == old(self).width(),
            final(self).height() == old(self).height(),
            final(self).pixels() == old(self).pixels().insert((x as int, y as int), Some(color)),
    {
        proof {
            use_type_invariant(&*self);
            lemma_flat_index_bound(self.width as int, self.height as int, (x as int, y as int));
            assert((y as int) * (self.width as int) + (x as int) < self.cells@.len());
        }
        let idx: usize = (y as usize) * (self.width as usize) + (x as usize);
        self.cells[idx] = Some(color);
        proof {
            let w = self.width as int;
            let h = self.height as int;
            assert forall|k: (int, int)| #[trigger] in_grid(w, h, k) && k != (x as int, y as int)
                implies self.pixels()[k] == old(self).pixels()[k] by {
                lemma_flat_index_bound(w, h, k);
                if k.1 * w + k.0 == (y as int) * w + (x as int) {
                    lemma_flat_index_injective(w, h, k, (x as int, y as int));
                    assert(false);
                }
            }
            assert(self.pixels() =~= old(self).pixels().insert((x as int, y as int), Some(color)));
        }
    }

    /// Write a list of point/color pairs in order. Succeeds exactly when
    /// every listed point lies on the grid; on failure nothing is changed.
    fn write_list(&mut self, points: &Vec<(Point, C)>) -> (r: Result<(), OutOfBounds>)
        ensures
            final(self).width() == old(self).width(),
            final(self).height() == old(self).height(),
            r is Ok <==> (forall|i: int| #![auto] 0 <= i < points@.len()
                ==> in_grid(old(self).width() as int, old(self).height() as int,
                    (points@[i].0.x as int, points@[i].0.y as int))),
            r is Ok ==> final(self).pixels() == write_points(old(self).pixels(), points_keys(points@)),
            r is Err ==> final(self).pixels() == old(self).pixels(),
    {
        proof {
            use_type_invariant(&*self);
        }
        let w = self.width;
        let h = self.height;
        let mut i: usize = 0;
        while i < points.len()
            invariant
                0 <= i <= points@.len(),
                w == self.width(),
                h == self.height(),
                forall|j: int| #![auto] 0 <= j < i as int
                    ==> in_grid(w as int, h as int, (points@[j].0.x as int, points@[j].0.y as int)),
            decreases points@.len() - i,
        {
            let (p, _) = points[i];
            if !(p.x >= 0 && p.y >= 0 && (p.x as u32) < w && (p.y as u32) < h) {
                return Err(OutOfBounds);
            }
            i += 1;
        }
        let ghost m0 = self.pixels();
        proof {
            lemma_write_points_dom(m0, points_keys(points@).take(0));
        }
        let mut i: usize = 0;
        while i < points.len()
            invariant
                0 <= i <= points@.len(),
                w == self.width(),
                h == self.height(),
                w == old(self).width(),
                h == old(self).height(),
                m0 == old(self).pixels(),
                forall|j: int| #![auto] 0 <= j < points@.len()
                    ==> in_grid(w as int, h as int, (points@[j].0.x as int, points@[j].0.y as int)),
                self.pixels() == write_points(m0, points_keys(points@).take(i as int)),
            decreases points@.len() - i,
        {
            let (p, c) = points[i];
            self.set_cell(p.x as u32, p.y as u32, c);
            i += 1;
            proof {
                let keys = points_keys(points@);
                let prefix = keys.take(i as int);
                assert(prefix.drop_last() =~= keys.take(i as int - 1));
                assert(prefix.last() == ((p.x as int, p.y as int), c));
                lemma_write_points_dom(m0, prefix.drop_last());
                assert(write_points(m0, prefix.drop_last()).dom().contains((p.x as int, p.y as int)));
                assert(self.pixels() == write_points(m0, prefix));
            }
        }
        proof {
            assert(points_keys(points@).take(points@.len() as int) =~= points_keys(points@));
        }
        Ok(())
    }

    /// Whether the cell `k` has been drawn (holds a color).
    pub open spec fn spec_drawn(&self, k: (int, int)) -> bool {
        self.pixels().dom().contains(k) && self.pixels()[k] is Some
    }

    /// The bounding box of every drawn pixel: the smallest rectangle that
    /// contains them all, or a zero rectangle at the origin when nothing has
    /// been drawn. Each of its four edges touches some drawn pixel.
    pub fn affected_area(&self) -> (r: Rectangle)
        ensures
            forall|k: (int, int)| #[trigger] self.spec_drawn(k) ==> crate::geometry::rect_contains(r, k),
            (exists|k: (int, int)| self.spec_drawn(k)) ==> (
                (exists|k: (int, int)| #[trigger] self.spec_drawn(k) && k.0 == r.top_left.x)
                && (exists|k: (int, int)| #[trigger] self.spec_drawn(k) && k.0 == r.top_left.x + r.size.width - 1)
                && (exists|k: (int, int)| #[trigger] self.spec_drawn(k) && k.1 == r.top_left.y)
                && (exists|k: (int, int)| #[trigger] self.spec_drawn(k) && k.1 == r.top_left.y + r.size.height - 1)
            ),
            !(exists|k: (int, int)| self.spec_drawn(k)) ==> r == (Rectangle {
                top_left: Point { x: 0, y: 0 },
                size: Size { width: 0, height: 0 },
            }),
    {
        proof {
            use_type_invariant(self);
        }
        let w = self.width;
        let h = self.height;
        let mut found: bool = false;
        let mut minx: u32 = 0;
        let mut maxx: u32 = 0;
        let mut miny: u32 = 0;
        let mut maxy: u32 = 0;
        let mut y: u32 = 0;
        while y < h
            invariant
                w == self.width(),
                h == self.height(),
                w <= i32::MAX,
                h <= i32::MAX,
                0 <= y <= h,
                !found ==> forall|k: (int, int)| scanned(w as int, y as int, 0, k)
                    ==> !(#[trigger] self.spec_drawn(k)),
                found ==> minx <= maxx < w && miny <= maxy < h,
                found ==> forall|k: (int, int)| scanned(w as int, y as int, 0, k)
                    && #[trigger] self.spec_drawn(k)
                    ==> minx <= k.0 <= maxx && miny <= k.1 <= maxy,
                found ==> (exists|k: (int, int)| scanned(w as int, y as int, 0, k)
                    && #[trigger] self.spec_drawn(k) && k.0 == minx),
                found ==> (exists|k: (int, int)| scanned(w as int, y as int, 0, k)
                    && #[trigger] self.spec_drawn(k) && k.0 == maxx),
                found ==> (exists|k: (int, int)| scanned(w as int, y as int, 0, k)
                    && #[trigger] self.spec_drawn(k) && k.1 == miny),
                found ==> (exists|k: (int, int)| scanned(w as int, y as int, 0, k)
                    && #[trigger] self.spec_drawn(k) && k.1 == maxy),
            decreases h - y,
        {
            let mut x: u32 = 0;
            while x < w
                invariant
                    w == self.width(),
                    h == self.height(),
                    w <= i32::MAX,
                    h <= i32::MAX,
                    0 <= y < h,
                    0 <= x <= w,
                    !found ==> forall|k: (int, int)| scanned(w as int, y as int, x as int, k)
                        ==> !(#[trigger] self.spec_drawn(k)),
                    found ==> minx <= maxx < w && miny <= maxy < h,
                    found ==> forall|k: (int, int)| scanned(w as int, y as int, x as int, k)
                        && #[trigger] self.spec_drawn(k)
                        ==> minx <= k.0 <= maxx && miny <= k.1 <= maxy,
                    found ==> (exists|k: (int, int)| scanned(w as int, y as int, x as int, k)
                        && #[trigger] self.spec_drawn(k) && k.0 == minx),
                    found ==> (exists|k: (int, int)| scanned(w as int, y as int, x as int, k)
                        && #[trigger] self.spec_drawn(k) && k.0 == maxx),
                    found ==> (exists|k: (int, int)| scanned(w as int, y as int, x as int, k)
                        && #[trigger] self.spec_drawn(k) && k.1 == miny),
                    found ==> (exists|k: (int, int)| scanned(w as int, y as int, x as int, k)
                        && #[trigger] self.spec_drawn(k) && k.1 == maxy),
                decreases w - x,
            {
                if self.get_pixel(x as i32, y as i32).is_some() {
                    proof {
                        assert(self.spec_drawn((x as int, y as int)));
                    }
                    if !found {
                        found = true;
                        minx = x;
                        maxx = x;
                        miny = y;
                        maxy = y;
                    } else {
                        if x < minx {
                            minx = x;
                        }
                        if x > maxx {
                            maxx = x;
                        }
                        if y > maxy {
                            maxy = y;
                        }
                    }
                }
                x = x + 1;
            }
            y = y + 1;
        }
        proof {
            assert forall|k: (int, int)| #[trigger] self.spec_drawn(k)
                implies scanned(w as int, h as int, 0, k) by {
                assert(in_grid(w as int, h as int, k));
            }
        }
        if found {
            Rectangle {
                top_left: Point { x: minx as i32, y: miny as i32 },
                size: Size { width: maxx - minx + 1, height: maxy - miny + 1 },
            }
        } else {
            Rectangle { top_left: Point { x: 0, y: 0 }, size: Size { width: 0, height: 0 } }
        }
    }

    /// Fill a rectangle with one color. Succeeds exactly when the rectangle
    /// is empty or lies wholly on the grid; on failure nothing is changed.
    pub fn fill_rect(&mut self, area: &Rectangle, color: C) -> (r: Result<(), OutOfBounds>)
        ensures
            final(self).width() == old(self).width(),
            final(self).height() == old(self).height(),
            r is Ok <==> (area.size.width == 0 || area.size.height == 0 || (
                0 <= area.top_left.x
                && 0 <= area.top_left.y
                && area.top_left.x + area.size.width <= old(self).width()
                && area.top_left.y + area.size.height <= old(self).height()
            )),
            r is Ok ==> final(self).pixels() == fill_rect_map(
                old(self).pixels(),
                (area.top_left.x as int, area.top_left.y as int, area.size.width as int, area.size.height as int),
                color,
            ),
            r is Err ==> final(self).pixels() == old(self).pixels(),
    {
        proof {
            use_type_invariant(&*self);
        }
        let x = area.top_left.x;
        let y = area.top_left.y;
        let w = area.size.width;
        let h = area.size.height;
        let ghost rect = (x as int, y as int, w as int, h as int);
        let ghost m0 = self.pixels();
        if w == 0 || h == 0 {
            proof {
                assert(self.pixels() =~= fill_rect_map(m0, rect, color));
            }
            return Ok(());
        }
        if !(x >= 0 && y >= 0
            && x as i64 + w as i64 <= self.width as i64
            && y as i64 + h as i64 <= self.height as i64)
        {
            return Err(OutOfBounds);
        }
        proof {
            assert((w as int) * (h as int) <= 0xffff_ffff * 0xffff_ffff) by (nonlinear_arith)
                requires
                    w as int <= 0xffff_ffff,
                    h as int <= 0xffff_ffff,
            ;
        }
        let total: u64 = (w as u64) * (h as u64);
        let mut pts: Vec<(Point, C)> = Vec::new();
        let mut n: u64 = 0;
        while n < total
            invariant
                0 <= n <= total,
                total == (w as int) * (h as int),
                w > 0,
                h > 0,
                0 <= x,
                0 <= y,
                x + w <= i32::MAX + 1,
                y + h <= i32::MAX + 1,
                pts@.len() == n,
                forall|j: int| #![auto] 0 <= j < n as int ==> (pts@[j].0.x as int, pts@[j].0.y as int)
                    == (x + j % (w as int), y + j / (w as int)),
                forall|j: int| #![auto] 0 <= j < n as int ==> pts@[j].1 == color,
            decreases total - n,
        {
            let col: u64 = n % (w as u64);
            let row: u64 = n / (w as u64);
            proof {
                vstd::arithmetic::div_mod::lemma_mod_bound(n as int, w as int);
                vstd::arithmetic::div_mod::lemma_fundamental_div_mod(n as int, w as int);
                assert(0 <= (n as int) / (w as int) < (h as int)) by (nonlinear_arith)
                    requires
                        w > 0,
                        0 <= n as int,
                        (n as int) < (w as int) * (h as int),
                        n as int == (w as int) * ((n as int) / (w as int)) + (n as int) % (w as int),
                        0 <= (n as int) % (w as int) < (w as int),
                ;
                assert(0 <= x as int + col as int <= i32::MAX);
                assert(0 <= y as int + row as int <= i32::MAX);
            }
            let px: i32 = (x as i64 + col as i64) as i32;
            let py: i32 = (y as i64 + row as i64) as i32;
            pts.push((Point { x: px, y: py }, color));
            n = n + 1;
        }
        let r = self.write_list(&pts);
        proof {
            assert forall|i: int| #![auto] 0 <= i < pts@.len()
                implies in_grid(old(self).width() as int, old(self).height() as int,
                    (pts@[i].0.x as int, pts@[i].0.y as int)) by {
                vstd::arithmetic::div_mod::lemma_mod_bound(i, w as int);
                vstd::arithmetic::div_mod::lemma_fundamental_div_mod(i, w as int);
                assert(0 <= i / (w as int) < (h as int)) by (nonlinear_arith)
                    requires
                        w > 0,
                        0 <= i,
                        i < (w as int) * (h as int),
                        i == (w as int) * (i / (w as int)) + i % (w as int),
                        0 <= i % (w as int) < (w as int),
                ;
            }
            assert(r is Ok);
            assert(points_keys(pts@) =~= rect_points_seq(rect.0, rect.1, rect.2, rect.3, color));
            lemma_fill_is_write_points(m0, rect.0, rect.1, rect.2, rect.3, color);
        }
        r
    }
}

impl<C: Copy> Surface for BufferSurface<C> {
    type Color = C;

    type Err = OutOfBounds;

    closed spec fn width(&self) -> u32 {
        self.width
    }

    closed spec fn height(&self) -> u32 {
        self.height
    }

    closed spec fn pixels(&self) -> Map<(int, int), Option<C>> {
        Map::new(
            |k: (int, int)| in_grid(self.width as int, self.height as int, k),
            |k: (int, int)| self.cells@[k.1 * self.width + k.0],
        )
    }

    fn size(&self) -> (s: Size) {
        Size { width: self.width, height: self.height }
    }

    fn draw_points(&mut self, points: &Vec<(Point, C)>) -> (r: Result<(), OutOfBounds>) {
        let r = self.write_list(points);
        proof {
            if r is Ok {
                lemma_write_points_dom(old(self).pixels(), points_keys(points@));
            }
        }
        r
    }

    fn fill_rectangle(&mut self, area: &Rectangle, color: C) -> (r: Result<(), OutOfBounds>) {
        let r = self.fill_rect(area, color);
        proof {
            if r is Ok {
                assert(self.pixels().dom() =~= old(self).pixels().dom());
            }
        }
        r
    }

    fn clear(&mut self, color: C) -> (r: Result<(), OutOfBounds>) {
        proof {
            use_type_invariant(&*self);
        }
        let full = Rectangle {
            top_left: Point { x: 0, y: 0 },
            size: Size { width: self.width, height: self.height },
        };
        let r = self.fill_rect(&full, color);
        proof {
            assert(r is Ok);
            assert(self.pixels() =~= cleared(old(self).pixels(), color));
            assert(self.pixels().dom() =~= old(self).pixels().dom());
        }
        r
    }
}

} // verus!
