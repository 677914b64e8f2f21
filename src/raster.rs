//! The model shared by all canvases: the rectangle a canvas covers and the
//! color of each pixel set in it, how writes change it, and how drawing a
//! canvas changes the surface it is drawn on.
use vstd::prelude::*;

use crate::geometry::{Point, Rectangle};

verus! {

/// A color written at a point.
#[derive(Clone, Copy, Debug, PartialEq, Eq)]
pub struct Pixel<C>(pub Point, pub C);

/// What a canvas holds: the rectangle it covers, in its own coordinate
/// space, and the color of each pixel that was set. Points outside
/// `pixels`' domain are transparent.
pub struct Raster<C> {
    pub bounds: Rectangle,
    pub pixels: Map<(int, int), C>,
}

/// The coordinates of `p`, as a key of a map of pixels.
pub open spec fn key(p: Point) -> (int, int) {
    (p.x as int, p.y as int)
}

impl<C> Raster<C> {
    /// Every set pixel lies inside the bounds.
    pub open spec fn wf(self) -> bool {
        forall|k: (int, int)| #[trigger] self.pixels.contains_key(k) ==> self.bounds.covers(k.0, k.1)
    }

    /// The color at `p`, or `None` where `p` is transparent or outside.
    pub open spec fn read(self, p: Point) -> Option<C> {
        if self.pixels.contains_key(key(p)) {
            Some(self.pixels[key(p)])
        } else {
            None
        }
    }

    /// One write: a pixel inside the bounds overwrites its slot, one outside
    /// is discarded.
    pub open spec fn put(self, px: Pixel<C>) -> Raster<C> {
        if self.bounds.covers(px.0.x as int, px.0.y as int) {
            Raster { bounds: self.bounds, pixels: self.pixels.insert(key(px.0), px.1) }
        } else {
            self
        }
    }

    /// The same pixels, with the bounds, moved by `by`.
    pub open spec fn moved(self, by: Point) -> Raster<C> {
        Raster {
            bounds: Rectangle {
                top_left: Point {
                    x: (self.bounds.top_left.x + by.x) as i32,
                    y: (self.bounds.top_left.y + by.y) as i32,
                },
                size: self.bounds.size,
            },
            pixels: translated(self.pixels, by.x as int, by.y as int),
        }
    }

    /// The writes of `pxs`, applied in order.
    pub open spec fn paint(self, pxs: Seq<Pixel<C>>) -> Raster<C>
        decreases pxs.len(),
    {
        if pxs.len() == 0 {
            self
        } else {
            self.paint(pxs.drop_last()).put(pxs.last())
        }
    }
}

/// The pixels of `m` moved by `(dx, dy)`.
pub open spec fn translated<C>(m: Map<(int, int), C>, dx: int, dy: int) -> Map<(int, int), C> {
    Map::new(
        |k: (int, int)| m.contains_key((k.0 - dx, k.1 - dy)),
        |k: (int, int)| m[(k.0 - dx, k.1 - dy)],
    )
}

/// The pixels of `m` that lie inside `area`.
pub open spec fn clipped<C>(m: Map<(int, int), C>, area: Rectangle) -> Map<(int, int), C> {
    Map::new(|k: (int, int)| m.contains_key(k) && area.covers(k.0, k.1), |k: (int, int)| m[k])
}

/// Every point of `b` set to `c`.
pub open spec fn filled<C>(b: Rectangle, c: C) -> Map<(int, int), C> {
    Map::new(|k: (int, int)| b.covers(k.0, k.1), |k: (int, int)| c)
}

/// Whether `(x, y)` can be written as a [`Point`].
pub open spec fn representable(x: int, y: int) -> bool {
    i32::MIN <= x <= i32::MAX && i32::MIN <= y <= i32::MAX
}

/// `p` comes before `q` in row-major order.
pub open spec fn row_major_before(p: Point, q: Point) -> bool {
    p.y < q.y || (p.y == q.y && p.x < q.x)
}

/// `pxs` lists each pixel of `m` that can be written as a [`Point`] once,
/// with its color, and nothing else, in row-major order.
pub open spec fn emits<C>(pxs: Seq<Pixel<C>>, m: Map<(int, int), C>) -> bool {
    &&& forall|j: int|
        0 <= j < pxs.len() ==> #[trigger] m.contains_key(key(pxs[j].0)) && m[key(pxs[j].0)]
            == pxs[j].1
    &&& forall|k: (int, int)|
        #[trigger] m.contains_key(k) && representable(k.0, k.1) ==> exists|j: int|
            0 <= j < pxs.len() && key(#[trigger] pxs[j].0) == k
    &&& forall|j1: int, j2: int|
        0 <= j1 < j2 < pxs.len() ==> row_major_before(#[trigger] pxs[j1].0, #[trigger] pxs[j2].0)
}

/// `dest` with each pixel of `src` that lies inside `dest`'s bounds and can
/// be written as a point laid over it.
pub open spec fn composite<C>(dest: Raster<C>, src: Map<(int, int), C>) -> Raster<C> {
    Raster {
        bounds: dest.bounds,
        pixels: dest.pixels.union_prefer_right(
            Map::new(
                |k: (int, int)|
                    src.contains_key(k) && dest.bounds.covers(k.0, k.1) && representable(k.0, k.1),
                |k: (int, int)| src[k],
            ),
        ),
    }
}

/// The pixels among the first `n` of `pxs` that lie inside `b`, each with its
/// color in `src`.
spec fn listed<C>(pxs: Seq<Pixel<C>>, n: int, b: Rectangle, src: Map<(int, int), C>) -> Map<
    (int, int),
    C,
> {
    Map::new(
        |k: (int, int)|
            b.covers(k.0, k.1) && exists|j: int| 0 <= j < n && key(#[trigger] pxs[j].0) == k,
        |k: (int, int)| src[k],
    )
}

proof fn lemma_paint_prefix<C>(dest: Raster<C>, src: Map<(int, int), C>, pxs: Seq<Pixel<C>>, n: int)
    requires
        0 <= n <= pxs.len(),
        forall|j: int|
            0 <= j < pxs.len() ==> #[trigger] src.contains_key(key(pxs[j].0)) && src[key(pxs[j].0)]
                == pxs[j].1,
    ensures
        dest.paint(pxs.take(n)).bounds == dest.bounds,
        dest.paint(pxs.take(n)).pixels == dest.pixels.union_prefer_right(
            listed(pxs, n, dest.bounds, src),
        ),
    decreases n,
{
    let b = dest.bounds;
    if n == 0 {
        assert(listed(pxs, 0, b, src) =~= Map::<(int, int), C>::empty());
        assert(dest.pixels.union_prefer_right(Map::<(int, int), C>::empty()) =~= dest.pixels);
    } else {
        lemma_paint_prefix(dest, src, pxs, n - 1);
        assert(pxs.take(n).drop_last() =~= pxs.take(n - 1));
        let px = pxs[n - 1];
        let before = listed(pxs, n - 1, b, src);
        let after = listed(pxs, n, b, src);
        assert(src.contains_key(key(pxs[n - 1].0)));
        if b.covers(px.0.x as int, px.0.y as int) {
            assert(after =~= before.insert(key(px.0), px.1));
            assert(dest.pixels.union_prefer_right(before).insert(key(px.0), px.1)
                =~= dest.pixels.union_prefer_right(after));
        } else {
            assert(after =~= before);
        }
    }
}

/// Drawing the pixels that a canvas emits onto a surface lays the canvas's
/// pixels over the surface where they fall inside it, and leaves every
/// other point of the surface as it was: transparent points of the canvas
/// never overwrite the surface.
pub proof fn lemma_composite<C>(dest: Raster<C>, src: Map<(int, int), C>, pxs: Seq<Pixel<C>>)
    requires
        emits(pxs, src),
    ensures
        dest.paint(pxs) == composite(dest, src),
{
    lemma_paint_prefix(dest, src, pxs, pxs.len() as int);
    assert(pxs.take(pxs.len() as int) =~= pxs);
    let b = dest.bounds;
    let all = listed(pxs, pxs.len() as int, b, src);
    let inner = Map::new(
        |k: (int, int)| src.contains_key(k) && b.covers(k.0, k.1) && representable(k.0, k.1),
        |k: (int, int)| src[k],
    );
    assert forall|k: (int, int)| all.contains_key(k) implies #[trigger] inner.contains_key(k) by {
        let j = choose|j: int| 0 <= j < pxs.len() && key(#[trigger] pxs[j].0) == k;
        assert(src.contains_key(key(pxs[j].0)));
    }
    assert forall|k: (int, int)| inner.contains_key(k) implies #[trigger] all.contains_key(k) by {
        assert(src.contains_key(k) && representable(k.0, k.1));
    }
    assert(all =~= inner);
}

/// Reading a point just written inside the bounds gives the color written
/// there; a write outside the bounds changes nothing.
pub proof fn lemma_write_then_read<C>(r: Raster<C>, p: Point, c: C)
    ensures
        r.bounds.covers(p.x as int, p.y as int) ==> r.paint(seq![Pixel(p, c)]).read(p) == Some(c),
        !r.bounds.covers(p.x as int, p.y as int) ==> r.paint(seq![Pixel(p, c)]) == r,
{
    let pxs = seq![Pixel(p, c)];
    assert(pxs.drop_last() =~= Seq::<Pixel<C>>::empty());
    assert(r.paint(Seq::<Pixel<C>>::empty()) == r);
}

/// Cropping a canvas whose only set pixel is `p` to an area that holds
/// `p` keeps that pixel, moved with the area's corner, and leaves every
/// other point transparent.
pub proof fn lemma_crop_single_pixel<C>(pixels: Map<(int, int), C>, p: Point, c: C, area: Rectangle)
    requires
        pixels == Map::<(int, int), C>::empty().insert(key(p), c),
        area.covers(p.x as int, p.y as int),
    ensures
        clipped(pixels, area) == pixels,
        translated(clipped(pixels, area), -area.top_left.x, -area.top_left.y) == Map::<
            (int, int),
            C,
        >::empty().insert((p.x - area.top_left.x, p.y - area.top_left.y), c),
{
    assert(clipped(pixels, area) =~= pixels);
    assert(translated(pixels, -area.top_left.x, -area.top_left.y) =~= Map::<
        (int, int),
        C,
    >::empty().insert((p.x - area.top_left.x, p.y - area.top_left.y), c));
}

/// Drawing a canvas whose only set pixel is `p` onto a surface that holds
/// `p` changes the surface at `p`, to the canvas's color, and nowhere else.
pub proof fn lemma_composite_single_pixel<C>(dest: Raster<C>, p: Point, c: C, pxs: Seq<Pixel<C>>)
    requires
        emits(pxs, Map::<(int, int), C>::empty().insert(key(p), c)),
        dest.bounds.covers(p.x as int, p.y as int),
    ensures
        dest.paint(pxs).bounds == dest.bounds,
        dest.paint(pxs).pixels == dest.pixels.insert(key(p), c),
{
    let src = Map::<(int, int), C>::empty().insert(key(p), c);
    lemma_composite(dest, src, pxs);
    assert(composite(dest, src).pixels =~= dest.pixels.insert(key(p), c));
}

} // verus!
