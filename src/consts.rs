//! Canvases whose size is fixed by const generics: their pixels live in
//! the value itself, and they need no allocation.
use vstd::prelude::*;

use crate::canvas::origin_bounds;
use crate::geometry::{center_offset, half_extent, Point, Rectangle, Size};
use crate::raster::{
    clipped, emits, filled, key, representable, row_major_before, translated, Pixel, Raster,
};

verus! {

/// The size of a grid `w` pixels wide and `h` pixels high.
pub open spec fn grid_size(w: usize, h: usize) -> Size {
    Size { width: w as u32, height: h as u32 }
}

/// The slot of the grid `g` that holds point `(x, y)` of `b`.
pub open spec fn grid_cell<C, const W: usize, const H: usize>(
    g: [[Option<C>; W]; H],
    b: Rectangle,
    x: int,
    y: int,
) -> Option<C> {
    g@[y - b.top_left.y]@[x - b.top_left.x]
}

/// The set pixels of a grid of rows covering `b`.
pub open spec fn grid_to_map<C, const W: usize, const H: usize>(
    g: [[Option<C>; W]; H],
    b: Rectangle,
) -> Map<(int, int), C> {
    Map::new(
        |k: (int, int)| b.covers(k.0, k.1) && grid_cell(g, b, k.0, k.1) is Some,
        |k: (int, int)| grid_cell(g, b, k.0, k.1)->Some_0,
    )
}

/// A grid whose slots all hold `v`.
fn fill_grid<C: Copy, const W: usize, const H: usize>(v: Option<C>) -> (r: [[Option<C>; W]; H])
    ensures
        forall|y: int, x: int| 0 <= y < H && 0 <= x < W ==> #[trigger] r@[y]@[x] == v,
{
    let row: [Option<C>; W] = [v; W];
    let g: [[Option<C>; W]; H] = [row; H];
    assert forall|y: int, x: int| 0 <= y < H && 0 <= x < W implies #[trigger] g@[y]@[x] == v by {
        assert(g@[y] == row);
    }
    g
}

/// A grid whose slots all hold `v` sets every point of `b` to the color of
/// `v`, or none where `v` is `None`.
proof fn lemma_uniform_grid<C, const W: usize, const H: usize>(
    g: [[Option<C>; W]; H],
    b: Rectangle,
    v: Option<C>,
)
    requires
        b.size == grid_size(W, H),
        W <= u32::MAX,
        H <= u32::MAX,
        forall|y: int, x: int| 0 <= y < H && 0 <= x < W ==> #[trigger] g@[y]@[x] == v,
    ensures
        v is None ==> grid_to_map(g, b) == Map::<(int, int), C>::empty(),
        v matches Some(c) ==> grid_to_map(g, b) == filled(b, c),
{
    let m = grid_to_map(g, b);
    assert forall|k: (int, int)| b.covers(k.0, k.1) implies grid_cell(g, b, k.0, k.1) == v by {
        assert(g@[k.1 - b.top_left.y]@[k.0 - b.top_left.x] == v);
    }
    if v is None {
        assert(m =~= Map::<(int, int), C>::empty());
    } else {
        assert(m =~= filled(b, v->Some_0));
    }
}

/// Setting the slot of `(x, y)` sets that point and no other.
proof fn lemma_grid_write<C, const W: usize, const H: usize>(
    g: [[Option<C>; W]; H],
    g2: [[Option<C>; W]; H],
    b: Rectangle,
    x: int,
    y: int,
    c: C,
)
    requires
        b.size == grid_size(W, H),
        W <= u32::MAX,
        H <= u32::MAX,
        b.covers(x, y),
        grid_cell(g2, b, x, y) == Some(c),
        forall|i: int, j: int|
            0 <= i < H && 0 <= j < W && (i, j) != (y - b.top_left.y, x - b.top_left.x) ==> g2@[i]@[j]
                == #[trigger] g@[i]@[j],
    ensures
        grid_to_map(g2, b) == grid_to_map(g, b).insert((x, y), c),
{
    let after = grid_to_map(g2, b);
    let expect = grid_to_map(g, b).insert((x, y), c);
    assert forall|k: (int, int)|
        #![trigger after.contains_key(k)]
        #![trigger expect.contains_key(k)]
        after.contains_key(k) == expect.contains_key(k) && (after.contains_key(k) ==> after[k]
            == expect[k]) by {
        if b.covers(k.0, k.1) && k != (x, y) {
            assert(g2@[k.1 - b.top_left.y]@[k.0 - b.top_left.x] == g@[k.1 - b.top_left.y]@[k.0
                - b.top_left.x]);
        }
    }
    assert(after =~= expect);
}

/// Point `(x, y)` of `b` comes before column `col` of row `row` of `b`, in
/// row-major order.
pub open spec fn scanned_before(b: Rectangle, x: int, y: int, col: int, row: int) -> bool {
    (y - b.top_left.y) < row || ((y - b.top_left.y) == row && (x - b.top_left.x) < col)
}

/// Moving a grid's rectangle moves its pixels with it.
proof fn lemma_grid_moved<C, const W: usize, const H: usize>(
    g: [[Option<C>; W]; H],
    from: Rectangle,
    to: Rectangle,
)
    requires
        from.size == to.size,
    ensures
        translated(grid_to_map(g, from), to.top_left.x - from.top_left.x, to.top_left.y
            - from.top_left.y) == grid_to_map(g, to),
{
    let dx = to.top_left.x - from.top_left.x;
    let dy = to.top_left.y - from.top_left.y;
    assert forall|x: int, y: int| #[trigger]
        grid_cell(g, to, x, y) == grid_cell(g, from, x - dx, y - dy) by {}
    assert(translated(grid_to_map(g, from), dx, dy) =~= grid_to_map(g, to));
}

/// The pixels of `src` inside `area` that come before column `col` of row
/// `row`, moved so that `area`'s corner is the origin, and kept where they
/// fall inside `to`.
spec fn crop_progress<C>(
    src: Map<(int, int), C>,
    from: Rectangle,
    area: Rectangle,
    to: Rectangle,
    col: int,
    row: int,
) -> Map<(int, int), C> {
    let ax = area.top_left.x as int;
    let ay = area.top_left.y as int;
    Map::new(
        |k: (int, int)|
            to.covers(k.0, k.1) && src.contains_key((k.0 + ax, k.1 + ay)) && area.covers(
                k.0 + ax,
                k.1 + ay,
            ) && scanned_before(from, k.0 + ax, k.1 + ay, col, row),
        |k: (int, int)| src[(k.0 + ax, k.1 + ay)],
    )
}

/// The pixels of `g` placed at `b`, before column `col` of row `row`, were
/// listed in `out`, each once and in row-major order.
spec fn emitted_upto<C, const W: usize, const H: usize>(
    out: Seq<Pixel<C>>,
    g: [[Option<C>; W]; H],
    b: Rectangle,
    col: int,
    row: int,
) -> bool {
    let m = grid_to_map(g, b);
    &&& forall|j: int|
        0 <= j < out.len() ==> m.contains_key(key(#[trigger] out[j].0)) && m[key(out[j].0)]
            == out[j].1 && scanned_before(b, out[j].0.x as int, out[j].0.y as int, col, row)
    &&& forall|k: (int, int)|
        #[trigger] m.contains_key(k) && representable(k.0, k.1) && scanned_before(
            b,
            k.0,
            k.1,
            col,
            row,
        ) ==> exists|j: int| 0 <= j < out.len() && key(#[trigger] out[j].0) == k
    &&& forall|j1: int, j2: int|
        0 <= j1 < j2 < out.len() ==> row_major_before(#[trigger] out[j1].0, #[trigger] out[j2].0)
}

/// The set pixels of the grid `g` placed at `b` that can be written as
/// points, visited row by row.
fn emit_grid<C: Copy, const W: usize, const H: usize>(g: &[[Option<C>; W]; H], b: Rectangle) -> (r:
    Vec<Pixel<C>>)
    requires
        b.size == grid_size(W, H),
        W <= u32::MAX,
        H <= u32::MAX,
    ensures
        emits(r@, grid_to_map(*g, b)),
{
    let ghost m = grid_to_map(*g, b);
    let mut out: Vec<Pixel<C>> = Vec::new();
    let mut y: usize = 0;
    while y < H
        invariant
            y <= H,
            b.size == grid_size(W, H),
            W <= u32::MAX,
            H <= u32::MAX,
            m == grid_to_map(*g, b),
            emitted_upto(out@, *g, b, 0, y as int),
        decreases H - y,
    {
        let mut x: usize = 0;
        while x < W
            invariant
                x <= W,
                y < H,
                b.size == grid_size(W, H),
                W <= u32::MAX,
                H <= u32::MAX,
                m == grid_to_map(*g, b),
                emitted_upto(out@, *g, b, x as int, y as int),
            decreases W - x,
        {
            let px: i64 = x as i64 + b.top_left.x as i64;
            let py: i64 = y as i64 + b.top_left.y as i64;
            let ghost q = (px as int, py as int);
            let ghost before = out@;
            proof {
                assert(grid_cell(*g, b, q.0, q.1) == g@[y as int]@[x as int]);
            }
            match g[y][x] {
                Some(c) => {
                    if i32::MIN as i64 <= px && px <= i32::MAX as i64 && i32::MIN as i64 <= py && py
                        <= i32::MAX as i64 {
                        let p = Point { x: px as i32, y: py as i32 };
                        out.push(Pixel(p, c));
                        proof {
                            assert(key(out@[before.len() as int].0) == q);
                            assert(m.contains_key(q));
                            assert(forall|j: int| 0 <= j < before.len() ==> out@[j] == before[j]);
                        }
                    }
                },
                None => {},
            }
            proof {
                assert forall|k: (int, int)|
                    #[trigger] m.contains_key(k) && representable(k.0, k.1) && scanned_before(
                        b,
                        k.0,
                        k.1,
                        x + 1,
                        y as int,
                    ) implies exists|j: int| 0 <= j < out@.len() && key(#[trigger] out@[j].0) == k by {
                    if k == q {
                        assert(key(out@[before.len() as int].0) == k);
                    } else {
                        let j = choose|j: int|
                            0 <= j < before.len() && key(#[trigger] before[j].0) == k;
                        assert(out@[j] == before[j]);
                    }
                }
            }
            x = x + 1;
        }
        proof {
            let out_s = out@;
            assert forall|j: int| 0 <= j < out_s.len() implies scanned_before(
                b,
                out_s[j].0.x as int,
                out_s[j].0.y as int,
                0,
                y + 1,
            ) by {
                assert(m.contains_key(key(out_s[j].0)));
            }
        }
        y = y + 1;
    }
    out
}

/// Canvas on which you can draw but which is not placed on a display yet,
/// `W` pixels wide and `H` pixels high.
///
/// Draw on the [`CCanvas`] using an origin of `(0, 0)`.
pub struct CCanvas<C, const W: usize, const H: usize> {
    pixels: [[Option<C>; W]; H],
}

impl<C, const W: usize, const H: usize> CCanvas<C, W, H> {
    #[verifier::type_invariant]
    spec fn size_fits(self) -> bool {
        W <= u32::MAX && H <= u32::MAX
    }

    /// A [`CCanvas`] covers the `W` x `H` rectangle at the origin, and its set
    /// pixels lie inside it.
    pub proof fn lemma_view_wf(&self)
        ensures
            self@.bounds == origin_bounds(grid_size(W, H)),
            self@.wf(),
    {
    }
}

impl<C, const W: usize, const H: usize> View for CCanvas<C, W, H> {
    type V = Raster<C>;

    closed spec fn view(&self) -> Raster<C> {
        Raster {
            bounds: origin_bounds(grid_size(W, H)),
            pixels: grid_to_map(self.pixels, origin_bounds(grid_size(W, H))),
        }
    }
}

impl<C: Copy, const W: usize, const H: usize> CCanvas<C, W, H> {
    /// Create a new blank [`CCanvas`].
    pub fn new() -> (r: Self)
        requires
            W <= u32::MAX,
            H <= u32::MAX,
        ensures
            r@ == (Raster {
                bounds: origin_bounds(grid_size(W, H)),
                pixels: Map::<(int, int), C>::empty(),
            }),
    {
        let pixels = fill_grid(None);
        proof {
            lemma_uniform_grid(pixels, origin_bounds(grid_size(W, H)), None);
        }
        CCanvas { pixels }
    }

    /// Create a [`CCanvas`] filled with a default color.
    pub fn with_default_color(default_color: C) -> (r: Self)
        requires
            W <= u32::MAX,
            H <= u32::MAX,
        ensures
            r@ == (Raster {
                bounds: origin_bounds(grid_size(W, H)),
                pixels: filled(origin_bounds(grid_size(W, H)), default_color),
            }),
    {
        let pixels = fill_grid(Some(default_color));
        proof {
            lemma_uniform_grid(pixels, origin_bounds(grid_size(W, H)), Some(default_color));
        }
        CCanvas { pixels }
    }

    /// The size of the [`CCanvas`].
    pub fn size(&self) -> (r: Size)
        ensures
            r == self@.bounds.size,
            r.width == W,
            r.height == H,
            self@.bounds.top_left == (Point { x: 0, y: 0 }),
    {
        proof {
            use_type_invariant(self);
        }
        Size { width: W as u32, height: H as u32 }
    }

    /// Returns the color of the pixel at `point`.
    ///
    /// Returns `None` where the pixel was never drawn or lies outside the
    /// [`CCanvas`].
    pub fn get_pixel(&self, point: Point) -> (r: Option<C>)
        ensures
            r == self@.read(point),
            !self@.bounds.covers(point.x as int, point.y as int) ==> r is None,
    {
        proof {
            use_type_invariant(self);
        }
        if point.x < 0 || point.y < 0 {
            return None;
        }
        let x = point.x as usize;
        let y = point.y as usize;
        if x < W && y < H {
            self.pixels[y][x]
        } else {
            None
        }
    }

    /// Returns the center of the [`CCanvas`].
    pub fn center(&self) -> (r: Point)
        ensures
            r.x == half_extent(self@.bounds.size.width),
            r.y == half_extent(self@.bounds.size.height),
    {
        let offset = center_offset(self.size());
        Point { x: offset.width as i32, y: offset.height as i32 }
    }

    /// Writes one pixel; a pixel outside the [`CCanvas`] is discarded.
    fn write(&mut self, px: Pixel<C>)
        ensures
            final(self)@ == old(self)@.put(px),
    {
        proof {
            use_type_invariant(&*self);
        }
        let point = px.0;
        if point.x < 0 || point.y < 0 {
            return;
        }
        let x = point.x as usize;
        let y = point.y as usize;
        if x < W && y < H {
            let ghost before = self.pixels;
            self.pixels[y][x] = Some(px.1);
            proof {
                lemma_grid_write(
                    before,
                    self.pixels,
                    origin_bounds(grid_size(W, H)),
                    x as int,
                    y as int,
                    px.1,
                );
            }
        }
    }

    /// Draws `pixels` in order; those outside the [`CCanvas`] are discarded.
    pub fn draw_iter(&mut self, pixels: &[Pixel<C>])
        ensures
            final(self)@ == old(self)@.paint(pixels@),
    {
        let mut i: usize = 0;
        while i < pixels.len()
            invariant
                i <= pixels@.len(),
                self@ == old(self)@.paint(pixels@.take(i as int)),
            decreases pixels@.len() - i,
        {
            self.write(pixels[i]);
            proof {
                assert(pixels@.take(i + 1).drop_last() =~= pixels@.take(i as int));
            }
            i = i + 1;
        }
        proof {
            assert(pixels@.take(pixels@.len() as int) =~= pixels@);
        }
    }

    /// Create a new cropped [`CCanvas`], `NW` pixels wide and `NH` pixels
    /// high.
    ///
    /// The top left corner of `area` is given relative to the [`CCanvas`]
    /// itself, and becomes the origin of the new one. Returns `None` where
    /// `area` has a width or height of `0`.
    pub fn crop<const NW: usize, const NH: usize>(&self, area: &Rectangle) -> (r: Option<
        CCanvas<C, NW, NH>,
    >)
        requires
            NW <= u32::MAX,
            NH <= u32::MAX,
        ensures
            r is None <==> area.is_empty(),
            r matches Some(c) ==> c@ == (Raster {
                bounds: origin_bounds(grid_size(NW, NH)),
                pixels: clipped(
                    translated(clipped(self@.pixels, *area), -area.top_left.x, -area.top_left.y),
                    origin_bounds(grid_size(NW, NH)),
                ),
            }),
    {
        proof {
            use_type_invariant(self);
        }
        if area.size.width == 0 || area.size.height == 0 {
            return None;
        }
        let ghost src = self@.pixels;
        let ghost from = origin_bounds(grid_size(W, H));
        let ghost to = origin_bounds(grid_size(NW, NH));
        let mut grid: [[Option<C>; NW]; NH] = fill_grid(None);
        proof {
            lemma_uniform_grid(grid, to, None);
            assert(crop_progress(src, from, *area, to, 0, 0) =~= Map::<(int, int), C>::empty());
        }
        let mut y: usize = 0;
        while y < H
            invariant
                y <= H,
                W <= u32::MAX,
                H <= u32::MAX,
                NW <= u32::MAX,
                NH <= u32::MAX,
                src == self@.pixels,
                from == origin_bounds(grid_size(W, H)),
                to == origin_bounds(grid_size(NW, NH)),
                grid_to_map(grid, to) == crop_progress(src, from, *area, to, 0, y as int),
            decreases H - y,
        {
            let mut x: usize = 0;
            while x < W
                invariant
                    x <= W,
                    y < H,
                    W <= u32::MAX,
                    H <= u32::MAX,
                    NW <= u32::MAX,
                    NH <= u32::MAX,
                    src == self@.pixels,
                    from == origin_bounds(grid_size(W, H)),
                    to == origin_bounds(grid_size(NW, NH)),
                    grid_to_map(grid, to) == crop_progress(src, from, *area, to, x as int, y as int),
                decreases W - x,
            {
                let dx: i64 = x as i64 - area.top_left.x as i64;
                let dy: i64 = y as i64 - area.top_left.y as i64;
                let inside = 0 <= dx && dx < area.size.width as i64 && 0 <= dy && dy
                    < area.size.height as i64 && dx < NW as i64 && dy < NH as i64;
                let ghost prev = grid;
                let ghost q = (dx as int, dy as int);
                proof {
                    assert(grid_cell(self.pixels, from, x as int, y as int)
                        == self.pixels@[y as int]@[x as int]);
                }
                match self.pixels[y][x] {
                    Some(c) => {
                        if inside {
                            grid[dy as usize][dx as usize] = Some(c);
                            proof {
                                lemma_grid_write(prev, grid, to, q.0, q.1, c);
                            }
                        }
                    },
                    None => {},
                }
                proof {
                    let before = crop_progress(src, from, *area, to, x as int, y as int);
                    let after = crop_progress(src, from, *area, to, x + 1, y as int);
                    if src.contains_key((x as int, y as int)) && inside {
                        assert(after =~= before.insert(q, src[(x as int, y as int)]));
                    } else {
                        assert(after =~= before);
                    }
                }
                x = x + 1;
            }
            proof {
                assert(crop_progress(src, from, *area, to, W as int, y as int) =~= crop_progress(
                    src,
                    from,
                    *area,
                    to,
                    0,
                    y + 1,
                ));
            }
            y = y + 1;
        }
        proof {
            assert(crop_progress(src, from, *area, to, 0, H as int) =~= clipped(
                translated(clipped(src, *area), -area.top_left.x, -area.top_left.y),
                to,
            ));
        }
        Some(CCanvas { pixels: grid })
    }

    /// Places the [`CCanvas`] with its top left corner at `top_left` on the
    /// display.
    pub fn place_at(&self, top_left: Point) -> (r: CCanvasAt<C, W, H>)
        ensures
            r@ == (Raster {
                bounds: Rectangle { top_left, size: self@.bounds.size },
                pixels: translated(self@.pixels, top_left.x as int, top_left.y as int),
            }),
    {
        proof {
            use_type_invariant(self);
            lemma_grid_moved(
                self.pixels,
                origin_bounds(grid_size(W, H)),
                Rectangle { top_left, size: grid_size(W, H) },
            );
        }
        CCanvasAt { top_left, pixels: self.pixels }
    }

    /// Places the [`CCanvas`] with its center at `center` on the display.
    pub fn place_center(&self, center: Point) -> (r: CCanvasAt<C, W, H>)
        requires
            center.x - half_extent(self@.bounds.size.width) >= i32::MIN,
            center.y - half_extent(self@.bounds.size.height) >= i32::MIN,
        ensures
            ({
                let top_left = Point {
                    x: (center.x - half_extent(self@.bounds.size.width)) as i32,
                    y: (center.y - half_extent(self@.bounds.size.height)) as i32,
                };
                r@ == (Raster {
                    bounds: Rectangle { top_left, size: self@.bounds.size },
                    pixels: translated(self@.pixels, top_left.x as int, top_left.y as int),
                })
            }),
    {
        let offset = center_offset(self.size());
        let top_left = Point {
            x: center.x - offset.width as i32,
            y: center.y - offset.height as i32,
        };
        self.place_at(top_left)
    }
}

/// Canvas which is drawable at its top left corner on the display, `W`
/// pixels wide and `H` pixels high.
#[derive(Copy, Debug)]
pub struct CCanvasAt<C, const W: usize, const H: usize> {
    top_left: Point,
    pixels: [[Option<C>; W]; H],
}

impl<C, const W: usize, const H: usize> CCanvasAt<C, W, H> {
    #[verifier::type_invariant]
    spec fn size_fits(self) -> bool {
        W <= u32::MAX && H <= u32::MAX
    }

    /// A [`CCanvasAt`] is `W` x `H` pixels, and its set pixels lie inside its
    /// bounds.
    pub proof fn lemma_view_wf(&self)
        ensures
            self@.bounds.size == grid_size(W, H),
            self@.wf(),
    {
    }
}

impl<C, const W: usize, const H: usize> View for CCanvasAt<C, W, H> {
    type V = Raster<C>;

    closed spec fn view(&self) -> Raster<C> {
        let b = Rectangle { top_left: self.top_left, size: grid_size(W, H) };
        Raster { bounds: b, pixels: grid_to_map(self.pixels, b) }
    }
}

impl<C: Copy, const W: usize, const H: usize> CCanvasAt<C, W, H> {
    /// Create a new blank [`CCanvasAt`].
    pub fn new(top_left: Point) -> (r: Self)
        requires
            W <= u32::MAX,
            H <= u32::MAX,
        ensures
            r@ == (Raster {
                bounds: Rectangle { top_left, size: grid_size(W, H) },
                pixels: Map::<(int, int), C>::empty(),
            }),
    {
        let pixels = fill_grid(None);
        proof {
            lemma_uniform_grid(pixels, Rectangle { top_left, size: grid_size(W, H) }, None);
        }
        CCanvasAt { top_left, pixels }
    }

    /// Create a [`CCanvasAt`] filled with a default color.
    pub fn with_default_color(top_left: Point, default_color: C) -> (r: Self)
        requires
            W <= u32::MAX,
            H <= u32::MAX,
        ensures
            r@ == (Raster {
                bounds: Rectangle { top_left, size: grid_size(W, H) },
                pixels: filled(Rectangle { top_left, size: grid_size(W, H) }, default_color),
            }),
    {
        let pixels = fill_grid(Some(default_color));
        proof {
            lemma_uniform_grid(
                pixels,
                Rectangle { top_left, size: grid_size(W, H) },
                Some(default_color),
            );
        }
        CCanvasAt { top_left, pixels }
    }

    /// Create a new blank [`CCanvasAt`] whose center lies at `center` on the
    /// display.
    pub fn with_center(center: Point) -> (r: Self)
        requires
            W <= u32::MAX,
            H <= u32::MAX,
            center.x - half_extent(W as u32) >= i32::MIN,
            center.y - half_extent(H as u32) >= i32::MIN,
        ensures
            r@.bounds.size == grid_size(W, H),
            r@.bounds.top_left.x == center.x - half_extent(W as u32),
            r@.bounds.top_left.y == center.y - half_extent(H as u32),
            r@.pixels == Map::<(int, int), C>::empty(),
    {
        let offset = center_offset(Size { width: W as u32, height: H as u32 });
        let top_left = Point {
            x: center.x - offset.width as i32,
            y: center.y - offset.height as i32,
        };
        Self::new(top_left)
    }

    /// The top left corner of the [`CCanvasAt`] on the display.
    pub fn top_left(&self) -> (r: Point)
        ensures
            r == self@.bounds.top_left,
    {
        self.top_left
    }

    /// The area of the display that the [`CCanvasAt`] covers.
    pub fn bounding_box(&self) -> (r: Rectangle)
        ensures
            r == self@.bounds,
            r.size.width == W,
            r.size.height == H,
    {
        proof {
            use_type_invariant(self);
        }
        Rectangle { top_left: self.top_left, size: Size { width: W as u32, height: H as u32 } }
    }

    /// Returns the center of the bounding box.
    pub fn center(&self) -> (r: Point)
        requires
            self@.bounds.top_left.x + half_extent(self@.bounds.size.width) <= i32::MAX,
            self@.bounds.top_left.y + half_extent(self@.bounds.size.height) <= i32::MAX,
        ensures
            r.x == self@.bounds.top_left.x + half_extent(self@.bounds.size.width),
            r.y == self@.bounds.top_left.y + half_extent(self@.bounds.size.height),
    {
        self.bounding_box().center()
    }

    /// Returns the color of the pixel at `point`, in display coordinates.
    ///
    /// Returns `None` where the pixel was never drawn or lies outside the
    /// [`CCanvasAt`].
    pub fn get_pixel(&self, point: Point) -> (r: Option<C>)
        ensures
            r == self@.read(point),
            !self@.bounds.covers(point.x as int, point.y as int) ==> r is None,
    {
        proof {
            use_type_invariant(self);
        }
        let dx: i64 = point.x as i64 - self.top_left.x as i64;
        let dy: i64 = point.y as i64 - self.top_left.y as i64;
        if dx < 0 || dy < 0 || dx >= W as i64 || dy >= H as i64 {
            return None;
        }
        self.pixels[dy as usize][dx as usize]
    }

    /// Writes one pixel; a pixel outside the [`CCanvasAt`] is discarded.
    fn write(&mut self, px: Pixel<C>)
        ensures
            final(self)@ == old(self)@.put(px),
    {
        proof {
            use_type_invariant(&*self);
        }
        let dx: i64 = px.0.x as i64 - self.top_left.x as i64;
        let dy: i64 = px.0.y as i64 - self.top_left.y as i64;
        if dx < 0 || dy < 0 || dx >= W as i64 || dy >= H as i64 {
            return;
        }
        let ghost before = self.pixels;
        self.pixels[dy as usize][dx as usize] = Some(px.1);
        proof {
            lemma_grid_write(before, self.pixels, self@.bounds, px.0.x as int, px.0.y as int, px.1);
        }
    }

    /// Draws `pixels`, given in display coordinates, in order; those
    /// outside the [`CCanvasAt`] are discarded.
    pub fn draw_iter(&mut self, pixels: &[Pixel<C>])
        ensures
            final(self)@ == old(self)@.paint(pixels@),
    {
        let mut i: usize = 0;
        while i < pixels.len()
            invariant
                i <= pixels@.len(),
                self@ == old(self)@.paint(pixels@.take(i as int)),
            decreases pixels@.len() - i,
        {
            self.write(pixels[i]);
            proof {
                assert(pixels@.take(i + 1).drop_last() =~= pixels@.take(i as int));
            }
            i = i + 1;
        }
        proof {
            assert(pixels@.take(pixels@.len() as int) =~= pixels@);
        }
    }

    /// The pixels to draw on the display: each drawn pixel once, in
    /// row-major order. Transparent pixels are left out, so the display
    /// keeps what it shows there.
    pub fn drawn_pixels(&self) -> (r: Vec<Pixel<C>>)
        ensures
            emits(r@, self@.pixels),
    {
        proof {
            use_type_invariant(self);
        }
        emit_grid(&self.pixels, Rectangle { top_left: self.top_left, size: Size { width: W as u32, height: H as u32 } })
    }

    /// A copy of the [`CCanvasAt`] moved by `by` on the display.
    pub fn translate(&self, by: Point) -> (r: Self)
        requires
            i32::MIN <= self@.bounds.top_left.x + by.x <= i32::MAX,
            i32::MIN <= self@.bounds.top_left.y + by.y <= i32::MAX,
        ensures
            r@ == self@.moved(by),
    {
        proof {
            use_type_invariant(self);
            lemma_grid_moved(self.pixels, self@.bounds, self@.moved(by).bounds);
        }
        CCanvasAt {
            top_left: Point { x: self.top_left.x + by.x, y: self.top_left.y + by.y },
            pixels: self.pixels,
        }
    }

    /// Moves the [`CCanvasAt`] by `by` on the display.
    pub fn translate_mut(&mut self, by: Point)
        requires
            i32::MIN <= old(self)@.bounds.top_left.x + by.x <= i32::MAX,
            i32::MIN <= old(self)@.bounds.top_left.y + by.y <= i32::MAX,
        ensures
            final(self)@ == old(self)@.moved(by),
    {
        proof {
            use_type_invariant(&*self);
            lemma_grid_moved(self.pixels, self@.bounds, self@.moved(by).bounds);
        }
        self.top_left = Point { x: self.top_left.x + by.x, y: self.top_left.y + by.y };
    }
}

impl<C: Copy, const W: usize, const H: usize> Clone for CCanvasAt<C, W, H> {
    fn clone(&self) -> (r: Self)
        ensures
            r@ == self@,
    {
        proof {
            use_type_invariant(self);
        }
        CCanvasAt { top_left: self.top_left, pixels: self.pixels }
    }
}

} // verus!
