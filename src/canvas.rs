//! Canvases whose pixels live in a buffer allocated at construction.
use vstd::prelude::*;

use crate::geometry::{center_offset, half_extent, Point, Rectangle, Size};
use crate::raster::{clipped, emits, filled, translated, Pixel, Raster};
use crate::slots::{
    column_of, copy_slots, crop_slots, emit_slots, index_to_point, lemma_slot, lemma_slots_moved,
    lemma_slots_update, lemma_uniform_slots, new_pixels, point_to_index, row_of, slot, slots_to_map,
};

verus! {

/// The rectangle of the given size with its top left corner at the origin.
pub open spec fn origin_bounds(size: Size) -> Rectangle {
    Rectangle { top_left: Point { x: 0, y: 0 }, size }
}

/// Canvas on which you can draw but which is not placed on a display yet.
///
/// Draw on the [`Canvas`] using an origin of `(0, 0)`.
pub struct Canvas<C> {
    canvas: Size,
    pixels: Vec<Option<C>>,
}

impl<C> Canvas<C> {
    #[verifier::type_invariant]
    spec fn slots_cover_size(self) -> bool {
        &&& self.pixels@.len() == self.canvas.area()
        &&& self.canvas.area() <= usize::MAX
    }

    /// A [`Canvas`] covers the rectangle of its size at the origin, and its set
    /// pixels lie inside it.
    pub proof fn lemma_view_wf(&self)
        ensures
            self@.bounds.top_left == (Point { x: 0, y: 0 }),
            self@.wf(),
    {
    }
}

impl<C> View for Canvas<C> {
    type V = Raster<C>;

    closed spec fn view(&self) -> Raster<C> {
        Raster {
            bounds: origin_bounds(self.canvas),
            pixels: slots_to_map(self.pixels@, origin_bounds(self.canvas)),
        }
    }
}

impl<C: Copy> Canvas<C> {
    /// Create a new blank [`Canvas`].
    pub fn new(canvas: Size) -> (r: Self)
        requires
            canvas.area() <= usize::MAX,
        ensures
            r@ == (Raster { bounds: origin_bounds(canvas), pixels: Map::<(int, int), C>::empty() }),
    {
        let pixels = new_pixels(canvas, None);
        proof {
            lemma_uniform_slots(pixels@, origin_bounds(canvas), None);
        }
        Canvas { canvas, pixels }
    }

    /// Create a [`Canvas`] filled with a default color.
    pub fn with_default_color(canvas: Size, default_color: C) -> (r: Self)
        requires
            canvas.area() <= usize::MAX,
        ensures
            r@ == (Raster {
                bounds: origin_bounds(canvas),
                pixels: filled(origin_bounds(canvas), default_color),
            }),
    {
        let pixels = new_pixels(canvas, Some(default_color));
        proof {
            lemma_uniform_slots(pixels@, origin_bounds(canvas), Some(default_color));
        }
        Canvas { canvas, pixels }
    }

    /// The size of the [`Canvas`].
    pub fn size(&self) -> (r: Size)
        ensures
            r == self@.bounds.size,
            self@.bounds.top_left == (Point { x: 0, y: 0 }),
    {
        self.canvas
    }

    /// Returns the slot of `point` in the pixel buffer, or `None` where the
    /// point lies outside the [`Canvas`].
    pub fn point_to_index(&self, point: Point) -> (r: Option<usize>)
        ensures
            match r {
                Some(i) => self@.bounds.covers(point.x as int, point.y as int) && i == slot(
                    self@.bounds,
                    point.x as int,
                    point.y as int,
                ),
                None => !self@.bounds.covers(point.x as int, point.y as int),
            },
    {
        proof {
            use_type_invariant(self);
        }
        point_to_index(self.canvas, Point { x: 0, y: 0 }, point)
    }

    /// Returns the point of slot `index` of the pixel buffer, or `None` where
    /// the [`Canvas`] has no column or the point does not fit in a [`Point`].
    pub fn index_to_point(&self, index: usize) -> (r: Option<Point>)
        ensures
            r matches Some(p) ==> p.x == column_of(self@.bounds.size, index as int) && p.y
                == row_of(self@.bounds.size, index as int),
            r is None <==> self@.bounds.size.width == 0 || column_of(
                self@.bounds.size,
                index as int,
            ) > i32::MAX || row_of(self@.bounds.size, index as int) > i32::MAX,
    {
        index_to_point(self.canvas, index)
    }

    /// Returns the color of the pixel at `point`.
    ///
    /// Returns `None` where the pixel was never drawn or lies outside the
    /// [`Canvas`].
    pub fn get_pixel(&self, point: Point) -> (r: Option<C>)
        ensures
            r == self@.read(point),
            !self@.bounds.covers(point.x as int, point.y as int) ==> r is None,
    {
        proof {
            use_type_invariant(self);
        }
        match point_to_index(self.canvas, Point { x: 0, y: 0 }, point) {
            Some(index) => {
                proof {
                    lemma_slot(origin_bounds(self.canvas), point.x as int, point.y as int);
                }
                self.pixels[index]
            },
            None => None,
        }
    }

    /// Returns the center of the [`Canvas`].
    pub fn center(&self) -> (r: Point)
        ensures
            r.x == half_extent(self@.bounds.size.width),
            r.y == half_extent(self@.bounds.size.height),
    {
        let offset = center_offset(self.canvas);
        Point { x: offset.width as i32, y: offset.height as i32 }
    }

    /// Writes one pixel; a pixel outside the [`Canvas`] is discarded.
    fn write(&mut self, px: Pixel<C>)
        ensures
            final(self)@ == old(self)@.put(px),
    {
        proof {
            use_type_invariant(&*self);
        }
        match point_to_index(self.canvas, Point { x: 0, y: 0 }, px.0) {
            Some(index) => {
                proof {
                    lemma_slot(origin_bounds(self.canvas), px.0.x as int, px.0.y as int);
                    lemma_slots_update(
                        self.pixels@,
                        origin_bounds(self.canvas),
                        px.0.x as int,
                        px.0.y as int,
                        px.1,
                    );
                }
                self.pixels[index] = Some(px.1);
            },
            None => {},
        }
    }

    /// Draws `pixels` in order; those outside the [`Canvas`] are discarded.
    pub fn draw_iter(&mut self, pixels: &[Pixel<C>])
        ensures
            final(self)@ == old(self)@.paint(pixels@),
    {
        let mut i: usize = 0;
        while i < pixels.len()
            invariant
                i <= pixels@.len(),
                self@ == old(self)@.paint(pixels@.take(i as int)),
            decreases pixels@.len() - i,
        {
            self.write(pixels[i]);
            proof {
                assert(pixels@.take(i + 1).drop_last() =~= pixels@.take(i as int));
            }
            i = i + 1;
        }
        proof {
            assert(pixels@.take(pixels@.len() as int) =~= pixels@);
        }
    }

    /// Create a new cropped [`Canvas`].
    ///
    /// The top left corner of `area` is given relative to the [`Canvas`]
    /// itself, and becomes the origin of the new one. Returns `None` where
    /// `area` has a width or height of `0`.
    pub fn crop(&self, area: &Rectangle) -> (r: Option<Canvas<C>>)
        requires
            area.size.area() <= usize::MAX,
        ensures
            r is None <==> area.is_empty(),
            r matches Some(c) ==> c@ == (Raster {
                bounds: origin_bounds(area.size),
                pixels: translated(
                    clipped(self@.pixels, *area),
                    -area.top_left.x,
                    -area.top_left.y,
                ),
            }),
    {
        proof {
            use_type_invariant(self);
        }
        if area.size.width == 0 || area.size.height == 0 {
            return None;
        }
        let from = Rectangle { top_left: Point { x: 0, y: 0 }, size: self.canvas };
        let pixels = crop_slots(&self.pixels, from, *area);
        proof {
            lemma_slots_moved(pixels@, *area, origin_bounds(area.size));
        }
        Some(Canvas { canvas: area.size, pixels })
    }

    /// Places the [`Canvas`] with its top left corner at `top_left` on the
    /// display.
    pub fn place_at(&self, top_left: Point) -> (r: CanvasAt<C>)
        ensures
            r@ == (Raster {
                bounds: Rectangle { top_left, size: self@.bounds.size },
                pixels: translated(self@.pixels, top_left.x as int, top_left.y as int),
            }),
    {
        proof {
            use_type_invariant(self);
            lemma_slots_moved(
                self.pixels@,
                origin_bounds(self.canvas),
                Rectangle { top_left, size: self.canvas },
            );
        }
        CanvasAt { top_left, canvas: self.canvas, pixels: copy_slots(&self.pixels) }
    }

    /// Places the [`Canvas`] with its center at `center` on the display.
    pub fn place_center(&self, center: Point) -> (r: CanvasAt<C>)
        requires
            center.x - half_extent(self@.bounds.size.width) >= i32::MIN,
            center.y - half_extent(self@.bounds.size.height) >= i32::MIN,
        ensures
            ({
                let top_left = Point {
                    x: (center.x - half_extent(self@.bounds.size.width)) as i32,
                    y: (center.y - half_extent(self@.bounds.size.height)) as i32,
                };
                r@ == (Raster {
                    bounds: Rectangle { top_left, size: self@.bounds.size },
                    pixels: translated(self@.pixels, top_left.x as int, top_left.y as int),
                })
            }),
    {
        let offset = center_offset(self.canvas);
        let top_left = Point {
            x: center.x - offset.width as i32,
            y: center.y - offset.height as i32,
        };
        self.place_at(top_left)
    }
}

/// Canvas which is drawable at its top left corner on the display.
#[derive(Debug)]
pub struct CanvasAt<C> {
    top_left: Point,
    canvas: Size,
    pixels: Vec<Option<C>>,
}

impl<C> CanvasAt<C> {
    #[verifier::type_invariant]
    spec fn slots_cover_size(self) -> bool {
        &&& self.pixels@.len() == self.canvas.area()
        &&& self.canvas.area() <= usize::MAX
    }

    /// The set pixels of a [`CanvasAt`] lie inside its bounds.
    pub proof fn lemma_view_wf(&self)
        ensures
            self@.wf(),
    {
    }
}

impl<C> View for CanvasAt<C> {
    type V = Raster<C>;

    closed spec fn view(&self) -> Raster<C> {
        let b = Rectangle { top_left: self.top_left, size: self.canvas };
        Raster { bounds: b, pixels: slots_to_map(self.pixels@, b) }
    }
}

impl<C: Copy> CanvasAt<C> {
    /// Create a new blank [`CanvasAt`].
    pub fn new(top_left: Point, canvas: Size) -> (r: Self)
        requires
            canvas.area() <= usize::MAX,
        ensures
            r@ == (Raster {
                bounds: Rectangle { top_left, size: canvas },
                pixels: Map::<(int, int), C>::empty(),
            }),
    {
        let pixels = new_pixels(canvas, None);
        proof {
            lemma_uniform_slots(pixels@, Rectangle { top_left, size: canvas }, None);
        }
        CanvasAt { top_left, canvas, pixels }
    }

    /// Create a [`CanvasAt`] filled with a default color.
    pub fn with_default_color(top_left: Point, canvas: Size, default_color: C) -> (r: Self)
        requires
            canvas.area() <= usize::MAX,
        ensures
            r@ == (Raster {
                bounds: Rectangle { top_left, size: canvas },
                pixels: filled(Rectangle { top_left, size: canvas }, default_color),
            }),
    {
        let pixels = new_pixels(canvas, Some(default_color));
        proof {
            lemma_uniform_slots(pixels@, Rectangle { top_left, size: canvas }, Some(default_color));
        }
        CanvasAt { top_left, canvas, pixels }
    }

    /// Create a new blank [`CanvasAt`] whose center lies at `center` on the
    /// display.
    pub fn with_center(center: Point, size: Size) -> (r: Self)
        requires
            size.area() <= usize::MAX,
            center.x - half_extent(size.width) >= i32::MIN,
            center.y - half_extent(size.height) >= i32::MIN,
        ensures
            r@.bounds.size == size,
            r@.bounds.top_left.x == center.x - half_extent(size.width),
            r@.bounds.top_left.y == center.y - half_extent(size.height),
            r@.pixels == Map::<(int, int), C>::empty(),
    {
        let rect = Rectangle::with_center(center, size);
        Self::new(rect.top_left, size)
    }

    /// The top left corner of the [`CanvasAt`] on the display.
    pub fn top_left(&self) -> (r: Point)
        ensures
            r == self@.bounds.top_left,
    {
        self.top_left
    }

    /// The size of the [`CanvasAt`].
    pub fn size(&self) -> (r: Size)
        ensures
            r == self@.bounds.size,
    {
        self.canvas
    }

    /// The area of the display that the [`CanvasAt`] covers.
    pub fn bounding_box(&self) -> (r: Rectangle)
        ensures
            r == self@.bounds,
    {
        Rectangle { top_left: self.top_left, size: self.canvas }
    }

    /// Returns the center of the bounding box.
    pub fn center(&self) -> (r: Point)
        requires
            self@.bounds.top_left.x + half_extent(self@.bounds.size.width) <= i32::MAX,
            self@.bounds.top_left.y + half_extent(self@.bounds.size.height) <= i32::MAX,
        ensures
            r.x == self@.bounds.top_left.x + half_extent(self@.bounds.size.width),
            r.y == self@.bounds.top_left.y + half_extent(self@.bounds.size.height),
    {
        self.bounding_box().center()
    }

    /// Returns the slot of `point`, given in display coordinates, in the
    /// pixel buffer, or `None` where the point lies outside the [`CanvasAt`].
    pub fn point_to_index(&self, point: Point) -> (r: Option<usize>)
        ensures
            match r {
                Some(i) => self@.bounds.covers(point.x as int, point.y as int) && i == slot(
                    self@.bounds,
                    point.x as int,
                    point.y as int,
                ),
                None => !self@.bounds.covers(point.x as int, point.y as int),
            },
    {
        proof {
            use_type_invariant(self);
        }
        point_to_index(self.canvas, self.top_left, point)
    }

    /// Returns the point, in display coordinates, of slot `index` of the
    /// pixel buffer, or `None` where the [`CanvasAt`] has no column or the
    /// point does not fit in a [`Point`].
    pub fn index_to_point(&self, index: usize) -> (r: Option<Point>)
        ensures
            ({
                let b = self@.bounds;
                let x = column_of(b.size, index as int) + b.top_left.x;
                let y = row_of(b.size, index as int) + b.top_left.y;
                &&& r matches Some(p) ==> p.x == x && p.y == y
                &&& r is None <==> b.size.width == 0 || x > i32::MAX || y > i32::MAX
            }),
    {
        if self.canvas.width == 0 {
            return None;
        }
        let w = self.canvas.width as usize;
        let col = index % w;
        let row = index / w;
        if row > u32::MAX as usize {
            return None;
        }
        let x: i64 = col as u32 as i64 + self.top_left.x as i64;
        let y: i64 = row as u32 as i64 + self.top_left.y as i64;
        if x > i32::MAX as i64 || y > i32::MAX as i64 {
            None
        } else {
            Some(Point { x: x as i32, y: y as i32 })
        }
    }

    /// Returns the color of the pixel at `point`, in display coordinates.
    ///
    /// Returns `None` where the pixel was never drawn or lies outside the
    /// [`CanvasAt`].
    pub fn get_pixel(&self, point: Point) -> (r: Option<C>)
        ensures
            r == self@.read(point),
            !self@.bounds.covers(point.x as int, point.y as int) ==> r is None,
    {
        proof {
            use_type_invariant(self);
        }
        match point_to_index(self.canvas, self.top_left, point) {
            Some(index) => {
                proof {
                    lemma_slot(self@.bounds, point.x as int, point.y as int);
                }
                self.pixels[index]
            },
            None => None,
        }
    }

    /// Writes one pixel; a pixel outside the [`CanvasAt`] is discarded.
    fn write(&mut self, px: Pixel<C>)
        ensures
            final(self)@ == old(self)@.put(px),
    {
        proof {
            use_type_invariant(&*self);
        }
        match point_to_index(self.canvas, self.top_left, px.0) {
            Some(index) => {
                proof {
                    lemma_slot(self@.bounds, px.0.x as int, px.0.y as int);
                    lemma_slots_update(
                        self.pixels@,
                        self@.bounds,
                        px.0.x as int,
                        px.0.y as int,
                        px.1,
                    );
                }
                self.pixels[index] = Some(px.1);
            },
            None => {},
        }
    }

    /// Draws `pixels`, given in display coordinates, in order; those
    /// outside the [`CanvasAt`] are discarded.
    pub fn draw_iter(&mut self, pixels: &[Pixel<C>])
        ensures
            final(self)@ == old(self)@.paint(pixels@),
    {
        let mut i: usize = 0;
        while i < pixels.len()
            invariant
                i <= pixels@.len(),
                self@ == old(self)@.paint(pixels@.take(i as int)),
            decreases pixels@.len() - i,
        {
            self.write(pixels[i]);
            proof {
                assert(pixels@.take(i + 1).drop_last() =~= pixels@.take(i as int));
            }
            i = i + 1;
        }
        proof {
            assert(pixels@.take(pixels@.len() as int) =~= pixels@);
        }
    }

    /// The pixels to draw on the display: each drawn pixel once, in
    /// row-major order. Transparent pixels are left out, so the display
    /// keeps what it shows there.
    pub fn drawn_pixels(&self) -> (r: Vec<Pixel<C>>)
        ensures
            emits(r@, self@.pixels),
    {
        proof {
            use_type_invariant(self);
        }
        emit_slots(&self.pixels, Rectangle { top_left: self.top_left, size: self.canvas })
    }

    /// Create a new cropped [`CanvasAt`].
    ///
    /// `area` is given in display coordinates, and the new canvas stays
    /// where it is on the display. Returns `None` where `area` has a width
    /// or height of `0`.
    pub fn crop(&self, area: &Rectangle) -> (r: Option<CanvasAt<C>>)
        requires
            area.size.area() <= usize::MAX,
        ensures
            r is None <==> area.is_empty(),
            r matches Some(c) ==> c@ == (Raster {
                bounds: *area,
                pixels: clipped(self@.pixels, *area),
            }),
    {
        proof {
            use_type_invariant(self);
        }
        if area.size.width == 0 || area.size.height == 0 {
            return None;
        }
        let from = Rectangle { top_left: self.top_left, size: self.canvas };
        let pixels = crop_slots(&self.pixels, from, *area);
        Some(CanvasAt { top_left: area.top_left, canvas: area.size, pixels })
    }

    /// A copy of the [`CanvasAt`] moved by `by` on the display.
    pub fn translate(&self, by: Point) -> (r: Self)
        requires
            i32::MIN <= self@.bounds.top_left.x + by.x <= i32::MAX,
            i32::MIN <= self@.bounds.top_left.y + by.y <= i32::MAX,
        ensures
            r@ == self@.moved(by),
    {
        proof {
            use_type_invariant(self);
            lemma_slots_moved(self.pixels@, self@.bounds, self@.moved(by).bounds);
        }
        CanvasAt {
            top_left: Point { x: self.top_left.x + by.x, y: self.top_left.y + by.y },
            canvas: self.canvas,
            pixels: copy_slots(&self.pixels),
        }
    }

    /// Moves the [`CanvasAt`] by `by` on the display.
    pub fn translate_mut(&mut self, by: Point)
        requires
            i32::MIN <= old(self)@.bounds.top_left.x + by.x <= i32::MAX,
            i32::MIN <= old(self)@.bounds.top_left.y + by.y <= i32::MAX,
        ensures
            final(self)@ == old(self)@.moved(by),
    {
        proof {
            use_type_invariant(&*self);
            lemma_slots_moved(self.pixels@, self@.bounds, self@.moved(by).bounds);
        }
        self.top_left = Point { x: self.top_left.x + by.x, y: self.top_left.y + by.y };
    }
}

impl<C: Copy> Clone for CanvasAt<C> {
    /// A copy with a buffer of its own.
    fn clone(&self) -> (r: Self)
        ensures
            r@ == self@,
    {
        proof {
            use_type_invariant(self);
        }
        CanvasAt { top_left: self.top_left, canvas: self.canvas, pixels: copy_slots(&self.pixels) }
    }
}

} // verus!
