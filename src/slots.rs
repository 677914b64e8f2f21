//! Row-major buffers of slots, each either transparent or holding a color:
//! the mapping between points and slots, and the loops over a buffer that
//! the canvases share.
use vstd::arithmetic::div_mod::lemma_fundamental_div_mod_converse;
use vstd::prelude::*;

use crate::geometry::{Point, Rectangle, Size};
use crate::raster::{clipped, emits, filled, key, representable, row_major_before, translated, Pixel};

verus! {

/// The slot of point `(x, y)` in a row-major buffer covering `b`.
pub open spec fn slot(b: Rectangle, x: int, y: int) -> int {
    (x - b.top_left.x) + (y - b.top_left.y) * b.size.width
}

/// The set pixels of a row-major buffer of slots covering `b`.
pub open spec fn slots_to_map<C>(cells: Seq<Option<C>>, b: Rectangle) -> Map<(int, int), C> {
    Map::new(
        |k: (int, int)| b.covers(k.0, k.1) && cells[slot(b, k.0, k.1)] is Some,
        |k: (int, int)| cells[slot(b, k.0, k.1)]->Some_0,
    )
}

/// Column of slot `index` in a row-major buffer `size.width` slots wide.
pub open spec fn column_of(size: Size, index: int) -> int {
    index % (size.width as int)
}

/// Row of slot `index` in a row-major buffer `size.width` slots wide.
pub open spec fn row_of(size: Size, index: int) -> int {
    index / (size.width as int)
}

/// A point inside `b` has a slot inside the buffer, and its column and row
/// give the point back.
pub proof fn lemma_slot(b: Rectangle, x: int, y: int)
    requires
        b.covers(x, y),
    ensures
        0 <= slot(b, x, y) < b.size.area(),
        column_of(b.size, slot(b, x, y)) + b.top_left.x == x,
        row_of(b.size, slot(b, x, y)) + b.top_left.y == y,
{
    let w = b.size.width as int;
    let h = b.size.height as int;
    let dx = x - b.top_left.x;
    let dy = y - b.top_left.y;
    assert(dy * w <= (h - 1) * w) by (nonlinear_arith)
        requires
            dy <= h - 1,
            w >= 0,
    ;
    assert((h - 1) * w + w == h * w) by (nonlinear_arith);
    assert(0 <= dy * w) by (nonlinear_arith)
        requires
            dy >= 0,
            w >= 0,
    ;
    lemma_fundamental_div_mod_converse(dx + dy * w, w, dy, dx);
}

/// Distinct points inside `b` have distinct slots.
pub proof fn lemma_slot_injective(b: Rectangle, x1: int, y1: int, x2: int, y2: int)
    requires
        b.covers(x1, y1),
        b.covers(x2, y2),
        slot(b, x1, y1) == slot(b, x2, y2),
    ensures
        x1 == x2,
        y1 == y2,
{
    lemma_slot(b, x1, y1);
    lemma_slot(b, x2, y2);
}

/// The slot of a point of the slot's own column and row is that slot.
pub proof fn lemma_slot_of_index(b: Rectangle, index: int)
    requires
        0 <= index < b.size.area(),
    ensures
        b.covers(column_of(b.size, index) + b.top_left.x, row_of(b.size, index) + b.top_left.y),
        slot(b, column_of(b.size, index) + b.top_left.x, row_of(b.size, index) + b.top_left.y)
            == index,
{
    let w = b.size.width as int;
    let h = b.size.height as int;
    assert(w > 0) by (nonlinear_arith)
        requires
            0 <= index < w * h,
            h >= 0,
    ;
    vstd::arithmetic::div_mod::lemma_fundamental_div_mod(index, w);
    vstd::arithmetic::div_mod::lemma_mod_bound(index, w);
    let q = index / w;
    let r = index % w;
    assert(q < h) by (nonlinear_arith)
        requires
            index == w * q + r,
            0 <= r,
            index < w * h,
            w > 0,
    ;
    assert(q >= 0) by (nonlinear_arith)
        requires
            index == w * q + r,
            r < w,
            index >= 0,
            w > 0,
    ;
    assert(w * q == q * w) by (nonlinear_arith);
}

/// Returns the slot of `point` in a row-major buffer covering the area of
/// `size` whose top left corner is `top_left_offset`, or `None` where the
/// point lies outside that area.
pub fn point_to_index(size: Size, top_left_offset: Point, point: Point) -> (r: Option<usize>)
    requires
        size.area() <= usize::MAX,
    ensures
        ({
            let b = Rectangle { top_left: top_left_offset, size };
            match r {
                Some(i) => b.covers(point.x as int, point.y as int) && i == slot(
                    b,
                    point.x as int,
                    point.y as int,
                ),
                None => !b.covers(point.x as int, point.y as int),
            }
        }),
        point.x < top_left_offset.x || point.y < top_left_offset.y ==> r is None,
        point.x >= top_left_offset.x + size.width || point.y >= top_left_offset.y + size.height
            ==> r is None,
{
    let dx: i64 = point.x as i64 - top_left_offset.x as i64;
    let dy: i64 = point.y as i64 - top_left_offset.y as i64;
    if dx < 0 || dy < 0 || dx >= size.width as i64 || dy >= size.height as i64 {
        return None;
    }
    proof {
        lemma_slot(Rectangle { top_left: top_left_offset, size }, point.x as int, point.y as int);
    }
    let x = dx as u32 as usize;
    let y = dy as u32 as usize;
    let w = size.width as usize;
    proof {
        assert(0 <= y * w <= x + y * w) by (nonlinear_arith)
            requires
                x >= 0,
                y >= 0,
                w >= 0,
        ;
    }
    Some(x + y * w)
}

/// Returns the column and row of slot `index` in a row-major buffer
/// `size.width` slots wide, or `None` where the buffer has no column or
/// where they do not fit in a point.
pub fn index_to_point(size: Size, index: usize) -> (r: Option<Point>)
    ensures
        r matches Some(p) ==> p.x == column_of(size, index as int) && p.y == row_of(
            size,
            index as int,
        ),
        r is None <==> size.width == 0 || column_of(size, index as int) > i32::MAX || row_of(
            size,
            index as int,
        ) > i32::MAX,
{
    if size.width == 0 {
        return None;
    }
    let w = size.width as usize;
    let x = index % w;
    let y = index / w;
    if x > i32::MAX as usize || y > i32::MAX as usize {
        return None;
    }
    Some(Point { x: x as i32, y: y as i32 })
}

/// Setting the slot of a point inside `b` sets that point and no other.
pub proof fn lemma_slots_update<C>(cells: Seq<Option<C>>, b: Rectangle, x: int, y: int, c: C)
    requires
        cells.len() == b.size.area(),
        b.covers(x, y),
    ensures
        slots_to_map(cells.update(slot(b, x, y), Some(c)), b) == slots_to_map(cells, b).insert(
            (x, y),
            c,
        ),
{
    let s = slot(b, x, y);
    lemma_slot(b, x, y);
    let after = slots_to_map(cells.update(s, Some(c)), b);
    let expect = slots_to_map(cells, b).insert((x, y), c);
    assert forall|k: (int, int)|
        #![trigger after.contains_key(k)]
        #![trigger expect.contains_key(k)]
        after.contains_key(k) == expect.contains_key(k) && (after.contains_key(k) ==> after[k]
            == expect[k]) by {
        if b.covers(k.0, k.1) {
            lemma_slot(b, k.0, k.1);
            if k != (x, y) {
                if slot(b, k.0, k.1) == s {
                    lemma_slot_injective(b, k.0, k.1, x, y);
                }
            }
        }
    }
    assert(after =~= expect);
}

/// A buffer whose slots all hold `v` sets every point of `b` to the color
/// of `v`, or none where `v` is `None`.
pub proof fn lemma_uniform_slots<C>(cells: Seq<Option<C>>, b: Rectangle, v: Option<C>)
    requires
        cells.len() == b.size.area(),
        forall|i: int| 0 <= i < cells.len() ==> cells[i] == v,
    ensures
        v is None ==> slots_to_map(cells, b) == Map::<(int, int), C>::empty(),
        v matches Some(c) ==> slots_to_map(cells, b) == filled(b, c),
{
    let m = slots_to_map(cells, b);
    assert forall|k: (int, int)| b.covers(k.0, k.1) implies cells[slot(b, k.0, k.1)] == v by {
        lemma_slot(b, k.0, k.1);
    }
    if v is None {
        assert(m =~= Map::<(int, int), C>::empty());
    } else {
        assert(m =~= filled(b, v->Some_0));
    }
}

/// A buffer of `size.area()` slots, each holding `color`.
pub(crate) fn new_pixels<C: Copy>(size: Size, color: Option<C>) -> (r: Vec<Option<C>>)
    requires
        size.area() <= usize::MAX,
    ensures
        r@.len() == size.area(),
        forall|i: int| 0 <= i < r@.len() ==> r@[i] == color,
{
    let pixel_count = size.width as usize * size.height as usize;
    let mut pixels: Vec<Option<C>> = Vec::with_capacity(pixel_count);
    while pixels.len() < pixel_count
        invariant
            pixels@.len() <= pixel_count,
            forall|i: int| 0 <= i < pixels@.len() ==> pixels@[i] == color,
        decreases pixel_count - pixels@.len(),
    {
        pixels.push(color);
    }
    pixels
}

/// The pixels of the buffer `cells` covering `from` whose slot comes before
/// `limit` and which lie inside `area`.
pub open spec fn scanned<C>(cells: Seq<Option<C>>, from: Rectangle, area: Rectangle, limit: int) -> Map<
    (int, int),
    C,
> {
    Map::new(
        |k: (int, int)|
            slots_to_map(cells, from).contains_key(k) && area.covers(k.0, k.1) && slot(
                from,
                k.0,
                k.1,
            ) < limit,
        |k: (int, int)| slots_to_map(cells, from)[k],
    )
}

/// Copies into a fresh, transparent buffer covering `area` the set pixels
/// of the buffer `cells` covering `from` that lie inside `area`.
///
/// Every slot of the source is visited once, in order.
pub(crate) fn crop_slots<C: Copy>(cells: &Vec<Option<C>>, from: Rectangle, area: Rectangle) -> (r:
    Vec<Option<C>>)
    requires
        cells@.len() == from.size.area(),
        from.size.area() <= usize::MAX,
        area.size.area() <= usize::MAX,
    ensures
        r@.len() == area.size.area(),
        slots_to_map(r@, area) == clipped(slots_to_map(cells@, from), area),
{
    let mut out = new_pixels(area.size, None);
    proof {
        lemma_uniform_slots(out@, area, None);
        assert(scanned(cells@, from, area, 0) =~= Map::<(int, int), C>::empty());
    }
    let n = cells.len();
    let w = from.size.width as usize;
    let mut i: usize = 0;
    while i < n
        invariant
            n == cells@.len(),
            n == from.size.area(),
            n <= usize::MAX,
            i <= n,
            w == from.size.width,
            out@.len() == area.size.area(),
            area.size.area() <= usize::MAX,
            slots_to_map(out@, area) == scanned(cells@, from, area, i as int),
        decreases n - i,
    {
        let ghost before = out@;
        proof {
            lemma_slot_of_index(from, i as int);
        }
        let col = i % w;
        let row = i / w;
        // the point of slot `i`, and its offset from the corner of `area`
        let px: i64 = col as u32 as i64 + from.top_left.x as i64;
        let py: i64 = row as u32 as i64 + from.top_left.y as i64;
        let dx: i64 = px - area.top_left.x as i64;
        let dy: i64 = py - area.top_left.y as i64;
        let inside = 0 <= dx && dx < area.size.width as i64 && 0 <= dy && dy
            < area.size.height as i64;
        let ghost src = slots_to_map(cells@, from);
        let ghost q = (px as int, py as int);
        proof {
            assert(slot(from, q.0, q.1) == i);
            assert(area.covers(q.0, q.1) == inside);
            assert(src.contains_key(q) == cells@[i as int] is Some);
        }
        match cells[i] {
            Some(c) => {
                if inside {
                    proof {
                        lemma_slot(area, q.0, q.1);
                        assert(0 <= (dy as int) * (area.size.width as int) <= (dx as int) + (
                        dy as int) * (area.size.width as int)) by (nonlinear_arith)
                            requires
                                dx >= 0,
                                dy >= 0,
                        ;
                    }
                    let t = dx as u32 as usize + dy as u32 as usize * area.size.width as usize;
                    out.set(t, Some(c));
                    proof {
                        lemma_slots_update(before, area, q.0, q.1, c);
                    }
                }
            },
            None => {},
        }
        proof {
            let next = scanned(cells@, from, area, i + 1);
            let prev = scanned(cells@, from, area, i as int);
            assert forall|k: (int, int)| #[trigger]
                next.contains_key(k) && k != q implies prev.contains_key(k) by {
                lemma_slot(from, k.0, k.1);
                if slot(from, k.0, k.1) == i {
                    lemma_slot_injective(from, k.0, k.1, q.0, q.1);
                }
            }
            if src.contains_key(q) && inside {
                assert(next =~= prev.insert(q, src[q]));
            } else {
                assert(next =~= prev);
            }
        }
        i = i + 1;
    }
    proof {
        let src = slots_to_map(cells@, from);
        assert forall|k: (int, int)| #[trigger]
            src.contains_key(k) implies slot(from, k.0, k.1) < n by {
            lemma_slot(from, k.0, k.1);
        }
        assert(scanned(cells@, from, area, n as int) =~= clipped(src, area));
    }
    out
}

/// Slots of a buffer come in the row-major order of their points.
pub proof fn lemma_slot_order(b: Rectangle, p: Point, q: Point)
    requires
        b.covers(p.x as int, p.y as int),
        b.covers(q.x as int, q.y as int),
        slot(b, p.x as int, p.y as int) < slot(b, q.x as int, q.y as int),
    ensures
        row_major_before(p, q),
{
    let w = b.size.width as int;
    let dxp = p.x - b.top_left.x;
    let dyp = p.y - b.top_left.y;
    let dxq = q.x - b.top_left.x;
    let dyq = q.y - b.top_left.y;
    if dyp > dyq {
        assert(dxp + dyp * w < dxq + dyq * w ==> false) by (nonlinear_arith)
            requires
                w >= 0,
                dyp >= dyq + 1,
                0 <= dxq < w,
                0 <= dxp,
        ;
    }
}

/// The set pixels of the buffer `cells` covering `b` that can be written
/// as points, visited slot by slot.
pub(crate) fn emit_slots<C: Copy>(cells: &Vec<Option<C>>, b: Rectangle) -> (r: Vec<Pixel<C>>)
    requires
        cells@.len() == b.size.area(),
        b.size.area() <= usize::MAX,
    ensures
        emits(r@, slots_to_map(cells@, b)),
{
    let ghost m = slots_to_map(cells@, b);
    let mut out: Vec<Pixel<C>> = Vec::new();
    let n = cells.len();
    let w = b.size.width as usize;
    let mut i: usize = 0;
    while i < n
        invariant
            n == cells@.len(),
            n == b.size.area(),
            i <= n,
            w == b.size.width,
            m == slots_to_map(cells@, b),
            forall|j: int|
                0 <= j < out@.len() ==> m.contains_key(key(#[trigger] out@[j].0)) && m[key(
                    out@[j].0,
                )] == out@[j].1 && b.covers(out@[j].0.x as int, out@[j].0.y as int) && slot(
                    b,
                    out@[j].0.x as int,
                    out@[j].0.y as int,
                ) < i,
            forall|k: (int, int)|
                #[trigger] m.contains_key(k) && representable(k.0, k.1) && slot(b, k.0, k.1) < i
                    ==> exists|j: int| 0 <= j < out@.len() && key(#[trigger] out@[j].0) == k,
            forall|j1: int, j2: int|
                0 <= j1 < j2 < out@.len() ==> row_major_before(
                    #[trigger] out@[j1].0,
                    #[trigger] out@[j2].0,
                ),
        decreases n - i,
    {
        proof {
            lemma_slot_of_index(b, i as int);
        }
        let col = i % w;
        let row = i / w;
        let px: i64 = col as u32 as i64 + b.top_left.x as i64;
        let py: i64 = row as u32 as i64 + b.top_left.y as i64;
        let ghost q = (px as int, py as int);
        let ghost before = out@;
        match cells[i] {
            Some(c) => {
                if i32::MIN as i64 <= px && px <= i32::MAX as i64 && i32::MIN as i64 <= py && py
                    <= i32::MAX as i64 {
                    let p = Point { x: px as i32, y: py as i32 };
                    proof {
                        assert forall|j: int| 0 <= j < before.len() implies row_major_before(
                            before[j].0,
                            p,
                        ) by {
                            lemma_slot_order(b, before[j].0, p);
                        }
                    }
                    out.push(Pixel(p, c));
                    proof {
                        assert(key(out@[before.len() as int].0) == q);
                        assert(slot(b, q.0, q.1) == i);
                        assert(m.contains_key(q));
                        assert(forall|j: int| 0 <= j < before.len() ==> out@[j] == before[j]);
                    }
                }
            },
            None => {},
        }
        proof {
            assert forall|k: (int, int)|
                #[trigger] m.contains_key(k) && representable(k.0, k.1) && slot(b, k.0, k.1) < i
                    + 1 implies exists|j: int|
                0 <= j < out@.len() && key(#[trigger] out@[j].0) == k by {
                lemma_slot(b, k.0, k.1);
                if slot(b, k.0, k.1) == i {
                    lemma_slot_injective(b, k.0, k.1, q.0, q.1);
                    assert(key(out@[before.len() as int].0) == k);
                } else {
                    let j = choose|j: int| 0 <= j < before.len() && key(#[trigger] before[j].0) == k;
                    assert(out@[j] == before[j]);
                }
            }
        }
        i = i + 1;
    }
    proof {
        assert forall|k: (int, int)| #[trigger] m.contains_key(k) implies slot(b, k.0, k.1) < n by {
            lemma_slot(b, k.0, k.1);
        }
    }
    out
}

/// Moving a buffer's rectangle moves its pixels with it.
pub proof fn lemma_slots_moved<C>(cells: Seq<Option<C>>, from: Rectangle, to: Rectangle)
    requires
        from.size == to.size,
    ensures
        translated(slots_to_map(cells, from), to.top_left.x - from.top_left.x, to.top_left.y
            - from.top_left.y) == slots_to_map(cells, to),
{
    let dx = to.top_left.x - from.top_left.x;
    let dy = to.top_left.y - from.top_left.y;
    assert forall|x: int, y: int| #[trigger] slot(to, x, y) == slot(from, x - dx, y - dy) by {}
    assert(translated(slots_to_map(cells, from), dx, dy) =~= slots_to_map(cells, to));
}

/// A fresh buffer holding the same slots as `cells`.
pub(crate) fn copy_slots<C: Copy>(cells: &Vec<Option<C>>) -> (r: Vec<Option<C>>)
    ensures
        r@ == cells@,
{
    let mut out: Vec<Option<C>> = Vec::with_capacity(cells.len());
    let mut i: usize = 0;
    while i < cells.len()
        invariant
            i <= cells@.len(),
            out@ == cells@.take(i as int),
        decreases cells@.len() - i,
    {
        out.push(cells[i]);
        i = i + 1;
        proof {
            assert(out@ =~= cells@.take(i as int));
        }
    }
    proof {
        assert(cells@.take(cells@.len() as int) =~= cells@);
    }
    out
}

} // verus!
