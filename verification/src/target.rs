//! The frame: a colour buffer and a depth buffer, and their division into row ranges.

use vstd::prelude::*;

verus! {

/// The depth of a pixel that nothing has been drawn on: farther than any fragment.
pub const FAR: i32 = i32::MAX;

/// A colour buffer and a depth buffer of `width` times `height` pixels, row after
/// row from the top-left corner.
pub struct RenderTarget {
    pub color: Vec<u32>,
    pub depth: Vec<i32>,
    pub width: u32,
    pub height: u32,
    pub clear_color: u32,
}

/// A product of two factors grows with each of them.
pub proof fn lemma_product_grows(a: int, b: int, c: int)
    by (nonlinear_arith)
    requires
        0 <= a <= b,
        0 <= c,
    ensures
        a * c <= b * c,
        c * a <= c * b,
{
}

/// Multiplying out a sum.
pub proof fn lemma_product_splits(a: int, b: int, c: int)
    by (nonlinear_arith)
    ensures
        (a + b) * c == a * c + b * c,
        (a - b) * c == a * c - b * c,
{
}

/// In a row-major buffer a row and a column determine the index, and the index
/// determines them.
pub proof fn lemma_index_unique(width: int, row: int, column: int, other_row: int, other_column: int)
    by (nonlinear_arith)
    requires
        0 <= column < width,
        0 <= other_column < width,
        row * width + column == other_row * width + other_column,
    ensures
        row == other_row,
        column == other_column,
{
}

/// The index of a pixel lies inside the buffer.
pub proof fn lemma_index_bound(width: int, rows: int, row: int, column: int)
    by (nonlinear_arith)
    requires
        0 <= column < width,
        0 <= row < rows,
    ensures
        0 <= row * width + column < rows * width,
{
}

/// How many rows one of `n` workers gets: the height divided by `n`, rounded up.
pub open spec fn rows_per_slice(height: int, n: int) -> int
    recommends
        n >= 1,
{
    (height + n - 1) / n
}

/// How many of the `n` row ranges are not empty.
pub open spec fn slice_count(height: int, n: int) -> int
    recommends
        n >= 1,
{
    if height <= 0 {
        0
    } else {
        (height + rows_per_slice(height, n) - 1) / rows_per_slice(height, n)
    }
}

/// The first row of range `i`.
pub open spec fn slice_start(height: int, n: int, i: int) -> int {
    i * rows_per_slice(height, n)
}

/// The row after the last row of range `i`.
pub open spec fn slice_end(height: int, n: int, i: int) -> int {
    if (i + 1) * rows_per_slice(height, n) < height {
        (i + 1) * rows_per_slice(height, n)
    } else {
        height
    }
}

/// Facts about rounding up a quotient.
pub proof fn lemma_rows_per_slice(height: int, n: int)
    by (nonlinear_arith)
    requires
        height >= 1,
        n >= 1,
    ensures
        rows_per_slice(height, n) >= 1,
        rows_per_slice(height, n) <= height,
        rows_per_slice(height, n) * n >= height,
        (rows_per_slice(height, n) - 1) * n < height,
        n >= height ==> rows_per_slice(height, n) == 1,
{
}

/// Facts about the number of ranges.
pub proof fn lemma_slice_count(height: int, n: int)
    requires
        height >= 1,
        n >= 1,
    ensures
        1 <= slice_count(height, n) <= n,
        (slice_count(height, n) - 1) * rows_per_slice(height, n) < height,
        slice_count(height, n) * rows_per_slice(height, n) >= height,
{
    lemma_rows_per_slice(height, n);
    let r = rows_per_slice(height, n);
    let k = slice_count(height, n);
    lemma_rows_per_slice(height, r);
    assert(k == rows_per_slice(height, r));
    if k > n {
        lemma_product_grows(n, k - 1, r);
        assert(n * r <= (k - 1) * r);
        assert(n * r == r * n) by (nonlinear_arith);
    }
}

/// The row ranges tile the frame: the ranges follow one another from row 0 to the
/// last row, none is empty, none overlaps another, and every row of the frame lies
/// in exactly one of them.
pub proof fn lemma_tiling_covers(height: int, n: int)
    requires
        height >= 0,
        n >= 1,
    ensures
        0 <= slice_count(height, n) <= n,
        height > 0 ==> slice_start(height, n, 0) == 0 && slice_end(
            height,
            n,
            slice_count(height, n) - 1,
        ) == height,
        forall|i: int|
            0 <= i < slice_count(height, n) ==> 0 <= #[trigger] slice_start(height, n, i)
                < slice_end(height, n, i) <= height,
        forall|i: int|
            0 <= i < slice_count(height, n) - 1 ==> #[trigger] slice_end(height, n, i)
                == slice_start(height, n, i + 1),
        forall|y: int|
            0 <= y < height ==> 0 <= #[trigger] row_owner(height, n, y) < slice_count(height, n)
                && slice_start(height, n, row_owner(height, n, y)) <= y < slice_end(
                height,
                n,
                row_owner(height, n, y),
            ),
        forall|i: int, y: int|
            0 <= i < slice_count(height, n) && #[trigger] slice_start(height, n, i) <= y
                < slice_end(height, n, i) ==> i == #[trigger] row_owner(height, n, y),
{
    if height > 0 {
        lemma_slice_count(height, n);
        lemma_rows_per_slice(height, n);
        let r = rows_per_slice(height, n);
        let k = slice_count(height, n);
        assert(slice_start(height, n, 0) == 0);
        assert forall|i: int| 0 <= i < k implies 0 <= #[trigger] slice_start(height, n, i)
            < slice_end(height, n, i) <= height by {
            lemma_product_grows(i, k - 1, r);
            lemma_product_grows(0, i, r);
            lemma_product_splits(i, 1, r);
        }
        assert forall|i: int| 0 <= i < k - 1 implies #[trigger] slice_end(height, n, i)
            == slice_start(height, n, i + 1) by {
            lemma_product_grows(i + 1, k - 1, r);
        }
        assert forall|y: int| 0 <= y < height implies 0 <= #[trigger] row_owner(height, n, y) < k
            && slice_start(height, n, row_owner(height, n, y)) <= y < slice_end(
            height,
            n,
            row_owner(height, n, y),
        ) by {
            lemma_row_owner(y, r);
            let o = y / r;
            lemma_product_splits(o, 1, r);
            if o >= k {
                lemma_product_grows(k, o, r);
            }
        }
        assert forall|i: int, y: int|
            0 <= i < k && #[trigger] slice_start(height, n, i) <= y < slice_end(
                height,
                n,
                i,
            ) implies i == #[trigger] row_owner(height, n, y) by {
            lemma_row_owner(y, r);
            lemma_product_splits(i, 1, r);
            let o = y / r;
            lemma_product_splits(o, 1, r);
            if o < i {
                lemma_product_grows(o + 1, i, r);
            }
            if o > i {
                lemma_product_grows(i + 1, o, r);
            }
        }
    }
}

/// The range that row `y` falls into.
pub open spec fn row_owner(height: int, n: int, y: int) -> int {
    y / rows_per_slice(height, n)
}

proof fn lemma_row_owner(y: int, r: int)
    by (nonlinear_arith)
    requires
        y >= 0,
        r >= 1,
    ensures
        0 <= y / r,
        (y / r) * r <= y < (y / r) * r + r,
{
}

impl RenderTarget {
    /// Both buffers hold one entry for each pixel.
    pub open spec fn wf(&self) -> bool {
        &&& self.color@.len() == self.width as int * self.height as int
        &&& self.depth@.len() == self.width as int * self.height as int
    }

    /// The colour of the pixel in column `x` of row `y`.
    pub open spec fn pixel_color(&self, x: int, y: int) -> u32 {
        self.color@[y * self.width as int + x]
    }

    /// The depth of the pixel in column `x` of row `y`.
    pub open spec fn pixel_depth(&self, x: int, y: int) -> i32 {
        self.depth@[y * self.width as int + x]
    }

    /// A cleared target that clears to black.
    pub fn new(width: u32, height: u32) -> (target: Self)
        requires
            width as int * height as int <= usize::MAX,
        ensures
            target.wf(),
            target.width == width,
            target.height == height,
            target.clear_color == 0,
            forall|i: int| 0 <= i < target.color@.len() ==> target.color@[i] == 0,
            forall|i: int| 0 <= i < target.depth@.len() ==> target.depth@[i] == FAR,
    {
        proof {
            lemma_product_grows(0, width as int, height as int);
        }
        let pixels: usize = width as usize * height as usize;
        RenderTarget {
            color: vec![0u32; pixels],
            depth: vec![FAR; pixels],
            width,
            height,
            clear_color: 0,
        }
    }

    /// The target for a surface of the given size: none while the surface has no
    /// area (or more pixels than can be addressed), a fresh target otherwise.
    pub fn for_surface(width: u32, height: u32) -> (target: Option<Self>)
        ensures
            target is None <==> width == 0 || height == 0 || width as int * height as int
                > usize::MAX,
            target matches Some(t) ==> t.wf() && t.width == width && t.height == height
                && t.clear_color == 0 && (forall|i: int|
                0 <= i < t.color@.len() ==> t.color@[i] == 0) && (forall|i: int|
                0 <= i < t.depth@.len() ==> t.depth@[i] == FAR),
    {
        if width == 0 || height == 0 {
            return None;
        }
        proof {
            lemma_product_grows(0, width as int, height as int);
            crate::fixed::lemma_product_bound(width as int, height as int, 0xffff_ffff, 0xffff_ffff);
        }
        let pixels: u64 = width as u64 * height as u64;
        if pixels > usize::MAX as u64 {
            return None;
        }
        Some(RenderTarget::new(width, height))
    }

    /// Sets the colour that `clear` fills the frame with.
    pub fn set_clear_color(&mut self, color: u32)
        ensures
            final(self).clear_color == color,
            final(self).color == old(self).color,
            final(self).depth == old(self).depth,
            final(self).width == old(self).width,
            final(self).height == old(self).height,
    {
        self.clear_color = color;
    }

    /// The colour buffer, row after row.
    pub fn color(&self) -> (buffer: &[u32])
        ensures
            buffer@ == self.color@,
    {
        self.color.as_slice()
    }

    /// The depth buffer, row after row.
    pub fn depth(&self) -> (buffer: &[i32])
        ensures
            buffer@ == self.depth@,
    {
        self.depth.as_slice()
    }

    pub fn width(&self) -> (w: u32)
        ensures
            w == self.width,
    {
        self.width
    }

    pub fn height(&self) -> (h: u32)
        ensures
            h == self.height,
    {
        self.height
    }

    /// Resets every pixel: its colour to the clear colour, its depth to [`FAR`].
    pub fn clear(&mut self)
        ensures
            final(self).width == old(self).width,
            final(self).height == old(self).height,
            final(self).clear_color == old(self).clear_color,
            final(self).color@.len() == old(self).color@.len(),
            final(self).depth@.len() == old(self).depth@.len(),
            forall|i: int|
                0 <= i < final(self).color@.len() ==> final(self).color@[i] == old(self).clear_color,
            forall|i: int| 0 <= i < final(self).depth@.len() ==> final(self).depth@[i] == FAR,
            old(self).wf() ==> final(self).wf(),
    {
        let background: u32 = self.clear_color;
        let mut i: usize = 0;
        while i < self.color.len()
            invariant
                i <= self.color@.len(),
                self.color@.len() == old(self).color@.len(),
                self.depth == old(self).depth,
                self.width == old(self).width,
                self.height == old(self).height,
                self.clear_color == old(self).clear_color,
                background == self.clear_color,
                forall|j: int| 0 <= j < i ==> self.color@[j] == background,
            decreases self.color@.len() - i,
        {
            self.color[i] = background;
            i = i + 1;
        }
        let mut k: usize = 0;
        while k < self.depth.len()
            invariant
                k <= self.depth@.len(),
                self.depth@.len() == old(self).depth@.len(),
                self.color@.len() == old(self).color@.len(),
                self.width == old(self).width,
                self.height == old(self).height,
                self.clear_color == old(self).clear_color,
                forall|j: int| 0 <= j < self.color@.len() ==> self.color@[j] == background,
                background == self.clear_color,
                forall|j: int| 0 <= j < k ==> self.depth@[j] == FAR,
            decreases self.depth@.len() - k,
        {
            self.depth[k] = FAR;
            k = k + 1;
        }
    }
}

/// A view into the rows `start..end` of a target's buffers, for one worker to draw
/// on. It borrows the rows; it does not own them.
///
/// What is written through a slice reaches the frame when the slice is dropped. The
/// contracts of the functions that draw on a slice therefore say two things: what
/// the slice's buffers hold when the function returns, and that the slice still
/// borrows the same rows (the clauses that equate the `final` contents of the
/// buffer references before and after the call).
pub struct RenderSlice<'a> {
    pub color_slice: &'a mut [u32],
    pub depth_slice: &'a mut [i32],
    pub start: u32,
    pub end: u32,
    pub width: u32,
    pub height: u32,
}

/// The ranges follow one another from row 0 to the last row of the frame, and none
/// is empty: every row lies in exactly one of them.
pub open spec fn is_row_tiling(slices: Seq<RenderSlice>, height: int) -> bool {
    &&& slices.len() == 0 <==> height == 0
    &&& slices.len() > 0 ==> slices[0].start == 0 && slices.last().end == height
    &&& forall|i: int| 0 <= i < slices.len() ==> (#[trigger] slices[i]).start < slices[i].end
    &&& forall|i: int|
        0 <= i < slices.len() - 1 ==> (#[trigger] slices[i]).end == slices[i + 1].start
}

/// The number of ranges, from the rows of each and the height.
proof fn lemma_count_is(height: int, rows: int, i: int)
    by (nonlinear_arith)
    requires
        rows >= 1,
        (i - 1) * rows < height <= i * rows,
    ensures
        i == (height + rows - 1) / rows,
{
}

impl<'a> RenderSlice<'a> {
    /// The colours of the slice's rows, as they are now.
    pub open spec fn colors(&self) -> Seq<u32> {
        self.color_slice@
    }

    /// The depths of the slice's rows, as they are now.
    pub open spec fn depths(&self) -> Seq<i32> {
        self.depth_slice@
    }

    /// The two buffers hold the rows from `start` to `end`, which are rows of the
    /// frame.
    pub open spec fn wf(&self) -> bool {
        &&& self.start <= self.end <= self.height
        &&& self.colors().len() == (self.end - self.start) * self.width
        &&& self.depths().len() == (self.end - self.start) * self.width
    }

    /// The slice is a view of the rows from `start` to `end` of the target: it has
    /// the target's size, and its buffers hold these rows of the target's buffers.
    pub open spec fn shows(&self, target: &RenderTarget) -> bool {
        &&& self.wf()
        &&& self.width == target.width
        &&& self.height == target.height
        &&& self.colors() == target.color@.subrange(
            self.start * target.width,
            self.end * target.width,
        )
        &&& self.depths() == target.depth@.subrange(
            self.start * target.width,
            self.end * target.width,
        )
    }

    /// Whether the pixel belongs to this slice.
    pub open spec fn contains(&self, x: int, y: int) -> bool {
        0 <= x < self.width && self.start <= y < self.end
    }

    /// Where the slice's buffers hold the pixel.
    pub open spec fn index_of(&self, x: int, y: int) -> int {
        (y - self.start) * self.width + x
    }

    /// The colour of the pixel in column `x` of the frame's row `y`.
    pub open spec fn pixel_color(&self, x: int, y: int) -> u32 {
        self.colors()[self.index_of(x, y)]
    }

    /// The depth of the pixel in column `x` of the frame's row `y`.
    pub open spec fn pixel_depth(&self, x: int, y: int) -> i32 {
        self.depths()[self.index_of(x, y)]
    }

    /// The same rows of the same frame.
    pub open spec fn same_window(&self, other: &RenderSlice) -> bool {
        &&& self.start == other.start
        &&& self.end == other.end
        &&& self.width == other.width
        &&& self.height == other.height
    }

    /// The first row of the slice.
    pub fn start(&self) -> (r: u32)
        ensures
            r == self.start,
    {
        self.start
    }

    /// The row after the last row of the slice.
    pub fn end(&self) -> (r: u32)
        ensures
            r == self.end,
    {
        self.end
    }

    /// The width of the frame.
    pub fn width(&self) -> (r: u32)
        ensures
            r == self.width,
    {
        self.width
    }

    /// The height of the frame.
    pub fn height(&self) -> (r: u32)
        ensures
            r == self.height,
    {
        self.height
    }

    /// The index of a pixel of the slice.
    fn index(&self, x: u32, y: u32) -> (i: usize)
        requires
            self.wf(),
            self.contains(x as int, y as int),
        ensures
            i == self.index_of(x as int, y as int),
            i < self.colors().len(),
            i < self.depths().len(),
    {
        proof {
            lemma_index_bound(
                self.width as int,
                self.end - self.start,
                y - self.start,
                x as int,
            );
            lemma_product_grows(0, y - self.start, self.width as int);
        }
        let entries: usize = self.color_slice.len();
        (y - self.start) as usize * self.width as usize + x as usize
    }

    /// The colour of a pixel of the slice.
    pub fn color_at(&self, x: u32, y: u32) -> (c: u32)
        requires
            self.wf(),
            self.contains(x as int, y as int),
        ensures
            c == self.pixel_color(x as int, y as int),
    {
        let i: usize = self.index(x, y);
        self.color_slice[i]
    }

    /// The depth of a pixel of the slice.
    pub fn depth_at(&self, x: u32, y: u32) -> (d: i32)
        requires
            self.wf(),
            self.contains(x as int, y as int),
        ensures
            d == self.pixel_depth(x as int, y as int),
    {
        let i: usize = self.index(x, y);
        self.depth_slice[i]
    }

    /// Paints one pixel of the slice and leaves its depth alone.
    pub fn set_color(&mut self, x: u32, y: u32, color: u32)
        requires
            old(self).wf(),
            old(self).contains(x as int, y as int),
        ensures
            final(self).wf(),
            final(self).same_window(old(self)),
            final(final(self).color_slice)@ == final(old(self).color_slice)@,
            final(final(self).depth_slice)@ == final(old(self).depth_slice)@,
            final(self).depths() == old(self).depths(),
            final(self).pixel_color(x as int, y as int) == color,
            forall|u: int, v: int|
                old(self).contains(u, v) && (u != x || v != y) ==> #[trigger] final(self).pixel_color(
                    u,
                    v,
                ) == old(self).pixel_color(u, v),
    {
        let i: usize = self.index(x, y);
        self.color_slice[i] = color;
        proof {
            assert forall|u: int, v: int|
                old(self).contains(u, v) && (u != x || v != y) implies #[trigger] self.pixel_color(
                u,
                v,
            ) == old(self).pixel_color(u, v) by {
                lemma_index_bound(self.width as int, self.end - self.start, v - self.start, u);
                if self.index_of(u, v) == self.index_of(x as int, y as int) {
                    lemma_index_unique(
                        self.width as int,
                        v - self.start,
                        u,
                        y - self.start,
                        x as int,
                    );
                }
            }
        }
    }

    /// Writes a fragment: the colour and the depth of one pixel of the slice.
    pub fn set_pixel(&mut self, x: u32, y: u32, color: u32, depth: i32)
        requires
            old(self).wf(),
            old(self).contains(x as int, y as int),
        ensures
            final(self).wf(),
            final(self).same_window(old(self)),
            final(final(self).color_slice)@ == final(old(self).color_slice)@,
            final(final(self).depth_slice)@ == final(old(self).depth_slice)@,
            final(self).pixel_color(x as int, y as int) == color,
            final(self).pixel_depth(x as int, y as int) == depth,
            forall|u: int, v: int|
                old(self).contains(u, v) && (u != x || v != y) ==> #[trigger] final(self).pixel_color(
                    u,
                    v,
                ) == old(self).pixel_color(u, v),
            forall|u: int, v: int|
                old(self).contains(u, v) && (u != x || v != y) ==> #[trigger] final(self).pixel_depth(
                    u,
                    v,
                ) == old(self).pixel_depth(u, v),
    {
        let i: usize = self.index(x, y);
        self.color_slice[i] = color;
        self.depth_slice[i] = depth;
        proof {
            assert forall|u: int, v: int|
                old(self).contains(u, v) && (u != x || v != y) implies self.index_of(u, v)
                != self.index_of(x as int, y as int) by {
                lemma_index_bound(self.width as int, self.end - self.start, v - self.start, u);
                if self.index_of(u, v) == self.index_of(x as int, y as int) {
                    lemma_index_unique(
                        self.width as int,
                        v - self.start,
                        u,
                        y - self.start,
                        x as int,
                    );
                }
            }
            assert forall|u: int, v: int|
                old(self).contains(u, v) && (u != x || v != y) implies #[trigger] self.pixel_color(
                u,
                v,
            ) == old(self).pixel_color(u, v) by {
                lemma_index_bound(self.width as int, self.end - self.start, v - self.start, u);
                assert(self.index_of(u, v) != self.index_of(x as int, y as int));
            }
            assert forall|u: int, v: int|
                old(self).contains(u, v) && (u != x || v != y) implies #[trigger] self.pixel_depth(
                u,
                v,
            ) == old(self).pixel_depth(u, v) by {
                lemma_index_bound(self.width as int, self.end - self.start, v - self.start, u);
                assert(self.index_of(u, v) != self.index_of(x as int, y as int));
            }
        }
    }
}

/// What holds of slice number `k` of a frame that was cut for `workers` workers: it
/// shows its rows of the frame, these are the rows of range `k`, and its buffers
/// were cut at `offset` with `length` entries.
#[verifier::opaque]
pub open spec fn is_cut(
    slice: RenderSlice,
    k: int,
    frame: RenderTarget,
    workers: int,
    offset: int,
    length: int,
) -> bool {
    &&& slice.shows(&frame)
    &&& slice.start == slice_start(frame.height as int, workers, k)
    &&& slice.end == slice_end(frame.height as int, workers, k)
    &&& offset == slice.start * frame.width
    &&& length == slice.colors().len()
    &&& length == slice.depths().len()
}

/// Where the pieces that were cut from the front of a buffer, and the rest that is
/// not cut yet, are found in the whole buffer once all borrows have ended: each at
/// the offset that it was cut at. Pieces and rest are given by what they will hold
/// in the end, and the statement is made for pieces and a rest that end as long as
/// they were cut.
#[verifier::opaque]
pub open spec fn rows_return<T>(
    whole: Seq<T>,
    total: int,
    offsets: Seq<int>,
    lengths: Seq<int>,
    pieces: Seq<Seq<T>>,
    rest_offset: int,
    rest_length: int,
    rest: Seq<T>,
) -> bool {
    ((forall|k: int| 0 <= k < pieces.len() ==> (#[trigger] pieces[k]).len() == lengths[k])
        && rest.len() == rest_length) ==> {
        &&& whole.len() == total
        &&& forall|j: int| 0 <= j < rest_length ==> whole[rest_offset + j] == #[trigger] rest[j]
        &&& forall|k: int, j: int|
            0 <= k < pieces.len() && 0 <= j < lengths[k] ==> whole[offsets[k] + j]
                == #[trigger] pieces[k][j]
    }
}

/// Before anything is cut, the rest is the whole buffer.
proof fn lemma_rows_return_whole<T>(whole: Seq<T>, total: int, rest: Seq<T>)
    requires
        whole == rest,
    ensures
        rows_return(whole, total, Seq::empty(), Seq::empty(), Seq::empty(), 0, total, rest),
{
    reveal(rows_return);
}

/// Cutting `cut` entries from the front of the rest makes them one more piece.
proof fn lemma_rows_return_step<T>(
    whole: Seq<T>,
    total: int,
    offsets: Seq<int>,
    lengths: Seq<int>,
    pieces: Seq<Seq<T>>,
    rest_offset: int,
    rest_length: int,
    rest: Seq<T>,
    head: Seq<T>,
    tail: Seq<T>,
    cut: int,
)
    requires
        rows_return(whole, total, offsets, lengths, pieces, rest_offset, rest_length, rest),
        rest == head + tail,
        0 <= cut <= rest_length,
        offsets.len() == pieces.len(),
        lengths.len() == pieces.len(),
    ensures
        rows_return(
            whole,
            total,
            offsets.push(rest_offset),
            lengths.push(cut),
            pieces.push(head),
            rest_offset + cut,
            rest_length - cut,
            tail,
        ),
{
    reveal(rows_return);
    let more_offsets = offsets.push(rest_offset);
    let more_lengths = lengths.push(cut);
    let more_pieces = pieces.push(head);
    if (forall|k: int|
        0 <= k < more_pieces.len() ==> (#[trigger] more_pieces[k]).len() == more_lengths[k])
        && tail.len() == rest_length - cut {
        assert(more_pieces[pieces.len() as int].len() == more_lengths[pieces.len() as int]);
        assert(head.len() == cut);
        assert(rest.len() == rest_length);
        assert forall|k: int| 0 <= k < pieces.len() implies (#[trigger] pieces[k]).len()
            == lengths[k] by {
            assert(more_pieces[k] == pieces[k]);
            assert(more_pieces[k].len() == more_lengths[k]);
        }
        assert forall|j: int| 0 <= j < rest_length - cut implies whole[rest_offset + cut + j]
            == #[trigger] tail[j] by {
            assert(rest[cut + j] == tail[j]);
        }
        assert forall|k: int, j: int|
            0 <= k < more_pieces.len() && 0 <= j < more_lengths[k] implies whole[more_offsets[k]
            + j] == #[trigger] more_pieces[k][j] by {
            if k == pieces.len() {
                assert(rest[j] == head[j]);
            } else {
                assert(more_pieces[k] == pieces[k]);
                assert(whole[offsets[k] + j] == pieces[k][j]);
            }
        }
    }
}

/// Once nothing is left to cut, every piece is found in the whole buffer at its
/// offset, as long as every piece ends as long as it was cut.
proof fn lemma_rows_returned<T>(
    whole: Seq<T>,
    total: int,
    offsets: Seq<int>,
    lengths: Seq<int>,
    pieces: Seq<Seq<T>>,
    rest_offset: int,
    rest: Seq<T>,
)
    requires
        rows_return(whole, total, offsets, lengths, pieces, rest_offset, 0, rest),
        rest.len() == 0,
    ensures
        (forall|k: int| 0 <= k < pieces.len() ==> (#[trigger] pieces[k]).len() == lengths[k]) ==> {
            &&& whole.len() == total
            &&& forall|k: int, j: int|
                0 <= k < pieces.len() && 0 <= j < lengths[k] ==> whole[offsets[k] + j]
                    == #[trigger] pieces[k][j]
        },
{
    reveal(rows_return);
}

/// The number of worker threads that rayon's current pool has. Nothing is assumed
/// of it: it depends on the machine and on how the pool was built.
pub assume_specification[ rayon::current_num_threads ]() -> (n: usize)
;

impl RenderTarget {
    /// Cuts the frame into row ranges for `workers` workers, each range with mutable
    /// access to its rows of both buffers. A range has the height divided by
    /// `workers`, rounded up, many rows; the last may have fewer, and ranges that
    /// would start below the frame are left out.
    ///
    /// The last clause says where the rows go when the slices are dropped: back to
    /// the place in the frame that they were taken from. It is stated for slices
    /// whose buffers end as long as they began, which is all that a slice can do.
    pub fn create_slices_with(&mut self, workers: usize) -> (slices: Vec<RenderSlice<'_>>)
        requires
            old(self).wf(),
            workers >= 1,
        ensures
            final(self).width == old(self).width,
            final(self).height == old(self).height,
            final(self).clear_color == old(self).clear_color,
            slices@.len() == slice_count(old(self).height as int, workers as int),
            is_row_tiling(slices@, old(self).height as int),
            forall|k: int|
                0 <= k < slices@.len() ==> {
                    &&& (#[trigger] slices@[k]).shows(old(self))
                    &&& slices@[k].start == slice_start(
                        old(self).height as int,
                        workers as int,
                        k,
                    )
                    &&& slices@[k].end == slice_end(old(self).height as int, workers as int, k)
                },
            (forall|k: int|
                0 <= k < slices@.len() ==> final((#[trigger] slices@[k]).color_slice)@.len()
                    == slices@[k].colors().len() && final(slices@[k].depth_slice)@.len()
                    == slices@[k].depths().len()) ==> {
                &&& final(self).color@.len() == old(self).color@.len()
                &&& final(self).depth@.len() == old(self).depth@.len()
                &&& forall|k: int, j: int|
                    0 <= k < slices@.len() && 0 <= j < slices@[k].colors().len() ==> final(
                        self
                    ).color@[slices@[k].start * old(self).width + j] == #[trigger] final(
                        slices@[k].color_slice
                    )@[j]
                &&& forall|k: int, j: int|
                    0 <= k < slices@.len() && 0 <= j < slices@[k].depths().len() ==> final(
                        self
                    ).depth@[slices@[k].start * old(self).width + j] == #[trigger] final(
                        slices@[k].depth_slice
                    )@[j]
            },
    {
        let width: u32 = self.width;
        let height: u32 = self.height;
        let ghost h = height as int;
        let ghost n = workers as int;
        let ghost w = width as int;
        let ghost frame: RenderTarget = *self;
        let ghost whole_color: Seq<u32> = final(self).color@;
        let ghost whole_depth: Seq<i32> = final(self).depth@;
        let mut slices: Vec<RenderSlice<'_>> = Vec::new();
        if height == 0 {
            return slices;
        }
        proof {
            lemma_rows_per_slice(h, n);
            lemma_slice_count(h, n);
            assert(w * h == h * w) by (nonlinear_arith);
        }
        let rows: u32 = if workers as u64 >= height as u64 {
            1
        } else {
            ((height as u64 + workers as u64 - 1) / (workers as u64)) as u32
        };
        let total: usize = self.color.len();
        let mut remaining_color: &mut [u32] = self.color.as_mut_slice();
        let mut remaining_depth: &mut [i32] = self.depth.as_mut_slice();
        let mut y: u32 = 0;
        let mut offset: usize = 0;
        let ghost mut i: int = 0;
        let ghost mut offsets: Seq<int> = Seq::empty();
        let ghost mut lengths: Seq<int> = Seq::empty();
        proof {
            lemma_rows_return_whole(whole_color, total as int, final(remaining_color)@);
            lemma_rows_return_whole(whole_depth, total as int, final(remaining_depth)@);
            assert(Seq::new(slices@.len(), |k: int| final(slices@[k].color_slice)@)
                =~= Seq::<Seq<u32>>::empty());
            assert(Seq::new(slices@.len(), |k: int| final(slices@[k].depth_slice)@)
                =~= Seq::<Seq<i32>>::empty());
            assert(remaining_color@ =~= frame.color@.subrange(0, total as int));
            assert(remaining_depth@ =~= frame.depth@.subrange(0, total as int));
        }
        while y < height
            invariant
                h == height,
                w == width,
                n == workers,
                h >= 1,
                n >= 1,
                frame.wf(),
                frame.width == width,
                frame.height == height,
                total == h * w,
                rows == rows_per_slice(h, n),
                rows >= 1,
                y <= height,
                0 <= i,
                slices@.len() == i,
                (y == i * rows) || (y == height && (i - 1) * rows < h < i * rows),
                offset == y * w,
                offset <= total,
                remaining_color@.len() == total - offset,
                remaining_depth@.len() == total - offset,
                remaining_color@ == frame.color@.subrange(offset as int, total as int),
                remaining_depth@ == frame.depth@.subrange(offset as int, total as int),
                offsets.len() == i,
                lengths.len() == i,
                forall|k: int|
                    0 <= k < i ==> is_cut(#[trigger] slices@[k], k, frame, n, offsets[k], lengths[k]),
                rows_return(
                    whole_color,
                    total as int,
                    offsets,
                    lengths,
                    Seq::new(slices@.len(), |k: int| final(slices@[k].color_slice)@),
                    offset as int,
                    remaining_color@.len() as int,
                    final(remaining_color)@,
                ),
                rows_return(
                    whole_depth,
                    total as int,
                    offsets,
                    lengths,
                    Seq::new(slices@.len(), |k: int| final(slices@[k].depth_slice)@),
                    offset as int,
                    remaining_depth@.len() as int,
                    final(remaining_depth)@,
                ),
            decreases height - y,
        {
            let y_end: u32 = if height - y < rows {
                height
            } else {
                y + rows
            };
            proof {
                lemma_product_splits(y_end as int, y as int, w);
                lemma_product_grows(y_end as int, h, w);
                lemma_product_grows(0, y_end - y, w);
                lemma_product_splits(i, 1, rows as int);
            }
            let len: usize = (y_end - y) as usize * width as usize;
            let ghost rest_color = final(remaining_color)@;
            let ghost rest_depth = final(remaining_depth)@;
            let ghost rest_length = remaining_color@.len() as int;
            let ghost before = slices@;
            let ghost final_colors = Seq::new(before.len(), |k: int| final(before[k].color_slice)@);
            let ghost final_depths = Seq::new(before.len(), |k: int| final(before[k].depth_slice)@);
            let (color_slice, next_color) = remaining_color.split_at_mut(len);
            let (depth_slice, next_depth) = remaining_depth.split_at_mut(len);
            remaining_color = next_color;
            remaining_depth = next_depth;
            let ghost head_color = final(color_slice)@;
            let ghost head_depth = final(depth_slice)@;
            proof {
                assert(color_slice@ =~= frame.color@.subrange(offset as int, offset + len));
                assert(depth_slice@ =~= frame.depth@.subrange(offset as int, offset + len));
                assert(remaining_color@ =~= frame.color@.subrange(offset + len, total as int));
                assert(remaining_depth@ =~= frame.depth@.subrange(offset + len, total as int));
                lemma_rows_return_step(
                    whole_color,
                    total as int,
                    offsets,
                    lengths,
                    final_colors,
                    offset as int,
                    rest_length,
                    rest_color,
                    head_color,
                    final(remaining_color)@,
                    len as int,
                );
                lemma_rows_return_step(
                    whole_depth,
                    total as int,
                    offsets,
                    lengths,
                    final_depths,
                    offset as int,
                    rest_length,
                    rest_depth,
                    head_depth,
                    final(remaining_depth)@,
                    len as int,
                );
            }
            let slice = RenderSlice { color_slice, depth_slice, start: y, end: y_end, width, height };
            proof {
                assert(is_cut(slice, i, frame, n, offset as int, len as int)) by {
                    reveal(is_cut);
                }
            }
            slices.push(slice);
            proof {
                assert(forall|k: int| 0 <= k < i ==> slices@[k] == before[k]);
                assert(final(slices@[i].color_slice)@ == head_color);
                assert(final(slices@[i].depth_slice)@ == head_depth);
                assert(Seq::new(slices@.len(), |k: int| final(slices@[k].color_slice)@)
                    =~= final_colors.push(head_color));
                assert(Seq::new(slices@.len(), |k: int| final(slices@[k].depth_slice)@)
                    =~= final_depths.push(head_depth));
                offsets = offsets.push(offset as int);
                lengths = lengths.push(len as int);
                i = i + 1;
            }
            offset = offset + len;
            y = y_end;
        }
        let ghost final_colors = Seq::new(slices@.len(), |k: int| final(slices@[k].color_slice)@);
        let ghost final_depths = Seq::new(slices@.len(), |k: int| final(slices@[k].depth_slice)@);
        proof {
            if y == i * rows {
                lemma_product_splits(i, 1, rows as int);
            }
            lemma_count_is(h, rows as int, i);
            lemma_tiling_covers(h, n);
            assert forall|k: int| 0 <= k < slices@.len() implies {
                &&& (#[trigger] slices@[k]).shows(&frame)
                &&& slices@[k].start == slice_start(h, n, k)
                &&& slices@[k].end == slice_end(h, n, k)
                &&& offsets[k] == slices@[k].start * w
                &&& lengths[k] == slices@[k].colors().len()
                &&& lengths[k] == slices@[k].depths().len()
            } by {
                assert(is_cut(slices@[k], k, frame, n, offsets[k], lengths[k]));
                reveal(is_cut);
            }
            assert(is_row_tiling(slices@, h)) by {
                assert(slices@[0].start == slice_start(h, n, 0));
                assert(slices@.last().end == slice_end(h, n, slice_count(h, n) - 1));
            }
            lemma_rows_returned(
                whole_color,
                total as int,
                offsets,
                lengths,
                final_colors,
                total as int,
                final(remaining_color)@,
            );
            lemma_rows_returned(
                whole_depth,
                total as int,
                offsets,
                lengths,
                final_depths,
                total as int,
                final(remaining_depth)@,
            );
            if forall|k: int|
                0 <= k < slices@.len() ==> final((#[trigger] slices@[k]).color_slice)@.len()
                    == slices@[k].colors().len() && final(slices@[k].depth_slice)@.len()
                    == slices@[k].depths().len() {
                assert forall|k: int| 0 <= k < final_colors.len() implies (
                #[trigger] final_colors[k]).len() == lengths[k] by {
                    assert(final(slices@[k].color_slice)@.len() == slices@[k].colors().len());
                }
                assert forall|k: int| 0 <= k < final_depths.len() implies (
                #[trigger] final_depths[k]).len() == lengths[k] by {
                    assert(final(slices@[k].depth_slice)@.len() == slices@[k].depths().len());
                }
                assert forall|k: int, j: int|
                    0 <= k < slices@.len() && 0 <= j < slices@[k].colors().len() implies whole_color[slices@[k].start
                    * w + j] == #[trigger] final(slices@[k].color_slice)@[j] by {
                    assert(whole_color[offsets[k] + j] == final_colors[k][j]);
                }
                assert forall|k: int, j: int|
                    0 <= k < slices@.len() && 0 <= j < slices@[k].depths().len() implies whole_depth[slices@[k].start
                    * w + j] == #[trigger] final(slices@[k].depth_slice)@[j] by {
                    assert(whole_depth[offsets[k] + j] == final_depths[k][j]);
                }
            };
        }
        slices
    }

    /// Cuts the frame into one row range for each thread of rayon's current pool.
    /// A pool that reports no thread is treated as one worker.
    pub fn create_slices(&mut self) -> (slices: Vec<RenderSlice<'_>>)
        requires
            old(self).wf(),
        ensures
            final(self).width == old(self).width,
            final(self).height == old(self).height,
            final(self).clear_color == old(self).clear_color,
            is_row_tiling(slices@, old(self).height as int),
            forall|k: int| 0 <= k < slices@.len() ==> (#[trigger] slices@[k]).shows(old(self)),
            (forall|k: int|
                0 <= k < slices@.len() ==> final((#[trigger] slices@[k]).color_slice)@.len()
                    == slices@[k].colors().len() && final(slices@[k].depth_slice)@.len()
                    == slices@[k].depths().len()) ==> {
                &&& final(self).color@.len() == old(self).color@.len()
                &&& final(self).depth@.len() == old(self).depth@.len()
                &&& forall|k: int, j: int|
                    0 <= k < slices@.len() && 0 <= j < slices@[k].colors().len() ==> final(
                        self
                    ).color@[slices@[k].start * old(self).width + j] == #[trigger] final(
                        slices@[k].color_slice
                    )@[j]
                &&& forall|k: int, j: int|
                    0 <= k < slices@.len() && 0 <= j < slices@[k].depths().len() ==> final(
                        self
                    ).depth@[slices@[k].start * old(self).width + j] == #[trigger] final(
                        slices@[k].depth_slice
                    )@[j]
            },
    {
        let threads: usize = rayon::current_num_threads();
        let workers: usize = if threads == 0 {
            1
        } else {
            threads
        };
        self.create_slices_with(workers)
    }
}

} // verus!
