//! The canvas grid: the walk over its pixels, in the order in which a frame
//! is drawn, and the place of each pixel on the canvas.

use vstd::prelude::*;

verus! {

/// Half of an integer, rounded toward zero.
pub open spec fn half(n: int) -> int {
    if n >= 0 {
        n / 2
    } else {
        -((-n) / 2)
    }
}

/// The size of the canvas in device pixels. Pixels are addressed relative
/// to its centre: `x` grows to the right and `y` grows upward.
#[derive(Debug, Clone, Copy, PartialEq, Eq, Structural)]
pub struct Screen {
    pub width: i32,
    pub height: i32,
}

/// The pixels `(x, y)` of column `x`, from row `y` up to (not including)
/// row `y_end`.
pub open spec fn column(x: int, y: int, y_end: int) -> Seq<(int, int)> {
    Seq::new(if y < y_end { (y_end - y) as nat } else { 0 }, |j: int| (x, y + j))
}

/// The pixels of columns `x` up to (not including) `x_end`, each column
/// running over the rows `y_lo` up to (not including) `y_hi`, column after
/// column.
pub open spec fn columns(x: int, x_end: int, y_lo: int, y_hi: int) -> Seq<(int, int)>
    decreases x_end - x,
{
    if x >= x_end {
        Seq::empty()
    } else {
        column(x, y_lo, y_hi) + columns(x + 1, x_end, y_lo, y_hi)
    }
}

/// The pixels of a frame in the order in which they are drawn: columns from
/// `-w/2` up to `w/2`, and within a column rows from `-h/2` up to `h/2`
/// (halves rounded toward zero, upper bounds excluded).
pub open spec fn raster(width: int, height: int) -> Seq<(int, int)> {
    columns(-half(width), half(width), -half(height), half(height))
}

/// Where pixel `p` lands on the canvas, whose origin is its top-left corner.
pub open spec fn canvas_point(width: int, height: int, p: (int, int)) -> (int, int) {
    (half(width) + p.0, half(height) - p.1)
}

/// The pixel that lands on canvas point `c`.
pub open spec fn pixel_at(width: int, height: int, c: (int, int)) -> (int, int) {
    (c.0 - half(width), half(height) - c.1)
}

/// Pixel `p` comes strictly before pixel `q` in drawing order.
pub open spec fn drawn_before(p: (int, int), q: (int, int)) -> bool {
    p.0 < q.0 || (p.0 == q.0 && p.1 < q.1)
}

impl Screen {
    /// The canvas position of pixel `(x, y)`: the centre of the canvas is
    /// at half its width and half its height, and `y` is flipped.
    pub fn canvas_position(&self, x: i32, y: i32) -> (pos: (i32, i32))
        requires
            i32::MIN <= half(self.width as int) + x <= i32::MAX,
            i32::MIN <= half(self.height as int) - y <= i32::MAX,
        ensures
            (pos.0 as int, pos.1 as int) == canvas_point(self.width as int, self.height as int, (x as int, y as int)),
    {
        (self.width / 2 + x, self.height / 2 - y)
    }
}

/// A walk over the pixels of a frame, in drawing order.
pub struct Raster {
    x: i32,
    y: i32,
    x_end: i32,
    y_start: i32,
    y_end: i32,
}

impl View for Raster {
    type V = Seq<(int, int)>;

    /// The pixels not visited yet, in the order in which they come.
    closed spec fn view(&self) -> Seq<(int, int)> {
        if self.x < self.x_end {
            column(self.x as int, self.y as int, self.y_end as int) + columns(
                self.x + 1,
                self.x_end as int,
                self.y_start as int,
                self.y_end as int,
            )
        } else {
            Seq::empty()
        }
    }
}

proof fn lemma_columns_without_rows(x: int, x_end: int, y_lo: int, y_hi: int)
    requires
        y_lo >= y_hi,
    ensures
        columns(x, x_end, y_lo, y_hi) == Seq::<(int, int)>::empty(),
    decreases x_end - x,
{
    if x < x_end {
        lemma_columns_without_rows(x + 1, x_end, y_lo, y_hi);
        assert(columns(x, x_end, y_lo, y_hi) =~= Seq::<(int, int)>::empty());
    }
}

impl Raster {
    #[verifier::type_invariant]
    spec fn well_formed(&self) -> bool {
        self.x < self.x_end ==> self.y_start <= self.y < self.y_end
    }

    /// The walk over all pixels of a frame of this screen. A width or height
    /// of `i32::MIN` has no negation, so it is left out.
    pub fn new(screen: &Screen) -> (walk: Raster)
        requires
            screen.width > i32::MIN,
            screen.height > i32::MIN,
        ensures
            walk@ == raster(screen.width as int, screen.height as int),
    {
        let x_start = -screen.width / 2;
        let x_end = screen.width / 2;
        let y_start = -screen.height / 2;
        let y_end = screen.height / 2;
        if y_start < y_end {
            let walk = Raster { x: x_start, y: y_start, x_end, y_start, y_end };
            proof {
                if x_start < x_end {
                    assert(walk@ =~= raster(screen.width as int, screen.height as int));
                }
            }
            walk
        } else {
            proof {
                lemma_columns_without_rows(x_start as int, x_end as int, y_start as int, y_end as int);
            }
            Raster { x: x_end, y: y_start, x_end, y_start, y_end }
        }
    }

    /// The next pixel of the walk, or `None` once every pixel was visited.
    pub fn next(&mut self) -> (p: Option<(i32, i32)>)
        ensures
            match p {
                Some(p) => {
                    &&& old(self)@.len() > 0
                    &&& (p.0 as int, p.1 as int) == old(self)@[0]
                    &&& final(self)@ == old(self)@.drop_first()
                },
                None => old(self)@.len() == 0 && final(self)@ == old(self)@,
            },
    {
        proof { use_type_invariant(&*self); }
        if self.x >= self.x_end {
            return None;
        }
        let ghost before = self@;
        let p = (self.x, self.y);
        if self.y + 1 < self.y_end {
            self.y = self.y + 1;
            assert(self@ =~= before.drop_first());
        } else {
            let ghost x = self.x as int;
            assert(column(x, self.y as int, self.y_end as int) =~= seq![(x, self.y as int)]);
            self.x = self.x + 1;
            self.y = self.y_start;
            assert(self@ =~= before.drop_first());
        }
        Some(p)
    }
}

proof fn lemma_columns_contents(x: int, x_end: int, y_lo: int, y_hi: int)
    ensures
        forall|p: (int, int)|
            columns(x, x_end, y_lo, y_hi).contains(p) <==> x <= p.0 < x_end && y_lo <= p.1 < y_hi,
        forall|i: int|
            0 <= i < columns(x, x_end, y_lo, y_hi).len() ==> x <= #[trigger] columns(x, x_end, y_lo, y_hi)[i].0,
        forall|i: int, j: int|
            0 <= i < j < columns(x, x_end, y_lo, y_hi).len() ==> drawn_before(
                #[trigger] columns(x, x_end, y_lo, y_hi)[i],
                #[trigger] columns(x, x_end, y_lo, y_hi)[j],
            ),
    decreases x_end - x,
{
    if x < x_end {
        lemma_columns_contents(x + 1, x_end, y_lo, y_hi);
        let c = column(x, y_lo, y_hi);
        let rest = columns(x + 1, x_end, y_lo, y_hi);
        let all = columns(x, x_end, y_lo, y_hi);
        assert(all == c + rest);
        assert forall|p: (int, int)| all.contains(p) <==> x <= p.0 < x_end && y_lo <= p.1 < y_hi by {
            if all.contains(p) {
                let i = choose|i: int| 0 <= i < all.len() && all[i] == p;
                if i >= c.len() {
                    assert(rest[i - c.len()] == p);
                    assert(rest.contains(p));
                } else {
                    assert(c[i] == p);
                }
            }
            if x <= p.0 < x_end && y_lo <= p.1 < y_hi {
                if p.0 == x {
                    assert(all[p.1 - y_lo] == p);
                } else {
                    assert(rest.contains(p));
                    let k = choose|k: int| 0 <= k < rest.len() && rest[k] == p;
                    assert(all[c.len() + k] == p);
                }
            }
        }
        assert forall|i: int| 0 <= i < all.len() implies x <= #[trigger] all[i].0 by {
            if i >= c.len() {
                assert(all[i] == rest[i - c.len()]);
            }
        }
        assert forall|i: int, j: int| 0 <= i < j < all.len() implies drawn_before(
            #[trigger] all[i],
            #[trigger] all[j],
        ) by {
            if j < c.len() {
            } else if i < c.len() {
                assert(all[j] == rest[j - c.len()]);
            } else {
                assert(all[i] == rest[i - c.len()]);
                assert(all[j] == rest[j - c.len()]);
            }
        }
    }
}

/// A frame visits exactly the pixels from `-w/2` up to `w/2` across and
/// from `-h/2` up to `h/2` upward, each once, column after column from the
/// left and upward within a column.
pub proof fn law_raster_covers_once_in_order(width: int, height: int)
    ensures
        forall|p: (int, int)|
            raster(width, height).contains(p) <==> -half(width) <= p.0 < half(width) && -half(
                height,
            ) <= p.1 < half(height),
        forall|i: int, j: int|
            0 <= i < j < raster(width, height).len() ==> drawn_before(
                #[trigger] raster(width, height)[i],
                #[trigger] raster(width, height)[j],
            ),
        raster(width, height).no_duplicates(),
{
    lemma_columns_contents(-half(width), half(width), -half(height), half(height));
    let s = raster(width, height);
    assert forall|i: int, j: int| 0 <= i < s.len() && 0 <= j < s.len() && i != j implies s[i]
        != s[j] by {
        if i < j {
            assert(drawn_before(s[i], s[j]));
        } else {
            assert(drawn_before(s[j], s[i]));
        }
    }
}

/// The pixels of a frame land on the canvas columns `0` up to `2*(w/2)`
/// (excluded) and on the canvas rows `1` up to `2*(h/2)` (included), each
/// such place exactly once: for a canvas of even height the top row is
/// never drawn and one row below the bottom edge is.
pub proof fn law_frame_on_canvas(width: int, height: int)
    ensures
        forall|p: (int, int)|
            #[trigger] raster(width, height).contains(p) ==> {
                let c = canvas_point(width, height, p);
                &&& 0 <= c.0 < 2 * half(width)
                &&& 1 <= c.1 <= 2 * half(height)
            },
        forall|c: (int, int)|
            0 <= c.0 < 2 * half(width) && 1 <= c.1 <= 2 * half(height) ==> {
                &&& raster(width, height).contains(#[trigger] pixel_at(width, height, c))
                &&& canvas_point(width, height, pixel_at(width, height, c)) == c
            },
        forall|p: (int, int), q: (int, int)|
            canvas_point(width, height, p) == canvas_point(width, height, q) ==> p == q,
{
    law_raster_covers_once_in_order(width, height);
}

} // verus!
