use vstd::prelude::*;

verus! {

/// For `0 <= a < b` and `w > 0`, `a / w` is below `ceil(b / w)`.
proof fn lemma_floor_below_ceil(a: int, b: int, w: int)
    requires
        0 <= a < b,
        w > 0,
    ensures
        0 <= a / w < (b + w - 1) / w,
{
    assert(a / w >= 0) by (nonlinear_arith)
        requires
            a >= 0,
            w > 0,
    ;
    assert(a / w < (b + w - 1) / w) by (nonlinear_arith)
        requires
            0 <= a < b,
            w > 0,
    ;
}

/// Number of bins of width `w` needed to cover `[lo, hi)`: `ceil((hi - lo) / w)`.
pub open spec fn bin_count(lo: int, hi: int, w: int) -> int {
    (hi - lo + w - 1) / w
}

/// A value in range falls in one of the histogram's bins.
pub proof fn lemma_bin_in_range(h: Histogram, x: int)
    requires
        h.well_formed(),
        h.lo() <= x < h.hi(),
    ensures
        h.spec_bin(x) matches Some(i) && 0 <= i < h.bins@.len(),
{
    lemma_floor_below_ceil(x - h.lo(), h.hi() - h.lo(), h.width());
}

/// A count plus one, staying at `u32::MAX` when full.
pub open spec fn bumped(c: u32) -> u32 {
    if c < u32::MAX {
        (c + 1) as u32
    } else {
        u32::MAX
    }
}

/// `b` is `a` with one more count in the bin that holds `x`, if any.
pub open spec fn filled_1d(a: Histogram, b: Histogram, x: int) -> bool {
    &&& b.range == a.range
    &&& b.bin_width == a.bin_width
    &&& match a.spec_bin(x) {
        Some(i) => b.bins@ == a.bins@.update(i, bumped(a.bins@[i])),
        None => b.bins@ == a.bins@,
    }
}

/// `b` is `a` with one more count in the bin that holds `(x, y)`, if any.
pub open spec fn filled_2d(a: Histogram2D, b: Histogram2D, x: int, y: int) -> bool {
    &&& b.x_range == a.x_range && b.y_range == a.y_range
    &&& b.x_bin_width == a.x_bin_width && b.y_bin_width == a.y_bin_width
    &&& b.bins@.len() == a.bins@.len()
    &&& match a.spec_bin(x, y) {
        Some((i, j)) => {
            &&& forall|k: int|
                0 <= k < a.bins@.len() && k != j ==> (#[trigger] b.bins@[k])@ == a.bins@[k]@
            &&& b.bins@[j]@ == a.bins@[j]@.update(i, bumped(a.bins@[j]@[i]))
        },
        None => forall|k: int| 0 <= k < a.bins@.len() ==> (#[trigger] b.bins@[k])@ == a.bins@[k]@,
    }
}

/// A one-dimensional histogram over `[range.0, range.1)` with bins of equal width.
#[derive(Debug)]
pub struct Histogram {
    pub range: (i32, i32),
    pub bin_width: u32,
    pub bins: Vec<u32>,
}

impl Histogram {
    pub open spec fn lo(&self) -> int {
        self.range.0 as int
    }

    pub open spec fn hi(&self) -> int {
        self.range.1 as int
    }

    pub open spec fn width(&self) -> int {
        self.bin_width as int
    }

    /// The range is non-empty, the width positive, and there are exactly as
    /// many bins as it takes to cover the range.
    pub open spec fn well_formed(&self) -> bool {
        &&& self.lo() < self.hi()
        &&& self.width() > 0
        &&& self.bins@.len() == bin_count(self.lo(), self.hi(), self.width())
    }

    /// The bin that holds `x`, if `x` lies in the range.
    pub open spec fn spec_bin(&self, x: int) -> Option<int> {
        if self.lo() <= x < self.hi() {
            Some((x - self.lo()) / self.width())
        } else {
            None
        }
    }

    /// Twice the centre of bin `i`: `2 * range.0 + bin_width * (2 * i + 1)`.
    pub open spec fn center2(&self, i: int) -> int {
        2 * self.lo() + self.width() * (2 * i + 1)
    }

    /// An empty histogram over `range` with bins of `bin_width`; `None` when
    /// the range is empty or the width is zero.
    pub fn new(range: (i32, i32), bin_width: u32) -> (r: Option<Histogram>)
        ensures
            r is Some <==> range.0 < range.1 && bin_width > 0,
            r matches Some(h) ==> {
                &&& h.well_formed()
                &&& h.range == range
                &&& h.bin_width == bin_width
                &&& forall|i: int| 0 <= i < h.bins@.len() ==> h.bins@[i] == 0
            },
    {
        if range.0 >= range.1 || bin_width == 0 {
            return None;
        }
        let span: u64 = (range.1 as i64 - range.0 as i64) as u64;
        let n: u64 = (span + bin_width as u64 - 1) / bin_width as u64;
        proof {
            lemma_floor_below_ceil(0, span as int, bin_width as int);
            assert(n <= span) by (nonlinear_arith)
                requires
                    n == (span + bin_width - 1) / (bin_width as int),
                    bin_width >= 1,
                    span >= 1,
            ;
        }
        let mut bins: Vec<u32> = Vec::new();
        let mut k: u64 = 0;
        while k < n
            invariant
                k <= n,
                bins@.len() == k,
                forall|i: int| 0 <= i < bins@.len() ==> bins@[i] == 0,
            decreases n - k,
        {
            bins.push(0);
            k = k + 1;
        }
        Some(Histogram { range, bin_width, bins })
    }

    /// A histogram over `range` with the given bin counts; `None` when the
    /// range is empty, the width zero, or the number of counts does not
    /// match the number of bins.
    pub fn with_counts(range: (i32, i32), bin_width: u32, counts: Vec<u32>) -> (r: Option<Histogram>)
        ensures
            r is Some <==> range.0 < range.1 && bin_width > 0 && counts@.len() == bin_count(
                range.0 as int,
                range.1 as int,
                bin_width as int,
            ),
            r matches Some(h) ==> h.well_formed() && h.range == range && h.bin_width == bin_width
                && h.bins@ == counts@,
    {
        if range.0 >= range.1 || bin_width == 0 {
            return None;
        }
        let span: u64 = (range.1 as i64 - range.0 as i64) as u64;
        let n: u64 = (span + bin_width as u64 - 1) / bin_width as u64;
        if counts.len() as u64 != n {
            return None;
        }
        Some(Histogram { range, bin_width, bins: counts })
    }

    /// The index of the bin that holds `x`: `floor((x - range.0) / bin_width)`
    /// for `x` in `[range.0, range.1)`, and `None` outside.
    pub fn get_bin(&self, x: i32) -> (r: Option<usize>)
        requires
            self.well_formed(),
        ensures
            r is Some <==> self.lo() <= x < self.hi(),
            r matches Some(i) ==> {
                &&& Some(i as int) == self.spec_bin(x as int)
                &&& i < self.bins@.len()
                &&& self.lo() + i * self.width() <= x < self.lo() + (i + 1) * self.width()
            },
            r is None ==> self.spec_bin(x as int) is None,
    {
        if x < self.range.0 || x >= self.range.1 {
            return None;
        }
        let off: u64 = (x as i64 - self.range.0 as i64) as u64;
        let i: u64 = off / self.bin_width as u64;
        proof {
            let w = self.width();
            lemma_floor_below_ceil(off as int, self.hi() - self.lo(), w);
            assert(i * w <= off < (i + 1) * w) by (nonlinear_arith)
                requires
                    i == (off as int) / w,
                    w > 0,
                    off >= 0,
            ;
        }
        Some(i as usize)
    }

    /// Twice the centre of bin `i`, so that the centre stays an integer.
    pub fn bin_center_doubled(&self, i: usize) -> (r: i64)
        requires
            self.well_formed(),
            i < self.bins@.len(),
        ensures
            r == self.center2(i as int),
    {
        proof {
            let w = self.width();
            let span = self.hi() - self.lo();
            lemma_floor_below_ceil(0, span, w);
            assert(i * w < span + w) by (nonlinear_arith)
                requires
                    i < (span + w - 1) / w,
                    w > 0,
                    span > 0,
            ;
            assert(w * (2 * i + 1) == 2 * (i * w) + w) by (nonlinear_arith);
        }
        2 * self.range.0 as i64 + self.bin_width as i64 * (2 * i as i64 + 1)
    }

    /// Adds one count to the bin that holds `x`; a full bin stays at `u32::MAX`,
    /// and a value outside the range changes nothing.
    pub fn fill(&mut self, x: i32)
        requires
            old(self).well_formed(),
        ensures
            final(self).well_formed(),
            filled_1d(*old(self), *final(self), x as int),
    {
        match self.get_bin(x) {
            Some(i) => {
                let c = self.bins[i];
                if c < u32::MAX {
                    self.bins.set(i, c + 1);
                } else {
                    assert(self.bins@ =~= self.bins@.update(i as int, c));
                }
            },
            None => {},
        }
    }
}

/// `floor((v - lo) / w)` for `v` in `[lo, hi)`, for an axis with positive width.
fn axis_bin(lo: i32, hi: i32, w: u32, v: i32) -> (r: Option<usize>)
    requires
        lo < hi,
        w > 0,
    ensures
        r is Some <==> lo <= v < hi,
        r matches Some(i) ==> i == (v - lo) / (w as int) && i < bin_count(lo as int, hi as int, w as int),
{
    if v < lo || v >= hi {
        return None;
    }
    let off: u64 = (v as i64 - lo as i64) as u64;
    proof {
        lemma_floor_below_ceil(off as int, hi - lo, w as int);
    }
    Some((off / w as u64) as usize)
}

fn axis_len(lo: i32, hi: i32, w: u32) -> (r: usize)
    requires
        lo < hi,
        w > 0,
    ensures
        r == bin_count(lo as int, hi as int, w as int),
{
    let span: u64 = (hi as i64 - lo as i64) as u64;
    proof {
        assert((span + w - 1) / (w as int) <= span) by (nonlinear_arith)
            requires
                w >= 1,
                span >= 1,
        ;
    }
    ((span + w as u64 - 1) / w as u64) as usize
}

/// A two-dimensional histogram: `bins[j][i]` counts the points whose y falls
/// in y-bin `j` and whose x falls in x-bin `i`.
#[derive(Debug)]
pub struct Histogram2D {
    pub x_range: (i32, i32),
    pub x_bin_width: u32,
    pub y_range: (i32, i32),
    pub y_bin_width: u32,
    pub bins: Vec<Vec<u32>>,
}

impl Histogram2D {
    pub open spec fn nx(&self) -> int {
        bin_count(self.x_range.0 as int, self.x_range.1 as int, self.x_bin_width as int)
    }

    pub open spec fn ny(&self) -> int {
        bin_count(self.y_range.0 as int, self.y_range.1 as int, self.y_bin_width as int)
    }

    pub open spec fn well_formed(&self) -> bool {
        &&& self.x_range.0 < self.x_range.1 && self.x_bin_width > 0
        &&& self.y_range.0 < self.y_range.1 && self.y_bin_width > 0
        &&& self.bins@.len() == self.ny()
        &&& forall|j: int| 0 <= j < self.bins@.len() ==> (#[trigger] self.bins@[j])@.len() == self.nx()
    }

    /// An empty histogram; `None` when either range is empty or either width zero.
    pub fn new(x_range: (i32, i32), x_bin_width: u32, y_range: (i32, i32), y_bin_width: u32) -> (r:
        Option<Histogram2D>)
        ensures
            r is Some <==> x_range.0 < x_range.1 && x_bin_width > 0 && y_range.0 < y_range.1
                && y_bin_width > 0,
            r matches Some(h) ==> {
                &&& h.well_formed()
                &&& h.x_range == x_range && h.x_bin_width == x_bin_width
                &&& h.y_range == y_range && h.y_bin_width == y_bin_width
                &&& forall|j: int, i: int|
                    0 <= j < h.bins@.len() && 0 <= i < h.bins@[j]@.len() ==> h.bins@[j]@[i] == 0
            },
    {
        if x_range.0 >= x_range.1 || x_bin_width == 0 || y_range.0 >= y_range.1 || y_bin_width == 0 {
            return None;
        }
        let nx = axis_len(x_range.0, x_range.1, x_bin_width);
        let ny = axis_len(y_range.0, y_range.1, y_bin_width);
        let mut bins: Vec<Vec<u32>> = Vec::new();
        let mut j: usize = 0;
        while j < ny
            invariant
                j <= ny,
                bins@.len() == j,
                forall|a: int| 0 <= a < j ==> (#[trigger] bins@[a])@.len() == nx,
                forall|a: int, i: int| 0 <= a < j && 0 <= i < bins@[a]@.len() ==> bins@[a]@[i] == 0,
            decreases ny - j,
        {
            let mut row: Vec<u32> = Vec::new();
            let mut i: usize = 0;
            while i < nx
                invariant
                    i <= nx,
                    row@.len() == i,
                    forall|k: int| 0 <= k < i ==> row@[k] == 0,
                decreases nx - i,
            {
                row.push(0);
                i = i + 1;
            }
            bins.push(row);
            j = j + 1;
        }
        Some(Histogram2D { x_range, x_bin_width, y_range, y_bin_width, bins })
    }

    /// The `(x-bin, y-bin)` that holds `(x, y)`, if both lie in range.
    pub fn get_bin(&self, x: i32, y: i32) -> (r: Option<(usize, usize)>)
        requires
            self.well_formed(),
        ensures
            r is Some <==> self.x_range.0 <= x < self.x_range.1 && self.y_range.0 <= y
                < self.y_range.1,
            r matches Some((i, j)) ==> {
                &&& i == (x - self.x_range.0) / (self.x_bin_width as int)
                &&& j == (y - self.y_range.0) / (self.y_bin_width as int)
                &&& i < self.nx() && j < self.ny()
            },
    {
        match (
            axis_bin(self.x_range.0, self.x_range.1, self.x_bin_width, x),
            axis_bin(self.y_range.0, self.y_range.1, self.y_bin_width, y),
        ) {
            (Some(i), Some(j)) => Some((i, j)),
            _ => None,
        }
    }

    /// The `(x-bin, y-bin)` that holds `(x, y)`, if both lie in range.
    pub open spec fn spec_bin(&self, x: int, y: int) -> Option<(int, int)> {
        if self.x_range.0 <= x < self.x_range.1 && self.y_range.0 <= y < self.y_range.1 {
            Some(((x - self.x_range.0) / (self.x_bin_width as int), (y - self.y_range.0) / (
            self.y_bin_width as int)))
        } else {
            None
        }
    }

    /// Adds one count to the bin that holds `(x, y)`; a full bin stays at
    /// `u32::MAX`, and a point outside changes nothing.
    pub fn fill(&mut self, x: i32, y: i32)
        requires
            old(self).well_formed(),
        ensures
            final(self).well_formed(),
            filled_2d(*old(self), *final(self), x as int, y as int),
    {
        match self.get_bin(x, y) {
            Some((i, j)) => {
                let c = self.bins[j][i];
                if c < u32::MAX {
                    let mut row = self.bins[j].clone();
                    assert(row@ =~= self.bins@[j as int]@);
                    row.set(i, c + 1);
                    self.bins.set(j, row);
                } else {
                    assert(self.bins@[j as int]@ =~= self.bins@[j as int]@.update(i as int, c));
                }
            },
            None => {},
        }
    }
}

/// A histogram of either kind.
#[derive(Debug)]
pub enum HistogramTypes {
    Hist1D(Histogram),
    Hist2D(Histogram2D),
}

impl HistogramTypes {
    pub open spec fn well_formed(&self) -> bool {
        match self {
            HistogramTypes::Hist1D(h) => h.well_formed(),
            HistogramTypes::Hist2D(h) => h.well_formed(),
        }
    }

    /// Counts the point `(x, y)`; a one-dimensional histogram counts `x`.
    pub fn fill(&mut self, x: i32, y: i32)
        requires
            old(self).well_formed(),
        ensures
            final(self).well_formed(),
            match (*old(self), *final(self)) {
                (HistogramTypes::Hist1D(a), HistogramTypes::Hist1D(b)) => filled_1d(a, b, x as int),
                (HistogramTypes::Hist2D(a), HistogramTypes::Hist2D(b)) => filled_2d(
                    a,
                    b,
                    x as int,
                    y as int,
                ),
                _ => false,
            },
    {
        match self {
            HistogramTypes::Hist1D(h) => h.fill(x),
            HistogramTypes::Hist2D(h) => h.fill(x, y),
        }
    }
}

} // verus!
