use vstd::prelude::*;

use crate::background::{
    is_regression_of, ls_den, simple_linear_regression, subtract_background, subtracted, sum_x,
    BackgroundError, LinearFit, MAX_ABS_X, MAX_POINTS,
};
use crate::histogram::Histogram;
use crate::markers::{deleted_closest, run_within, FitMarkers};

verus! {

/// Why a fit could not be prepared.
#[derive(Debug, Clone, Copy, PartialEq, Eq, Structural)]
pub enum FitError {
    /// No histogram has been handed to the session.
    NoHistogram,
    /// The region is not bounded by exactly two markers.
    InsufficientMarkers,
    /// Fewer than two background markers fall inside the histogram.
    NoBackgroundData,
    /// All background markers fall in one bin.
    SingularFit,
    /// More background markers fall inside the histogram than a background
    /// fit accepts (`MAX_POINTS`).
    TooManyBackgroundPoints,
}

/// Doubled bin centres of the bins that hold the markers `ms`, in marker order
/// (markers outside the histogram give nothing).
pub open spec fn marker_xs(h: Histogram, ms: Seq<i32>) -> Seq<i64>
    decreases ms.len(),
{
    if ms.len() == 0 {
        Seq::empty()
    } else {
        let prev = marker_xs(h, ms.drop_last());
        match h.spec_bin(ms.last() as int) {
            Some(i) => prev.push(h.center2(i) as i64),
            None => prev,
        }
    }
}

/// Counts of the bins that hold the markers `ms`, in marker order.
pub open spec fn marker_ys(h: Histogram, ms: Seq<i32>) -> Seq<i64>
    decreases ms.len(),
{
    if ms.len() == 0 {
        Seq::empty()
    } else {
        let prev = marker_ys(h, ms.drop_last());
        match h.spec_bin(ms.last() as int) {
            Some(i) => prev.push(h.bins@[i] as i64),
            None => prev,
        }
    }
}

/// The points a background line is fitted to: for each background marker
/// that falls in a bin, that bin's doubled centre and its count.
pub fn get_background_marker_data(h: &Histogram, ms: &Vec<i32>) -> (r: (Vec<i64>, Vec<i64>))
    requires
        h.well_formed(),
    ensures
        r.0@ == marker_xs(*h, ms@),
        r.1@ == marker_ys(*h, ms@),
        r.0@.len() == r.1@.len(),
        forall|k: int| 0 <= k < r.0@.len() ==> -MAX_ABS_X <= #[trigger] r.0@[k] <= MAX_ABS_X,
        forall|k: int| 0 <= k < r.1@.len() ==> 0 <= #[trigger] r.1@[k] <= u32::MAX,
{
    let mut xs: Vec<i64> = Vec::new();
    let mut ys: Vec<i64> = Vec::new();
    let mut k: usize = 0;
    while k < ms.len()
        invariant
            h.well_formed(),
            k <= ms@.len(),
            xs@ == marker_xs(*h, ms@.subrange(0, k as int)),
            ys@ == marker_ys(*h, ms@.subrange(0, k as int)),
            xs@.len() == ys@.len(),
            forall|j: int| 0 <= j < xs@.len() ==> -MAX_ABS_X <= #[trigger] xs@[j] <= MAX_ABS_X,
            forall|j: int| 0 <= j < ys@.len() ==> 0 <= #[trigger] ys@[j] <= u32::MAX,
        decreases ms@.len() - k,
    {
        let ghost next = ms@.subrange(0, k + 1);
        assert(next.drop_last() =~= ms@.subrange(0, k as int));
        assert(next.last() == ms@[k as int]);
        match h.get_bin(ms[k]) {
            Some(i) => {
                let x2 = h.bin_center_doubled(i);
                proof {
                    crate::background::lemma_center2_bounded(h, i as int);
                }
                xs.push(x2);
                ys.push(h.bins[i] as i64);
            },
            None => {},
        }
        k = k + 1;
    }
    assert(ms@.subrange(0, ms@.len() as int) =~= ms@);
    (xs, ys)
}

/// Fits the background line through the background markers' bins.
pub fn fit_background(h: &Histogram, ms: &Vec<i32>) -> (r: Result<LinearFit, FitError>)
    requires
        h.well_formed(),
    ensures
        r == Err::<LinearFit, FitError>(FitError::NoBackgroundData) <==> marker_xs(*h, ms@).len()
            < 2,
        r == Err::<LinearFit, FitError>(FitError::TooManyBackgroundPoints) <==> marker_xs(
            *h,
            ms@,
        ).len() > MAX_POINTS,
        r == Err::<LinearFit, FitError>(FitError::SingularFit) <==> 2 <= marker_xs(*h, ms@).len()
            <= MAX_POINTS && ls_den(marker_xs(*h, ms@)) == 0,
        r is Err ==> r == Err::<LinearFit, FitError>(FitError::NoBackgroundData) || r == Err::<
            LinearFit,
            FitError,
        >(FitError::TooManyBackgroundPoints) || r == Err::<LinearFit, FitError>(
            FitError::SingularFit,
        ),
        r matches Ok(f) ==> f.bounded() && is_regression_of(
            f,
            marker_xs(*h, ms@),
            marker_ys(*h, ms@),
        ),
{
    let (xs, ys) = get_background_marker_data(h, ms);
    if xs.len() < 2 {
        return Err(FitError::NoBackgroundData);
    }
    if xs.len() > MAX_POINTS {
        return Err(FitError::TooManyBackgroundPoints);
    }
    match simple_linear_regression(&xs, &ys) {
        Ok(f) => Ok(f),
        Err(BackgroundError::NoBackgroundData) => Err(FitError::NoBackgroundData),
        Err(BackgroundError::SingularFit) => Err(FitError::SingularFit),
    }
}

/// First bin of the fit region: the bin of the lower region marker, or the
/// first bin when that marker lies outside the histogram.
pub open spec fn region_start(h: Histogram, r0: i32) -> int {
    match h.spec_bin(r0 as int) {
        Some(i) => i,
        None => 0,
    }
}

/// Last bin of the fit region: the bin of the upper region marker, or the
/// last bin when that marker lies outside the histogram.
pub open spec fn region_end(h: Histogram, r1: i32) -> int {
    match h.spec_bin(r1 as int) {
        Some(i) => i,
        None => h.bins@.len() - 1,
    }
}

proof fn lemma_region_ordered(h: Histogram, r0: i32, r1: i32)
    requires
        h.well_formed(),
        r0 <= r1,
    ensures
        h.bins@.len() >= 1,
        0 <= region_start(h, r0) <= region_end(h, r1) < h.bins@.len(),
{
    let w = h.width();
    let span = h.hi() - h.lo();
    assert((span + w - 1) / w >= 1) by (nonlinear_arith)
        requires
            span >= 1,
            w >= 1,
    ;
    if let Some(i) = h.spec_bin(r0 as int) {
        crate::histogram::lemma_bin_in_range(h, r0 as int);
        if let Some(j) = h.spec_bin(r1 as int) {
            crate::histogram::lemma_bin_in_range(h, r1 as int);
            let a = r0 - h.lo();
            let b = r1 - h.lo();
            assert(a / w <= b / w) by (nonlinear_arith)
                requires
                    0 <= a <= b,
                    w >= 1,
            ;
        }
    } else if let Some(j) = h.spec_bin(r1 as int) {
        crate::histogram::lemma_bin_in_range(h, r1 as int);
    }
}

proof fn lemma_progression_sum(s: Seq<i64>, a: int, b: int, m: nat)
    requires
        m <= s.len(),
        forall|k: int| 0 <= k < s.len() ==> #[trigger] s[k] == a + b * k,
    ensures
        2 * sum_x(s, m) == m * (2 * a + b * (m - 1)),
    decreases m,
{
    if m > 0 {
        let j = (m - 1) as nat;
        lemma_progression_sum(s, a, b, j);
        assert(s[j as int] == a + b * j);
        assert(2 * sum_x(s, j) + 2 * (a + b * j) == m * (2 * a + b * (m - 1))) by (nonlinear_arith)
            requires
                2 * sum_x(s, j) == j * (2 * a + b * (j - 1)),
                m == j + 1,
        ;
    } else {
        assert(m * (2 * a + b * (m - 1)) == 0) by (nonlinear_arith)
            requires
                m == 0,
        ;
    }
}

/// The outcome of preparing a fit of `h` with markers `m`, when there are two
/// region markers: `fin` is the session afterwards and `r` the result.
pub open spec fn prepared(h: Histogram, m: FitMarkers, fin: FitHandler, r: Result<FitInput, FitError>) -> bool {
    let lo = m.region_markers@[0];
    let hi = m.region_markers@[1];
    let bg = if m.background_markers@.len() == 0 {
        m.region_markers@
    } else {
        m.background_markers@
    };
    let xs = marker_xs(h, bg);
    &&& r == Err::<FitInput, FitError>(FitError::NoBackgroundData) <==> xs.len() < 2
    &&& r == Err::<FitInput, FitError>(FitError::TooManyBackgroundPoints) <==> xs.len() > MAX_POINTS
    &&& r == Err::<FitInput, FitError>(FitError::SingularFit) <==> 2 <= xs.len() <= MAX_POINTS
        && ls_den(xs) == 0
    &&& r is Ok <==> 2 <= xs.len() <= MAX_POINTS && ls_den(xs) != 0
    &&& r matches Ok(input) ==> {
        let peaks = fin.markers.peak_markers@;
        let start = region_start(h, lo);
        let n = region_end(h, hi) - start + 1;
        let f = input.background;
        &&& fin.markers.region_markers@ == m.region_markers@
        &&& fin.markers.background_markers@ == bg
        &&& exists|a: int, b: int|
            #[trigger] run_within(m.peak_markers@, lo, hi, a, b) && peaks == m.peak_markers@.subrange(
                a,
                b,
            )
        &&& f.bounded() && is_regression_of(f, xs, marker_ys(h, bg))
        &&& fin.background == Some(f)
        &&& input.x2@.len() == n && input.y@.len() == n
        &&& forall|k: int| 0 <= k < n ==> #[trigger] input.x2@[k] == h.center2(start + k)
        &&& forall|k: int|
            0 <= k < n ==> #[trigger] input.y@[k] == subtracted(
                h.bins@[start + k] as int,
                f.rounded_estimate(h.center2(start + k)),
            )
        &&& peaks.len() > 0 ==> input.initial_means2@.len() == peaks.len() && forall|k: int|
            0 <= k < peaks.len() ==> #[trigger] input.initial_means2@[k] == 2 * peaks[k]
        &&& peaks.len() == 0 ==> input.initial_means2@.len() == 1 && n * input.initial_means2@[0]
            == sum_x(input.x2@, n as nat)
    }
}

/// What a peak fit runs on: the fit region's bins after background
/// subtraction (doubled bin centres and counts), the starting means
/// (doubled), and the background line that was taken away.
#[derive(Debug)]
pub struct FitInput {
    pub x2: Vec<i64>,
    pub y: Vec<u32>,
    pub initial_means2: Vec<i64>,
    pub background: LinearFit,
}

/// A fit session on one histogram: its markers and the background line of
/// the current fit.
#[derive(Debug)]
pub struct FitHandler {
    pub histogram: Option<Histogram>,
    pub markers: FitMarkers,
    pub background: Option<LinearFit>,
}

fn copy_markers(m: &FitMarkers) -> (r: FitMarkers)
    ensures
        r.peak_markers@ == m.peak_markers@,
        r.background_markers@ == m.background_markers@,
        r.region_markers@ == m.region_markers@,
{
    FitMarkers {
        peak_markers: m.peak_markers.clone(),
        background_markers: m.background_markers.clone(),
        region_markers: m.region_markers.clone(),
    }
}

impl FitHandler {
    pub open spec fn well_formed(&self) -> bool {
        &&& self.markers.well_formed()
        &&& self.histogram matches Some(h) ==> h.well_formed()
        &&& self.background matches Some(f) ==> f.bounded()
    }

    /// A session with no histogram, no markers and no fit.
    pub fn new() -> (r: FitHandler)
        ensures
            r.well_formed(),
            r.histogram is None,
            r.markers.is_empty(),
            r.background is None,
    {
        FitHandler { histogram: None, markers: FitMarkers::new(), background: None }
    }

    /// Hands the session the histogram to fit.
    pub fn set_histogram(&mut self, h: Histogram)
        requires
            old(self).well_formed(),
            h.well_formed(),
        ensures
            final(self).well_formed(),
            final(self).histogram == Some(h),
            final(self).markers == old(self).markers,
            final(self).background == old(self).background,
    {
        self.histogram = Some(h);
    }

    /// Prepares a fit of the region between the two region markers.
    ///
    /// On success the peak markers outside the region are dropped, the
    /// region bounds stand in for missing background markers, the background
    /// line is fitted through the background markers' bins and kept, and the
    /// region's bins after subtracting it are returned, with the peak markers
    /// (or, without any, the mean bin centre of the region) as starting means.
    /// On failure nothing changes.
    pub fn prepare_fit(&mut self) -> (r: Result<FitInput, FitError>)
        requires
            old(self).well_formed(),
        ensures
            final(self).well_formed(),
            final(self).histogram == old(self).histogram,
            old(self).histogram is None ==> r == Err::<FitInput, FitError>(FitError::NoHistogram),
            old(self).histogram is Some && old(self).markers.region_markers@.len() != 2 ==> r
                == Err::<FitInput, FitError>(FitError::InsufficientMarkers),
            r is Err ==> final(self).markers == old(self).markers && final(self).background
                == old(self).background,
            old(self).histogram matches Some(h) ==> (old(self).markers.region_markers@.len() == 2
                ==> prepared(h, old(self).markers, *final(self), r)),
    {
        let h = match &self.histogram {
            Some(h) => h,
            None => {
                return Err(FitError::NoHistogram);
            },
        };
        if self.markers.region_markers.len() != 2 {
            return Err(FitError::InsufficientMarkers);
        }
        let mut m = copy_markers(&self.markers);
        m.remove_peak_markers_outside_region();
        m.default_background_to_region();
        let f = fit_background(h, &m.background_markers)?;
        let r0 = m.region_markers[0];
        let r1 = m.region_markers[1];
        proof {
            lemma_region_ordered(*h, r0, r1);
        }
        let start: usize = match h.get_bin(r0) {
            Some(i) => i,
            None => 0,
        };
        let end: usize = match h.get_bin(r1) {
            Some(i) => i,
            None => h.bins.len() - 1,
        };
        let sub = subtract_background(h, &f);
        let mut x2: Vec<i64> = Vec::new();
        let mut y: Vec<u32> = Vec::new();
        let mut b: usize = start;
        while b <= end
            invariant
                h.well_formed(),
                f.bounded(),
                start <= end < h.bins@.len(),
                sub.bins@.len() == h.bins@.len(),
                forall|i: int|
                    0 <= i < h.bins@.len() ==> #[trigger] sub.bins@[i] == subtracted(
                        h.bins@[i] as int,
                        f.rounded_estimate(h.center2(i)),
                    ),
                start <= b <= end + 1,
                x2@.len() == b - start,
                y@.len() == b - start,
                forall|k: int| 0 <= k < b - start ==> #[trigger] x2@[k] == h.center2(start + k),
                forall|k: int|
                    0 <= k < b - start ==> #[trigger] y@[k] == subtracted(
                        h.bins@[start + k] as int,
                        f.rounded_estimate(h.center2(start + k)),
                    ),
            decreases end + 1 - b,
        {
            x2.push(h.bin_center_doubled(b));
            y.push(sub.bins[b]);
            b = b + 1;
        }
        let mut seeds: Vec<i64> = Vec::new();
        if m.peak_markers.len() == 0 {
            let n = x2.len();
            proof {
                let w = h.width();
                let c0 = h.center2(start as int);
                assert forall|k: int| 0 <= k < x2@.len() implies #[trigger] x2@[k] == c0 + 2 * w * k by {
                    assert(h.center2(start + k) == c0 + 2 * w * k) by (nonlinear_arith)
                        requires
                            c0 == 2 * h.lo() + w * (2 * start + 1),
                            h.center2(start + k) == 2 * h.lo() + w * (2 * (start + k) + 1),
                    ;
                }
                lemma_progression_sum(x2@, c0, 2 * w, n as nat);
                crate::background::lemma_center2_bounded(h, end as int);
                assert(x2@[n - 1] == h.center2(end as int));
                assert(w * (n - 1) <= 2 * w * (n - 1)) by (nonlinear_arith)
                    requires
                        w >= 1,
                        n >= 1,
                ;
            }
            let mean: i64 = x2[0] + h.bin_width as i64 * (n - 1) as i64;
            proof {
                let w = h.width();
                let c0 = h.center2(start as int);
                assert(n * mean * 2 == n * (2 * c0 + 2 * w * (n - 1))) by (nonlinear_arith)
                    requires
                        mean == c0 + w * (n - 1),
                ;
            }
            seeds.push(mean);
        } else {
            let mut k: usize = 0;
            while k < m.peak_markers.len()
                invariant
                    k <= m.peak_markers@.len(),
                    seeds@.len() == k,
                    forall|j: int| 0 <= j < k ==> #[trigger] seeds@[j] == 2 * m.peak_markers@[j],
                decreases m.peak_markers@.len() - k,
            {
                seeds.push(2 * m.peak_markers[k] as i64);
                k = k + 1;
            }
        }
        self.markers = m;
        self.background = Some(f);
        Ok(FitInput { x2, y, initial_means2: seeds, background: f })
    }

    /// After a successful fit: the peak markers become the fitted means, in
    /// ascending order, and seed the next fit.
    pub fn apply_fitted_means(&mut self, means: &Vec<i32>)
        requires
            old(self).well_formed(),
        ensures
            final(self).well_formed(),
            final(self).histogram == old(self).histogram,
            final(self).background == old(self).background,
            final(self).markers.peak_markers@.to_multiset() == means@.to_multiset(),
            final(self).markers.background_markers@ == old(self).markers.background_markers@,
            final(self).markers.region_markers@ == old(self).markers.region_markers@,
    {
        self.markers.replace_peak_markers(means);
    }

    /// Drops the current fit's background line; markers stay.
    pub fn clear_fit(&mut self)
        requires
            old(self).well_formed(),
        ensures
            final(self).well_formed(),
            final(self).histogram == old(self).histogram,
            final(self).markers == old(self).markers,
            final(self).background is None,
    {
        self.background = None;
    }

    /// Removes the marker nearest to `x` (see `FitMarkers::delete_closest_marker`)
    /// and drops the current fit, which no longer matches the markers.
    pub fn delete_closest_marker(&mut self, x: i32)
        requires
            old(self).well_formed(),
        ensures
            final(self).well_formed(),
            final(self).histogram == old(self).histogram,
            final(self).background is None,
            deleted_closest(old(self).markers, final(self).markers, x),
    {
        self.background = None;
        self.markers.delete_closest_marker(x);
    }

    /// Clears every marker and the current fit.
    pub fn clear_all(&mut self)
        requires
            old(self).well_formed(),
        ensures
            final(self).well_formed(),
            final(self).histogram == old(self).histogram,
            final(self).markers.is_empty(),
            final(self).background is None,
    {
        self.background = None;
        self.markers.clear_background_markers();
        self.markers.clear_peak_markers();
        self.markers.clear_region_markers();
    }

    /// Fits the background line through the current background markers'
    /// bins and keeps it; on failure the previous line is kept.
    pub fn perform_linear_fit_for_background(&mut self) -> (r: Result<(), FitError>)
        requires
            old(self).well_formed(),
        ensures
            final(self).well_formed(),
            final(self).histogram == old(self).histogram,
            final(self).markers == old(self).markers,
            old(self).histogram is None ==> r == Err::<(), FitError>(FitError::NoHistogram),
            r is Err ==> final(self).background == old(self).background,
            old(self).histogram matches Some(h) ==> {
                let xs = marker_xs(h, old(self).markers.background_markers@);
                &&& r == Err::<(), FitError>(FitError::NoBackgroundData) <==> xs.len() < 2
                &&& r == Err::<(), FitError>(FitError::TooManyBackgroundPoints) <==> xs.len()
                    > MAX_POINTS
                &&& r == Err::<(), FitError>(FitError::SingularFit) <==> 2 <= xs.len()
                    <= MAX_POINTS && ls_den(xs) == 0
                &&& r is Ok <==> 2 <= xs.len() <= MAX_POINTS && ls_den(xs) != 0
                &&& r is Ok ==> (final(self).background matches Some(f) && is_regression_of(
                    f,
                    xs,
                    marker_ys(h, old(self).markers.background_markers@),
                ))
            },
    {
        let h = match &self.histogram {
            Some(h) => h,
            None => {
                return Err(FitError::NoHistogram);
            },
        };
        let f = fit_background(h, &self.markers.background_markers)?;
        self.background = Some(f);
        Ok(())
    }

    /// The histogram with the current background line taken away from every
    /// bin (see `subtract_background`); `None` without a histogram or a line.
    pub fn create_background_subtracted_histogram(&self) -> (r: Option<Histogram>)
        requires
            self.well_formed(),
        ensures
            r is Some <==> self.histogram is Some && self.background is Some,
            r matches Some(s) ==> {
                let h = self.histogram->0;
                let f = self.background->0;
                &&& s.well_formed() && s.range == h.range && s.bin_width == h.bin_width
                &&& s.bins@.len() == h.bins@.len()
                &&& forall|i: int|
                    0 <= i < h.bins@.len() ==> #[trigger] s.bins@[i] == subtracted(
                        h.bins@[i] as int,
                        f.rounded_estimate(h.center2(i)),
                    )
            },
    {
        match (&self.histogram, &self.background) {
            (Some(h), Some(f)) => Some(subtract_background(h, f)),
            _ => None,
        }
    }
}

} // verus!
