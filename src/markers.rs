use vstd::prelude::*;

verus! {

broadcast use vstd::seq_lib::group_to_multiset_ensures;

/// Non-decreasing order.
pub open spec fn sorted(s: Seq<i32>) -> bool {
    forall|i: int, j: int| 0 <= i < j < s.len() ==> s[i] <= s[j]
}

proof fn lemma_insert_multiset(s: Seq<i32>, k: int, x: i32)
    requires
        0 <= k <= s.len(),
    ensures
        s.insert(k, x).to_multiset() =~= s.to_multiset().insert(x),
{
    let t = s.insert(k, x);
    assert(t.remove(k) =~= s);
    assert(t[k] == x);
    assert(t.contains(x));
    assert(t.to_multiset().count(x) > 0);
    assert(s.to_multiset() =~= t.to_multiset().remove(x));
}

/// Inserts `x` into the sorted `v`, after any equal values, keeping it sorted.
pub fn insert_sorted(v: &mut Vec<i32>, x: i32)
    requires
        sorted(old(v)@),
    ensures
        sorted(final(v)@),
        final(v)@.to_multiset() == old(v)@.to_multiset().insert(x),
        exists|k: int| 0 <= k <= old(v)@.len() && final(v)@ == old(v)@.insert(k, x),
{
    let n = v.len();
    let mut k: usize = 0;
    while k < n && v[k] <= x
        invariant
            n == v@.len(),
            k <= n,
            forall|i: int| 0 <= i < k ==> v@[i] <= x,
        decreases n - k,
    {
        k = k + 1;
    }
    proof {
        lemma_insert_multiset(v@, k as int, x);
        assert(forall|i: int| k <= i < n ==> v@[i] > x) by {
            assert(forall|i: int| k <= i < n ==> v@[k as int] <= v@[i]);
        }
    }
    let ghost before = v@;
    v.insert(k, x);
    assert(v@ =~= before.insert(k as int, x));
}

/// `s[a..b]` is exactly the part of `s` within `[lo, hi]`: all before it lie
/// below `lo`, all after it above `hi`.
pub open spec fn run_within(s: Seq<i32>, lo: i32, hi: i32, a: int, b: int) -> bool {
    &&& 0 <= a <= b <= s.len()
    &&& forall|i: int| 0 <= i < a ==> #[trigger] s[i] < lo
    &&& forall|i: int| a <= i < b ==> lo <= #[trigger] s[i] <= hi
    &&& forall|i: int| b <= i < s.len() ==> #[trigger] s[i] > hi
}

/// Distance between two axis positions.
pub open spec fn dist(a: i32, b: i32) -> int {
    if a >= b {
        a - b
    } else {
        b - a
    }
}

/// The first position in `v` nearest to `x`, with its distance.
fn closest_index(v: &Vec<i32>, x: i32) -> (r: Option<(usize, u64)>)
    ensures
        r is None <==> v@.len() == 0,
        r matches Some((i, d)) ==> {
            &&& i < v@.len()
            &&& d == dist(v@[i as int], x)
            &&& forall|j: int| 0 <= j < v@.len() ==> dist(#[trigger] v@[j], x) >= d
            &&& forall|j: int| 0 <= j < i ==> dist(#[trigger] v@[j], x) > d
        },
{
    if v.len() == 0 {
        return None;
    }
    let mut best: usize = 0;
    let mut best_d: u64 = if v[0] >= x {
        (v[0] as i64 - x as i64) as u64
    } else {
        (x as i64 - v[0] as i64) as u64
    };
    let mut k: usize = 1;
    while k < v.len()
        invariant
            1 <= k <= v@.len(),
            best < k,
            best_d == dist(v@[best as int], x),
            forall|j: int| 0 <= j < k ==> dist(#[trigger] v@[j], x) >= best_d,
            forall|j: int| 0 <= j < best ==> dist(#[trigger] v@[j], x) > best_d,
        decreases v@.len() - k,
    {
        let d: u64 = if v[k] >= x {
            (v[k] as i64 - x as i64) as u64
        } else {
            (x as i64 - v[k] as i64) as u64
        };
        if d < best_d {
            best = k;
            best_d = d;
        }
        k = k + 1;
    }
    Some((best, best_d))
}

proof fn lemma_remove_sorted(s: Seq<i32>, i: int)
    requires
        sorted(s),
        0 <= i < s.len(),
    ensures
        sorted(s.remove(i)),
{
    let t = s.remove(i);
    assert forall|a: int, b: int| 0 <= a < b < t.len() implies t[a] <= t[b] by {
        let a2 = if a < i { a } else { a + 1 };
        let b2 = if b < i { b } else { b + 1 };
        assert(t[a] == s[a2]);
        assert(t[b] == s[b2]);
    }
}

/// `new` is `old` less the marker nearest to `x` (see `FitMarkers::is_closest`).
pub open spec fn deleted_closest(old: FitMarkers, new: FitMarkers, x: i32) -> bool {
    &&& old.is_empty() ==> new.is_empty()
    &&& !old.is_empty() ==> exists|g: int, i: int|
        #[trigger] old.is_closest(x, g, i) && new.group(g) == old.group(g).remove(i) && forall|
            h: int,
        | 0 <= h < 3 && h != g ==> new.group(h) == old.group(h)
}

/// `new` is `old` with one marker more at `x`.
pub open spec fn added(old: Seq<i32>, new: Seq<i32>, x: i32) -> bool {
    new.to_multiset() == old.to_multiset().insert(x) && new.len() == old.len() + 1
}

/// The effect of `event` on the markers `old`.
pub open spec fn applied(old: FitMarkers, new: FitMarkers, event: MarkerEvent) -> bool {
    let (p0, b0, r0) = (old.peak_markers@, old.background_markers@, old.region_markers@);
    let (p1, b1, r1) = (new.peak_markers@, new.background_markers@, new.region_markers@);
    match event {
        MarkerEvent::AddPeak(x) => added(p0, p1, x) && b1 == b0 && r1 == r0,
        MarkerEvent::AddBackground(x) => p1 == p0 && added(b0, b1, x) && r1 == r0,
        MarkerEvent::AddRegion(x) => p1 == p0 && b1 == b0 && (r0.len() == 2 ==> r1 == seq![x]) && (
        r0.len() < 2 ==> added(r0, r1, x)),
        MarkerEvent::ClearPeaks => p1.len() == 0 && b1 == b0 && r1 == r0,
        MarkerEvent::ClearBackground => p1 == p0 && b1.len() == 0 && r1 == r0,
        MarkerEvent::ClearRegion => p1 == p0 && b1 == b0 && r1.len() == 0,
        MarkerEvent::ClearAll => new.is_empty(),
        MarkerEvent::DeleteClosest(x) => deleted_closest(old, new, x),
    }
}

/// A user action on the markers, at an axis position where it takes one.
#[derive(Debug, Clone, Copy, PartialEq, Eq, Structural)]
pub enum MarkerEvent {
    AddPeak(i32),
    AddBackground(i32),
    AddRegion(i32),
    ClearPeaks,
    ClearBackground,
    ClearRegion,
    ClearAll,
    DeleteClosest(i32),
}

/// The markers placed on a histogram: peak seeds, background samples, and the
/// bounds of the fit region. Each group is kept in ascending order, and there
/// are never more than two region markers.
#[derive(Debug)]
pub struct FitMarkers {
    pub peak_markers: Vec<i32>,
    pub background_markers: Vec<i32>,
    pub region_markers: Vec<i32>,
}

impl FitMarkers {
    pub open spec fn well_formed(&self) -> bool {
        &&& sorted(self.peak_markers@)
        &&& sorted(self.background_markers@)
        &&& sorted(self.region_markers@)
        &&& self.region_markers@.len() <= 2
    }

    /// Group `0` holds the peaks, `1` the background markers, `2` the region markers.
    pub open spec fn group(&self, g: int) -> Seq<i32> {
        if g == 0 {
            self.peak_markers@
        } else if g == 1 {
            self.background_markers@
        } else {
            self.region_markers@
        }
    }

    /// Marker `i` of group `g` is nearest to `x`, and no marker before it (in
    /// the order peaks, background, region, then ascending index) is as near.
    pub open spec fn is_closest(&self, x: i32, g: int, i: int) -> bool {
        &&& 0 <= g < 3
        &&& 0 <= i < self.group(g).len()
        &&& forall|h: int, j: int|
            0 <= h < 3 && 0 <= j < self.group(h).len() ==> dist(#[trigger] self.group(h)[j], x)
                >= dist(self.group(g)[i], x)
        &&& forall|h: int, j: int|
            0 <= h < 3 && 0 <= j < self.group(h).len() && (h < g || (h == g && j < i)) ==> dist(
                #[trigger] self.group(h)[j],
                x,
            ) > dist(self.group(g)[i], x)
    }

    pub open spec fn is_empty(&self) -> bool {
        &&& self.peak_markers@.len() == 0
        &&& self.background_markers@.len() == 0
        &&& self.region_markers@.len() == 0
    }

    /// No markers at all.
    pub fn new() -> (r: FitMarkers)
        ensures
            r.well_formed(),
            r.is_empty(),
    {
        FitMarkers {
            peak_markers: Vec::new(),
            background_markers: Vec::new(),
            region_markers: Vec::new(),
        }
    }

    /// Adds a peak marker at `x`, keeping the peaks in ascending order.
    pub fn add_peak_marker(&mut self, x: i32)
        requires
            old(self).well_formed(),
        ensures
            final(self).well_formed(),
            final(self).peak_markers@.to_multiset() == old(self).peak_markers@.to_multiset().insert(x),
            final(self).peak_markers@.len() == old(self).peak_markers@.len() + 1,
            final(self).background_markers@ == old(self).background_markers@,
            final(self).region_markers@ == old(self).region_markers@,
    {
        insert_sorted(&mut self.peak_markers, x);
    }

    /// Adds a background marker at `x`, keeping them in ascending order.
    pub fn add_background_marker(&mut self, x: i32)
        requires
            old(self).well_formed(),
        ensures
            final(self).well_formed(),
            final(self).background_markers@.to_multiset()
                == old(self).background_markers@.to_multiset().insert(x),
            final(self).background_markers@.len() == old(self).background_markers@.len() + 1,
            final(self).peak_markers@ == old(self).peak_markers@,
            final(self).region_markers@ == old(self).region_markers@,
    {
        insert_sorted(&mut self.background_markers, x);
    }

    /// Adds a region marker at `x`. A third marker starts a new region: the
    /// two that were there are cleared first, leaving `x` alone.
    pub fn add_region_marker(&mut self, x: i32)
        requires
            old(self).well_formed(),
        ensures
            final(self).well_formed(),
            old(self).region_markers@.len() == 2 ==> final(self).region_markers@ == seq![x],
            old(self).region_markers@.len() < 2 ==> final(self).region_markers@.to_multiset()
                == old(self).region_markers@.to_multiset().insert(x),
            old(self).region_markers@.len() < 2 ==> final(self).region_markers@.len() == old(
                self,
            ).region_markers@.len() + 1,
            final(self).peak_markers@ == old(self).peak_markers@,
            final(self).background_markers@ == old(self).background_markers@,
    {
        if self.region_markers.len() >= 2 {
            self.region_markers = Vec::new();
            self.region_markers.push(x);
            assert(self.region_markers@ =~= seq![x]);
        } else {
            insert_sorted(&mut self.region_markers, x);
        }
    }

    /// Removes the one marker, of any group, nearest to `x`; of equally near
    /// ones, the first in the order peaks, background, region.
    pub fn delete_closest_marker(&mut self, x: i32)
        requires
            old(self).well_formed(),
        ensures
            final(self).well_formed(),
            deleted_closest(*old(self), *final(self), x),
    {
        let p = closest_index(&self.peak_markers, x);
        let b = closest_index(&self.background_markers, x);
        let r = closest_index(&self.region_markers, x);
        let mut g: usize = 3;
        let mut bi: usize = 0;
        let mut bd: u64 = 0;
        if let Some((i, d)) = p {
            g = 0;
            bi = i;
            bd = d;
        }
        if let Some((i, d)) = b {
            if g == 3 || d < bd {
                g = 1;
                bi = i;
                bd = d;
            }
        }
        if let Some((i, d)) = r {
            if g == 3 || d < bd {
                g = 2;
                bi = i;
                bd = d;
            }
        }
        let ghost prev = *self;
        if g == 0 {
            proof { lemma_remove_sorted(self.peak_markers@, bi as int); }
            self.peak_markers.remove(bi);
        } else if g == 1 {
            proof { lemma_remove_sorted(self.background_markers@, bi as int); }
            self.background_markers.remove(bi);
        } else if g == 2 {
            proof { lemma_remove_sorted(self.region_markers@, bi as int); }
            self.region_markers.remove(bi);
        }
        proof {
            if g < 3 {
                assert(prev.is_closest(x, g as int, bi as int));
                assert(forall|h: int| 0 <= h < 3 && h != g ==> self.group(h) == prev.group(h));
            }
        }
    }

    /// Drops the peak markers outside the region `[region_markers[0],
    /// region_markers[1]]`; since the peaks are sorted, those kept are one
    /// contiguous run of them.
    pub fn remove_peak_markers_outside_region(&mut self)
        requires
            old(self).well_formed(),
            old(self).region_markers@.len() == 2,
        ensures
            final(self).well_formed(),
            final(self).background_markers@ == old(self).background_markers@,
            final(self).region_markers@ == old(self).region_markers@,
            exists|a: int, b: int|
                #[trigger] run_within(
                    old(self).peak_markers@,
                    old(self).region_markers@[0],
                    old(self).region_markers@[1],
                    a,
                    b,
                ) && final(self).peak_markers@ == old(self).peak_markers@.subrange(a, b),
    {
        let lo = self.region_markers[0];
        let hi = self.region_markers[1];
        let n = self.peak_markers.len();
        let mut a: usize = 0;
        while a < n && self.peak_markers[a] < lo
            invariant
                n == self.peak_markers@.len(),
                a <= n,
                forall|i: int| 0 <= i < a ==> #[trigger] self.peak_markers@[i] < lo,
            decreases n - a,
        {
            a = a + 1;
        }
        let mut b: usize = a;
        let mut kept: Vec<i32> = Vec::new();
        while b < n && self.peak_markers[b] <= hi
            invariant
                n == self.peak_markers@.len(),
                sorted(self.peak_markers@),
                a <= b <= n,
                a < n ==> self.peak_markers@[a as int] >= lo,
                forall|i: int| a <= i < b ==> lo <= #[trigger] self.peak_markers@[i] <= hi,
                kept@ == self.peak_markers@.subrange(a as int, b as int),
            decreases n - b,
        {
            proof {
                assert(self.peak_markers@[a as int] <= self.peak_markers@[b as int]);
            }
            kept.push(self.peak_markers[b]);
            b = b + 1;
            assert(kept@ =~= self.peak_markers@.subrange(a as int, b as int));
        }
        proof {
            assert(forall|i: int| b <= i < n ==> #[trigger] self.peak_markers@[i] > hi) by {
                assert(forall|i: int| b <= i < n ==> self.peak_markers@[b as int] <= #[trigger] self.peak_markers@[i]);
            }
            assert(forall|i: int| a <= i < b ==> lo <= #[trigger] self.peak_markers@[i] <= hi);
        }
        assert(run_within(self.peak_markers@, lo, hi, a as int, b as int));
        self.peak_markers = kept;
        assert(sorted(self.peak_markers@));
    }

    /// Replaces the peak markers by `means` (the centroids a fit found),
    /// in ascending order.
    pub fn replace_peak_markers(&mut self, means: &Vec<i32>)
        requires
            old(self).well_formed(),
        ensures
            final(self).well_formed(),
            final(self).peak_markers@.to_multiset() == means@.to_multiset(),
            final(self).background_markers@ == old(self).background_markers@,
            final(self).region_markers@ == old(self).region_markers@,
    {
        let mut peaks: Vec<i32> = Vec::new();
        let mut k: usize = 0;
        while k < means.len()
            invariant
                k <= means@.len(),
                sorted(peaks@),
                peaks@.to_multiset() == means@.subrange(0, k as int).to_multiset(),
            decreases means@.len() - k,
        {
            proof {
                assert(means@.subrange(0, k + 1) =~= means@.subrange(0, k as int).push(means@[k as int]));
            }
            insert_sorted(&mut peaks, means[k]);
            k = k + 1;
        }
        assert(means@.subrange(0, means@.len() as int) =~= means@);
        self.peak_markers = peaks;
    }

    /// With no background markers, the region bounds stand in for them.
    pub fn default_background_to_region(&mut self)
        requires
            old(self).well_formed(),
        ensures
            final(self).well_formed(),
            old(self).background_markers@.len() == 0 ==> final(self).background_markers@
                == old(self).region_markers@,
            old(self).background_markers@.len() > 0 ==> final(self).background_markers@
                == old(self).background_markers@,
            final(self).peak_markers@ == old(self).peak_markers@,
            final(self).region_markers@ == old(self).region_markers@,
    {
        if self.background_markers.len() == 0 {
            self.background_markers = self.region_markers.clone();
        }
    }

    pub fn clear_peak_markers(&mut self)
        requires
            old(self).well_formed(),
        ensures
            final(self).well_formed(),
            final(self).peak_markers@.len() == 0,
            final(self).background_markers@ == old(self).background_markers@,
            final(self).region_markers@ == old(self).region_markers@,
    {
        self.peak_markers = Vec::new();
    }

    pub fn clear_background_markers(&mut self)
        requires
            old(self).well_formed(),
        ensures
            final(self).well_formed(),
            final(self).background_markers@.len() == 0,
            final(self).peak_markers@ == old(self).peak_markers@,
            final(self).region_markers@ == old(self).region_markers@,
    {
        self.background_markers = Vec::new();
    }

    pub fn clear_region_markers(&mut self)
        requires
            old(self).well_formed(),
        ensures
            final(self).well_formed(),
            final(self).region_markers@.len() == 0,
            final(self).peak_markers@ == old(self).peak_markers@,
            final(self).background_markers@ == old(self).background_markers@,
    {
        self.region_markers = Vec::new();
    }

    /// The marker state after `event`: each event is one of the operations above.
    pub fn apply(&mut self, event: MarkerEvent)
        requires
            old(self).well_formed(),
        ensures
            final(self).well_formed(),
            applied(*old(self), *final(self), event),
    {
        match event {
            MarkerEvent::AddPeak(x) => self.add_peak_marker(x),
            MarkerEvent::AddBackground(x) => self.add_background_marker(x),
            MarkerEvent::AddRegion(x) => self.add_region_marker(x),
            MarkerEvent::ClearPeaks => self.clear_peak_markers(),
            MarkerEvent::ClearBackground => self.clear_background_markers(),
            MarkerEvent::ClearRegion => self.clear_region_markers(),
            MarkerEvent::ClearAll => {
                self.clear_peak_markers();
                self.clear_background_markers();
                self.clear_region_markers();
            },
            MarkerEvent::DeleteClosest(x) => self.delete_closest_marker(x),
        }
    }
}

} // verus!
