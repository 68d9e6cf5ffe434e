use std::collections::HashMap;
use vstd::prelude::*;
use vstd::std_specs::cmp::PartialEqSpec;

verus! {

/// Smallest value of `s`, or `u64::MAX` when `s` is empty.
pub open spec fn fold_min(s: Seq<u64>) -> u64
    decreases s.len(),
{
    if s.len() == 0 {
        u64::MAX
    } else {
        let m = fold_min(s.drop_last());
        if s.last() < m {
            s.last()
        } else {
            m
        }
    }
}

/// Largest value of `s`, or `0` when `s` is empty.
pub open spec fn fold_max(s: Seq<u64>) -> u64
    decreases s.len(),
{
    if s.len() == 0 {
        0
    } else {
        let m = fold_max(s.drop_last());
        if s.last() > m {
            s.last()
        } else {
            m
        }
    }
}

/// The elements of `s` whose position is not flagged in `drop`, in their order.
/// Positions past the end of `drop` are kept.
pub open spec fn without_flagged<T>(s: Seq<T>, drop: Seq<bool>) -> Seq<T>
    decreases s.len(),
{
    if s.len() == 0 {
        Seq::empty()
    } else {
        let rest = without_flagged(s.drop_last(), drop);
        let i = s.len() - 1;
        if i < drop.len() && drop[i] {
            rest
        } else {
            rest.push(s.last())
        }
    }
}

/// `drop` has one flag per point of `x`; the first point and every point
/// without a `y` value are never flagged, and, for a coordinate type whose
/// `==` follows its specification, exactly the points equal in `x` and `y`
/// to their predecessor are flagged.
pub open spec fn flags_repeats<C: PartialEq>(x: Seq<C>, y: Seq<C>, drop: Seq<bool>) -> bool {
    &&& drop.len() == x.len()
    &&& x.len() > 0 ==> !drop[0]
    &&& forall|i: int| 0 < i < x.len() && i >= y.len() ==> !#[trigger] drop[i]
    &&& C::obeys_eq_spec() ==> forall|i: int|
        0 < i < x.len() && i < y.len() ==> #[trigger] drop[i] == (x[i].eq_spec(&x[i - 1])
            && y[i].eq_spec(&y[i - 1]))
}

/// `b` is `a` with the points flagged in `drop` taken out of all four channels,
/// its type tag and metadata unchanged.
pub open spec fn points_dropped<C>(a: Stroke<C>, b: Stroke<C>, drop: Seq<bool>) -> bool {
    &&& b.typ@ == a.typ@
    &&& b.meta@ == a.meta@
    &&& b.x@ == without_flagged(a.x@, drop)
    &&& b.y@ == without_flagged(a.y@, drop)
    &&& b.timestamp@ == without_flagged(a.timestamp@, drop)
    &&& b.pressure@ == without_flagged(a.pressure@, drop)
}

/// `b` is `a` with every point that repeats its predecessor taken out.
pub open spec fn dots_deduplicated<C: PartialEq>(a: Stroke<C>, b: Stroke<C>) -> bool {
    exists|drop: Seq<bool>| flags_repeats(a.x@, a.y@, drop) && #[trigger] points_dropped(a, b, drop)
}

/// One pen or touch trace: parallel channels of samples and free-form metadata.
/// Coordinates and pressure are of type `C` (for pen input, a floating-point
/// type); arithmetic on them is left to the caller. The number of points is
/// the length of `x`; the other channels are expected, not required, to have
/// the same length.
#[derive(Clone, Debug, PartialEq)]
pub struct Stroke<C> {
    pub typ: String,
    pub meta: HashMap<String, serde_json::Value>,
    pub x: Vec<C>,
    pub y: Vec<C>,
    pub timestamp: Vec<u64>,
    pub pressure: Vec<C>,
}

/// Smallest element of `v`, `u64::MAX` for an empty `v`.
fn min_of(v: &Vec<u64>) -> (r: u64)
    ensures
        r == fold_min(v@),
{
    let mut m: u64 = u64::MAX;
    let mut i: usize = 0;
    while i < v.len()
        invariant
            i <= v@.len(),
            m == fold_min(v@.subrange(0, i as int)),
        decreases v@.len() - i,
    {
        assert(v@.subrange(0, i + 1).drop_last() =~= v@.subrange(0, i as int));
        if v[i] < m {
            m = v[i];
        }
        i += 1;
    }
    assert(v@.subrange(0, i as int) =~= v@);
    m
}

/// Largest element of `v`, `0` for an empty `v`.
fn max_of(v: &Vec<u64>) -> (r: u64)
    ensures
        r == fold_max(v@),
{
    let mut m: u64 = 0;
    let mut i: usize = 0;
    while i < v.len()
        invariant
            i <= v@.len(),
            m == fold_max(v@.subrange(0, i as int)),
        decreases v@.len() - i,
    {
        assert(v@.subrange(0, i + 1).drop_last() =~= v@.subrange(0, i as int));
        if v[i] > m {
            m = v[i];
        }
        i += 1;
    }
    assert(v@.subrange(0, i as int) =~= v@);
    m
}

/// The elements of `v` whose position is not flagged in `drop`.
fn keep_unflagged<T: Copy>(v: &Vec<T>, drop: &Vec<bool>) -> (r: Vec<T>)
    ensures
        r@ == without_flagged(v@, drop@),
{
    let mut out: Vec<T> = Vec::new();
    let mut i: usize = 0;
    while i < v.len()
        invariant
            i <= v@.len(),
            out@ == without_flagged(v@.subrange(0, i as int), drop@),
        decreases v@.len() - i,
    {
        assert(v@.subrange(0, i + 1).drop_last() =~= v@.subrange(0, i as int));
        if !(i < drop.len() && drop[i]) {
            out.push(v[i]);
        }
        i += 1;
    }
    assert(v@.subrange(0, i as int) =~= v@);
    out
}

impl<C> Stroke<C> {
    /// A stroke of type `"stroke"` with empty metadata and the given channels.
    pub fn new(x: Vec<C>, y: Vec<C>, timestamp: Vec<u64>, pressure: Vec<C>) -> (r: Stroke<C>)
        ensures
            r.typ@ == "stroke"@,
            r.meta@ == Map::<String, serde_json::Value>::empty(),
            r.x@ == x@,
            r.y@ == y@,
            r.timestamp@ == timestamp@,
            r.pressure@ == pressure@,
    {
        Stroke { typ: "stroke".to_owned(), meta: HashMap::new(), x, y, timestamp, pressure }
    }

    pub fn x(&self) -> (r: &Vec<C>)
        ensures
            r@ == self.x@,
    {
        &self.x
    }

    pub fn y(&self) -> (r: &Vec<C>)
        ensures
            r@ == self.y@,
    {
        &self.y
    }

    pub fn timestamp(&self) -> (r: &Vec<u64>)
        ensures
            r@ == self.timestamp@,
    {
        &self.timestamp
    }

    pub fn pressure(&self) -> (r: &Vec<C>)
        ensures
            r@ == self.pressure@,
    {
        &self.pressure
    }

    /// Earliest timestamp; `u64::MAX` when the stroke has no timestamps.
    pub fn timestamp_min(&self) -> (r: u64)
        ensures
            r == fold_min(self.timestamp@),
    {
        min_of(&self.timestamp)
    }

    /// Latest timestamp; `0` when the stroke has no timestamps.
    pub fn timestamp_max(&self) -> (r: u64)
        ensures
            r == fold_max(self.timestamp@),
    {
        max_of(&self.timestamp)
    }

    /// Number of points, which is the length of the `x` channel.
    pub fn len(&self) -> (r: usize)
        ensures
            r == self.x@.len(),
    {
        self.x.len()
    }
}

impl<C: Copy> Stroke<C> {
    /// Takes the points flagged in `drop` out of every channel, keeping the
    /// order of the others.
    pub fn drop_flagged_points(&mut self, drop: &Vec<bool>)
        ensures
            points_dropped(*old(self), *final(self), drop@),
    {
        self.x = keep_unflagged(&self.x, drop);
        self.y = keep_unflagged(&self.y, drop);
        self.timestamp = keep_unflagged(&self.timestamp, drop);
        self.pressure = keep_unflagged(&self.pressure, drop);
    }
}

impl<C: Copy + PartialEq> Stroke<C> {
    /// One flag per point: whether it lies on the same `x` and `y` as the
    /// point before it.
    pub fn repeated_points(&self) -> (r: Vec<bool>)
        ensures
            flags_repeats(self.x@, self.y@, r@),
    {
        let mut r: Vec<bool> = Vec::new();
        let mut i: usize = 0;
        while i < self.x.len()
            invariant
                i <= self.x@.len(),
                r@.len() == i,
                i > 0 ==> !r@[0],
                forall|k: int| 0 < k < i && k >= self.y@.len() ==> !#[trigger] r@[k],
                C::obeys_eq_spec() ==> forall|k: int|
                    0 < k < i && k < self.y@.len() ==> #[trigger] r@[k] == (
                    self.x@[k].eq_spec(&self.x@[k - 1]) && self.y@[k].eq_spec(&self.y@[k - 1])),
            decreases self.x@.len() - i,
        {
            let same = if 0 < i && i < self.y.len() {
                self.x[i] == self.x[i - 1] && self.y[i] == self.y[i - 1]
            } else {
                false
            };
            r.push(same);
            i += 1;
        }
        r
    }

    /// Collapses every run of consecutive points with equal coordinates to
    /// its first point, in all four channels. The remaining points keep
    /// their order.
    pub fn remove_duplicate_dots(&mut self)
        ensures
            dots_deduplicated(*old(self), *final(self)),
    {
        let drop = self.repeated_points();
        self.drop_flagged_points(&drop);
        assert(points_dropped(*old(self), *self, drop@));
    }
}

/// Collects points one at a time and turns them into a `Stroke`.
pub struct StrokeBuilder<C> {
    pub x: Vec<C>,
    pub y: Vec<C>,
    pub timestamp: Vec<u64>,
    pub pressure: Vec<C>,
}

impl<C> StrokeBuilder<C> {
    pub fn new() -> (r: StrokeBuilder<C>)
        ensures
            r.x@.len() == 0,
            r.y@.len() == 0,
            r.timestamp@.len() == 0,
            r.pressure@.len() == 0,
    {
        StrokeBuilder { x: Vec::new(), y: Vec::new(), timestamp: Vec::new(), pressure: Vec::new() }
    }

    /// Appends one sample to each channel.
    pub fn add_point(&mut self, x: C, y: C, timestamp: u64, pressure: C)
        ensures
            final(self).x@ == old(self).x@.push(x),
            final(self).y@ == old(self).y@.push(y),
            final(self).timestamp@ == old(self).timestamp@.push(timestamp),
            final(self).pressure@ == old(self).pressure@.push(pressure),
    {
        self.x.push(x);
        self.y.push(y);
        self.timestamp.push(timestamp);
        self.pressure.push(pressure);
    }

    /// The stroke holding the collected samples, of type `"stroke"` with empty metadata.
    pub fn build(self) -> (r: Stroke<C>)
        ensures
            r.typ@ == "stroke"@,
            r.meta@ == Map::<String, serde_json::Value>::empty(),
            r.x@ == self.x@,
            r.y@ == self.y@,
            r.timestamp@ == self.timestamp@,
            r.pressure@ == self.pressure@,
    {
        Stroke::new(self.x, self.y, self.timestamp, self.pressure)
    }

    /// Number of points collected so far.
    pub fn len(&self) -> (r: usize)
        ensures
            r == self.x@.len(),
    {
        self.x.len()
    }
}

} // verus!
