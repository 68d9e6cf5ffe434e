use std::collections::HashMap;
use vstd::prelude::*;

use crate::stroke::{dots_deduplicated, fold_max, fold_min, Stroke};

verus! {

/// Earliest timestamp over all strokes; `u64::MAX` when there is none.
pub open spec fn strokes_timestamp_min<C>(s: Seq<Stroke<C>>) -> u64
    decreases s.len(),
{
    if s.len() == 0 {
        u64::MAX
    } else {
        let m = strokes_timestamp_min(s.drop_last());
        let t = fold_min(s.last().timestamp@);
        if t < m {
            t
        } else {
            m
        }
    }
}

/// Latest timestamp over all strokes; `0` when there is none.
pub open spec fn strokes_timestamp_max<C>(s: Seq<Stroke<C>>) -> u64
    decreases s.len(),
{
    if s.len() == 0 {
        0
    } else {
        let m = strokes_timestamp_max(s.drop_last());
        let t = fold_max(s.last().timestamp@);
        if t > m {
            t
        } else {
            m
        }
    }
}

/// A stroke with at least two points.
pub open spec fn is_multi_point<C>(s: Stroke<C>) -> bool {
    s.x@.len() > 1
}

/// The strokes of `s` with at least two points, in their order.
pub open spec fn multi_point_strokes<C>(s: Seq<Stroke<C>>) -> Seq<Stroke<C>>
    decreases s.len(),
{
    if s.len() == 0 {
        Seq::empty()
    } else {
        let rest = multi_point_strokes(s.drop_last());
        if is_multi_point(s.last()) {
            rest.push(s.last())
        } else {
            rest
        }
    }
}

/// An ordered collection of strokes with its own metadata.
#[derive(Debug, PartialEq)]
pub struct Sketch<C> {
    pub typ: String,
    pub meta: HashMap<String, serde_json::Value>,
    pub strokes: Vec<Stroke<C>>,
}

impl<C> Sketch<C> {
    /// A sketch of type `"stroke"` with empty metadata holding `strokes`.
    pub fn new(strokes: Vec<Stroke<C>>) -> (r: Sketch<C>)
        ensures
            r.typ@ == "stroke"@,
            r.meta@ == Map::<String, serde_json::Value>::empty(),
            r.strokes@ == strokes@,
    {
        Sketch { typ: "stroke".to_owned(), meta: HashMap::new(), strokes }
    }

    pub fn strokes(&self) -> (r: &Vec<Stroke<C>>)
        ensures
            r@ == self.strokes@,
    {
        &self.strokes
    }

    /// Appends `stroke` after the existing strokes.
    pub fn add_stroke(&mut self, stroke: Stroke<C>)
        ensures
            final(self).strokes@ == old(self).strokes@.push(stroke),
            final(self).typ == old(self).typ,
            final(self).meta == old(self).meta,
    {
        self.strokes.push(stroke);
    }

    /// Earliest timestamp of any stroke; `u64::MAX` when no stroke has one.
    pub fn timestamp_min(&self) -> (r: u64)
        ensures
            r == strokes_timestamp_min(self.strokes@),
    {
        let mut m: u64 = u64::MAX;
        let mut i: usize = 0;
        while i < self.strokes.len()
            invariant
                i <= self.strokes@.len(),
                m == strokes_timestamp_min(self.strokes@.subrange(0, i as int)),
            decreases self.strokes@.len() - i,
        {
            assert(self.strokes@.subrange(0, i + 1).drop_last() =~= self.strokes@.subrange(0, i as int));
            let t = self.strokes[i].timestamp_min();
            if t < m {
                m = t;
            }
            i += 1;
        }
        assert(self.strokes@.subrange(0, i as int) =~= self.strokes@);
        m
    }

    /// Latest timestamp of any stroke; `0` when no stroke has one.
    pub fn timestamp_max(&self) -> (r: u64)
        ensures
            r == strokes_timestamp_max(self.strokes@),
    {
        let mut m: u64 = 0;
        let mut i: usize = 0;
        while i < self.strokes.len()
            invariant
                i <= self.strokes@.len(),
                m == strokes_timestamp_max(self.strokes@.subrange(0, i as int)),
            decreases self.strokes@.len() - i,
        {
            assert(self.strokes@.subrange(0, i + 1).drop_last() =~= self.strokes@.subrange(0, i as int));
            let t = self.strokes[i].timestamp_max();
            if t > m {
                m = t;
            }
            i += 1;
        }
        assert(self.strokes@.subrange(0, i as int) =~= self.strokes@);
        m
    }

    /// Number of strokes.
    pub fn len(&self) -> (r: usize)
        ensures
            r == self.strokes@.len(),
    {
        self.strokes.len()
    }

    /// Removes every stroke with fewer than two points; the others keep their order.
    pub fn remove_single_dot_strokes(&mut self)
        ensures
            final(self).strokes@ == multi_point_strokes(old(self).strokes@),
            final(self).typ == old(self).typ,
            final(self).meta == old(self).meta,
    {
        let mut rest: Vec<Stroke<C>> = Vec::new();
        std::mem::swap(&mut rest, &mut self.strokes);
        let ghost all = rest@;
        for s in it: rest
            invariant
                it.seq() == all,
                self.strokes@ == multi_point_strokes(all.subrange(0, it.index() as int)),
                self.typ == old(self).typ,
                self.meta == old(self).meta,
        {
            assert(all.subrange(0, it.index() + 1).drop_last() =~= all.subrange(0, it.index() as int));
            if s.x.len() > 1 {
                self.strokes.push(s);
            }
        }
        assert(all.subrange(0, all.len() as int) =~= all);
    }
}

impl<C: Copy + PartialEq> Sketch<C> {
    /// Collapses repeated consecutive points in every stroke.
    pub fn remove_duplicate_dots(&mut self)
        ensures
            final(self).strokes@.len() == old(self).strokes@.len(),
            forall|i: int|
                0 <= i < old(self).strokes@.len() ==> dots_deduplicated(
                    #[trigger] old(self).strokes@[i],
                    final(self).strokes@[i],
                ),
            final(self).typ == old(self).typ,
            final(self).meta == old(self).meta,
    {
        let mut i: usize = 0;
        while i < self.strokes.len()
            invariant
                i <= self.strokes@.len(),
                self.strokes@.len() == old(self).strokes@.len(),
                forall|k: int|
                    0 <= k < i ==> dots_deduplicated(
                        #[trigger] old(self).strokes@[k],
                        self.strokes@[k],
                    ),
                forall|k: int| i <= k < self.strokes@.len() ==> #[trigger] self.strokes@[k] == old(self).strokes@[k],
                self.typ == old(self).typ,
                self.meta == old(self).meta,
            decreases self.strokes@.len() - i,
        {
            self.strokes[i].remove_duplicate_dots();
            i += 1;
        }
    }
}

} // verus!
