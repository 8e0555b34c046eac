//! The smallest and the largest finite sample of a dataset.

use crate::error::ConfigError;
use crate::sample::{finite, is_finite, precedes, rank};
use vstd::prelude::*;

verus! {

/// The two ends of the range that the finite samples of one axis cover.
#[derive(Clone, Copy, Debug, PartialEq, Eq, Structural)]
pub struct Bounds {
    /// The finite sample that comes first in the total order.
    pub min: u64,
    /// The finite sample that comes last in the total order.
    pub max: u64,
}

/// Some sample in `values` is finite.
pub open spec fn any_finite(values: Seq<u64>) -> bool {
    exists|i: int| 0 <= i < values.len() && finite(#[trigger] values[i])
}

/// `bits` is a finite sample in `values`, and no finite sample in `values`
/// comes before it in the total order.
pub open spec fn least_finite(values: Seq<u64>, bits: u64) -> bool {
    &&& finite(bits)
    &&& values.contains(bits)
    &&& forall|i: int|
        0 <= i < values.len() && finite(#[trigger] values[i]) ==> rank(bits) <= rank(values[i])
}

/// `bits` is a finite sample in `values`, and no finite sample in `values`
/// comes after it in the total order.
pub open spec fn greatest_finite(values: Seq<u64>, bits: u64) -> bool {
    &&& finite(bits)
    &&& values.contains(bits)
    &&& forall|i: int|
        0 <= i < values.len() && finite(#[trigger] values[i]) ==> rank(values[i]) <= rank(bits)
}

/// `bounds` are the bounds of the finite samples in `values`: absent where
/// none is finite, else the least and the greatest of them.
pub open spec fn bounds_of(values: Seq<u64>, bounds: Option<Bounds>) -> bool {
    match bounds {
        None => !any_finite(values),
        Some(b) => least_finite(values, b.min) && greatest_finite(values, b.max),
    }
}

/// The samples of all series, one series after the other.
pub open spec fn joined(series: Seq<Vec<u64>>) -> Seq<u64> {
    series.map_values(|one: Vec<u64>| one@).flatten()
}

/// The bounds after one more sample has been looked at.
pub open spec fn widened(bounds: Option<Bounds>, bits: u64) -> Option<Bounds> {
    if !finite(bits) {
        bounds
    } else {
        match bounds {
            None => Some(Bounds { min: bits, max: bits }),
            Some(b) => Some(
                Bounds {
                    min: if rank(b.min) <= rank(bits) {
                        b.min
                    } else {
                        bits
                    },
                    max: if rank(bits) <= rank(b.max) {
                        b.max
                    } else {
                        bits
                    },
                },
            ),
        }
    }
}

/// Widening the bounds of `seen` by `bits` gives the bounds of `seen` with
/// `bits` added at its end.
pub proof fn lemma_widened(seen: Seq<u64>, bounds: Option<Bounds>, bits: u64)
    requires
        bounds_of(seen, bounds),
    ensures
        bounds_of(seen.push(bits), widened(bounds, bits)),
{
    let more = seen.push(bits);
    assert(more[seen.len() as int] == bits);
    assert forall|i: int| 0 <= i < seen.len() implies more[i] == seen[i] by {}
    match widened(bounds, bits) {
        None => {
            if any_finite(more) {
                let i = choose|i: int| 0 <= i < more.len() && finite(#[trigger] more[i]);
                if i < seen.len() {
                    assert(finite(seen[i]));
                }
            }
        },
        Some(w) => {
            match bounds {
                None => {
                    assert forall|i: int| 0 <= i < more.len() && finite(
                        #[trigger] more[i],
                    ) implies more[i] == bits by {
                        if i < seen.len() {
                            assert(finite(seen[i]));
                        }
                    }
                },
                Some(b) => {
                    let at_min = seen.index_of(b.min);
                    assert(more[at_min] == b.min);
                    let at_max = seen.index_of(b.max);
                    assert(more[at_max] == b.max);
                    assert forall|i: int| 0 <= i < more.len() && finite(
                        #[trigger] more[i],
                    ) implies rank(w.min) <= rank(more[i]) && rank(more[i]) <= rank(w.max) by {
                        if i < seen.len() {
                            assert(finite(seen[i]));
                        }
                    }
                },
            }
        },
    }
}

fn widen(bounds: Option<Bounds>, bits: u64) -> (r: Option<Bounds>)
    ensures
        r == widened(bounds, bits),
{
    if !is_finite(bits) {
        bounds
    } else {
        match bounds {
            None => Some(Bounds { min: bits, max: bits }),
            Some(b) => Some(
                Bounds {
                    min: if precedes(b.min, bits) {
                        b.min
                    } else {
                        bits
                    },
                    max: if precedes(bits, b.max) {
                        b.max
                    } else {
                        bits
                    },
                },
            ),
        }
    }
}

/// The least and the greatest finite sample of `values` in the total order of
/// binary64, or `None` where no sample is finite.
pub fn finite_bounds(values: &Vec<u64>) -> (r: Option<Bounds>)
    ensures
        bounds_of(values@, r),
        r is Some <==> any_finite(values@),
{
    let mut bounds: Option<Bounds> = None;
    for i in 0..values.len()
        invariant
            bounds_of(values@.take(i as int), bounds),
    {
        proof {
            lemma_widened(values@.take(i as int), bounds, values@[i as int]);
            assert(values@.take(i as int).push(values@[i as int]) =~= values@.take(i + 1));
        }
        bounds = widen(bounds, values[i]);
    }
    assert(values@.take(values.len() as int) =~= values@);
    proof {
        lemma_some_iff_any_finite(values@, bounds);
    }
    bounds
}

/// Bounds are present exactly where a sample is finite.
pub proof fn lemma_some_iff_any_finite(values: Seq<u64>, bounds: Option<Bounds>)
    requires
        bounds_of(values, bounds),
    ensures
        bounds is Some <==> any_finite(values),
{
    if let Some(b) = bounds {
        let i = values.index_of(b.min);
        assert(finite(values[i]));
    }
}

/// The least and the greatest finite sample over all of `series`, or `None`
/// where no sample is finite.
pub fn finite_bounds_of_series(series: &Vec<Vec<u64>>) -> (r: Option<Bounds>)
    ensures
        bounds_of(joined(series@), r),
        r is Some <==> any_finite(joined(series@)),
{
    let mut bounds: Option<Bounds> = None;
    for s in 0..series.len()
        invariant
            bounds_of(joined(series@.take(s as int)), bounds),
    {
        let one = &series[s];
        let ghost before = joined(series@.take(s as int));
        for i in 0..one.len()
            invariant
                bounds_of(before + one@.take(i as int), bounds),
        {
            proof {
                lemma_widened(before + one@.take(i as int), bounds, one@[i as int]);
                assert((before + one@.take(i as int)).push(one@[i as int]) =~= before + one@.take(
                    i + 1,
                ));
            }
            bounds = widen(bounds, one[i]);
        }
        proof {
            assert(one@.take(one.len() as int) =~= one@);
            assert(series@.take(s + 1).map_values(|v: Vec<u64>| v@) =~= series@.take(
                s as int,
            ).map_values(|v: Vec<u64>| v@).push(one@));
            series@.take(s as int).map_values(|v: Vec<u64>| v@).lemma_flatten_push(one@);
            assert(joined(series@.take(s + 1)) =~= before + one@);
        }
    }
    assert(series@.take(series.len() as int) =~= series@);
    proof {
        lemma_some_iff_any_finite(joined(series@), bounds);
    }
    bounds
}

/// A dataset: one x sample per point, and one or more series of y samples
/// that share the x axis.
pub struct Data {
    /// The x samples.
    pub xs: Vec<u64>,
    /// The series of y samples.
    pub ys: Vec<Vec<u64>>,
}

impl Data {
    /// The bounds of the x samples and the bounds of the y samples of all
    /// series. Samples that are not finite are passed over; a dataset with no
    /// finite sample on an axis cannot be plotted.
    pub fn bounds(&self) -> (r: Result<(Bounds, Bounds), ConfigError>)
        ensures
            r is Ok <==> any_finite(self.xs@) && any_finite(joined(self.ys@)),
            match r {
                Ok((x, y)) => bounds_of(self.xs@, Some(x)) && bounds_of(joined(self.ys@), Some(y)),
                Err(ConfigError::NoFiniteX) => !any_finite(self.xs@),
                Err(ConfigError::NoFiniteY) => any_finite(self.xs@) && !any_finite(
                    joined(self.ys@),
                ),
                Err(_) => false,
            },
    {
        let x = match finite_bounds(&self.xs) {
            Some(x) => x,
            None => {
                return Err(ConfigError::NoFiniteX);
            },
        };
        let y = match finite_bounds_of_series(&self.ys) {
            Some(y) => y,
            None => {
                return Err(ConfigError::NoFiniteY);
            },
        };
        Ok((x, y))
    }
}

} // verus!
