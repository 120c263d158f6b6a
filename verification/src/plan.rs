//! The order of the numerical steps of an inversion.
//!
//! With `A P = Q R`, the inverse is `P R^-1 Q^H`. The steps build `R^-1 Q^H`
//! in the destination and permute its rows last; the caller performs them one
//! after the other, in the order given here.

use crate::shape::Shape;
use vstd::prelude::*;

verus! {

/// One numerical step of a run.
#[derive(Clone, Copy, Debug, PartialEq, Eq, Structural)]
pub enum Step {
    /// Take a temporary destination of the factorization's shape from the
    /// scratch region.
    CarveDestination,
    /// Write the inverse of the upper triangle of the factorization into the
    /// upper triangle of the destination, without conjugating.
    InvertUpperTriangular,
    /// Set the destination below its diagonal to zero.
    ClearStrictLower,
    /// Multiply the destination on the right by the conjugate transpose of the
    /// orthogonal factor, given as a sequence of block reflectors.
    ApplyReflectorsTransposed,
    /// Permute the rows of the destination by the inverse of the column
    /// permutation.
    PermuteRowsByInverse,
    /// Copy the temporary destination over the factorization's storage.
    CopyBack,
}

/// Where a run writes its result.
#[derive(Clone, Copy, Debug, PartialEq, Eq, Structural)]
pub enum Mode {
    /// Into a destination of the caller's.
    OutOfPlace,
    /// Over the factorization's own storage.
    InPlace,
}

/// The four steps of an out-of-place run, in order.
pub open spec fn out_of_place_steps() -> Seq<Step> {
    seq![
        Step::InvertUpperTriangular,
        Step::ClearStrictLower,
        Step::ApplyReflectorsTransposed,
        Step::PermuteRowsByInverse,
    ]
}

/// The steps of a run, in order. An in-place run is an out-of-place run into
/// a temporary destination, copied back at the end.
pub open spec fn steps(mode: Mode) -> Seq<Step> {
    match mode {
        Mode::OutOfPlace => out_of_place_steps(),
        Mode::InPlace => seq![Step::CarveDestination] + out_of_place_steps() + seq![Step::CopyBack],
    }
}

/// The step to perform once `done` steps of the run have been performed, or
/// `None` once the run is complete.
pub fn next_step(mode: Mode, done: usize) -> (s: Option<Step>)
    ensures
        s == if done < steps(mode).len() {
            Some(steps(mode)[done as int])
        } else {
            None
        },
        mode == Mode::OutOfPlace ==> (s is Some <==> done < 4),
        mode == Mode::InPlace ==> (s is Some <==> done < 6),
{
    let inner: usize = match mode {
        Mode::OutOfPlace => done,
        Mode::InPlace => {
            if done == 0 {
                return Some(Step::CarveDestination);
            }
            if done == 5 {
                return Some(Step::CopyBack);
            }
            done - 1
        },
    };
    if inner == 0 {
        Some(Step::InvertUpperTriangular)
    } else if inner == 1 {
        Some(Step::ClearStrictLower)
    } else if inner == 2 {
        Some(Step::ApplyReflectorsTransposed)
    } else if inner == 3 {
        Some(Step::PermuteRowsByInverse)
    } else {
        None
    }
}

/// The shape of the temporary that a step takes from the scratch region.
pub open spec fn temporary_of(step: Step, n: usize, blocksize: usize) -> Option<Shape> {
    match step {
        Step::CarveDestination => Some(Shape { nrows: n, ncols: n }),
        Step::ApplyReflectorsTransposed => Some(Shape { nrows: blocksize, ncols: n }),
        Step::PermuteRowsByInverse => Some(Shape { nrows: n, ncols: n }),
        _ => None,
    }
}

/// The shape of the temporary that `step` takes from the scratch region for a
/// matrix of order `n` with blocks of `blocksize` rows, if it takes one. The
/// temporary of `CarveDestination` stays live until the run ends; the others
/// are released when their step ends.
pub fn step_temporary(step: Step, n: usize, blocksize: usize) -> (t: Option<Shape>)
    ensures
        t == temporary_of(step, n, blocksize),
{
    match step {
        Step::CarveDestination => Some(Shape { nrows: n, ncols: n }),
        Step::ApplyReflectorsTransposed => Some(Shape { nrows: blocksize, ncols: n }),
        Step::PermuteRowsByInverse => Some(Shape { nrows: n, ncols: n }),
        _ => None,
    }
}

/// In every run the reflectors are applied after the triangle is inverted and
/// cleared, and the rows are permuted after the reflectors are applied: the
/// four steps stand in this order, next to each other.
pub proof fn lemma_steps_in_order(mode: Mode)
    ensures
        ({
            let s = steps(mode);
            let k: int = if mode == Mode::InPlace { 1 } else { 0 };
            &&& s.len() == 4 + 2 * k
            &&& s.subrange(k, k + 4) == out_of_place_steps()
            &&& s[k] == Step::InvertUpperTriangular
            &&& s[k + 1] == Step::ClearStrictLower
            &&& s[k + 2] == Step::ApplyReflectorsTransposed
            &&& s[k + 3] == Step::PermuteRowsByInverse
            &&& mode == Mode::InPlace ==> s[0] == Step::CarveDestination && s[5] == Step::CopyBack
        }),
{
    let s = steps(mode);
    let k: int = if mode == Mode::InPlace { 1 } else { 0 };
    assert(s.subrange(k, k + 4) =~= out_of_place_steps());
}

} // verus!
