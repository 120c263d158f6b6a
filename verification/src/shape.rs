//! Which inputs an inversion accepts. A run is refused as a whole, before
//! anything is written, when a shape or the scratch region does not fit.

use crate::workspace::in_place_req_within;
use crate::workspace::invert_in_place_req;
use crate::workspace::invert_req;
use crate::workspace::out_of_place_req_within;
use crate::workspace::region_len;
use crate::workspace::scratch_serves;
use dyn_stack::DynStack;
use faer_core::Parallelism;
use vstd::layout::size_of;
use vstd::prelude::*;

verus! {

/// The row and column counts of a matrix view.
#[derive(Clone, Copy, Debug, PartialEq, Eq, Structural)]
pub struct Shape {
    pub nrows: usize,
    pub ncols: usize,
}

/// Why a run is refused.
#[derive(Clone, Copy, Debug, PartialEq, Eq, Structural)]
pub enum ShapeError {
    /// The factorization is not square.
    NotSquare,
    /// The destination does not have the shape of the factorization.
    DestinationMismatch,
    /// The block-reflector factor has another column count than the
    /// factorization's smaller dimension.
    ReflectorMismatch,
    /// The block-reflector factor has no rows.
    ZeroBlockSize,
    /// The permutation is over another number of indices than the
    /// factorization has rows.
    PermutationMismatch,
    /// The scratch region cannot hold the run's requirement.
    ScratchTooSmall,
}

/// The smaller of two sizes.
pub open spec fn smaller(x: usize, y: usize) -> usize {
    if x <= y {
        x
    } else {
        y
    }
}

/// The first condition that the inputs of an out-of-place run break, in the
/// order in which they are tested, or `None` where they break none.
pub open spec fn first_fault(
    dst: Shape,
    qr_factors: Shape,
    householder_factor: Shape,
    perm_len: usize,
    scratch_holds: bool,
) -> Option<ShapeError> {
    if qr_factors.nrows != qr_factors.ncols {
        Some(ShapeError::NotSquare)
    } else if dst != qr_factors {
        Some(ShapeError::DestinationMismatch)
    } else if householder_factor.ncols != smaller(qr_factors.nrows, qr_factors.ncols) {
        Some(ShapeError::ReflectorMismatch)
    } else if householder_factor.nrows == 0 {
        Some(ShapeError::ZeroBlockSize)
    } else if perm_len != qr_factors.nrows {
        Some(ShapeError::PermutationMismatch)
    } else if !scratch_holds {
        Some(ShapeError::ScratchTooSmall)
    } else {
        None
    }
}

/// Whether an out-of-place run on these inputs is accepted.
pub open spec fn accepted(
    dst: Shape,
    qr_factors: Shape,
    householder_factor: Shape,
    perm_len: usize,
    scratch_holds: bool,
) -> bool {
    &&& qr_factors.nrows == qr_factors.ncols
    &&& dst == qr_factors
    &&& householder_factor.ncols == qr_factors.nrows
    &&& householder_factor.nrows > 0
    &&& perm_len == qr_factors.nrows
    &&& scratch_holds
}

/// Tests the inputs of an out-of-place run: the order `n` of the matrix where
/// the run is accepted, else the first condition that is broken.
/// `scratch_holds` says whether the scratch region can hold what
/// `invert_req` asks for these dimensions.
pub fn check_invert(
    dst: Shape,
    qr_factors: Shape,
    householder_factor: Shape,
    perm_len: usize,
    scratch_holds: bool,
) -> (r: Result<usize, ShapeError>)
    ensures
        r == match first_fault(dst, qr_factors, householder_factor, perm_len, scratch_holds) {
            Some(e) => Err::<usize, ShapeError>(e),
            None => Ok(qr_factors.nrows),
        },
        r is Ok <==> accepted(dst, qr_factors, householder_factor, perm_len, scratch_holds),
{
    let smaller_dim = if qr_factors.nrows <= qr_factors.ncols {
        qr_factors.nrows
    } else {
        qr_factors.ncols
    };
    if qr_factors.nrows != qr_factors.ncols {
        Err(ShapeError::NotSquare)
    } else if dst.nrows != qr_factors.nrows || dst.ncols != qr_factors.ncols {
        Err(ShapeError::DestinationMismatch)
    } else if householder_factor.ncols != smaller_dim {
        Err(ShapeError::ReflectorMismatch)
    } else if householder_factor.nrows == 0 {
        Err(ShapeError::ZeroBlockSize)
    } else if perm_len != qr_factors.nrows {
        Err(ShapeError::PermutationMismatch)
    } else if !scratch_holds {
        Err(ShapeError::ScratchTooSmall)
    } else {
        Ok(qr_factors.nrows)
    }
}

/// Tests the inputs of an in-place run, in which the factorization's own
/// storage is the destination. `scratch_holds` says whether the scratch region
/// can hold what `invert_in_place_req` asks for these dimensions.
pub fn check_invert_in_place(
    qr_factors: Shape,
    householder_factor: Shape,
    perm_len: usize,
    scratch_holds: bool,
) -> (r: Result<usize, ShapeError>)
    ensures
        r == match first_fault(qr_factors, qr_factors, householder_factor, perm_len, scratch_holds) {
            Some(e) => Err::<usize, ShapeError>(e),
            None => Ok(qr_factors.nrows),
        },
        !(r matches Err(ShapeError::DestinationMismatch)),
{
    check_invert(qr_factors, qr_factors, householder_factor, perm_len, scratch_holds)
}

/// Decides whether an out-of-place run on an element type `T` may start:
/// tests the shapes, computes what `invert_req` asks for them, and asks the
/// scratch region whether it can hold that. The shapes alone decide every
/// refusal but the last; a run whose shapes fit is refused only for want of
/// scratch, and is admitted only into a region that has the bytes of each of
/// its temporaries.
pub fn admit_invert<T: 'static>(
    dst: Shape,
    qr_factors: Shape,
    householder_factor: Shape,
    perm_len: usize,
    parallelism: Parallelism,
    stack: &DynStack<'_>,
) -> (r: Result<usize, ShapeError>)
    ensures
        match first_fault(dst, qr_factors, householder_factor, perm_len, true) {
            Some(e) => r == Err::<usize, ShapeError>(e),
            None => r == Ok::<usize, ShapeError>(qr_factors.nrows) || r == Err::<usize, ShapeError>(
                ShapeError::ScratchTooSmall,
            ),
        },
        r is Ok ==> out_of_place_req_within::<T>(
            region_len(*stack) as nat,
            qr_factors.nrows,
            qr_factors.ncols,
            householder_factor.nrows,
        ),
        r is Ok ==> size_of::<T>() * (householder_factor.nrows * qr_factors.ncols) <= region_len(*stack)
            && size_of::<T>() * (qr_factors.nrows * qr_factors.ncols) <= region_len(*stack),
{
    let need = invert_req::<T>(
        qr_factors.nrows,
        qr_factors.ncols,
        householder_factor.nrows,
        parallelism,
    );
    let scratch_holds = scratch_serves(stack, need);
    check_invert(dst, qr_factors, householder_factor, perm_len, scratch_holds)
}

/// Decides whether an in-place run on an element type `T` may start, as
/// `admit_invert` does, with the requirement of `invert_in_place_req`.
pub fn admit_invert_in_place<T: 'static>(
    qr_factors: Shape,
    householder_factor: Shape,
    perm_len: usize,
    parallelism: Parallelism,
    stack: &DynStack<'_>,
) -> (r: Result<usize, ShapeError>)
    ensures
        match first_fault(qr_factors, qr_factors, householder_factor, perm_len, true) {
            Some(e) => r == Err::<usize, ShapeError>(e),
            None => r == Ok::<usize, ShapeError>(qr_factors.nrows) || r == Err::<usize, ShapeError>(
                ShapeError::ScratchTooSmall,
            ),
        },
        r is Ok ==> in_place_req_within::<T>(
            region_len(*stack) as nat,
            qr_factors.nrows,
            qr_factors.ncols,
            householder_factor.nrows,
        ),
        r is Ok ==> 2 * (size_of::<T>() * (qr_factors.nrows * qr_factors.ncols)) <= region_len(*stack)
            && size_of::<T>() * (qr_factors.nrows * qr_factors.ncols) + size_of::<T>() * (
            householder_factor.nrows * qr_factors.ncols) <= region_len(*stack),
{
    let need = invert_in_place_req::<T>(
        qr_factors.nrows,
        qr_factors.ncols,
        householder_factor.nrows,
        parallelism,
    );
    let scratch_holds = scratch_serves(stack, need);
    check_invert_in_place(qr_factors, householder_factor, perm_len, scratch_holds)
}

} // verus!
