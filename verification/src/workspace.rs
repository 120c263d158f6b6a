//! Scratch-memory requirements of the two inversion routines.
//!
//! A requirement is a byte count together with a power-of-two alignment.
//! Temporaries that are never live at the same time share their bytes
//! (`any_of_two`); temporaries that are live together each get their own
//! (`all_of_two`).

use dyn_stack::DynStack;
use dyn_stack::SizeOverflow;
use dyn_stack::StackReq;
use faer_core::Parallelism;
use vstd::arithmetic::power2::is_pow2;
use vstd::layout::align_of;
use vstd::layout::size_of;
use vstd::prelude::*;

verus! {

/// `dyn_stack::StackReq`, a size in bytes and an alignment.
#[verifier::external_type_specification]
#[verifier::external_body]
pub struct ExStackReq(StackReq);

/// `dyn_stack::SizeOverflow`, the error of a size that does not fit in `usize`.
#[verifier::external_type_specification]
#[verifier::external_body]
pub struct ExSizeOverflow(SizeOverflow);

/// `dyn_stack::DynStack`, a scratch region from which temporaries are carved.
#[verifier::external_type_specification]
#[verifier::external_body]
pub struct ExDynStack<'a>(DynStack<'a>);

/// `faer_core::Parallelism`, the execution policy handed on to the kernels.
#[verifier::external_type_specification]
#[verifier::external_body]
pub struct ExParallelism(Parallelism);

/// What `StackReq::size_bytes` returns for a requirement.
pub uninterp spec fn req_size(r: StackReq) -> usize;

/// What `StackReq::align_bytes` returns for a requirement.
pub uninterp spec fn req_align(r: StackReq) -> usize;

/// What `DynStack::len_bytes` returns for a scratch region: the number of
/// bytes in it.
pub uninterp spec fn region_len(stack: DynStack<'_>) -> usize;

/// The mathematical content of a requirement.
pub struct Footprint {
    pub size: nat,
    pub align: nat,
}

/// The footprint that a `StackReq` stands for.
pub open spec fn footprint(r: StackReq) -> Footprint {
    Footprint { size: req_size(r) as nat, align: req_align(r) as nat }
}

/// The least multiple of `a` that is not below `x`.
pub open spec fn round_up(x: nat, a: nat) -> nat {
    if a == 0 {
        x
    } else {
        (((x + a - 1) / (a as int)) * a) as nat
    }
}

/// `x` rounded up to the alignment `a`, unless `x + (a - 1)` leaves `usize`.
pub open spec fn padded(x: nat, a: nat) -> Option<nat> {
    if x + a - 1 <= usize::MAX {
        Some(round_up(x, a))
    } else {
        None
    }
}

/// The larger of two naturals.
pub open spec fn larger(x: nat, y: nat) -> nat {
    if x >= y {
        x
    } else {
        y
    }
}

/// The requirement of nothing at all.
pub open spec fn nothing() -> Footprint {
    Footprint { size: 0, align: 1 }
}

/// Room for `a` or for `b`, one at a time: the larger alignment, and the
/// larger of the two sizes once each is rounded up to it.
pub open spec fn either(a: Footprint, b: Footprint) -> Option<Footprint> {
    let align = larger(a.align, b.align);
    match (padded(a.size, align), padded(b.size, align)) {
        (Some(x), Some(y)) => Some(Footprint { size: larger(x, y), align }),
        _ => None,
    }
}

/// Room for `a` and `b` at once: the larger alignment, and the sum of the
/// two sizes once each is rounded up to it.
pub open spec fn both(a: Footprint, b: Footprint) -> Option<Footprint> {
    let align = larger(a.align, b.align);
    match (padded(a.size, align), padded(b.size, align)) {
        (Some(x), Some(y)) => if x + y <= usize::MAX {
            Some(Footprint { size: x + y, align })
        } else {
            None
        },
        _ => None,
    }
}

/// `either` folded over `[a, b]`, starting from `nothing()`.
pub open spec fn any_of_two(a: Footprint, b: Footprint) -> Option<Footprint> {
    match either(nothing(), a) {
        Some(t) => either(t, b),
        None => None,
    }
}

/// `both` folded over `[a, b]`, starting from `nothing()`.
pub open spec fn all_of_two(a: Footprint, b: Footprint) -> Option<Footprint> {
    match both(nothing(), a) {
        Some(t) => both(t, b),
        None => None,
    }
}

/// Whether `r` reports exactly the outcome `m`: the requirement with that
/// footprint, or the overflow error where there is none.
pub open spec fn reports(r: Result<StackReq, SizeOverflow>, m: Option<Footprint>) -> bool {
    match r {
        Ok(q) => m == Some(footprint(q)),
        Err(_) => m is None,
    }
}

/// Calls `StackReq::try_any_of` on the two requirements. That function folds
/// `try_or` over its items from the empty requirement; each `try_or` takes the
/// larger alignment, rounds both sizes up to it, fails if a rounding leaves
/// `usize`, and keeps the larger size.
#[verifier::external_body]
fn try_any_of(a: StackReq, b: StackReq) -> (r: Result<StackReq, SizeOverflow>)
    ensures
        match r {
            Ok(q) => any_of_two(footprint(a), footprint(b)) == Some(
                (Footprint { size: req_size(q) as nat, align: req_align(q) as nat }),
            ),
            Err(_) => any_of_two(footprint(a), footprint(b)) is None,
        },
{
    StackReq::try_any_of([a, b])
}

/// Calls `StackReq::try_all_of` on the two requirements. That function folds
/// `try_and` over its items from the empty requirement; each `try_and` takes
/// the larger alignment, rounds both sizes up to it, and adds them, failing
/// if a rounding or the sum leaves `usize`.
#[verifier::external_body]
fn try_all_of(a: StackReq, b: StackReq) -> (r: Result<StackReq, SizeOverflow>)
    ensures
        match r {
            Ok(q) => all_of_two(footprint(a), footprint(b)) == Some(
                (Footprint { size: req_size(q) as nat, align: req_align(q) as nat }),
            ),
            Err(_) => all_of_two(footprint(a), footprint(b)) is None,
        },
{
    StackReq::try_all_of([a, b])
}

/// Calls `DynStack::can_hold`, which tells whether the region, from the first
/// address in it that has the requirement's alignment, still has the
/// requirement's bytes. How many bytes the alignment costs depends on where
/// the region lies, so a refusal can come for any requirement. Claimed: it
/// says yes only where the region has at least the requirement's bytes.
#[verifier::external_body]
fn can_hold(stack: &DynStack<'_>, need: StackReq) -> (ok: bool)
    ensures
        ok ==> req_size(need) <= region_len(*stack),
{
    stack.can_hold(need)
}

/// Whether the scratch region can serve a run whose requirement came out as
/// `need`: never where the requirement overflowed, else as the region itself
/// answers, which it does with yes only where it has at least the
/// requirement's bytes.
pub fn scratch_serves(stack: &DynStack<'_>, need: Result<StackReq, SizeOverflow>) -> (ok: bool)
    ensures
        need is Err ==> !ok,
        ok ==> (need matches Ok(q) && req_size(q) <= region_len(*stack)),
{
    match need {
        Ok(q) => can_hold(stack, q),
        Err(_) => false,
    }
}

/// Makes the value of `dyn_stack::SizeOverflow`, a unit struct.
#[verifier::external_body]
fn size_overflow() -> SizeOverflow {
    SizeOverflow
}

/// Whether a region with footprint `f` has the bytes and the alignment for an
/// `nrows` by `ncols` matrix of `T`.
pub open spec fn holds_matrix<T>(f: Footprint, nrows: usize, ncols: usize) -> bool {
    &&& size_of::<T>() * (nrows * ncols) <= f.size
    &&& align_of::<T>() <= f.align
    &&& is_pow2(f.align as int)
}

/// The number of elements to which the column stride of a temporary is
/// rounded up: as many as fill `align` bytes for an element type that is
/// vectorized, and 0, for no rounding, for any other.
pub open spec fn stride_unit(vectorized: bool, align: nat, size: nat) -> nat {
    if vectorized && size > 0 {
        align / size
    } else {
        0
    }
}

/// The column stride of a temporary with `nrows` rows, unless the rounding
/// leaves `usize`.
pub open spec fn column_stride(nrows: nat, unit: nat) -> Option<nat> {
    if unit == 0 {
        Some(nrows)
    } else {
        padded(nrows, unit)
    }
}

/// The requirement of an `nrows` by `ncols` temporary of elements of `size`
/// bytes, kept at the alignment `align`: `ncols` columns of one stride each.
/// There is none where the stride, the element count or the byte count
/// leaves `usize`.
pub open spec fn temp_footprint(
    vectorized: bool,
    align: nat,
    size: nat,
    nrows: nat,
    ncols: nat,
) -> Option<Footprint> {
    match column_stride(nrows, stride_unit(vectorized, align, size)) {
        Some(stride) => if stride * ncols <= usize::MAX && size * (stride * ncols) <= usize::MAX {
            Some(Footprint { size: size * (stride * ncols), align })
        } else {
            None
        },
        None => None,
    }
}

/// The out-of-place requirement: room for the `blocksize` by `ncols`
/// block-reflector temporary or for the `nrows` by `ncols` permutation
/// temporary, one at a time.
pub open spec fn out_of_place_footprint(
    vectorized: bool,
    align: nat,
    size: nat,
    nrows: nat,
    ncols: nat,
    blocksize: nat,
) -> Option<Footprint> {
    match (
        temp_footprint(vectorized, align, size, blocksize, ncols),
        temp_footprint(vectorized, align, size, nrows, ncols),
    ) {
        (Some(a), Some(b)) => any_of_two(a, b),
        _ => None,
    }
}

/// The in-place requirement: room for the `nrows` by `ncols` temporary
/// destination and, at the same time, for the out-of-place requirement.
pub open spec fn in_place_footprint(
    vectorized: bool,
    align: nat,
    size: nat,
    nrows: nat,
    ncols: nat,
    blocksize: nat,
) -> Option<Footprint> {
    match (
        temp_footprint(vectorized, align, size, nrows, ncols),
        out_of_place_footprint(vectorized, align, size, nrows, ncols, blocksize),
    ) {
        (Some(a), Some(b)) => all_of_two(a, b),
        _ => None,
    }
}

/// Whether `align` can be the alignment at which temporaries of `T` are kept.
pub open spec fn aligns<T>(align: nat) -> bool {
    is_pow2(align as int) && align >= align_of::<T>()
}

/// Whether an element of `T` has the size of one that is vectorized: 4, 8 or
/// 16 bytes.
pub open spec fn vector_sized<T>() -> bool {
    size_of::<T>() == 4 || size_of::<T>() == 8 || size_of::<T>() == 16
}

/// Whether `align` can be the alignment at which temporaries of `T` are
/// kept: the type's own, or, for a vectorized type, a cache line of 32, 64,
/// 128 or 256 bytes.
pub open spec fn kept_at<T>(align: nat) -> bool {
    &&& aligns::<T>(align)
    &&& align <= usize::MAX
    &&& align == align_of::<T>() || ((align == 32 || align == 64 || align == 128 || align == 256)
        && vector_sized::<T>())
}

/// Whether temporaries of `T` that are kept at `align` have their columns
/// padded: only a vectorized type is kept at another alignment than its own.
pub open spec fn pads_columns<T>(align: nat) -> bool {
    align != align_of::<T>()
}

/// Calls `faer_core::align_for`, which gives the target's cache-line size for
/// one of the four element types that the kernels vectorize (the real and
/// the complex numbers of 32 and of 64 bits, of 4, 8 or 16 bytes) and the
/// type's own alignment for any other. The cache line is 32, 64, 128 or 256
/// bytes, as the target has it. Claimed: a power of two that is not below
/// the type's alignment, and that is the type's alignment unless the element
/// has 4, 8 or 16 bytes and the result is one of those four.
#[verifier::external_body]
fn align_for<T: 'static>() -> (a: usize)
    ensures
        kept_at::<T>(a as nat),
{
    faer_core::align_for::<T>()
}

/// Calls `StackReq::try_new_aligned`, which asks for `n` elements of `T` at
/// the alignment `align`: the size is `n` times the element's size, or the
/// overflow error where that product leaves `usize`. It panics on an
/// alignment that is no power of two or is below the element's, which the
/// precondition excludes.
#[verifier::external_body]
fn try_new_aligned<T>(n: usize, align: usize) -> (r: Result<StackReq, SizeOverflow>)
    requires
        aligns::<T>(align as nat),
    ensures
        match r {
            Ok(q) => size_of::<T>() * n <= usize::MAX && req_size(q) == size_of::<T>() * n
                && req_align(q) == align,
            Err(_) => size_of::<T>() * n > usize::MAX,
        },
{
    StackReq::try_new_aligned::<T>(n, align)
}

/// A column stride of `nrows` elements, rounded up to a multiple of `unit`
/// where `unit` is not zero.
fn stride_for(nrows: usize, unit: usize) -> (r: Option<usize>)
    ensures
        match r {
            Some(stride) => column_stride(nrows as nat, unit as nat) == Some(stride as nat),
            None => column_stride(nrows as nat, unit as nat) is None,
        },
{
    if unit == 0 {
        return Some(nrows);
    }
    match nrows.checked_add(unit - 1) {
        Some(top) => {
            proof {
                lemma_round_up(nrows as nat, unit as nat);
            }
            Some(top / unit * unit)
        },
        None => None,
    }
}

/// The requirement of an `nrows` by `ncols` temporary of `T`, for an element
/// type that is vectorized or not, as `vectorized` says, and kept at the
/// alignment `align`.
pub fn temp_req_with<T>(vectorized: bool, align: usize, nrows: usize, ncols: usize) -> (r: Result<
    StackReq,
    SizeOverflow,
>)
    requires
        aligns::<T>(align as nat),
    ensures
        reports(r, temp_footprint(vectorized, align as nat, size_of::<T>(), nrows as nat, ncols as nat)),
{
    let size: usize = core::mem::size_of::<T>();
    let unit: usize = if vectorized && size > 0 {
        align / size
    } else {
        0
    };
    match stride_for(nrows, unit) {
        Some(stride) => match stride.checked_mul(ncols) {
            Some(count) => try_new_aligned::<T>(count, align),
            None => Err(size_overflow()),
        },
        None => Err(size_overflow()),
    }
}

/// The requirement of the out-of-place inversion, from the requirements of its
/// two temporaries: the block-reflector scratch and the permutation scratch
/// are never live together, so they share their bytes.
pub fn out_of_place_req_from(
    reflector: Result<StackReq, SizeOverflow>,
    permutation: Result<StackReq, SizeOverflow>,
) -> (r: Result<StackReq, SizeOverflow>)
    ensures
        match (reflector, permutation) {
            (Ok(a), Ok(b)) => reports(r, any_of_two(footprint(a), footprint(b))),
            _ => r is Err,
        },
{
    match reflector {
        Ok(a) => match permutation {
            Ok(b) => try_any_of(a, b),
            Err(e) => Err(e),
        },
        Err(e) => Err(e),
    }
}

/// The requirement of the in-place inversion, from the requirement of its
/// temporary destination and that of the out-of-place run inside it: the
/// destination stays live throughout, so the two are added.
pub fn in_place_req_from(
    destination: Result<StackReq, SizeOverflow>,
    out_of_place: Result<StackReq, SizeOverflow>,
) -> (r: Result<StackReq, SizeOverflow>)
    ensures
        match (destination, out_of_place) {
            (Ok(a), Ok(b)) => reports(r, all_of_two(footprint(a), footprint(b))),
            _ => r is Err,
        },
{
    match destination {
        Ok(a) => match out_of_place {
            Ok(b) => try_all_of(a, b),
            Err(e) => Err(e),
        },
        Err(e) => Err(e),
    }
}

/// The out-of-place requirement for an element type that is vectorized or
/// not, as `vectorized` says, and whose temporaries are kept at `align`.
pub fn invert_req_with<T>(
    vectorized: bool,
    align: usize,
    qr_nrows: usize,
    qr_ncols: usize,
    blocksize: usize,
) -> (r: Result<StackReq, SizeOverflow>)
    requires
        aligns::<T>(align as nat),
    ensures
        reports(
            r,
            out_of_place_footprint(
                vectorized,
                align as nat,
                size_of::<T>(),
                qr_nrows as nat,
                qr_ncols as nat,
                blocksize as nat,
            ),
        ),
{
    let reflector = temp_req_with::<T>(vectorized, align, blocksize, qr_ncols);
    let permutation = temp_req_with::<T>(vectorized, align, qr_nrows, qr_ncols);
    out_of_place_req_from(reflector, permutation)
}

/// The in-place requirement for an element type that is vectorized or not,
/// as `vectorized` says, and whose temporaries are kept at `align`.
pub fn invert_in_place_req_with<T>(
    vectorized: bool,
    align: usize,
    qr_nrows: usize,
    qr_ncols: usize,
    blocksize: usize,
) -> (r: Result<StackReq, SizeOverflow>)
    requires
        aligns::<T>(align as nat),
    ensures
        reports(
            r,
            in_place_footprint(
                vectorized,
                align as nat,
                size_of::<T>(),
                qr_nrows as nat,
                qr_ncols as nat,
                blocksize as nat,
            ),
        ),
{
    let destination = temp_req_with::<T>(vectorized, align, qr_nrows, qr_ncols);
    let out_of_place = invert_req_with::<T>(vectorized, align, qr_nrows, qr_ncols, blocksize);
    in_place_req_from(destination, out_of_place)
}

/// The out-of-place requirement for temporaries of `T` that are kept at
/// `align`.
pub open spec fn out_of_place_at<T>(
    align: nat,
    qr_nrows: usize,
    qr_ncols: usize,
    blocksize: usize,
) -> Option<Footprint> {
    out_of_place_footprint(
        pads_columns::<T>(align),
        align,
        size_of::<T>(),
        qr_nrows as nat,
        qr_ncols as nat,
        blocksize as nat,
    )
}

/// The in-place requirement for temporaries of `T` that are kept at `align`.
pub open spec fn in_place_at<T>(
    align: nat,
    qr_nrows: usize,
    qr_ncols: usize,
    blocksize: usize,
) -> Option<Footprint> {
    in_place_footprint(
        pads_columns::<T>(align),
        align,
        size_of::<T>(),
        qr_nrows as nat,
        qr_ncols as nat,
        blocksize as nat,
    )
}

/// Whether `r` is the out-of-place requirement for these dimensions under
/// some alignment at which temporaries of `T` can be kept.
pub open spec fn is_out_of_place_req<T>(
    r: Result<StackReq, SizeOverflow>,
    qr_nrows: usize,
    qr_ncols: usize,
    blocksize: usize,
) -> bool {
    exists|align: nat|
        kept_at::<T>(align) && reports(
            r,
            #[trigger] out_of_place_at::<T>(align, qr_nrows, qr_ncols, blocksize),
        )
}

/// Whether `r` is the in-place requirement for these dimensions under some
/// alignment at which temporaries of `T` can be kept.
pub open spec fn is_in_place_req<T>(
    r: Result<StackReq, SizeOverflow>,
    qr_nrows: usize,
    qr_ncols: usize,
    blocksize: usize,
) -> bool {
    exists|align: nat|
        kept_at::<T>(align) && reports(
            r,
            #[trigger] in_place_at::<T>(align, qr_nrows, qr_ncols, blocksize),
        )
}

/// Whether the out-of-place requirement for these dimensions exists at every
/// alignment at which temporaries of `T` can be kept.
pub open spec fn out_of_place_req_fits<T>(qr_nrows: usize, qr_ncols: usize, blocksize: usize) -> bool {
    forall|align: nat|
        kept_at::<T>(align) ==> (#[trigger] out_of_place_at::<T>(align, qr_nrows, qr_ncols, blocksize)) is Some
}

/// Whether the in-place requirement for these dimensions exists at every
/// alignment at which temporaries of `T` can be kept.
pub open spec fn in_place_req_fits<T>(qr_nrows: usize, qr_ncols: usize, blocksize: usize) -> bool {
    forall|align: nat|
        kept_at::<T>(align) ==> (#[trigger] in_place_at::<T>(align, qr_nrows, qr_ncols, blocksize)) is Some
}

/// Whether a region of `len` bytes has the bytes of the out-of-place
/// requirement for these dimensions, padding included, at some alignment at
/// which temporaries of `T` can be kept.
pub open spec fn out_of_place_req_within<T>(
    len: nat,
    qr_nrows: usize,
    qr_ncols: usize,
    blocksize: usize,
) -> bool {
    exists|align: nat|
        kept_at::<T>(align) && ((#[trigger] out_of_place_at::<T>(align, qr_nrows, qr_ncols, blocksize)) matches Some(f) && f.size <= len)
}

/// Whether a region of `len` bytes has the bytes of the in-place requirement
/// for these dimensions, padding included, at some alignment at which
/// temporaries of `T` can be kept.
pub open spec fn in_place_req_within<T>(
    len: nat,
    qr_nrows: usize,
    qr_ncols: usize,
    blocksize: usize,
) -> bool {
    exists|align: nat|
        kept_at::<T>(align) && ((#[trigger] in_place_at::<T>(align, qr_nrows, qr_ncols, blocksize)) matches Some(f) && f.size <= len)
}

/// Whether `r` is exactly the larger of the two parts of the out-of-place
/// requirement, the block-reflector temporary and the permutation temporary,
/// at some alignment at which temporaries of `T` can be kept: the overflow
/// error exactly where one of the two parts has no requirement.
pub open spec fn is_larger_of_parts<T>(
    r: Result<StackReq, SizeOverflow>,
    qr_nrows: usize,
    qr_ncols: usize,
    blocksize: usize,
) -> bool {
    exists|align: nat|
        kept_at::<T>(align) && reports(
            r,
            larger_part(
                #[trigger] temp_at::<T>(align, blocksize, qr_ncols),
                temp_at::<T>(align, qr_nrows, qr_ncols),
            ),
        )
}

/// Whether `r` is exactly the sum of the two parts of the in-place
/// requirement, the temporary destination and the out-of-place requirement,
/// at some alignment at which temporaries of `T` can be kept: the overflow
/// error exactly where a part has no requirement or the sum leaves `usize`.
pub open spec fn is_sum_of_parts<T>(
    r: Result<StackReq, SizeOverflow>,
    qr_nrows: usize,
    qr_ncols: usize,
    blocksize: usize,
) -> bool {
    exists|align: nat|
        kept_at::<T>(align) && reports(
            r,
            sum_part(
                temp_at::<T>(align, qr_nrows, qr_ncols),
                #[trigger] out_of_place_at::<T>(align, qr_nrows, qr_ncols, blocksize),
            ),
        )
}

/// The scratch that `invert` needs for a `qr_nrows` by `qr_ncols`
/// factorization with blocks of `blocksize` rows: room for the
/// `blocksize` by `qr_ncols` block-reflector temporary or for the permutation
/// temporary, one at a time. It fails exactly where a column stride, an
/// element count, a byte count or a rounding to the alignment leaves `usize`.
pub fn invert_req<T: 'static>(
    qr_nrows: usize,
    qr_ncols: usize,
    blocksize: usize,
    parallelism: Parallelism,
) -> (r: Result<StackReq, SizeOverflow>)
    ensures
        is_out_of_place_req::<T>(r, qr_nrows, qr_ncols, blocksize),
        is_larger_of_parts::<T>(r, qr_nrows, qr_ncols, blocksize),
        out_of_place_req_fits::<T>(qr_nrows, qr_ncols, blocksize) ==> r is Ok,
        r matches Ok(q) ==> out_of_place_req_within::<T>(req_size(q) as nat, qr_nrows, qr_ncols, blocksize),
        r matches Ok(q) ==> holds_matrix::<T>(footprint(q), blocksize, qr_ncols) && holds_matrix::<T>(
            footprint(q),
            qr_nrows,
            qr_ncols,
        ),
{
    let _ = parallelism;
    let align = align_for::<T>();
    let vectorized = align != core::mem::align_of::<T>();
    let r = invert_req_with::<T>(vectorized, align, qr_nrows, qr_ncols, blocksize);
    proof {
        let m = out_of_place_at::<T>(align as nat, qr_nrows, qr_ncols, blocksize);
        lemma_out_of_place_is_larger_part::<T>(align as nat, qr_nrows, qr_ncols, blocksize);
        assert(kept_at::<T>(align as nat) && vectorized == pads_columns::<T>(align as nat) && reports(
            r,
            m,
        ));
        lemma_out_of_place_footprint(
            vectorized,
            align as nat,
            size_of::<T>(),
            qr_nrows as nat,
            qr_ncols as nat,
            blocksize as nat,
        );
    }
    r
}

/// The scratch that `invert_in_place` needs: room for a `qr_nrows` by
/// `qr_ncols` temporary destination and, at the same time, for what
/// `invert_req` asks. It fails exactly where `invert_req` fails, or the
/// destination or the sum of the two leaves `usize`.
pub fn invert_in_place_req<T: 'static>(
    qr_nrows: usize,
    qr_ncols: usize,
    blocksize: usize,
    parallelism: Parallelism,
) -> (r: Result<StackReq, SizeOverflow>)
    ensures
        is_in_place_req::<T>(r, qr_nrows, qr_ncols, blocksize),
        is_sum_of_parts::<T>(r, qr_nrows, qr_ncols, blocksize),
        in_place_req_fits::<T>(qr_nrows, qr_ncols, blocksize) ==> r is Ok,
        r matches Ok(q) ==> in_place_req_within::<T>(req_size(q) as nat, qr_nrows, qr_ncols, blocksize),
        r matches Ok(q) ==> holds_matrix::<T>(footprint(q), blocksize, qr_ncols) && holds_matrix::<T>(
            footprint(q),
            qr_nrows,
            qr_ncols,
        ) && footprint(q).size >= 2 * (size_of::<T>() * (qr_nrows * qr_ncols)) && footprint(q).size
            >= size_of::<T>() * (qr_nrows * qr_ncols) + size_of::<T>() * (blocksize * qr_ncols),
{
    let _ = parallelism;
    let align = align_for::<T>();
    let vectorized = align != core::mem::align_of::<T>();
    let r = invert_in_place_req_with::<T>(vectorized, align, qr_nrows, qr_ncols, blocksize);
    proof {
        let m = in_place_at::<T>(align as nat, qr_nrows, qr_ncols, blocksize);
        lemma_in_place_is_sum_of_parts::<T>(align as nat, qr_nrows, qr_ncols, blocksize);
        assert(kept_at::<T>(align as nat) && vectorized == pads_columns::<T>(align as nat) && reports(
            r,
            m,
        ));
        lemma_in_place_footprint(
            vectorized,
            align as nat,
            size_of::<T>(),
            qr_nrows as nat,
            qr_ncols as nat,
            blocksize as nat,
        );
    }
    r
}

/// A temporary's requirement has the bytes of its matrix and the alignment
/// it was asked at.
pub proof fn lemma_temp_footprint(vectorized: bool, align: nat, size: nat, nrows: nat, ncols: nat)
    ensures
        temp_footprint(vectorized, align, size, nrows, ncols) matches Some(f) ==> f.align == align
            && size * (nrows * ncols) <= f.size,
{
    let unit = stride_unit(vectorized, align, size);
    if unit > 0 {
        lemma_round_up(nrows, unit);
    }
    if let Some(stride) = column_stride(nrows, unit) {
        assert(size * (nrows * ncols) <= size * (stride * ncols)) by (nonlinear_arith)
            requires
                nrows <= stride,
        ;
    }
}

/// The out-of-place requirement, where it exists, has the bytes of each of
/// its two temporaries and their alignment.
pub proof fn lemma_out_of_place_footprint(
    vectorized: bool,
    align: nat,
    size: nat,
    nrows: nat,
    ncols: nat,
    blocksize: nat,
)
    requires
        is_pow2(align as int),
    ensures
        out_of_place_footprint(vectorized, align, size, nrows, ncols, blocksize) matches Some(r) ==> {
            &&& r.align == align
            &&& size * (blocksize * ncols) <= r.size
            &&& size * (nrows * ncols) <= r.size
        },
{
    lemma_temp_footprint(vectorized, align, size, blocksize, ncols);
    lemma_temp_footprint(vectorized, align, size, nrows, ncols);
    if let (Some(a), Some(b)) = (
        temp_footprint(vectorized, align, size, blocksize, ncols),
        temp_footprint(vectorized, align, size, nrows, ncols),
    ) {
        lemma_any_of_two(a, b);
    }
}

/// The in-place requirement is never below the out-of-place requirement for
/// the same dimensions: where it exists, so does the other, and it has the
/// bytes of the temporary destination and of the out-of-place requirement
/// together, at the same alignment.
pub proof fn lemma_in_place_footprint(
    vectorized: bool,
    align: nat,
    size: nat,
    nrows: nat,
    ncols: nat,
    blocksize: nat,
)
    requires
        is_pow2(align as int),
    ensures
        in_place_footprint(vectorized, align, size, nrows, ncols, blocksize) matches Some(r) ==> {
            &&& r.align == align
            &&& out_of_place_footprint(vectorized, align, size, nrows, ncols, blocksize) matches Some(o)
                && within(o, r) && size * (nrows * ncols) + o.size <= r.size
            &&& size * (nrows * ncols) + size * (blocksize * ncols) <= r.size
            &&& 2 * (size * (nrows * ncols)) <= r.size
        },
{
    lemma_temp_footprint(vectorized, align, size, nrows, ncols);
    lemma_out_of_place_footprint(vectorized, align, size, nrows, ncols, blocksize);
    if let (Some(a), Some(b)) = (
        temp_footprint(vectorized, align, size, nrows, ncols),
        out_of_place_footprint(vectorized, align, size, nrows, ncols, blocksize),
    ) {
        lemma_all_of_two(a, b);
    }
}

/// Rounding up to a positive `a` gives a multiple of `a` that is at least `x`
/// and less than `x + a`.
pub proof fn lemma_round_up(x: nat, a: nat)
    requires
        a > 0,
    ensures
        x <= round_up(x, a) < x + a,
        round_up(x, a) % a == 0,
{
    let q = (x + a - 1) / (a as int);
    assert(q * a <= x + a - 1 < q * a + a && q >= 0 && (q * a) % (a as int) == 0) by (nonlinear_arith)
        requires
            a > 0,
            q == (x + a - 1) / (a as int),
    ;
}

/// The first step of either fold: `nothing()` joined with `a`, one at a time
/// or at once, is `a` with its size rounded up to its own alignment.
pub proof fn lemma_fold_first(a: Footprint)
    requires
        a.align > 0,
    ensures
        either(nothing(), a) == both(nothing(), a),
        either(nothing(), a) matches Some(t) ==> t.align == a.align && t.size == round_up(
            a.size,
            a.align,
        ) && a.size <= t.size,
{
    lemma_round_up(0, a.align);
    lemma_round_up(a.size, a.align);
    vstd::arithmetic::div_mod::lemma_small_mod(round_up(0, a.align), a.align);
    assert(larger(1, a.align) == a.align);
}

/// Room for either of two requirements is room for each: where the shared
/// requirement exists, it is at least as large and as aligned as both.
pub proof fn lemma_any_of_two(a: Footprint, b: Footprint)
    requires
        is_pow2(a.align as int),
        is_pow2(b.align as int),
    ensures
        any_of_two(a, b) matches Some(r) ==> {
            &&& a.size <= r.size
            &&& b.size <= r.size
            &&& r.align == larger(a.align, b.align)
            &&& is_pow2(r.align as int)
        },
{
    lemma_pow2_positive(a.align);
    lemma_pow2_positive(b.align);
    lemma_fold_first(a);
    lemma_round_up(round_up(a.size, a.align), larger(a.align, b.align));
    lemma_round_up(b.size, larger(a.align, b.align));
}

/// Room for two requirements at once is room for each, for their sum, and for
/// either of them alone.
pub proof fn lemma_all_of_two(a: Footprint, b: Footprint)
    requires
        is_pow2(a.align as int),
        is_pow2(b.align as int),
    ensures
        all_of_two(a, b) matches Some(r) ==> {
            &&& a.size + b.size <= r.size
            &&& r.align == larger(a.align, b.align)
            &&& is_pow2(r.align as int)
            &&& any_of_two(a, b) matches Some(e) && e.size <= r.size && e.align == r.align
        },
{
    lemma_pow2_positive(a.align);
    lemma_pow2_positive(b.align);
    lemma_fold_first(a);
    lemma_round_up(round_up(a.size, a.align), larger(a.align, b.align));
    lemma_round_up(b.size, larger(a.align, b.align));
}

/// A power of two is positive.
pub proof fn lemma_pow2_positive(a: nat)
    requires
        is_pow2(a as int),
    ensures
        a > 0,
{
    reveal(is_pow2);
}

/// A multiple of `h` stays one when both are scaled by `c`.
pub proof fn lemma_multiple_scaled(k: nat, h: nat, c: nat)
    requires
        h > 0,
        c > 0,
        k % h == 0,
    ensures
        (c * k) % (c * h) == 0,
{
    let n = k / h;
    vstd::arithmetic::div_mod::lemma_fundamental_div_mod(k as int, h as int);
    assert(c * k == n * (c * h)) by (nonlinear_arith)
        requires
            k == h * n,
    ;
    assert(c * h > 0) by (nonlinear_arith)
        requires
            h > 0,
            c > 0,
    ;
    vstd::arithmetic::div_mod::lemma_mod_multiples_basic(n as int, (c * h) as int);
}

/// A multiple of a multiple of `t` is a multiple of `t`.
pub proof fn lemma_multiple_of_multiple(m: nat, a: nat, t: nat)
    requires
        a > 0,
        t > 0,
        m % a == 0,
        a % t == 0,
    ensures
        m % t == 0,
{
    let c = m / a;
    let e = a / t;
    vstd::arithmetic::div_mod::lemma_fundamental_div_mod(m as int, a as int);
    vstd::arithmetic::div_mod::lemma_fundamental_div_mod(a as int, t as int);
    assert(m == (c * e) * t) by (nonlinear_arith)
        requires
            m == a * c,
            a == t * e,
    ;
    vstd::arithmetic::div_mod::lemma_mod_multiples_basic((c * e) as int, t as int);
}

/// Of two powers of two, the smaller divides the larger.
pub proof fn lemma_pow2_divides(a: nat, b: nat)
    requires
        is_pow2(a as int),
        is_pow2(b as int),
        a <= b,
    ensures
        b % a == 0,
    decreases b,
{
    reveal(is_pow2);
    if a == b {
        assert(b % a == 0) by (nonlinear_arith)
            requires
                a == b,
                a > 0,
        ;
    } else if a == 1 {
    } else {
        let h = a / 2;
        let k = b / 2;
        lemma_pow2_divides(h, k);
        lemma_multiple_scaled(k, h, 2);
    }
}

/// No multiple of `a` that is at least `x` lies below `round_up(x, a)`.
pub proof fn lemma_round_up_least(x: nat, a: nat, m: nat)
    requires
        a > 0,
        m % a == 0,
        x <= m,
    ensures
        round_up(x, a) <= m,
{
    let q = (x + a - 1) / (a as int);
    let k = m / a;
    assert(q * a <= m) by (nonlinear_arith)
        requires
            a > 0,
            q == (x + a - 1) / (a as int),
            k == m / a,
            m % a == 0,
            x <= m,
    ;
}

/// Where a temporary with footprint `need` ends when it is carved at byte
/// `offset` of a region whose start is aligned to `need.align`: the offset is
/// first rounded up to the alignment.
pub open spec fn carve_end(offset: nat, need: Footprint) -> nat {
    round_up(offset, need.align) + need.size
}

/// Whether `need` asks for no more bytes and no more alignment than `have`.
pub open spec fn within(need: Footprint, have: Footprint) -> bool {
    need.size <= have.size && need.align <= have.align
}

/// A region sized and aligned by `any_of_two(a, b)` has room, from its start,
/// for any temporary that asks for no more than `a` or no more than `b`.
pub proof fn lemma_shared_region_carves(a: Footprint, b: Footprint, t: Footprint)
    requires
        is_pow2(a.align as int),
        is_pow2(b.align as int),
        is_pow2(t.align as int),
        any_of_two(a, b) is Some,
        within(t, a) || within(t, b),
    ensures
        carve_end(0, t) <= any_of_two(a, b).unwrap().size,
        any_of_two(a, b).unwrap().align % t.align == 0,
{
    let r = any_of_two(a, b).unwrap();
    lemma_any_of_two(a, b);
    lemma_pow2_positive(t.align);
    lemma_pow2_divides(t.align, r.align);
    lemma_round_up(0, t.align);
    vstd::arithmetic::div_mod::lemma_small_mod(round_up(0, t.align), t.align);
}

/// A region sized and aligned by `all_of_two(d, o)` has room for `d` at its
/// start and, behind it, for any temporary that asks for no more than `o`.
pub proof fn lemma_stacked_region_carves(d: Footprint, o: Footprint, t: Footprint)
    requires
        is_pow2(d.align as int),
        is_pow2(o.align as int),
        is_pow2(t.align as int),
        all_of_two(d, o) is Some,
        within(t, o),
    ensures
        carve_end(0, d) == d.size,
        carve_end(d.size, t) <= all_of_two(d, o).unwrap().size,
        all_of_two(d, o).unwrap().align % d.align == 0,
        all_of_two(d, o).unwrap().align % t.align == 0,
{
    let r = all_of_two(d, o).unwrap();
    let big = larger(d.align, o.align);
    lemma_all_of_two(d, o);
    lemma_pow2_positive(d.align);
    lemma_pow2_positive(o.align);
    lemma_pow2_positive(t.align);
    lemma_pow2_divides(d.align, big);
    lemma_pow2_divides(t.align, big);
    lemma_round_up(0, d.align);
    vstd::arithmetic::div_mod::lemma_small_mod(round_up(0, d.align), d.align);
    lemma_round_up(d.size, d.align);
    let first = round_up(d.size, d.align);
    lemma_round_up(first, big);
    lemma_round_up(o.size, big);
    let padded_first = round_up(first, big);
    assert(r.size == padded_first + round_up(o.size, big));
    lemma_multiple_of_multiple(padded_first, big, t.align);
    lemma_round_up_least(d.size, t.align, padded_first);
}

/// The in-place requirement is never below the out-of-place requirement it
/// is made from, nor below its temporary destination: whenever it exists, it
/// has at least the bytes of both together and the alignment of each.
pub proof fn lemma_in_place_dominates(destination: StackReq, out_of_place: StackReq)
    requires
        is_pow2(req_align(destination) as int),
        is_pow2(req_align(out_of_place) as int),
    ensures
        all_of_two(footprint(destination), footprint(out_of_place)) matches Some(r) ==> {
            &&& within(footprint(out_of_place), r)
            &&& within(footprint(destination), r)
            &&& r.size >= req_size(destination) + req_size(out_of_place)
        },
{
    lemma_all_of_two(footprint(destination), footprint(out_of_place));
}

/// A region made for the out-of-place requirement has room, from its start,
/// for the block-reflector temporary and, once that is released, for the
/// permutation temporary: neither carve reaches past the region's end.
pub proof fn lemma_out_of_place_region_carves(
    vectorized: bool,
    align: nat,
    size: nat,
    nrows: nat,
    ncols: nat,
    blocksize: nat,
)
    requires
        is_pow2(align as int),
        out_of_place_footprint(vectorized, align, size, nrows, ncols, blocksize) is Some,
    ensures
        ({
            let r = out_of_place_footprint(vectorized, align, size, nrows, ncols, blocksize).unwrap();
            &&& temp_footprint(vectorized, align, size, blocksize, ncols) matches Some(a) && carve_end(0, a)
                <= r.size && r.align % a.align == 0
            &&& temp_footprint(vectorized, align, size, nrows, ncols) matches Some(b) && carve_end(0, b)
                <= r.size && r.align % b.align == 0
        }),
{
    let a = temp_footprint(vectorized, align, size, blocksize, ncols).unwrap();
    let b = temp_footprint(vectorized, align, size, nrows, ncols).unwrap();
    lemma_temp_footprint(vectorized, align, size, blocksize, ncols);
    lemma_temp_footprint(vectorized, align, size, nrows, ncols);
    lemma_shared_region_carves(a, b, a);
    lemma_shared_region_carves(a, b, b);
}

/// A region made for the in-place requirement has room for the temporary
/// destination at its start and, behind it, for the block-reflector
/// temporary and, once that is released, for the permutation temporary.
pub proof fn lemma_in_place_region_carves(
    vectorized: bool,
    align: nat,
    size: nat,
    nrows: nat,
    ncols: nat,
    blocksize: nat,
)
    requires
        is_pow2(align as int),
        in_place_footprint(vectorized, align, size, nrows, ncols, blocksize) is Some,
    ensures
        ({
            let r = in_place_footprint(vectorized, align, size, nrows, ncols, blocksize).unwrap();
            &&& temp_footprint(vectorized, align, size, nrows, ncols) matches Some(d) && carve_end(0, d)
                == d.size && r.align % d.align == 0 && carve_end(d.size, d) <= r.size
            &&& temp_footprint(vectorized, align, size, blocksize, ncols) matches Some(a) && carve_end(
                temp_footprint(vectorized, align, size, nrows, ncols).unwrap().size,
                a,
            ) <= r.size && r.align % a.align == 0
        }),
{
    let d = temp_footprint(vectorized, align, size, nrows, ncols).unwrap();
    let o = out_of_place_footprint(vectorized, align, size, nrows, ncols, blocksize).unwrap();
    let a = temp_footprint(vectorized, align, size, blocksize, ncols).unwrap();
    lemma_temp_footprint(vectorized, align, size, blocksize, ncols);
    lemma_temp_footprint(vectorized, align, size, nrows, ncols);
    lemma_any_of_two(a, d);
    lemma_stacked_region_carves(d, o, a);
    lemma_stacked_region_carves(d, o, d);
}

/// The first size that `usize` cannot hold is a power of two.
pub proof fn lemma_limit_is_pow2()
    ensures
        is_pow2(usize::MAX + 1),
{
    vstd::arithmetic::power2::lemma2_to64();
    vstd::arithmetic::power2::is_pow2_equiv(usize::MAX + 1);
    vstd::arithmetic::power::lemma_pow_positive(2, 32);
    vstd::arithmetic::power::lemma_pow_positive(2, 64);
    if usize::MAX == 0xFFFF_FFFF {
        assert(vstd::arithmetic::power2::pow2(32) == usize::MAX + 1);
        assert(vstd::arithmetic::power::pow(2, 32) == usize::MAX + 1);
    } else {
        assert(usize::MAX == 0xFFFF_FFFF_FFFF_FFFF);
        assert(vstd::arithmetic::power2::pow2(64) == usize::MAX + 1);
        assert(vstd::arithmetic::power::pow(2, 64) == usize::MAX + 1);
    }
}

/// A multiple of a power of two that fits in `usize` can be rounded up to it
/// inside `usize`, and the rounding leaves it as it is.
pub proof fn lemma_padded_multiple(x: nat, a: nat)
    requires
        is_pow2(a as int),
        a <= usize::MAX,
        x <= usize::MAX,
        x % a == 0,
    ensures
        padded(x, a) == Some(x),
{
    lemma_pow2_positive(a);
    lemma_limit_is_pow2();
    let limit = (usize::MAX + 1) as nat;
    lemma_pow2_divides(a, limit);
    let i = x / a;
    let j = limit / a;
    vstd::arithmetic::div_mod::lemma_fundamental_div_mod(x as int, a as int);
    vstd::arithmetic::div_mod::lemma_fundamental_div_mod(limit as int, a as int);
    assert(x + a <= limit) by (nonlinear_arith)
        requires
            x == a * i,
            limit == a * j,
            x < limit,
            a > 0,
    ;
    lemma_round_up(x, a);
    lemma_round_up_least(x, a, x);
}

/// The larger of two requirements, part by part, where both exist.
pub open spec fn larger_part(a: Option<Footprint>, b: Option<Footprint>) -> Option<Footprint> {
    match (a, b) {
        (Some(x), Some(y)) => Some(
            (Footprint { size: larger(x.size, y.size), align: larger(x.align, y.align) }),
        ),
        _ => None,
    }
}

/// Two requirements of one alignment whose sizes are multiples of it share
/// exactly the larger of the two sizes, and always have a shared requirement.
pub proof fn lemma_any_of_two_aligned(a: Footprint, b: Footprint)
    requires
        is_pow2(a.align as int),
        a.align == b.align,
        a.align <= usize::MAX,
        a.size <= usize::MAX,
        b.size <= usize::MAX,
        a.size % a.align == 0,
        b.size % a.align == 0,
    ensures
        any_of_two(a, b) == larger_part(Some(a), Some(b)),
{
    lemma_pow2_positive(a.align);
    lemma_fold_first(a);
    lemma_padded_multiple(a.size, a.align);
    lemma_padded_multiple(b.size, a.align);
}

/// The requirement of an `nrows` by `ncols` temporary of `T` that is kept at
/// `align`.
pub open spec fn temp_at<T>(align: nat, nrows: usize, ncols: usize) -> Option<Footprint> {
    temp_footprint(pads_columns::<T>(align), align, size_of::<T>(), nrows as nat, ncols as nat)
}

/// The size of a temporary is a multiple of the alignment that it is kept at.
pub proof fn lemma_temp_is_multiple<T>(align: nat, nrows: usize, ncols: usize)
    requires
        kept_at::<T>(align),
    ensures
        temp_at::<T>(align, nrows, ncols) matches Some(x) ==> x.size % align == 0 && x.size
            <= usize::MAX && x.align == align,
{
    broadcast use vstd::layout::align_properties;

    let size = size_of::<T>();
    lemma_pow2_positive(align);
    if let Some(x) = temp_at::<T>(align, nrows, ncols) {
        let unit = stride_unit(pads_columns::<T>(align), align, size);
        let stride = column_stride(nrows as nat, unit).unwrap();
        let count: nat = stride * (ncols as nat);
        if pads_columns::<T>(align) {
            assert(size * unit == align) by {
                if size == 4 {
                    assert(align / 4 * 4 == align);
                } else if size == 8 {
                    assert(align / 8 * 8 == align);
                } else {
                    assert(align / 16 * 16 == align);
                }
            }
            lemma_round_up(nrows as nat, unit);
            if stride > 0 {
                vstd::arithmetic::div_mod::lemma_mod_multiples_basic(ncols as int, stride as int);
                assert(count == ncols * stride) by (nonlinear_arith)
                    requires
                        count == stride * ncols,
                ;
                lemma_multiple_of_multiple(count, stride, unit);
            } else {
                assert(count == 0) by (nonlinear_arith)
                    requires
                        count == stride * ncols,
                        stride == 0,
                ;
            }
            lemma_multiple_scaled(count, unit, size);
        } else {
            if size > 0 {
                vstd::arithmetic::div_mod::lemma_mod_multiples_basic(count as int, size as int);
                assert(size * count == count * size) by (nonlinear_arith);
                lemma_multiple_of_multiple((size * count) as nat, size, align);
            } else {
                assert(size * count == 0) by (nonlinear_arith)
                    requires
                        size == 0,
                ;
            }
        }
    }
}

/// The out-of-place requirement is exactly the larger of its two parts, the
/// block-reflector temporary and the permutation temporary, and it exists
/// exactly where both parts do.
pub proof fn lemma_out_of_place_is_larger_part<T>(
    align: nat,
    qr_nrows: usize,
    qr_ncols: usize,
    blocksize: usize,
)
    requires
        kept_at::<T>(align),
    ensures
        out_of_place_at::<T>(align, qr_nrows, qr_ncols, blocksize) == larger_part(
            temp_at::<T>(align, blocksize, qr_ncols),
            temp_at::<T>(align, qr_nrows, qr_ncols),
        ),
{
    lemma_temp_is_multiple::<T>(align, blocksize, qr_ncols);
    lemma_temp_is_multiple::<T>(align, qr_nrows, qr_ncols);
    if let (Some(a), Some(b)) = (
        temp_at::<T>(align, blocksize, qr_ncols),
        temp_at::<T>(align, qr_nrows, qr_ncols),
    ) {
        lemma_any_of_two_aligned(a, b);
    }
}

/// The sum of two requirements, where both exist and the sum of their sizes
/// stays inside `usize`.
pub open spec fn sum_part(a: Option<Footprint>, b: Option<Footprint>) -> Option<Footprint> {
    match (a, b) {
        (Some(x), Some(y)) => if x.size + y.size <= usize::MAX {
            Some((Footprint { size: x.size + y.size, align: larger(x.align, y.align) }))
        } else {
            None
        },
        _ => None,
    }
}

/// Two requirements of one alignment whose sizes are multiples of it need,
/// at once, exactly the sum of the two sizes.
pub proof fn lemma_all_of_two_aligned(a: Footprint, b: Footprint)
    requires
        is_pow2(a.align as int),
        a.align == b.align,
        a.align <= usize::MAX,
        a.size <= usize::MAX,
        b.size <= usize::MAX,
        a.size % a.align == 0,
        b.size % a.align == 0,
    ensures
        all_of_two(a, b) == sum_part(Some(a), Some(b)),
{
    lemma_pow2_positive(a.align);
    lemma_fold_first(a);
    lemma_padded_multiple(a.size, a.align);
    lemma_padded_multiple(b.size, a.align);
}

/// The in-place requirement is exactly the sum of its two parts, the
/// temporary destination and the out-of-place requirement.
pub proof fn lemma_in_place_is_sum_of_parts<T>(
    align: nat,
    qr_nrows: usize,
    qr_ncols: usize,
    blocksize: usize,
)
    requires
        kept_at::<T>(align),
    ensures
        in_place_at::<T>(align, qr_nrows, qr_ncols, blocksize) == sum_part(
            temp_at::<T>(align, qr_nrows, qr_ncols),
            out_of_place_at::<T>(align, qr_nrows, qr_ncols, blocksize),
        ),
{
    lemma_temp_is_multiple::<T>(align, blocksize, qr_ncols);
    lemma_temp_is_multiple::<T>(align, qr_nrows, qr_ncols);
    lemma_out_of_place_is_larger_part::<T>(align, qr_nrows, qr_ncols, blocksize);
    if let (Some(a), Some(b)) = (
        temp_at::<T>(align, qr_nrows, qr_ncols),
        out_of_place_at::<T>(align, qr_nrows, qr_ncols, blocksize),
    ) {
        lemma_all_of_two_aligned(a, b);
    }
}

/// The out-of-place requirement does not shrink when the block size grows:
/// where it exists for the larger block size, it exists for the smaller and
/// is no larger there.
pub proof fn lemma_out_of_place_grows_with_blocksize<T>(
    align: nat,
    qr_nrows: usize,
    qr_ncols: usize,
    smaller_block: usize,
    larger_block: usize,
)
    requires
        kept_at::<T>(align),
        smaller_block <= larger_block,
        out_of_place_at::<T>(align, qr_nrows, qr_ncols, larger_block) is Some,
    ensures
        out_of_place_at::<T>(align, qr_nrows, qr_ncols, smaller_block) matches Some(r) && r.size
            <= out_of_place_at::<T>(align, qr_nrows, qr_ncols, larger_block).unwrap().size && r.align
            == align,
{
    lemma_out_of_place_is_larger_part::<T>(align, qr_nrows, qr_ncols, smaller_block);
    lemma_out_of_place_is_larger_part::<T>(align, qr_nrows, qr_ncols, larger_block);
    let size = size_of::<T>();
    let unit = stride_unit(pads_columns::<T>(align), align, size);
    let wide = column_stride(larger_block as nat, unit).unwrap();
    if unit > 0 {
        lemma_round_up(larger_block as nat, unit);
        lemma_round_up_least(smaller_block as nat, unit, wide);
    }
    let narrow = column_stride(smaller_block as nat, unit).unwrap();
    assert(narrow * qr_ncols <= wide * qr_ncols && size * (narrow * qr_ncols) <= size * (wide
        * qr_ncols)) by (nonlinear_arith)
        requires
            narrow <= wide,
    ;
    lemma_temp_footprint(pads_columns::<T>(align), align, size, qr_nrows as nat, qr_ncols as nat);
}

/// The most bytes that an `nrows` by `ncols` temporary of `T` can take: no
/// column is padded by as many as 256 rows.
pub open spec fn padded_bytes<T>(nrows: usize, ncols: usize) -> nat {
    size_of::<T>() * ((nrows + 256) * ncols) as nat
}

/// Whether the padded element count and byte count of an `nrows` by `ncols`
/// temporary of `T` stay inside `usize`.
pub open spec fn padded_fits<T>(nrows: usize, ncols: usize) -> bool {
    &&& nrows + 256 <= usize::MAX
    &&& (nrows + 256) * ncols <= usize::MAX
    &&& padded_bytes::<T>(nrows, ncols) <= usize::MAX
}

/// A temporary whose padded counts stay inside `usize` has a requirement,
/// of no more than its padded byte count.
pub proof fn lemma_temp_fits<T>(align: nat, nrows: usize, ncols: usize)
    requires
        kept_at::<T>(align),
        padded_fits::<T>(nrows, ncols),
    ensures
        temp_at::<T>(align, nrows, ncols) matches Some(x) && x.size <= padded_bytes::<T>(nrows, ncols),
{
    let size = size_of::<T>();
    let unit = stride_unit(pads_columns::<T>(align), align, size);
    if unit > 0 {
        assert(unit <= align) by (nonlinear_arith)
            requires
                unit == align / size,
                size > 0,
        ;
        lemma_round_up(nrows as nat, unit);
    }
    let stride = column_stride(nrows as nat, unit).unwrap();
    assert(stride * ncols <= (nrows + 256) * ncols && size * (stride * ncols) <= size * ((nrows + 256)
        * ncols)) by (nonlinear_arith)
        requires
            stride <= nrows + 256,
    ;
}

/// The out-of-place requirement exists, whatever the element type and the
/// target decide, wherever the padded counts of both its parts stay inside
/// `usize`.
pub proof fn lemma_out_of_place_fits<T>(qr_nrows: usize, qr_ncols: usize, blocksize: usize)
    requires
        padded_fits::<T>(blocksize, qr_ncols),
        padded_fits::<T>(qr_nrows, qr_ncols),
    ensures
        out_of_place_req_fits::<T>(qr_nrows, qr_ncols, blocksize),
{
    assert forall|align: nat| kept_at::<T>(align) implies (#[trigger] out_of_place_at::<T>(
        align,
        qr_nrows,
        qr_ncols,
        blocksize,
    )) is Some by {
        lemma_temp_fits::<T>(align, blocksize, qr_ncols);
        lemma_temp_fits::<T>(align, qr_nrows, qr_ncols);
        lemma_out_of_place_is_larger_part::<T>(align, qr_nrows, qr_ncols, blocksize);
    }
}

/// The in-place requirement exists, whatever the element type and the target
/// decide, wherever the padded counts of its parts stay inside `usize` and so
/// does the sum of the padded byte counts of the destination and of the
/// larger of the two other temporaries.
pub proof fn lemma_in_place_fits<T>(qr_nrows: usize, qr_ncols: usize, blocksize: usize)
    requires
        padded_fits::<T>(blocksize, qr_ncols),
        padded_fits::<T>(qr_nrows, qr_ncols),
        padded_bytes::<T>(qr_nrows, qr_ncols) + larger(
            padded_bytes::<T>(blocksize, qr_ncols),
            padded_bytes::<T>(qr_nrows, qr_ncols),
        ) <= usize::MAX,
    ensures
        in_place_req_fits::<T>(qr_nrows, qr_ncols, blocksize),
{
    assert forall|align: nat| kept_at::<T>(align) implies (#[trigger] in_place_at::<T>(
        align,
        qr_nrows,
        qr_ncols,
        blocksize,
    )) is Some by {
        lemma_temp_fits::<T>(align, blocksize, qr_ncols);
        lemma_temp_fits::<T>(align, qr_nrows, qr_ncols);
        lemma_out_of_place_is_larger_part::<T>(align, qr_nrows, qr_ncols, blocksize);
        lemma_in_place_is_sum_of_parts::<T>(align, qr_nrows, qr_ncols, blocksize);
    }
}

} // verus!
