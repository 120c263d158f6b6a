use dyn_stack::{DynStack, GlobalMemBuffer, SizeOverflow, StackReq};
use faer_core::Parallelism;
use qr_inverse::workspace::{
    in_place_req_from, invert_in_place_req, invert_in_place_req_with, invert_req, invert_req_with,
    out_of_place_req_from, temp_req_with,
};

fn req(size: usize, align: usize) -> StackReq {
    StackReq::new_aligned::<u8>(size, align)
}

fn parts(r: Result<StackReq, SizeOverflow>) -> Option<(usize, usize)> {
    r.ok().map(|q| (q.size_bytes(), q.align_bytes()))
}

#[test]
fn shared_requirement_takes_larger_padded_size() {
    let r = out_of_place_req_from(Ok(req(5, 4)), Ok(req(9, 2)));
    assert_eq!(parts(r), Some((12, 4)));
}

#[test]
fn shared_requirement_is_not_an_argument() {
    let a = req(24, 8);
    let b = req(40, 16);
    let r = out_of_place_req_from(Ok(a), Ok(b)).unwrap();
    assert_eq!((r.size_bytes(), r.align_bytes()), (48, 16));
    assert_ne!(r, a);
    assert_ne!(r, b);
}

#[test]
fn stacked_requirement_adds_padded_sizes() {
    let r = in_place_req_from(Ok(req(5, 4)), Ok(req(9, 2)));
    assert_eq!(parts(r), Some((20, 4)));
}

#[test]
fn stacked_requirement_is_not_an_argument() {
    let a = req(24, 8);
    let b = req(40, 16);
    let r = in_place_req_from(Ok(a), Ok(b)).unwrap();
    assert_eq!((r.size_bytes(), r.align_bytes()), (80, 16));
}

#[test]
fn combinators_pass_errors_on() {
    assert!(out_of_place_req_from(Err(SizeOverflow), Ok(req(1, 1))).is_err());
    assert!(out_of_place_req_from(Ok(req(1, 1)), Err(SizeOverflow)).is_err());
    assert!(in_place_req_from(Err(SizeOverflow), Ok(req(1, 1))).is_err());
    assert!(in_place_req_from(Ok(req(1, 1)), Err(SizeOverflow)).is_err());
}

#[test]
fn combinators_report_overflow() {
    assert!(out_of_place_req_from(Ok(req(usize::MAX, 1)), Ok(req(1, 2))).is_err());
    assert!(in_place_req_from(Ok(req(usize::MAX - 7, 8)), Ok(req(8, 8))).is_err());
    assert_eq!(
        parts(in_place_req_from(Ok(req(usize::MAX - 15, 8)), Ok(req(8, 8)))),
        Some((usize::MAX - 7, 8))
    );
}

#[test]
fn out_of_place_requirement_of_plain_elements() {
    let r = invert_req::<u64>(10, 10, 4, Parallelism::None);
    assert_eq!(parts(r), Some((800, 8)));
    let r = invert_req::<u8>(7, 7, 2, Parallelism::None);
    assert_eq!(parts(r), Some((49, 1)));
    let r = invert_req::<u16>(3, 3, 8, Parallelism::Rayon(0));
    assert_eq!(parts(r), Some((48, 2)));
}

#[test]
fn in_place_requirement_of_plain_elements() {
    let r = invert_in_place_req::<u64>(10, 10, 4, Parallelism::None);
    assert_eq!(parts(r), Some((1600, 8)));
    let r = invert_in_place_req::<u8>(7, 7, 2, Parallelism::None);
    assert_eq!(parts(r), Some((98, 1)));
}

#[test]
fn requirements_match_direct_computation() {
    for n in [31usize, 32, 48, 65] {
        for blocksize in [1usize, 4, 32] {
            let reflector = faer_core::temp_mat_req::<f64>(blocksize, n).unwrap();
            let permutation =
                faer_core::permutation::permute_cols_in_place_req::<f64>(n, n).unwrap();
            let expected = StackReq::try_any_of([reflector, permutation]).unwrap();
            let got = invert_req::<f64>(n, n, blocksize, Parallelism::Rayon(0)).unwrap();
            assert_eq!(got, expected);
            let destination = faer_core::temp_mat_req::<f64>(n, n).unwrap();
            let expected = StackReq::try_all_of([destination, expected]).unwrap();
            let got = invert_in_place_req::<f64>(n, n, blocksize, Parallelism::Rayon(0)).unwrap();
            assert_eq!(got, expected);
        }
    }
}

#[test]
fn requirement_covers_both_temporaries() {
    for n in [0usize, 1, 31, 32, 48, 65] {
        for blocksize in [1usize, 4, 32, 100] {
            let r = invert_req::<f64>(n, n, blocksize, Parallelism::None).unwrap();
            assert!(r.size_bytes() >= 8 * blocksize * n);
            assert!(r.size_bytes() >= 8 * n * n);
            assert!(r.align_bytes() >= 8);
            assert!(r.align_bytes().is_power_of_two());
        }
    }
}

#[test]
fn in_place_requirement_dominates_out_of_place() {
    for n in [0usize, 1, 31, 32, 48, 65] {
        for blocksize in [1usize, 4, 32, 100] {
            let out = invert_req::<f32>(n, n, blocksize, Parallelism::None).unwrap();
            let inp = invert_in_place_req::<f32>(n, n, blocksize, Parallelism::None).unwrap();
            assert!(inp.size_bytes() >= out.size_bytes());
            assert!(inp.align_bytes() >= out.align_bytes());
            assert!(inp.size_bytes() >= out.size_bytes() + 4 * n * n);
        }
    }
}

#[test]
fn region_sized_by_requirement_holds_each_temporary() {
    for n in [1usize, 31, 32, 48, 65] {
        for blocksize in [1usize, 4, 32] {
            let need = invert_req::<f64>(n, n, blocksize, Parallelism::None).unwrap();
            let mut buffer = GlobalMemBuffer::new(need);
            let stack = DynStack::new(&mut buffer);
            assert!(stack.can_hold(faer_core::temp_mat_req::<f64>(blocksize, n).unwrap()));
            assert!(stack.can_hold(faer_core::temp_mat_req::<f64>(n, n).unwrap()));

            let need = invert_in_place_req::<f64>(n, n, blocksize, Parallelism::None).unwrap();
            let mut buffer = GlobalMemBuffer::new(need);
            let stack = DynStack::new(&mut buffer);
            let destination = faer_core::temp_mat_req::<f64>(n, n).unwrap();
            let (_dst, rest) = stack.make_aligned_uninit::<u8>(
                destination.size_bytes(),
                destination.align_bytes(),
            );
            assert!(rest.can_hold(faer_core::temp_mat_req::<f64>(blocksize, n).unwrap()));
            assert!(rest.can_hold(faer_core::temp_mat_req::<f64>(n, n).unwrap()));
        }
    }
}

#[test]
fn oversized_dimensions_are_refused() {
    assert!(invert_req::<u64>(usize::MAX, 1, 1, Parallelism::None).is_err());
    assert!(invert_req::<u64>(1, 1, usize::MAX, Parallelism::None).is_err());
    assert!(invert_req::<u64>(1 << 40, 1 << 40, 1, Parallelism::None).is_err());
    assert!(invert_req::<u64>(1 << 31, 1 << 31, 1, Parallelism::None).is_err());
    assert!(invert_in_place_req::<u64>(usize::MAX, 1, 1, Parallelism::None).is_err());
    assert!(invert_in_place_req::<u64>(1 << 40, 1 << 40, 1, Parallelism::None).is_err());
    assert!(invert_in_place_req::<u32>(1 << 31, 1 << 31, 1, Parallelism::None).is_err());
}

#[test]
fn empty_matrix_needs_nothing() {
    let r = invert_req::<u64>(0, 0, 1, Parallelism::None).unwrap();
    assert_eq!(r.size_bytes(), 0);
    let r = invert_in_place_req::<u64>(0, 0, 1, Parallelism::None).unwrap();
    assert_eq!(r.size_bytes(), 0);
}

#[test]
fn parts_of_no_bytes_do_not_overflow() {
    let r = invert_req::<u8>(0, usize::MAX, 0, Parallelism::None);
    assert_eq!(parts(r), Some((0, 1)));
    let r = invert_in_place_req::<u8>(0, usize::MAX, 0, Parallelism::None);
    assert_eq!(parts(r), Some((0, 1)));
    let r = invert_req::<f64>(0, usize::MAX, 0, Parallelism::None).unwrap();
    assert_eq!(r.size_bytes(), 0);
    let r = invert_in_place_req::<f64>(0, usize::MAX, 0, Parallelism::None).unwrap();
    assert_eq!(r.size_bytes(), 0);
}

#[test]
fn largest_square_of_bytes_has_a_requirement() {
    let n = (1usize << 32) - 1;
    let r = invert_req::<u8>(n, n, 1, Parallelism::None);
    assert_eq!(parts(r), Some((n * n, 1)));
    assert!(invert_in_place_req::<u8>(n, n, 1, Parallelism::None).is_err());
    assert!(invert_req::<u8>(n + 1, n + 1, 1, Parallelism::None).is_err());
    assert!(invert_req::<u16>(n, n, 1, Parallelism::None).is_err());
}

#[test]
fn wide_row_of_bytes_has_a_requirement() {
    let r = invert_req::<u8>(1, 1 << 60, 1, Parallelism::None);
    assert_eq!(parts(r), Some((1 << 60, 1)));
    let r = invert_in_place_req::<u8>(1, 1 << 60, 1, Parallelism::None);
    assert_eq!(parts(r), Some((1 << 61, 1)));
}

#[test]
fn temporary_of_plain_elements_is_not_padded() {
    let r = temp_req_with::<u32>(false, 4, 10, 3);
    assert_eq!(parts(r), Some((120, 4)));
    let r = temp_req_with::<u32>(false, 64, 10, 3);
    assert_eq!(parts(r), Some((120, 64)));
    let r = temp_req_with::<u8>(false, 1, 0, 7);
    assert_eq!(parts(r), Some((0, 1)));
}

#[test]
fn temporary_of_vectorized_elements_pads_its_columns() {
    let r = temp_req_with::<u32>(true, 64, 10, 3);
    assert_eq!(parts(r), Some((192, 64)));
    let r = temp_req_with::<u32>(true, 64, 16, 3);
    assert_eq!(parts(r), Some((192, 64)));
    let r = temp_req_with::<u32>(true, 64, 17, 3);
    assert_eq!(parts(r), Some((384, 64)));
    let r = temp_req_with::<u64>(true, 128, 1, 1);
    assert_eq!(parts(r), Some((128, 128)));
    let r = temp_req_with::<u64>(true, 8, 5, 2);
    assert_eq!(parts(r), Some((80, 8)));
}

#[test]
fn temporary_reports_each_overflow() {
    assert!(temp_req_with::<u32>(true, 64, usize::MAX, 0).is_err());
    assert_eq!(parts(temp_req_with::<u32>(false, 4, usize::MAX, 0)), Some((0, 4)));
    assert!(temp_req_with::<u8>(false, 1, 1 << 32, 1 << 32).is_err());
    assert!(temp_req_with::<u16>(false, 2, 1 << 32, 1 << 31).is_err());
    assert_eq!(
        parts(temp_req_with::<u8>(false, 1, 1 << 32, 1 << 31)),
        Some((1 << 63, 1))
    );
}

#[test]
fn requirements_for_given_answers() {
    let r = invert_req_with::<u32>(true, 64, 10, 3, 4);
    assert_eq!(parts(r), Some((192, 64)));
    let r = invert_req_with::<u32>(false, 4, 10, 3, 4);
    assert_eq!(parts(r), Some((120, 4)));
    let r = invert_req_with::<u32>(false, 4, 2, 3, 4);
    assert_eq!(parts(r), Some((48, 4)));
    let r = invert_in_place_req_with::<u32>(true, 64, 10, 3, 4);
    assert_eq!(parts(r), Some((384, 64)));
    let r = invert_in_place_req_with::<u32>(false, 4, 10, 3, 4);
    assert_eq!(parts(r), Some((240, 4)));
    let r = invert_in_place_req_with::<u32>(false, 4, 2, 3, 4);
    assert_eq!(parts(r), Some((72, 4)));
    assert!(invert_req_with::<u32>(true, 64, usize::MAX, 0, 1).is_err());
    assert!(invert_in_place_req_with::<u16>(false, 2, 1 << 31, 1 << 31, 1).is_err());
}

#[test]
fn requirements_match_direct_computation_for_other_elements() {
    for n in [0usize, 1, 7, 31, 32, 48, 65] {
        for blocksize in [1usize, 3, 16] {
            let a = faer_core::temp_mat_req::<f32>(blocksize, n).unwrap();
            let b = faer_core::temp_mat_req::<f32>(n, n).unwrap();
            let expected = StackReq::try_any_of([a, b]).unwrap();
            assert_eq!(invert_req::<f32>(n, n, blocksize, Parallelism::None).unwrap(), expected);
            let a = faer_core::temp_mat_req::<faer_core::c64>(blocksize, n).unwrap();
            let b = faer_core::temp_mat_req::<faer_core::c64>(n, n).unwrap();
            let expected = StackReq::try_any_of([a, b]).unwrap();
            assert_eq!(
                invert_req::<faer_core::c64>(n, n, blocksize, Parallelism::None).unwrap(),
                expected
            );
            let a = faer_core::temp_mat_req::<u16>(blocksize, n).unwrap();
            let b = faer_core::temp_mat_req::<u16>(n, n).unwrap();
            let expected = StackReq::try_any_of([a, b]).unwrap();
            assert_eq!(invert_req::<u16>(n, n, blocksize, Parallelism::None).unwrap(), expected);
            let expected = StackReq::try_all_of([b, expected]).unwrap();
            assert_eq!(
                invert_in_place_req::<u16>(n, n, blocksize, Parallelism::None).unwrap(),
                expected
            );
        }
    }
}

fn direct_out_of_place<T: 'static>(n: usize, blocksize: usize) -> StackReq {
    let reflector = faer_core::temp_mat_req::<T>(blocksize, n).unwrap();
    let permutation = faer_core::permutation::permute_cols_in_place_req::<T>(n, n).unwrap();
    StackReq::try_any_of([reflector, permutation]).unwrap()
}

fn direct_in_place<T: 'static>(n: usize, blocksize: usize) -> StackReq {
    let destination = faer_core::temp_mat_req::<T>(n, n).unwrap();
    StackReq::try_all_of([destination, direct_out_of_place::<T>(n, blocksize)]).unwrap()
}

fn agrees<T: 'static>(n: usize, blocksize: usize) {
    let p = Parallelism::None;
    assert_eq!(invert_req::<T>(n, n, blocksize, p).unwrap(), direct_out_of_place::<T>(n, blocksize));
    assert_eq!(
        invert_in_place_req::<T>(n, n, blocksize, p).unwrap(),
        direct_in_place::<T>(n, blocksize)
    );
}

#[test]
fn every_element_type_agrees_with_direct_computation() {
    for n in [0usize, 1, 5, 31, 32, 33, 65] {
        for blocksize in [1usize, 2, 4, 7, 32] {
            agrees::<f32>(n, blocksize);
            agrees::<f64>(n, blocksize);
            agrees::<faer_core::c32>(n, blocksize);
            agrees::<faer_core::c64>(n, blocksize);
            agrees::<u8>(n, blocksize);
            agrees::<u32>(n, blocksize);
            agrees::<u64>(n, blocksize);
            agrees::<u128>(n, blocksize);
            agrees::<(u8, u16)>(n, blocksize);
            agrees::<()>(n, blocksize);
        }
    }
}

#[test]
fn plain_elements_of_vector_size_are_not_padded() {
    let r = invert_req::<u32>(5, 5, 2, Parallelism::None);
    assert_eq!(parts(r), Some((100, 4)));
    let r = invert_req::<u128>(3, 3, 1, Parallelism::None).unwrap();
    assert_eq!(r.size_bytes(), 144);
    assert_eq!(r.align_bytes(), core::mem::align_of::<u128>());
    let r = invert_in_place_req::<u32>(5, 5, 2, Parallelism::None);
    assert_eq!(parts(r), Some((200, 4)));
}

#[test]
fn vectorized_elements_are_padded_to_the_cache_line() {
    let line = faer_core::align_for::<f64>();
    assert!([32usize, 64, 128, 256].contains(&line));
    let unit = line / 8;
    let stride = (5 + unit - 1) / unit * unit;
    let r = invert_req::<f64>(5, 5, 2, Parallelism::None);
    assert_eq!(parts(r), Some((8 * stride * 5, line)));
    let r = invert_in_place_req::<f64>(5, 5, 2, Parallelism::None);
    assert_eq!(parts(r), Some((2 * 8 * stride * 5, line)));
}

#[test]
fn requirement_is_the_larger_of_its_two_parts() {
    for (n, blocksize) in [(3usize, 40usize), (40, 3), (17, 17), (1, 64)] {
        let a = faer_core::temp_mat_req::<f32>(blocksize, n).unwrap();
        let b = faer_core::temp_mat_req::<f32>(n, n).unwrap();
        let r = invert_req::<f32>(n, n, blocksize, Parallelism::None).unwrap();
        assert_eq!(r.size_bytes(), a.size_bytes().max(b.size_bytes()));
        assert_eq!(r.align_bytes(), a.align_bytes().max(b.align_bytes()));
        let s = invert_in_place_req::<f32>(n, n, blocksize, Parallelism::None).unwrap();
        assert_eq!(s.size_bytes(), b.size_bytes() + r.size_bytes());
    }
}

#[test]
fn requirement_grows_with_the_block_size() {
    for n in [1usize, 9, 33] {
        let mut last = 0usize;
        for blocksize in 1usize..80 {
            let r = invert_req::<f64>(n, n, blocksize, Parallelism::None).unwrap();
            assert!(r.size_bytes() >= last);
            last = r.size_bytes();
        }
    }
}
