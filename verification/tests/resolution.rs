use mandelbrot::resolution::Resolution;

#[test]
fn resolution_needs_both_axes() {
    assert_eq!(
        Resolution::new(1024, 768),
        Some(Resolution {
            width: 1024,
            height: 768
        })
    );
    assert_eq!(Resolution::new(0, 768), None);
    assert_eq!(Resolution::new(1024, 0), None);
    assert_eq!(Resolution::new(0, 0), None);
    assert!(Resolution::new(1, 1).is_some());
}

#[test]
fn resolution_counts_pixels() {
    let res = Resolution::new(1024, 768).unwrap();
    assert_eq!(res.pixel_count(), Some(786_432));
    let strip = Resolution::new(u32::MAX, 1).unwrap();
    assert_eq!(strip.pixel_count(), Some(u32::MAX as usize));
}

#[test]
fn resolution_pixel_count_of_the_largest_image() {
    let res = Resolution::new(u32::MAX, u32::MAX).unwrap();
    let exact: u128 = (u32::MAX as u128) * (u32::MAX as u128);
    if exact <= usize::MAX as u128 {
        assert_eq!(res.pixel_count(), Some(exact as usize));
    } else {
        assert_eq!(res.pixel_count(), None);
    }
}

#[test]
fn resolution_fits_only_its_own_length() {
    let res = Resolution::new(100, 100).unwrap();
    assert!(res.fits(10_000));
    assert!(!res.fits(9_999));
    assert!(!res.fits(10_001));
    assert!(!res.fits(0));
}
