use mandelbrot::band::BandPlan;
use mandelbrot::cpu::{render, render_band};
use mandelbrot::escape::{escape_time, EscapeResult};
use mandelbrot::pixel::{pack_escape, pack_gray};
use mandelbrot::resolution::Resolution;
use num::Complex;
use std::cell::RefCell;

fn sentinel(width: u32) -> impl Fn(u32, u32) -> EscapeResult {
    move |col: u32, row: u32| EscapeResult::Diverged((row * width + col) as u8)
}

fn view_shade(
    upper_left: Complex<f32>,
    view: (f32, f32),
    res: Resolution,
) -> impl Fn(u32, u32) -> EscapeResult {
    move |col: u32, row: u32| {
        let c = Complex::new(
            upper_left.re + (col as f32 * view.0 / res.width as f32),
            upper_left.im - (row as f32 * view.1 / res.height as f32),
        );
        escape_time(
            Complex::<f32>::default(),
            256,
            |z: Complex<f32>| z.norm_sqr() >= 4.0,
            |z: Complex<f32>| z * z + c,
        )
    }
}

fn render_in_pieces(
    pixels: &mut [u32],
    res: &Resolution,
    workers: usize,
    shade: &impl Fn(u32, u32) -> EscapeResult,
) {
    let plan = BandPlan::new(res, workers);
    for (band, piece) in pixels.chunks_mut(plan.band_len()).enumerate() {
        render_band(piece, plan.start_row(band as u32), plan.width, shade);
    }
}

#[test]
fn render_band_writes_at_the_place_within_the_band() {
    let mut band: Vec<u32> = vec![0xffff_ffff; 12];
    let shade = |col: u32, row: u32| EscapeResult::Diverged((10 * row + col) as u8);
    render_band(&mut band, 5, 4, &shade);
    let expected: Vec<u32> = vec![50, 51, 52, 53, 60, 61, 62, 63, 70, 71, 72, 73]
        .into_iter()
        .map(pack_gray)
        .collect();
    assert_eq!(band, expected);
}

#[test]
fn render_band_packs_bounded_as_black() {
    let mut band: Vec<u32> = vec![0xffff_ffff; 6];
    let shade = |col: u32, _row: u32| {
        if col == 1 {
            EscapeResult::Bounded
        } else {
            EscapeResult::Diverged(3)
        }
    };
    render_band(&mut band, 0, 3, &shade);
    assert_eq!(band, vec![0x0003_0303, 0, 0x0003_0303, 0x0003_0303, 0, 0x0003_0303]);
}

#[test]
fn render_band_of_no_rows() {
    let mut band: Vec<u32> = Vec::new();
    let shade = |_col: u32, _row: u32| EscapeResult::Bounded;
    render_band(&mut band, 17, 4, &shade);
    assert!(band.is_empty());
}

#[test]
fn render_asks_for_each_pixel_once() {
    let asked: RefCell<Vec<(u32, u32)>> = RefCell::new(Vec::new());
    let shade = |col: u32, row: u32| {
        asked.borrow_mut().push((col, row));
        EscapeResult::Bounded
    };
    let res = Resolution::new(3, 101).unwrap();
    let mut pixels: Vec<u32> = vec![1; 303];
    render(&mut pixels, &res, 2, &shade);
    let mut asked = asked.into_inner();
    asked.sort();
    let mut every: Vec<(u32, u32)> = Vec::new();
    for col in 0..3u32 {
        for row in 0..101u32 {
            every.push((col, row));
        }
    }
    assert_eq!(asked, every);
    assert!(pixels.iter().all(|&pixel| pixel == 0));
}

#[test]
fn render_covers_every_pixel_with_its_own_sentinel() {
    let res = Resolution::new(2, 120).unwrap();
    for workers in [1usize, 2, 3, 8] {
        let mut pixels: Vec<u32> = vec![0xffff_ffff; 240];
        render(&mut pixels, &res, workers, &sentinel(2));
        for row in 0..120u32 {
            for col in 0..2u32 {
                let at = (row * 2 + col) as usize;
                assert_eq!(pixels[at], pack_gray(at as u8));
            }
        }
    }
}

#[test]
fn render_in_pieces_covers_every_pixel_with_its_own_sentinel() {
    let res = Resolution::new(2, 120).unwrap();
    for workers in [1usize, 2, 3, 8] {
        let mut pixels: Vec<u32> = vec![0xffff_ffff; 240];
        render_in_pieces(&mut pixels, &res, workers, &sentinel(2));
        for at in 0..240usize {
            assert_eq!(pixels[at], pack_gray(at as u8));
        }
    }
}

#[test]
fn render_is_the_same_for_one_and_eight_workers() {
    let res = Resolution::new(64, 500).unwrap();
    let shade = view_shade(Complex::new(-2.0, 1.2), (3.0, 2.4), res);
    let mut one: Vec<u32> = vec![0; res.pixel_count().unwrap()];
    let mut eight: Vec<u32> = vec![0; res.pixel_count().unwrap()];
    render(&mut one, &res, 1, &shade);
    render(&mut eight, &res, 8, &shade);
    assert_eq!(BandPlan::new(&res, 1).band_count(), 1);
    assert_eq!(BandPlan::new(&res, 8).band_count(), 9);
    assert_eq!(one, eight);
    let mut pieces_one: Vec<u32> = vec![0; res.pixel_count().unwrap()];
    let mut pieces_eight: Vec<u32> = vec![0; res.pixel_count().unwrap()];
    render_in_pieces(&mut pieces_one, &res, 1, &shade);
    render_in_pieces(&mut pieces_eight, &res, 8, &shade);
    assert_eq!(pieces_one, one);
    assert_eq!(pieces_eight, one);
    assert!(one.iter().any(|&pixel| pixel == 0));
    assert!(one.iter().any(|&pixel| pixel != 0));
}

#[test]
fn render_twice_gives_the_same_buffer() {
    let res = Resolution::new(40, 60).unwrap();
    let shade = view_shade(Complex::new(-2.0, 1.5), (3.0, 3.0), res);
    let mut first: Vec<u32> = vec![0; 2400];
    let mut second: Vec<u32> = vec![0xffff_ffff; 2400];
    render(&mut first, &res, 4, &shade);
    render(&mut second, &res, 4, &shade);
    assert_eq!(first, second);
}

#[test]
fn render_whole_set_view() {
    let res = Resolution::new(100, 100).unwrap();
    let shade = view_shade(Complex::new(-2.0, 1.5), (3.0, 3.0), res);
    let mut pixels: Vec<u32> = vec![0xffff_ffff; 10_000];
    render(&mut pixels, &res, 4, &shade);
    // The upper-left corner is the point -2 + 1.5i, outside radius two.
    assert_eq!(pixels[0], 0x0001_0101);
    // The centre is the point -0.5, inside the main cardioid.
    assert_eq!(pixels[50 * 100 + 50], 0);
    assert!(pixels.iter().all(|&pixel| pixel >> 24 == 0));
    for (at, &pixel) in pixels.iter().enumerate() {
        let col = (at % 100) as u32;
        let row = (at / 100) as u32;
        assert_eq!(pixel, pack_escape(shade(col, row)));
    }
}

#[test]
fn render_single_pixel_image() {
    let res = Resolution::new(1, 1).unwrap();
    let mut pixels: Vec<u32> = vec![5];
    render(&mut pixels, &res, 8, &|_col: u32, _row: u32| EscapeResult::Diverged(9));
    assert_eq!(pixels, vec![0x0009_0909]);
}
