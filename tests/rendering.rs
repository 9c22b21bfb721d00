use mandelbrot::{band_layout, render_band, shade, Band, Escape, ITERATION_LIMIT};

fn spans(bands: &[Band]) -> Vec<(usize, usize, usize, usize)> {
    bands.iter().map(|b| (b.top, b.rows, b.start, b.len)).collect()
}

#[test]
fn shade_maps_escape_to_intensity() {
    assert_eq!(shade(Escape::Bounded), 0);
    assert_eq!(shade(Escape::Escaped(0)), 255);
    assert_eq!(shade(Escape::Escaped(5)), 250);
    assert_eq!(shade(Escape::Escaped(ITERATION_LIMIT - 1)), 1);
}

#[test]
fn band_layout_rounds_band_height_up() {
    let bands = band_layout(3, 10, 4);
    assert_eq!(spans(&bands), vec![(0, 3, 0, 9), (3, 3, 9, 9), (6, 3, 18, 9), (9, 1, 27, 3)]);
}

#[test]
fn band_layout_drops_empty_trailing_bands() {
    let bands = band_layout(2, 3, 8);
    assert_eq!(spans(&bands), vec![(0, 1, 0, 2), (1, 1, 2, 2), (2, 1, 4, 2)]);
}

#[test]
fn band_layout_even_split() {
    let bands = band_layout(5, 16, 8);
    assert_eq!(bands.len(), 8);
    for (k, b) in bands.iter().enumerate() {
        assert_eq!((b.top, b.rows, b.start, b.len), (2 * k, 2, 10 * k, 10));
    }
}

#[test]
fn band_layout_empty_image_and_zero_workers() {
    assert!(band_layout(4, 0, 8).is_empty());
    let one = band_layout(4, 3, 0);
    assert_eq!(spans(&one), vec![(0, 3, 0, 12)]);
}

#[test]
fn band_layout_tiles_every_byte_once() {
    for width in 1..6usize {
        for height in 0..20usize {
            for workers in 0..10usize {
                let bands = band_layout(width, height, workers);
                assert!(bands.len() <= workers.max(1));
                let mut seen = vec![0u32; width * height];
                for b in &bands {
                    assert!(b.rows > 0);
                    for p in b.start..b.start + b.len {
                        seen[p] += 1;
                    }
                }
                assert!(seen.iter().all(|&c| c == 1));
            }
        }
    }
}

fn escape_by_position(column: usize, row: usize) -> Escape {
    if column == row {
        Escape::Bounded
    } else {
        Escape::Escaped((column + 10 * row) as u32)
    }
}

#[test]
fn render_band_fills_row_major() {
    let mut pixels = vec![7u8; 6];
    render_band(&mut pixels, (3, 2), escape_by_position);
    assert_eq!(pixels, vec![0, 254, 253, 245, 0, 243]);
}

#[test]
fn render_band_empty_band() {
    let mut pixels: Vec<u8> = Vec::new();
    render_band(&mut pixels, (4, 0), escape_by_position);
    assert!(pixels.is_empty());
}

#[test]
fn render_is_deterministic_across_runs_and_band_splits() {
    let (width, height) = (7usize, 9usize);
    let mut whole = vec![0u8; width * height];
    render_band(&mut whole, (width, height), escape_by_position);
    let mut again = vec![1u8; width * height];
    render_band(&mut again, (width, height), escape_by_position);
    assert_eq!(whole, again);

    for workers in 1..5usize {
        let mut banded = vec![0u8; width * height];
        for b in band_layout(width, height, workers) {
            let top = b.top;
            render_band(&mut banded[b.start..b.start + b.len], (width, b.rows), move |c: usize, r: usize| {
                escape_by_position(c, r + top)
            });
        }
        assert_eq!(banded, whole);
    }
}
