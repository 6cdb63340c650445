use pathtrace::color::Rgb8;
use pathtrace::ppm::{encode_ppm, ppm_header, push_decimal, push_pixel};
use pathtrace::raster::{pixel_seed, progress_line};

fn text(bytes: &[u8]) -> String {
    String::from_utf8(bytes.to_vec()).unwrap()
}

fn decimal(n: u64) -> String {
    let mut out = Vec::new();
    push_decimal(&mut out, n);
    text(&out)
}

#[test]
fn decimal_digits() {
    assert_eq!(decimal(0), "0");
    assert_eq!(decimal(7), "7");
    assert_eq!(decimal(10), "10");
    assert_eq!(decimal(255), "255");
    assert_eq!(decimal(1000), "1000");
    assert_eq!(decimal(u64::MAX), "18446744073709551615");
}

#[test]
fn decimal_appends() {
    let mut out = b"x=".to_vec();
    push_decimal(&mut out, 42);
    assert_eq!(text(&out), "x=42");
}

#[test]
fn header_of_square_image() {
    assert_eq!(text(&ppm_header(256, 256)), "P3\n256 256\n255\n");
    assert_eq!(text(&ppm_header(600, 337)), "P3\n600 337\n255\n");
}

#[test]
fn pixel_line() {
    let mut out = Vec::new();
    push_pixel(&mut out, Rgb8 { r: 0, g: 255, b: 63 });
    push_pixel(&mut out, Rgb8 { r: 9, g: 10, b: 100 });
    assert_eq!(text(&out), "0 255 63\n9 10 100\n");
}

#[test]
fn encode_two_by_two() {
    let rows = vec![
        vec![Rgb8 { r: 1, g: 2, b: 3 }, Rgb8 { r: 4, g: 5, b: 6 }],
        vec![Rgb8 { r: 7, g: 8, b: 9 }, Rgb8 { r: 10, g: 11, b: 12 }],
    ];
    let out = encode_ppm(2, 2, &rows).unwrap();
    assert_eq!(text(&out), "P3\n2 2\n255\n1 2 3\n4 5 6\n7 8 9\n10 11 12\n");
}

#[test]
fn encode_empty_image() {
    let rows: Vec<Vec<Rgb8>> = Vec::new();
    assert_eq!(text(&encode_ppm(0, 0, &rows).unwrap()), "P3\n0 0\n255\n");
}

#[test]
fn encode_rejects_wrong_row_count() {
    let rows = vec![vec![Rgb8 { r: 0, g: 0, b: 0 }]];
    assert!(encode_ppm(1, 2, &rows).is_none());
}

#[test]
fn encode_rejects_ragged_rows() {
    let rows = vec![
        vec![Rgb8 { r: 0, g: 0, b: 0 }, Rgb8 { r: 0, g: 0, b: 0 }],
        vec![Rgb8 { r: 0, g: 0, b: 0 }],
    ];
    assert!(encode_ppm(2, 2, &rows).is_none());
}

fn ramp_channel(c: f64) -> u8 {
    (255.999 * c) as u8
}

#[test]
fn ramp_image() {
    let (w, h) = (256usize, 256usize);
    let mut rows = Vec::new();
    for j in (0..h).rev() {
        let mut row = Vec::new();
        for i in 0..w {
            let r = i as f64 / (w - 1) as f64;
            let g = j as f64 / (h - 1) as f64;
            row.push(Rgb8 { r: ramp_channel(r), g: ramp_channel(g), b: ramp_channel(0.25) });
        }
        rows.push(row);
    }
    let out = text(&encode_ppm(w, h, &rows).unwrap());
    let lines: Vec<&str> = out.lines().collect();
    assert_eq!(&lines[..3], &["P3", "256 256", "255"]);
    assert_eq!(lines.len(), 3 + w * h);
    // pixel (0, 255): the top-left, first after the header
    assert_eq!(lines[3], "0 255 63");
    // pixel (255, 0): the bottom-right, last of all
    assert_eq!(lines[3 + w * h - 1], "255 0 63");
}

#[test]
fn seeds_are_row_major_indices() {
    assert_eq!(pixel_seed(0, 0, 400), 0);
    assert_eq!(pixel_seed(3, 2, 10), 23);
    assert_eq!(pixel_seed(599, 599, 600), 359_999);
}

#[test]
fn seeds_differ_between_pixels() {
    let w = 7usize;
    let mut seen = std::collections::HashSet::new();
    for j in 0..5 {
        for i in 0..w {
            assert!(seen.insert(pixel_seed(i, j, w)));
        }
    }
    assert_eq!(seen.len(), 35);
}

#[test]
fn seed_at_the_largest_index() {
    let w = 1usize << 32;
    let j = (u64::MAX >> 32) as usize - 1;
    assert_eq!(pixel_seed(w - 1, j, w), u64::MAX - (1u64 << 32));
}

#[test]
fn progress_report() {
    assert_eq!(text(&progress_line(599)), "\rScanlines remaining: 599 ");
    assert_eq!(text(&progress_line(0)), "\rScanlines remaining: 0 ");
}
