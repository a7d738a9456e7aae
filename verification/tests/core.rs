use ray_tracer::color::{assemble_rows, color_bytes, Rgb};
use ray_tracer::math::clamp;
use ray_tracer::ppm::{color_line, decimal_string, ppm_document, ppm_header};
use ray_tracer::utility::{image_format_of, parse_pair, parse_usize, str_eq, ImageFormat};

#[test]
fn clamp_returns_value_inside_range() {
    assert_eq!(clamp(5u32, 0u32, 9u32), 5);
    assert_eq!(clamp(0.5f64, 0.0f64, 0.999f64), 0.5);
}

#[test]
fn clamp_returns_min_below_range() {
    assert_eq!(clamp(-3i64, 0i64, 9i64), 0);
    assert_eq!(clamp(-0.25f64, 0.0f64, 0.999f64), 0.0);
}

#[test]
fn clamp_returns_max_above_range() {
    assert_eq!(clamp(77u8, 0u8, 9u8), 9);
    assert_eq!(clamp(1.0f64, 0.0f64, 0.999f64), 0.999);
}

#[test]
fn parse_usize_reads_plain_number() {
    assert_eq!(parse_usize("400"), Some(400));
    assert_eq!(parse_usize("0"), Some(0));
}

#[test]
fn parse_usize_accepts_leading_plus() {
    assert_eq!(parse_usize("+42"), Some(42));
}

#[test]
fn parse_usize_rejects_empty_and_sign_only() {
    assert_eq!(parse_usize(""), None);
    assert_eq!(parse_usize("+"), None);
}

#[test]
fn parse_usize_rejects_non_digits() {
    assert_eq!(parse_usize("4a2"), None);
    assert_eq!(parse_usize("-7"), None);
    assert_eq!(parse_usize(" 7"), None);
}

#[test]
fn parse_usize_rejects_overflow() {
    assert_eq!(parse_usize("99999999999999999999999999"), None);
}

#[test]
fn parse_pair_splits_at_separator() {
    assert_eq!(parse_pair("800x600", 'x'), Some((800, 600)));
}

#[test]
fn parse_pair_needs_separator() {
    assert_eq!(parse_pair("800600", 'x'), None);
}

#[test]
fn parse_pair_needs_two_numbers() {
    assert_eq!(parse_pair("800x", 'x'), None);
    assert_eq!(parse_pair("x600", 'x'), None);
    assert_eq!(parse_pair("axb", 'x'), None);
}

#[test]
fn str_eq_compares_contents() {
    assert!(str_eq("png", "png"));
    assert!(!str_eq("png", "ppm"));
    assert!(!str_eq("png", "pngs"));
    assert!(str_eq("", ""));
}

#[test]
fn image_format_of_selects_png() {
    match image_format_of("png", 400, "img.png") {
        ImageFormat::PNG { width, filename } => {
            assert_eq!(width, 400);
            assert_eq!(filename, "img.png");
        }
        _ => panic!("expected the png format"),
    }
}

#[test]
fn image_format_of_selects_ppm() {
    match image_format_of("ppm", 256, "out.ppm") {
        ImageFormat::PPM { width, filename } => {
            assert_eq!(width, 256);
            assert_eq!(filename, "out.ppm");
        }
        _ => panic!("expected the ppm format"),
    }
}

#[test]
fn image_format_of_rejects_other_names() {
    assert!(matches!(
        image_format_of("jpeg", 400, "img.jpg"),
        ImageFormat::Unknown
    ));
}

#[test]
fn color_bytes_lays_pixels_out_in_triples() {
    let pixels = vec![Rgb::with_values(1, 2, 3), Rgb::with_values(250, 0, 128)];
    assert_eq!(color_bytes(&pixels), vec![1, 2, 3, 250, 0, 128]);
}

#[test]
fn assemble_rows_is_row_major_top_first() {
    let top = vec![
        Rgb::with_values(1, 1, 1),
        Rgb::with_values(2, 2, 2),
        Rgb::with_values(3, 3, 3),
    ];
    let bottom = vec![
        Rgb::with_values(4, 4, 4),
        Rgb::with_values(5, 5, 5),
        Rgb::with_values(6, 6, 6),
    ];
    let pixels = assemble_rows(&vec![top.clone(), bottom.clone()], 3);
    assert_eq!(pixels.len(), 6);
    assert_eq!(pixels[0], top[0]);
    assert_eq!(pixels[2], top[2]);
    assert_eq!(pixels[3], bottom[0]);
    assert_eq!(pixels[5], bottom[2]);
}

#[test]
fn decimal_string_writes_base_ten() {
    assert_eq!(decimal_string(0), "0");
    assert_eq!(decimal_string(7), "7");
    assert_eq!(decimal_string(10), "10");
    assert_eq!(decimal_string(255), "255");
    assert_eq!(decimal_string(4096), "4096");
}

#[test]
fn decimal_string_parses_back() {
    for n in [0usize, 9, 10, 255, 256, 65535, 123456789] {
        assert_eq!(parse_usize(&decimal_string(n)), Some(n));
    }
}

#[test]
fn color_line_is_three_channels_and_newline() {
    assert_eq!(color_line(&Rgb::with_values(255, 0, 128)), "255 0 128\n");
}

#[test]
fn ppm_header_matches_plain_format() {
    assert_eq!(ppm_header(4, 3), "P3\n4 3\n255\n");
}

#[test]
fn ppm_document_is_header_and_pixel_lines() {
    let pixels = vec![Rgb::with_values(255, 0, 0), Rgb::with_values(0, 255, 0)];
    assert_eq!(ppm_document(2, 1, &pixels), "P3\n2 1\n255\n255 0 0\n0 255 0\n");
}

#[test]
fn ppm_document_of_empty_image_is_header_only() {
    assert_eq!(ppm_document(0, 0, &Vec::new()), "P3\n0 0\n255\n");
}

#[test]
fn color_bytes_of_no_pixels_is_empty() {
    assert_eq!(color_bytes(&Vec::new()), Vec::<u8>::new());
}

#[test]
fn assemble_rows_of_no_rows_is_empty() {
    assert_eq!(assemble_rows(&Vec::new(), 7), Vec::new());
}
