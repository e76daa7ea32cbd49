use pdf2other::geometry::compute_pixels;
use pdf2other::pipeline::Conversion;
use pdf2other::pipeline::OutputFormat;
use pdf2other::pipeline::PageBoundsError;
use pdf2other::pipeline::build_output_image;
use pdf2other::pipeline::extension_str;
use pdf2other::pipeline::page_filename;
use pdf2other::pipeline::parse_output_format;
use pdf2other::pixels::normalize;
use pdf2other::range::parse_page_range;

#[test]
fn dpi_72_returns_truncated_point_dimensions() {
    // US Letter: 612 x 792 points, in millipoints.
    assert_eq!(compute_pixels(612_000, 792_000, 72), (612, 792));
    // A fractional point size truncates toward zero.
    assert_eq!(compute_pixels(612_500, 791_999, 72), (612, 791));
}

#[test]
fn dpi_144_doubles_whole_point_dimensions() {
    assert_eq!(compute_pixels(612_000, 792_000, 144), (1224, 1584));
}

#[test]
fn dpi_scales_fractional_sizes_exactly() {
    // 612.5 pt at 480 DPI: 612500 * 480 / 72000 = 4083.33..., truncated.
    assert_eq!(compute_pixels(612_500, 612_500, 480), (4083, 4083));
}

#[test]
fn degenerate_page_yields_zero_pixels() {
    assert_eq!(compute_pixels(0, 500, 480), (0, 3));
}

#[test]
fn format_names_parse_case_insensitively() {
    assert_eq!(parse_output_format("png"), Some(OutputFormat::Png));
    assert_eq!(parse_output_format("PNG"), Some(OutputFormat::Png));
    assert_eq!(parse_output_format("jpeg"), Some(OutputFormat::Jpeg));
    assert_eq!(parse_output_format("JPEG"), Some(OutputFormat::Jpeg));
    assert_eq!(parse_output_format("jpg"), Some(OutputFormat::Jpeg));
    assert_eq!(parse_output_format("JPG"), Some(OutputFormat::Jpeg));
    assert_eq!(parse_output_format("gif"), None);
    assert_eq!(parse_output_format("jpgx"), None);
    assert_eq!(parse_output_format(""), None);
}

#[test]
fn jpg_alias_never_appears_as_extension() {
    assert_eq!(extension_str(parse_output_format("jpg").unwrap()), "jpeg");
    assert_eq!(extension_str(OutputFormat::Jpeg), "jpeg");
    assert_eq!(extension_str(OutputFormat::Png), "png");
}

#[test]
fn filenames_follow_the_stem_page_extension_pattern() {
    assert_eq!(page_filename("doc", 3, OutputFormat::Png), "doc_page_3.png");
    assert_eq!(page_filename("report", 10, OutputFormat::Jpeg), "report_page_10.jpeg");
    assert_eq!(page_filename("a", 407, OutputFormat::Png), "a_page_407.png");
}

#[test]
fn range_within_document_converts_every_requested_page() {
    // A 10-page document and the range "3-4": exactly the two pages
    // are produced, in order, and the run stops after page 4.
    let pages = parse_page_range("3-4").unwrap();
    let mut conv =
        Conversion::new(pages, 10, OutputFormat::Png, 150, String::from("doc")).unwrap();
    let mut names: Vec<String> = Vec::new();
    while let Some(page) = conv.current_page() {
        assert_eq!(conv.current_page_index(), Some(page - 1));
        // A synthetic 2x2 BGRA buffer stands in for the renderer.
        let raw: Vec<u8> = vec![0; 16];
        let out = conv.finish_page(&raw, 2, 2).unwrap();
        assert_eq!(out.page, page);
        names.push(out.filename);
    }
    assert!(conv.is_done());
    assert_eq!(conv.pages_done(), 2);
    assert_eq!(conv.pages_requested(), 2);
    assert_eq!(names, vec!["doc_page_3.png".to_string(), "doc_page_4.png".to_string()]);
}

#[test]
fn range_past_document_end_fails_before_any_page() {
    let pages = parse_page_range("8-12").unwrap();
    let err = Conversion::new(pages, 10, OutputFormat::Png, 150, String::from("doc"))
        .unwrap_err();
    assert_eq!(err, PageBoundsError { max_requested: 12, total_pages: 10 });
}

#[test]
fn jpg_request_produces_jpeg_filenames() {
    let pages = parse_page_range("1-1").unwrap();
    let format = parse_output_format("jpg").unwrap();
    let mut conv = Conversion::new(pages, 10, format, 480, String::from("doc")).unwrap();
    let raw: Vec<u8> = vec![0; 12];
    let out = conv.finish_page(&raw, 2, 2).unwrap();
    assert_eq!(out.filename, "doc_page_1.jpeg");
}

#[test]
fn malformed_buffer_stops_the_run_on_the_failing_page() {
    let pages = parse_page_range("3-4").unwrap();
    let mut conv =
        Conversion::new(pages, 10, OutputFormat::Png, 150, String::from("doc")).unwrap();
    let raw: Vec<u8> = vec![0; 10];
    let err = conv.finish_page(&raw, 2, 2).unwrap_err();
    assert_eq!(err.page, 3);
    assert_eq!(err.error.expected_rgb, 12);
    assert_eq!(err.error.expected_bgra, 16);
    assert_eq!(err.error.actual, 10);
    // The failing page was not consumed: the run still stands on it.
    assert_eq!(conv.pages_done(), 0);
    assert_eq!(conv.current_page(), Some(3));
}

#[test]
fn assembled_image_carries_the_converted_pixels() {
    let raw: Vec<u8> = vec![
        10, 20, 30, 255, // pixel (0,0) as B G R A
        40, 50, 60, 128, // pixel (1,0)
    ];
    let canonical = normalize(&raw, 2, 1).unwrap();
    let img = build_output_image(canonical).inner;
    assert_eq!(img.dimensions(), (2, 1));
    assert_eq!(img.get_pixel(0, 0), &image::Rgb([30u8, 20u8, 10u8]));
    assert_eq!(img.get_pixel(1, 0), &image::Rgb([60u8, 50u8, 40u8]));
}
