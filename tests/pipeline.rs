use circle_raster::color::RGBA;
use circle_raster::config::parse_grid_size;
use circle_raster::error::RasterError;
use circle_raster::grid::{color_matrix, GridSize};
use circle_raster::pipeline::{is_supported_image, render_image_bytes, render_rgba};
use circle_raster::plane::ImagePlane;
use circle_raster::svg::{build_document, rasterize};

fn plane(width: u32, height: u32, pixels: Vec<RGBA>) -> ImagePlane {
    ImagePlane::new(width, height, pixels).unwrap()
}

fn grid(width: u32, height: u32) -> GridSize {
    GridSize { width, height }
}

fn four_colors() -> ImagePlane {
    plane(
        2,
        2,
        vec![
            RGBA(255, 0, 0, 255),
            RGBA(0, 255, 0, 255),
            RGBA(0, 0, 255, 255),
            RGBA(255, 255, 255, 255),
        ],
    )
}

fn png_bytes(width: u32, height: u32, raw: Vec<u8>) -> Vec<u8> {
    let buf: image::RgbaImage = image::ImageBuffer::from_raw(width, height, raw).unwrap();
    let mut out = std::io::Cursor::new(Vec::new());
    buf.write_to(&mut out, image::ImageFormat::Png).unwrap();
    out.into_inner()
}

fn jpeg_bytes(width: u32, height: u32, raw: Vec<u8>) -> Vec<u8> {
    let buf: image::RgbImage = image::ImageBuffer::from_raw(width, height, raw).unwrap();
    let mut out = std::io::Cursor::new(Vec::new());
    buf.write_to(&mut out, image::ImageFormat::Jpeg).unwrap();
    out.into_inner()
}

fn count_circles(svg: &str) -> usize {
    svg.matches("<circle ").count()
}

#[test]
fn four_pixel_example_averages_down() {
    let m = color_matrix(&four_colors(), grid(2, 2));
    assert_eq!(m, vec![vec![RGBA(127, 127, 127, 255)]]);
    let svg = rasterize(&four_colors(), grid(2, 2));
    assert_eq!(
        svg,
        "<svg height=\"2\" width=\"2\" xmlns=\"http://www.w3.org/2000/svg\">\
         <circle r=\"1\" cx=\"1\" cy=\"1\" fill=\"rgba(127, 127, 127, 255)\" />\
         </svg>"
    );
}

#[test]
fn from_vrgb_floors_the_mean() {
    let c = RGBA::from_vrgb(vec![RGBA(1, 2, 3, 4), RGBA(2, 3, 4, 6)]);
    assert_eq!(c, RGBA(1, 2, 3, 5));
    let c = RGBA::from_vrgb(vec![RGBA(255, 255, 0, 10); 1000]);
    assert_eq!(c, RGBA(255, 255, 0, 10));
}

#[test]
fn from_vrgb_stays_within_extremes() {
    let c = RGBA::from_vrgb(vec![RGBA(10, 200, 0, 255), RGBA(20, 100, 255, 0), RGBA(15, 150, 9, 7)]);
    assert!(10 <= c.0 && c.0 <= 20);
    assert!(100 <= c.1 && c.1 <= 200);
    assert!(c.2 <= 255);
    assert!(c.3 <= 255);
    assert_eq!(c, RGBA(15, 150, 88, 87));
}

#[test]
fn to_str_uses_raw_alpha() {
    assert_eq!(RGBA(0, 10, 200, 255).to_str(), "rgba(0, 10, 200, 255)");
    assert_eq!(RGBA(0, 0, 0, 0).to_str(), "rgba(0, 0, 0, 0)");
}

#[test]
fn uniform_cells_keep_their_color() {
    let p = RGBA(12, 34, 56, 78);
    let img = plane(4, 4, vec![p; 16]);
    let m = color_matrix(&img, grid(2, 2));
    assert_eq!(m, vec![vec![p, p], vec![p, p]]);
}

#[test]
fn even_grid_counts() {
    let img = plane(6, 4, vec![RGBA(1, 1, 1, 1); 24]);
    let m = color_matrix(&img, grid(3, 2));
    assert_eq!(m.len(), 2);
    assert!(m.iter().all(|row| row.len() == 2));
    let svg = rasterize(&img, grid(3, 2));
    assert_eq!(count_circles(&svg), 4);
}

#[test]
fn truncated_edge_cells_average_in_bounds_pixels() {
    // 3 by 3 image, cells of 2 by 2: the last column and row are cut.
    let mut pixels = Vec::new();
    for y in 0..3u8 {
        for x in 0..3u8 {
            pixels.push(RGBA(x * 10, y * 10, 0, 255));
        }
    }
    let img = plane(3, 3, pixels);
    let m = color_matrix(&img, grid(2, 2));
    assert_eq!(m.len(), 2);
    assert_eq!(m[0].len(), 2);
    assert_eq!(m[1].len(), 2);
    assert_eq!(m[0][0], RGBA(5, 5, 0, 255));
    assert_eq!(m[0][1], RGBA(20, 5, 0, 255));
    assert_eq!(m[1][0], RGBA(5, 20, 0, 255));
    assert_eq!(m[1][1], RGBA(20, 20, 0, 255));
    let svg = rasterize(&img, grid(2, 2));
    assert_eq!(count_circles(&svg), 4);
    assert!(svg.contains("<circle r=\"1\" cx=\"3\" cy=\"3\" fill=\"rgba(20, 20, 0, 255)\" />"));
}

#[test]
fn rendering_is_deterministic() {
    let a = rasterize(&four_colors(), grid(1, 1));
    let b = rasterize(&four_colors(), grid(1, 1));
    assert_eq!(a, b);
}

#[test]
fn odd_cell_width_gives_half_pixel_geometry() {
    let svg = rasterize(&four_colors(), grid(1, 1));
    assert_eq!(count_circles(&svg), 4);
    assert!(svg.contains("<circle r=\"0.5\" cx=\"0.5\" cy=\"0.5\" fill=\"rgba(255, 0, 0, 255)\" />"));
    assert!(svg.contains("<circle r=\"0.5\" cx=\"1.5\" cy=\"1.5\" fill=\"rgba(255, 255, 255, 255)\" />"));
}

#[test]
fn non_square_cells_space_rows_by_cell_width() {
    // Cells 2 wide and 1 high: two rows, centers two pixels apart vertically.
    let svg = rasterize(&four_colors(), grid(2, 1));
    assert_eq!(
        svg,
        "<svg height=\"2\" width=\"2\" xmlns=\"http://www.w3.org/2000/svg\">\
         <circle r=\"1\" cx=\"1\" cy=\"1\" fill=\"rgba(127, 127, 0, 255)\" />\
         <circle r=\"1\" cx=\"1\" cy=\"3\" fill=\"rgba(127, 127, 255, 255)\" />\
         </svg>"
    );
}

#[test]
fn build_document_lays_cells_row_major() {
    let m = vec![vec![RGBA(1, 2, 3, 4), RGBA(5, 6, 7, 8)], vec![RGBA(9, 9, 9, 9)]];
    let doc = build_document(&m, 20, 10, 4);
    assert_eq!(doc.width, 20);
    assert_eq!(doc.height, 10);
    assert_eq!(doc.circles.len(), 3);
    assert_eq!((doc.circles[1].r2, doc.circles[1].cx2, doc.circles[1].cy2), (4, 12, 4));
    assert_eq!((doc.circles[2].cx2, doc.circles[2].cy2), (4, 12));
    assert_eq!(doc.circles[2].fill, RGBA(9, 9, 9, 9));
    assert_eq!(
        doc.to_svg(),
        "<svg height=\"10\" width=\"20\" xmlns=\"http://www.w3.org/2000/svg\">\
         <circle r=\"2\" cx=\"2\" cy=\"2\" fill=\"rgba(1, 2, 3, 4)\" />\
         <circle r=\"2\" cx=\"6\" cy=\"2\" fill=\"rgba(5, 6, 7, 8)\" />\
         <circle r=\"2\" cx=\"2\" cy=\"6\" fill=\"rgba(9, 9, 9, 9)\" />\
         </svg>"
    );
}

#[test]
fn plane_construction_checks_sizes() {
    assert!(ImagePlane::new(2, 2, vec![RGBA(0, 0, 0, 0); 3]).is_none());
    assert!(ImagePlane::new(0, 2, vec![]).is_none());
    let p = ImagePlane::new(2, 1, vec![RGBA(1, 1, 1, 1), RGBA(2, 2, 2, 2)]).unwrap();
    assert_eq!(p.pixel_at(1, 0), RGBA(2, 2, 2, 2));
    assert_eq!((p.width(), p.height()), (2, 1));
    let q = ImagePlane::from_rgba_bytes(1, 2, &[1, 2, 3, 4, 5, 6, 7, 8, 99]).unwrap();
    assert_eq!(q.pixels, vec![RGBA(1, 2, 3, 4), RGBA(5, 6, 7, 8)]);
    assert!(ImagePlane::from_rgba_bytes(1, 2, &[1, 2, 3, 4, 5, 6, 7]).is_none());
}

#[test]
fn grid_size_parses_two_positive_values() {
    assert_eq!(parse_grid_size("12x12"), Ok(grid(12, 12)));
    assert_eq!(parse_grid_size("3x40"), Ok(grid(3, 40)));
    assert_eq!(parse_grid_size("4294967295x1"), Ok(grid(4294967295, 1)));
}

#[test]
fn grid_size_with_zero_is_a_configuration_error() {
    assert_eq!(parse_grid_size("0x5"), Err(RasterError::Configuration));
    assert_eq!(parse_grid_size("5x0"), Err(RasterError::Configuration));
    let bytes = png_bytes(1, 1, vec![1, 2, 3, 4]);
    assert_eq!(render_image_bytes(&bytes, grid(0, 5)), Err(RasterError::Configuration));
}

#[test]
fn malformed_grid_sizes_are_configuration_errors() {
    for s in ["", "12", "x", "12x", "x12", "ax3", "3xb", "12x12x5", "4294967296x1", "-1x2", " 1x2"] {
        assert_eq!(parse_grid_size(s), Err(RasterError::Configuration), "{}", s);
    }
}

#[test]
fn text_input_is_an_unsupported_format() {
    let text = b"just some plain text, not an image\n";
    assert!(!is_supported_image(text));
    assert_eq!(render_image_bytes(text, grid(2, 2)), Err(RasterError::UnsupportedFormat));
    assert_eq!(render_image_bytes(b"short", grid(2, 2)), Err(RasterError::UnsupportedFormat));
}

#[test]
fn corrupt_png_is_a_decode_error() {
    let mut bytes = vec![0x89, b'P', b'N', b'G', b'\r', b'\n', 0x1a, b'\n'];
    bytes.extend_from_slice(&[0u8; 20]);
    assert!(is_supported_image(&bytes));
    assert_eq!(render_image_bytes(&bytes, grid(2, 2)), Err(RasterError::Decode));
}

#[test]
fn png_input_is_decoded_and_rendered() {
    let raw = vec![255, 0, 0, 255, 0, 255, 0, 255, 0, 0, 255, 255, 255, 255, 255, 255];
    let bytes = png_bytes(2, 2, raw);
    assert!(is_supported_image(&bytes));
    let svg = render_image_bytes(&bytes, grid(2, 2)).unwrap();
    assert_eq!(svg, rasterize(&four_colors(), grid(2, 2)));
}

#[test]
fn jpeg_input_is_accepted() {
    let bytes = jpeg_bytes(4, 4, vec![128; 48]);
    assert!(is_supported_image(&bytes));
    let svg = render_image_bytes(&bytes, grid(2, 2)).unwrap();
    assert!(svg.starts_with("<svg height=\"4\" width=\"4\" "));
    assert_eq!(count_circles(&svg), 4);
}

#[test]
fn render_rgba_reports_each_failure() {
    assert_eq!(render_rgba(2, 2, &[0; 16], grid(0, 1)), Err(RasterError::Configuration));
    assert_eq!(render_rgba(2, 2, &[0; 15], grid(1, 1)), Err(RasterError::Decode));
    assert_eq!(render_rgba(0, 2, &[], grid(1, 1)), Err(RasterError::Decode));
    assert_eq!(
        render_rgba(1, 1, &[9, 8, 7, 6], grid(3, 3)).unwrap(),
        "<svg height=\"1\" width=\"1\" xmlns=\"http://www.w3.org/2000/svg\">\
         <circle r=\"1.5\" cx=\"1.5\" cy=\"1.5\" fill=\"rgba(9, 8, 7, 6)\" />\
         </svg>"
    );
}
