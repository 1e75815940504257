use photomosaic::color::Rgb;
use photomosaic::db::{ThumbnailData, ThumbnailDb};
use photomosaic::grid::{crop_centered, crop_dims, crop_offsets, extract_chunk, grid_dims};
use photomosaic::imaging::{decode_image, get_thumb, rgb_thumb_to_pixels};
use photomosaic::matcher::process_chunk;
use photomosaic::raster::{Image, crop_region, overlay_tile};

fn px(r: u8, g: u8, b: u8) -> Rgb {
    Rgb { r, g, b }
}

/// A w x h image whose pixel at (x, y) encodes its own coordinates.
fn coordinate_image(w: u32, h: u32) -> Image {
    let mut pixels = Vec::new();
    for y in 0..h {
        for x in 0..w {
            pixels.push(px(x as u8, y as u8, 7));
        }
    }
    Image { width: w, height: h, pixels }
}

fn uniform_image(w: u32, h: u32, p: Rgb) -> Image {
    Image { width: w, height: h, pixels: vec![p; (w * h) as usize] }
}

#[test]
fn crop_dims_are_largest_multiples() {
    assert_eq!(crop_dims(100, 100, 32), (96, 96));
    assert_eq!(crop_dims(96, 64, 32), (96, 64));
    assert_eq!(crop_dims(31, 200, 32), (0, 192));
    assert_eq!(crop_dims(7, 5, 1), (7, 5));
}

#[test]
fn crop_offsets_center_the_region() {
    assert_eq!(crop_offsets(100, 100, 96, 96), (2, 2));
    assert_eq!(crop_offsets(101, 100, 96, 96), (2, 2));
    assert_eq!(crop_offsets(96, 96, 96, 96), (0, 0));
}

#[test]
fn crop_centered_trims_symmetrically() {
    let img = coordinate_image(10, 8);
    let cropped = crop_centered(&img, 4).expect("4 fits in 10 x 8");
    assert_eq!((cropped.width, cropped.height), (8, 8));
    // Offset is ((10-8)/2, (8-8)/2) = (1, 0).
    assert_eq!(cropped.pixels[0], px(1, 0, 7));
    assert_eq!(cropped.pixels[7], px(8, 0, 7));
}

#[test]
fn thumbsize_larger_than_image_is_config_error() {
    let img = uniform_image(30, 100, px(0, 0, 0));
    match crop_centered(&img, 32) {
        Err(e) => assert!(e.is_config()),
        Ok(_) => panic!("a 32-pixel grid cannot fit a 30-pixel image"),
    }
}

#[test]
fn crop_region_reads_the_right_pixels() {
    let img = coordinate_image(6, 6);
    let r = crop_region(&img, 2, 3, 3, 2);
    assert_eq!((r.width, r.height), (3, 2));
    for y in 0..2u32 {
        for x in 0..3u32 {
            assert_eq!(r.pixels[(y * 3 + x) as usize], px((x + 2) as u8, (y + 3) as u8, 7));
        }
    }
}

#[test]
fn extract_chunk_reads_its_grid_cell() {
    let img = coordinate_image(8, 8);
    let chunk = extract_chunk(&img, 1, 0, 4);
    assert_eq!((chunk.width, chunk.height), (4, 4));
    assert_eq!(chunk.pixels[0], px(4, 0, 7));
    assert_eq!(chunk.pixels[5], px(5, 1, 7));
}

#[test]
fn overlay_replaces_only_the_tile_rectangle() {
    let mut canvas = uniform_image(4, 4, px(9, 9, 9));
    let tile = uniform_image(2, 2, px(1, 2, 3));
    overlay_tile(&mut canvas, &tile, 1, 1);
    for y in 0..4u32 {
        for x in 0..4u32 {
            let got = canvas.pixels[(y * 4 + x) as usize];
            if (1..3).contains(&x) && (1..3).contains(&y) {
                assert_eq!(got, px(1, 2, 3));
            } else {
                assert_eq!(got, px(9, 9, 9));
            }
        }
    }
}

#[test]
fn new_canvas_is_black() {
    let canvas = Image::new_canvas(3, 2);
    assert_eq!(canvas.pixels.len(), 6);
    assert!(canvas.pixels.iter().all(|p| *p == px(0, 0, 0)));
}

#[test]
fn decode_reads_png_pixels() {
    let mut buf = image::RgbImage::new(2, 1);
    buf.put_pixel(0, 0, image::Rgb([10, 20, 30]));
    buf.put_pixel(1, 0, image::Rgb([200, 150, 100]));
    let mut bytes: Vec<u8> = Vec::new();
    image::DynamicImage::ImageRgb8(buf)
        .write_to(&mut std::io::Cursor::new(&mut bytes), image::ImageFormat::Png)
        .expect("png encoding succeeds");
    let img = decode_image(&bytes).expect("valid png decodes");
    assert_eq!((img.width, img.height), (2, 1));
    assert_eq!(img.pixels, vec![px(10, 20, 30), px(200, 150, 100)]);
}

#[test]
fn decode_rejects_garbage() {
    let bytes = vec![1u8, 2, 3, 4, 5];
    match decode_image(&bytes) {
        Err(e) => assert_eq!(e.message(), "an image could not be decoded"),
        Ok(_) => panic!("garbage bytes are not an image"),
    }
}

#[test]
fn resample_changes_the_sample_count() {
    let img = coordinate_image(2, 2);
    let thumb = get_thumb(&img, 1);
    assert_eq!((thumb.width, thumb.height), (1, 1));
    assert_eq!(thumb.pixels.len(), 1);
}

#[test]
fn resample_of_uniform_image_is_uniform() {
    let img = uniform_image(4, 4, px(255, 0, 0));
    let thumb = get_thumb(&img, 2);
    assert_eq!(thumb.pixels.len(), 4);
    for p in &thumb.pixels {
        assert_eq!(*p, px(255, 0, 0));
    }
}

#[test]
fn thumb_pixels_read_row_major() {
    let img = coordinate_image(3, 2);
    let flat = rgb_thumb_to_pixels(&img);
    assert_eq!(flat, img.pixels);
}

#[test]
fn grid_scenario_nine_chunks() {
    // Chunk size 32 on a 100 x 100 image: cropped to 96 x 96, a 3 x 3 grid,
    // one match per chunk, and a 96*dpr square canvas.
    let dpr = 2u32;
    let img = uniform_image(100, 100, px(50, 60, 70));
    let cropped = crop_centered(&img, 32).expect("32 fits in 100 x 100");
    assert_eq!((cropped.width, cropped.height), (96, 96));
    let (xc, yc) = grid_dims(cropped.width, cropped.height, 32);
    assert_eq!((xc, yc), (3, 3));

    let db = ThumbnailDb {
        thumbs: vec![
            ThumbnailData { path: String::from("dark"), res: 2, colors: vec![px(0, 0, 0); 4] },
            ThumbnailData {
                path: String::from("mid"),
                res: 2,
                colors: vec![px(50, 60, 70); 4],
            },
        ],
    };

    let mut results = Vec::new();
    for gy in 0..yc {
        for gx in 0..xc {
            let chunk = extract_chunk(&cropped, gx, gy, 32);
            let (winner, score) = process_chunk(&chunk, 2, &db);
            results.push((gx, gy, winner, score));
        }
    }
    assert_eq!(results.len(), 9);
    for (_, _, winner, score) in &results {
        assert_eq!(*winner, 1);
        assert_eq!(*score, 0);
    }

    let mut canvas = Image::new_canvas(cropped.width * dpr, cropped.height * dpr);
    assert_eq!((canvas.width, canvas.height), (192, 192));
    let tile = uniform_image(32 * dpr, 32 * dpr, px(50, 60, 70));
    for (gx, gy, _, _) in &results {
        overlay_tile(&mut canvas, &tile, gx * 32 * dpr, gy * 32 * dpr);
    }
    assert!(canvas.pixels.iter().all(|p| *p == px(50, 60, 70)));
}

#[test]
fn match_chunks_covers_the_grid_row_major() {
    let img = uniform_image(8, 4, px(200, 200, 200));
    let db = ThumbnailDb {
        thumbs: vec![
            ThumbnailData { path: String::from("dark"), res: 2, colors: vec![px(0, 0, 0); 4] },
            ThumbnailData {
                path: String::from("light"),
                res: 2,
                colors: vec![px(200, 200, 200); 4],
            },
        ],
    };
    let results = photomosaic::matcher::match_chunks(&img, 4, 2, &db);
    assert_eq!(results.len(), 2);
    assert_eq!((results[0].grid_x, results[0].grid_y), (0, 0));
    assert_eq!((results[1].grid_x, results[1].grid_y), (1, 0));
    for m in &results {
        assert_eq!(m.winner, 1);
        assert_eq!(m.score, 0);
    }
}
