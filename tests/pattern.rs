use intarsia::buffer::PixelBuffer;
use intarsia::colour::{colour_distance, min_index, set_closest_colour, Rgb};
use intarsia::err::Error;
use intarsia::grid::add_grid_to_image;
use intarsia::palette::reduce_colours;
use intarsia::pipeline::transform_image;
use intarsia::project::{Image, ImageType, Intarsia};
use intarsia::quantize::quantize;
use intarsia::resample::resample_down_up;

const RED: Rgb = Rgb { r: 255, g: 0, b: 0 };
const BLUE: Rgb = Rgb { r: 0, g: 0, b: 255 };
const BLACK: Rgb = Rgb { r: 0, g: 0, b: 0 };

fn solid(width: u32, height: u32, c: Rgb) -> PixelBuffer {
    let mut data = Vec::new();
    for _ in 0..(width * height) {
        data.push(c.r);
        data.push(c.g);
        data.push(c.b);
    }
    PixelBuffer { width, height, data }
}

/// A picture whose every pixel has a colour of its own (for sizes up to 256 by 256).
fn gradient(width: u32, height: u32) -> PixelBuffer {
    let mut data = Vec::new();
    for y in 0..height {
        for x in 0..width {
            data.push(x as u8);
            data.push(y as u8);
            data.push(((x + y) % 256) as u8);
        }
    }
    PixelBuffer { width, height, data }
}

fn pixel(b: &PixelBuffer, x: u32, y: u32) -> Rgb {
    let k = 3 * (y * b.width + x) as usize;
    Rgb { r: b.data[k], g: b.data[k + 1], b: b.data[k + 2] }
}

fn distinct_colours(b: &PixelBuffer) -> Vec<Rgb> {
    let mut seen: Vec<Rgb> = Vec::new();
    for y in 0..b.height {
        for x in 0..b.width {
            let p = pixel(b, x, y);
            if !seen.contains(&p) {
                seen.push(p);
            }
        }
    }
    seen
}

#[test]
fn colour_distance_is_squared_euclidean() {
    let a = Rgb { r: 0, g: 0, b: 0 };
    let b = Rgb { r: 3, g: 4, b: 0 };
    assert_eq!(colour_distance(&a, &b), 25);
    assert_eq!(colour_distance(&b, &a), 25);
    let w = Rgb { r: 255, g: 255, b: 255 };
    assert_eq!(colour_distance(&a, &w), 3 * 255 * 255);
    assert_eq!(colour_distance(&w, &w), 0);
}

#[test]
fn min_index_takes_first_minimum() {
    assert_eq!(min_index(&[3, 1, 1]), 1);
    assert_eq!(min_index(&[7]), 0);
    assert_eq!(min_index(&[]), 0);
    assert_eq!(min_index(&[4, 4, 4]), 0);
    assert_eq!(min_index(&[9, 8, 2, 5, 2]), 2);
}

#[test]
fn closest_colour_tie_goes_to_first_entry() {
    let palette = [BLACK, Rgb { r: 10, g: 0, b: 0 }];
    let mut p = Rgb { r: 5, g: 0, b: 0 };
    set_closest_colour(&mut p, &palette);
    assert_eq!(p, BLACK);
    let reversed = [Rgb { r: 10, g: 0, b: 0 }, BLACK];
    let mut q = Rgb { r: 5, g: 0, b: 0 };
    set_closest_colour(&mut q, &reversed);
    assert_eq!(q, Rgb { r: 10, g: 0, b: 0 });
}

#[test]
fn closest_colour_picks_nearest() {
    let palette = [RED, BLUE, BLACK];
    let mut p = Rgb { r: 200, g: 30, b: 20 };
    set_closest_colour(&mut p, &palette);
    assert_eq!(p, RED);
    let mut q = Rgb { r: 10, g: 10, b: 10 };
    set_closest_colour(&mut q, &palette);
    assert_eq!(q, BLACK);
}

#[test]
fn quantize_is_idempotent() {
    let palette = [RED, BLUE, Rgb { r: 0, g: 200, b: 0 }];
    let mut once = gradient(40, 30);
    quantize(&mut once, &palette).unwrap();
    let mut twice = once.clone();
    quantize(&mut twice, &palette).unwrap();
    assert_eq!(once.data, twice.data);
    for c in distinct_colours(&once) {
        assert!(palette.contains(&c));
    }
}

#[test]
fn single_colour_palette_collapses_picture() {
    let colour = Rgb { r: 12, g: 34, b: 56 };
    let mut b = gradient(50, 20);
    quantize(&mut b, &[colour]).unwrap();
    assert_eq!(b.width, 50);
    assert_eq!(b.height, 20);
    assert_eq!(distinct_colours(&b), vec![colour]);
}

#[test]
fn mosaic_has_at_most_one_colour_per_cell() {
    let b = gradient(100, 100);
    let m = resample_down_up(&b, 5, 5).unwrap();
    assert_eq!((m.width, m.height), (100, 100));
    assert_eq!(m.data.len(), 3 * 100 * 100);
    let colours = distinct_colours(&m);
    assert!(colours.len() <= 25);
    assert_eq!(colours.len(), 25);
    for y in 0..100 {
        for x in 0..100 {
            assert_eq!(pixel(&m, x, y), pixel(&m, (x / 20) * 20, (y / 20) * 20));
        }
    }
    for c in colours {
        assert!(distinct_colours(&b).contains(&c));
    }
}

#[test]
fn mosaic_of_uneven_size() {
    let b = gradient(7, 3);
    let m = resample_down_up(&b, 2, 3).unwrap();
    assert_eq!((m.width, m.height), (7, 3));
    assert!(distinct_colours(&m).len() <= 6);
}

#[test]
fn grid_draws_five_lines_each_way() {
    let mut b = solid(100, 100, Rgb { r: 255, g: 255, b: 255 });
    assert_eq!(add_grid_to_image(&mut b, 5, 5), Ok(()));
    let mut rows = Vec::new();
    for y in 0..100 {
        if (0..100).all(|x| pixel(&b, x, y) == BLACK) {
            rows.push(y);
        }
    }
    let mut cols = Vec::new();
    for x in 0..100 {
        if (0..100).all(|y| pixel(&b, x, y) == BLACK) {
            cols.push(x);
        }
    }
    assert_eq!(rows, vec![0, 20, 40, 60, 80]);
    assert_eq!(cols, vec![0, 20, 40, 60, 80]);
    assert_eq!(pixel(&b, 10, 10), Rgb { r: 255, g: 255, b: 255 });
    assert_eq!(pixel(&b, 99, 99), Rgb { r: 255, g: 255, b: 255 });
}

#[test]
fn grid_pitch_rounds_down() {
    let mut b = solid(10, 7, RED);
    assert_eq!(add_grid_to_image(&mut b, 3, 2), Ok(()));
    for x in 0..10 {
        for y in 0..7 {
            let on = (x % 3 == 0 && x / 3 < 3) || (y % 3 == 0 && y / 3 < 2);
            assert_eq!(pixel(&b, x, y), if on { BLACK } else { RED });
        }
    }
}

#[test]
fn zero_grid_is_rejected() {
    let mut b = solid(100, 100, RED);
    assert_eq!(add_grid_to_image(&mut b, 0, 5), Err(Error::InvalidDimensions));
    assert_eq!(add_grid_to_image(&mut b, 5, 0), Err(Error::InvalidDimensions));
    assert_eq!(b.data, solid(100, 100, RED).data);
    assert_eq!(resample_down_up(&b, 0, 5).unwrap_err(), Error::InvalidDimensions);
    assert_eq!(resample_down_up(&b, 5, 0).unwrap_err(), Error::InvalidDimensions);
    assert_eq!(transform_image(&b, 0, 5, 2).unwrap_err(), Error::InvalidDimensions);
    assert_eq!(transform_image(&b, 5, 0, 2).unwrap_err(), Error::InvalidDimensions);
}

#[test]
fn grid_larger_than_picture_is_rejected() {
    let mut b = solid(4, 4, RED);
    assert_eq!(add_grid_to_image(&mut b, 5, 2), Err(Error::InvalidDimensions));
    assert_eq!(resample_down_up(&b, 2, 5).unwrap_err(), Error::InvalidDimensions);
    assert_eq!(transform_image(&b, 5, 5, 1).unwrap_err(), Error::InvalidDimensions);
}

#[test]
fn solid_red_with_red_blue_palette() {
    let mut b = solid(100, 100, RED);
    quantize(&mut b, &[RED, BLUE]).unwrap();
    assert_eq!(b.data, solid(100, 100, RED).data);
    add_grid_to_image(&mut b, 5, 5).unwrap();
    let lines = [0, 20, 40, 60, 80];
    for y in 0..100 {
        for x in 0..100 {
            let on = lines.contains(&x) || lines.contains(&y);
            assert_eq!(pixel(&b, x, y), if on { BLACK } else { RED });
        }
    }
}

#[test]
fn reduce_colours_uses_extracted_palette() {
    let mut b = gradient(40, 40);
    for k in 0..(20 * 40) {
        b.data[3 * k] = 250;
        b.data[3 * k + 1] = 10;
        b.data[3 * k + 2] = 10;
    }
    let one = reduce_colours(&b, 1).unwrap();
    assert_eq!((one.width, one.height), (40, 40));
    assert_eq!(distinct_colours(&one).len(), 1);
    assert_ne!(one.data, b.data);
    let two = reduce_colours(&b, 2).unwrap();
    let colours = distinct_colours(&two);
    assert!(colours.len() <= 2);
}

#[test]
fn quantize_needs_a_palette() {
    let mut b = gradient(5, 5);
    assert_eq!(quantize(&mut b, &[]), Err(Error::PaletteTooSmall));
    assert_eq!(b.data, gradient(5, 5).data);
}

#[test]
fn reduce_colours_needs_enough_colours() {
    let b = gradient(30, 30);
    assert_eq!(reduce_colours(&b, 0).unwrap_err(), Error::PaletteTooSmall);
    assert_eq!(reduce_colours(&b, 255).unwrap_err(), Error::PaletteTooSmall);
}

#[test]
fn transform_image_builds_pattern() {
    let b = gradient(100, 100);
    let out = transform_image(&b, 5, 5, 2).unwrap();
    assert_eq!((out.width, out.height), (100, 100));
    let lines = [0, 20, 40, 60, 80];
    for y in 0..100 {
        for x in 0..100 {
            if lines.contains(&x) || lines.contains(&y) {
                assert_eq!(pixel(&out, x, y), BLACK);
            }
        }
    }
    let inner: Vec<Rgb> = distinct_colours(&out).into_iter().filter(|c| *c != BLACK).collect();
    assert!(inner.len() <= 2);
    assert!(!inner.is_empty());
    assert_eq!(transform_image(&b, 5, 5, 0).unwrap_err(), Error::PaletteTooSmall);
}

#[test]
fn solid_picture_stays_solid_off_the_grid() {
    let b = solid(100, 100, RED);
    let out = transform_image(&b, 5, 5, 1).unwrap();
    let lines = [0, 20, 40, 60, 80];
    let inside = pixel(&out, 10, 10);
    assert_ne!(inside, BLACK);
    for y in 0..100 {
        for x in 0..100 {
            let on = lines.contains(&x) || lines.contains(&y);
            assert_eq!(pixel(&out, x, y), if on { BLACK } else { inside });
        }
    }
}

#[test]
fn one_colour_is_always_found() {
    let b = gradient(16, 16);
    let out = reduce_colours(&b, 1).unwrap();
    assert_eq!(distinct_colours(&out).len(), 1);
}

#[test]
fn image_type_names() {
    assert_eq!(ImageType::from_name("original"), Some(ImageType::Original));
    assert_eq!(ImageType::from_name("processed"), Some(ImageType::Processed));
    assert_eq!(ImageType::from_name("Processed"), None);
    assert_eq!(ImageType::from_name(""), None);
}

#[test]
fn image_path_of_project() {
    let mut project = Intarsia {
        name: "p".to_string(),
        path: "projects/p/".to_string(),
        original_image: None,
        processed_image: None,
    };
    assert_eq!(project.image_path(ImageType::Original), Err(Error::EmptyOriginal));
    assert_eq!(project.image_path(ImageType::Processed), Err(Error::EmptyProcessed));
    project.original_image = Some(Image {
        _image_type: ImageType::Original,
        path: "projects/p/original.png".to_string(),
        data: solid(1, 1, RED),
    });
    assert_eq!(project.image_path(ImageType::Original), Ok("projects/p/original.png".to_string()));
    assert_eq!(project.image_path(ImageType::Processed), Err(Error::EmptyProcessed));
}
