use zugzwang::raster::{GrayImage, RasterImage, Rgb, MAX_SIDE};

fn rgb(width: u32, height: u32, colour: impl Fn(u32, u32) -> Rgb) -> RasterImage {
    let mut data = Vec::new();
    for y in 0..height {
        for x in 0..width {
            let c = colour(x, y);
            data.push(c.red);
            data.push(c.green);
            data.push(c.blue);
        }
    }
    RasterImage::new(width, height, data).unwrap()
}

#[test]
fn images_need_a_sample_for_each_pixel() {
    assert!(GrayImage::new(2, 3, vec![0; 6]).is_some());
    assert!(GrayImage::new(2, 3, vec![0; 5]).is_none());
    assert!(GrayImage::new(2, 3, vec![0; 7]).is_none());
    assert!(GrayImage::new(0, 0, Vec::new()).is_some());
    assert!(GrayImage::new(0, 5, Vec::new()).is_some());
    assert!(RasterImage::new(2, 3, vec![0; 18]).is_some());
    assert!(RasterImage::new(2, 3, vec![0; 6]).is_none());
    assert!(RasterImage::new(2, 3, vec![0; 17]).is_none());
    assert_eq!(MAX_SIDE, 16384);
    assert!(GrayImage::new(MAX_SIDE + 1, 0, Vec::new()).is_none());
    assert!(GrayImage::new(0, MAX_SIDE + 1, Vec::new()).is_none());
    assert!(RasterImage::new(MAX_SIDE + 1, 0, Vec::new()).is_none());
    assert!(GrayImage::new(MAX_SIDE, 1, vec![7; MAX_SIDE as usize]).is_some());
}

#[test]
fn pixels_are_found_by_column_and_row() {
    let gray = GrayImage::new(3, 2, vec![10, 11, 12, 20, 21, 22]).unwrap();
    assert_eq!((gray.width(), gray.height()), (3, 2));
    assert_eq!(gray.get(0, 0), 10);
    assert_eq!(gray.get(2, 0), 12);
    assert_eq!(gray.get(0, 1), 20);
    assert_eq!(gray.get(2, 1), 22);
    let image = RasterImage::new(2, 2, vec![1, 2, 3, 4, 5, 6, 7, 8, 9, 10, 11, 12]).unwrap();
    assert_eq!((image.width(), image.height()), (2, 2));
    assert_eq!(image.get(0, 0), Rgb { red: 1, green: 2, blue: 3 });
    assert_eq!(image.get(1, 0), Rgb { red: 4, green: 5, blue: 6 });
    assert_eq!(image.get(0, 1), Rgb { red: 7, green: 8, blue: 9 });
    assert_eq!(image.get(1, 1), Rgb { red: 10, green: 11, blue: 12 });
}

#[test]
fn crops_show_the_part() {
    let gray = GrayImage::new(4, 3, (0u8..12).collect()).unwrap();
    let part = gray.crop(1, 1, 2, 2);
    assert_eq!((part.width(), part.height()), (2, 2));
    assert_eq!(part.get(0, 0), 5);
    assert_eq!(part.get(1, 0), 6);
    assert_eq!(part.get(0, 1), 9);
    assert_eq!(part.get(1, 1), 10);
    let none = gray.crop(4, 3, 0, 0);
    assert_eq!((none.width(), none.height()), (0, 0));
    let image = rgb(5, 4, |x, y| Rgb { red: x as u8, green: y as u8, blue: (10 * y + x) as u8 });
    let part = image.crop(2, 1, 3, 2);
    assert_eq!((part.width(), part.height()), (3, 2));
    for j in 0..2 {
        for i in 0..3 {
            assert_eq!(part.get(i, j), image.get(2 + i, 1 + j));
        }
    }
}

#[test]
fn intensity_weighs_the_colours() {
    let colours = [
        (Rgb { red: 0, green: 0, blue: 0 }, 0),
        (Rgb { red: 255, green: 255, blue: 255 }, 255),
        (Rgb { red: 255, green: 0, blue: 0 }, 54),
        (Rgb { red: 0, green: 255, blue: 0 }, 182),
        (Rgb { red: 0, green: 0, blue: 255 }, 18),
        (Rgb { red: 100, green: 150, blue: 200 }, 142),
        (Rgb { red: 1, green: 1, blue: 1 }, 1),
    ];
    let image = rgb(colours.len() as u32, 1, |x, _| colours[x as usize].0);
    let gray = image.to_intensity();
    assert_eq!((gray.width(), gray.height()), (colours.len() as u32, 1));
    for (x, (_, expected)) in colours.iter().enumerate() {
        assert_eq!(gray.get(x as u32, 0), *expected);
    }
}

#[test]
fn intensity_is_the_grayscale_of_the_image_crate() {
    let image = rgb(16, 16, |x, y| Rgb {
        red: (x * 17) as u8,
        green: (y * 13 + x) as u8,
        blue: (255 - x * y) as u8,
    });
    let mut data = Vec::new();
    for y in 0..16 {
        for x in 0..16 {
            let c = image.get(x, y);
            data.extend([c.red, c.green, c.blue]);
        }
    }
    let theirs = image::imageops::grayscale(&image::RgbImage::from_raw(16, 16, data).unwrap());
    let ours = image.to_intensity();
    for y in 0..16 {
        for x in 0..16 {
            assert_eq!(ours.get(x, y), theirs.get_pixel(x, y).0[0]);
        }
    }
}

#[test]
fn image_of_the_wanted_size_is_not_resampled() {
    let image = rgb(3, 2, |x, y| Rgb { red: (x * 80) as u8, green: (y * 200) as u8, blue: 9 });
    let same = image.scaled_to(3, 2);
    for y in 0..2 {
        for x in 0..3 {
            assert_eq!(same.get(x, y), image.get(x, y));
        }
    }
}

#[test]
fn image_without_pixels_becomes_black() {
    let empty = RasterImage::new(0, 0, Vec::new()).unwrap();
    let black = empty.scaled_to(3, 2);
    assert_eq!((black.width(), black.height()), (3, 2));
    for y in 0..2 {
        for x in 0..3 {
            assert_eq!(black.get(x, y), Rgb { red: 0, green: 0, blue: 0 });
        }
    }
    let flat = RasterImage::new(4, 0, Vec::new()).unwrap();
    assert_eq!(flat.scaled_to(1, 1).get(0, 0), Rgb { red: 0, green: 0, blue: 0 });
}

#[test]
fn resampling_gives_the_new_size() {
    let image = rgb(2, 2, |_, _| Rgb { red: 200, green: 100, blue: 50 });
    let larger = image.scaled_to(5, 3);
    assert_eq!((larger.width(), larger.height()), (5, 3));
    for y in 0..3 {
        for x in 0..5 {
            assert_eq!(larger.get(x, y), Rgb { red: 200, green: 100, blue: 50 });
        }
    }
    let image = rgb(8, 8, |x, _| if x < 4 {
        Rgb { red: 0, green: 0, blue: 0 }
    } else {
        Rgb { red: 255, green: 255, blue: 255 }
    });
    let smaller = image.scaled_to(2, 2);
    assert_eq!((smaller.width(), smaller.height()), (2, 2));
    assert!(smaller.get(0, 0).red < 64);
    assert!(smaller.get(1, 1).red > 192);
}

#[test]
fn resampling_is_what_the_image_crate_computes() {
    let image = rgb(7, 5, |x, y| Rgb {
        red: (x * 36) as u8,
        green: (y * 60) as u8,
        blue: ((x + y) * 20) as u8,
    });
    let mut data = Vec::new();
    for y in 0..5 {
        for x in 0..7 {
            let c = image.get(x, y);
            data.extend([c.red, c.green, c.blue]);
        }
    }
    let source = image::RgbImage::from_raw(7, 5, data).unwrap();
    for (width, height) in [(14, 10), (3, 2), (64, 64), (7, 6), (1, 1)] {
        let theirs =
            image::imageops::resize(&source, width, height, image::imageops::FilterType::Triangle);
        let ours = image.scaled_to(width, height);
        assert_eq!((ours.width(), ours.height()), (width, height));
        for y in 0..height {
            for x in 0..width {
                let p = theirs.get_pixel(x, y).0;
                assert_eq!(ours.get(x, y), Rgb { red: p[0], green: p[1], blue: p[2] });
            }
        }
    }
}
