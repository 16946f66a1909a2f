use zugzwang::raster::{RasterImage, Rgb};
use zugzwang::segment::{segment, slice_board, BOARD_SIZE, CELL_SIZE};

fn board(size: u32, value: impl Fn(u32, u32) -> u8) -> RasterImage {
    let mut data = Vec::new();
    for y in 0..size {
        for x in 0..size {
            let v = value(x, y);
            data.extend([v, v, v]);
        }
    }
    RasterImage::new(size, size, data).unwrap()
}

#[test]
fn sizes_divide_evenly() {
    assert_eq!(BOARD_SIZE, 512);
    assert_eq!(CELL_SIZE, 64);
    assert_eq!(BOARD_SIZE, 8 * CELL_SIZE);
}

#[test]
fn board_of_normal_size_is_cut_into_64_squares() {
    let image = board(512, |x, y| ((x * 7 + y * 13) % 251) as u8);
    let gray = image.to_intensity();
    let squares = segment(&image);
    for rank in 0..8usize {
        for file in 0..8usize {
            let cell = squares.cell(rank, file);
            assert_eq!((cell.width(), cell.height()), (64, 64));
            for j in [0u32, 1, 31, 63] {
                for i in [0u32, 5, 62, 63] {
                    assert_eq!(
                        cell.get(i, j),
                        gray.get(file as u32 * 64 + i, rank as u32 * 64 + j),
                        "rank {} file {} at ({}, {})",
                        rank,
                        file,
                        i,
                        j
                    );
                }
            }
        }
    }
}

#[test]
fn rank_0_is_the_top_row_and_file_0_the_left_column() {
    let image = board(512, |x, y| (16 * (y / 64) + x / 64) as u8);
    let squares = segment(&image);
    for rank in 0..8usize {
        for file in 0..8usize {
            let cell = squares.cell(rank, file);
            for j in 0..64 {
                for i in 0..64 {
                    assert_eq!(cell.get(i, j), (16 * rank + file) as u8);
                }
            }
        }
    }
    let sliced = slice_board(&image.to_intensity());
    assert_eq!(sliced.cell(7, 0).get(0, 0), 16 * 7);
    assert_eq!(sliced.cell(0, 7).get(63, 63), 7);
}

#[test]
fn every_pixel_belongs_to_one_square() {
    let image = board(512, |x, y| ((x ^ y) % 256) as u8);
    let gray = image.to_intensity();
    let squares = segment(&image);
    let mut seen = vec![0u8; 512 * 512];
    for rank in 0..8usize {
        for file in 0..8usize {
            let cell = squares.cell(rank, file);
            for j in 0..64u32 {
                for i in 0..64u32 {
                    let x = file as u32 * 64 + i;
                    let y = rank as u32 * 64 + j;
                    assert_eq!(cell.get(i, j), gray.get(x, y));
                    seen[(y * 512 + x) as usize] += 1;
                }
            }
        }
    }
    assert!(seen.iter().all(|&count| count == 1));
}

#[test]
fn segmenting_twice_gives_the_same_squares() {
    let image = board(300, |x, y| ((x * y) % 256) as u8);
    let first = segment(&image);
    let second = segment(&image);
    for rank in 0..8 {
        for file in 0..8 {
            for j in 0..64 {
                for i in 0..64 {
                    assert_eq!(first.cell(rank, file).get(i, j), second.cell(rank, file).get(i, j));
                }
            }
        }
    }
}

#[test]
fn other_sizes_are_brought_to_normal_size() {
    let image = board(200, |x, y| (8 * (y / 25) * 4 + (x / 25) * 4) as u8);
    let squares = segment(&image);
    for rank in 0..8usize {
        for file in 0..8usize {
            let cell = squares.cell(rank, file);
            assert_eq!((cell.width(), cell.height()), (64, 64));
            assert_eq!(cell.get(32, 32), (32 * rank + 4 * file) as u8);
        }
    }
    let empty = RasterImage::new(0, 0, Vec::new()).unwrap();
    assert_eq!(segment(&empty).cell(3, 3).get(10, 10), 0);
    let one = RasterImage::new(1, 1, vec![90, 90, 90]).unwrap();
    assert_eq!(one.get(0, 0), Rgb { red: 90, green: 90, blue: 90 });
    assert_eq!(segment(&one).cell(7, 7).get(63, 63), 90);
}
