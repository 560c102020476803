use gstqrtimestamp::codec::{
    check_side_fits, drop_alpha, encode, image_to_scan, pick_timestamp, DecodeError, GreyImage,
    PixelBuffer, SCAN_LIMIT,
};

/// Looks for codes in a grey image: one entry for each grid detected, its
/// text where it decodes.
fn scan(image: GreyImage) -> Vec<Option<String>> {
    let width = image.get_width();
    let height = image.get_height();
    let picture = image::GrayImage::from_raw(width, height, image.into_data()).unwrap();
    let mut prepared = rqrr::PreparedImage::prepare(picture);
    let grids = prepared.detect_grids();
    grids.iter().map(|grid| grid.decode().ok().map(|(_, text)| text)).collect()
}

fn decode(buffer: &PixelBuffer) -> Result<u128, DecodeError> {
    match image_to_scan(buffer) {
        None => Err(DecodeError::NoCodeFound),
        Some(image) => pick_timestamp(&scan(image)),
    }
}

fn round_trip(timestamp: u128, side: u32) -> Result<u128, DecodeError> {
    assert!(check_side_fits(side));
    let buffer = encode(timestamp, side);
    assert_eq!(buffer.get_width(), side);
    assert_eq!(buffer.get_height(), side);
    assert_eq!(buffer.data().len(), 3 * (side as usize) * (side as usize));
    decode(&buffer)
}

#[test]
fn round_trip_zero() {
    assert_eq!(round_trip(0, 100), Ok(0));
}

#[test]
fn round_trip_one() {
    assert_eq!(round_trip(1, 100), Ok(1));
}

#[test]
fn round_trip_largest_64_bit_value() {
    assert_eq!(round_trip(u64::MAX as u128, 100), Ok(u64::MAX as u128));
}

#[test]
fn round_trip_largest_128_bit_value() {
    assert_eq!(round_trip(u128::MAX, 100), Ok(u128::MAX));
}

#[test]
fn round_trip_current_time_values() {
    for timestamp in [1_700_000_000_000u128, 1_767_225_600_123, 1_798_761_599_999] {
        for side in [100u32, 128, 150, 320, 555] {
            assert_eq!(round_trip(timestamp, side), Ok(timestamp));
        }
    }
}

#[test]
fn blank_frame_has_no_code() {
    let buffer = PixelBuffer::from_rgb(100, 100, vec![255u8; 30_000]).unwrap();
    assert_eq!(decode(&buffer), Err(DecodeError::NoCodeFound));
}

#[test]
fn round_trip_at_the_scan_limit() {
    assert_eq!(round_trip(1_700_000_000_000, 800), Ok(1_700_000_000_000));
    assert_eq!(round_trip(u128::MAX, 800), Ok(u128::MAX));
}

#[test]
fn round_trip_just_above_the_scan_limit() {
    assert_eq!(round_trip(1_700_000_000_000, 801), Ok(1_700_000_000_000));
    assert_eq!(round_trip(u128::MAX, 801), Ok(u128::MAX));
    assert_eq!(round_trip(7, 1_000), Ok(7));
}

#[test]
fn round_trip_at_large_sides() {
    assert_eq!(round_trip(1_700_000_000_123, 1_601), Ok(1_700_000_000_123));
    assert_eq!(round_trip(u128::MAX, 3_100), Ok(u128::MAX));
}

#[test]
fn round_trip_at_side_4096() {
    assert_eq!(round_trip(1_767_225_600_123, 4_096), Ok(1_767_225_600_123));
}

#[test]
fn large_blank_frame_has_no_code() {
    let buffer = PixelBuffer::from_rgb(1_700, 900, vec![255u8; 3 * 1_700 * 900]).unwrap();
    assert_eq!(decode(&buffer), Err(DecodeError::NoCodeFound));
}

#[test]
fn code_in_a_wide_large_frame_is_read() {
    let side = 900usize;
    let width = 2_000usize;
    let code = encode(424_242, side as u32).into_data();
    let mut data = vec![255u8; 3 * width * side];
    for row in 0..side {
        let from = 3 * side * row;
        let to = 3 * (width * row + 500);
        data[to..to + 3 * side].copy_from_slice(&code[from..from + 3 * side]);
    }
    let buffer = PixelBuffer::from_rgb(width as u32, side as u32, data).unwrap();
    assert_eq!(decode(&buffer), Ok(424_242));
}

#[test]
fn frame_without_pixels_has_nothing_to_scan() {
    for (width, height) in [(0u32, 0u32), (0, 7), (7, 0)] {
        let buffer = PixelBuffer::from_rgb(width, height, Vec::new()).unwrap();
        assert!(image_to_scan(&buffer).is_none());
    }
}

#[test]
fn small_frame_is_scanned_whole() {
    let buffer = PixelBuffer::from_rgb(2, 2, vec![0, 0, 0, 255, 255, 255, 0, 0, 0, 255, 255, 255])
        .unwrap();
    let image = image_to_scan(&buffer).unwrap();
    assert_eq!((image.get_width(), image.get_height()), (2, 2));
    assert_eq!(image.data(), &vec![0, 255, 0, 255]);
    let buffer = PixelBuffer::from_rgb(800, 3, vec![255u8; 3 * 800 * 3]).unwrap();
    let image = image_to_scan(&buffer).unwrap();
    assert_eq!((image.get_width(), image.get_height()), (800, 3));
    assert_eq!(image.data().len(), 2_400);
}

#[test]
fn large_frame_is_sampled_to_the_scan_limit() {
    assert_eq!(SCAN_LIMIT, 800);
    for (width, height, columns, rows) in [
        (801u32, 1u32, 401u32, 1u32),
        (1_600, 800, 800, 400),
        (1_601, 2, 534, 1),
        (3, 4_096, 1, 683),
        (2_400, 2_401, 600, 601),
    ] {
        let data = vec![255u8; 3 * (width as usize) * (height as usize)];
        let buffer = PixelBuffer::from_rgb(width, height, data).unwrap();
        let image = image_to_scan(&buffer).unwrap();
        assert_eq!((image.get_width(), image.get_height()), (columns, rows));
        assert_eq!(image.data().len(), (columns as usize) * (rows as usize));
    }
}

#[test]
fn sampling_takes_every_second_pixel_of_every_second_row() {
    let width = 1_000usize;
    let height = 4usize;
    let mut data = vec![255u8; 3 * width * height];
    for (row, column) in [(0usize, 0usize), (0, 2), (1, 0), (2, 998), (3, 998), (2, 999)] {
        let at = 3 * (row * width + column);
        data[at..at + 3].copy_from_slice(&[0, 0, 0]);
    }
    let buffer = PixelBuffer::from_rgb(width as u32, height as u32, data).unwrap();
    let image = image_to_scan(&buffer).unwrap();
    assert_eq!((image.get_width(), image.get_height()), (500, 2));
    let grey = image.data();
    assert_eq!(grey[0], 0);
    assert_eq!(grey[1], 0);
    assert_eq!(grey[2], 255);
    assert_eq!(grey[499], 255);
    assert_eq!(grey[500], 255);
    assert_eq!(grey[500 + 499], 0);
    assert_eq!(grey.iter().filter(|level| **level == 0).count(), 3);
}

#[test]
fn pick_needs_exactly_one_legible_code() {
    let text = |t: &str| Some(t.to_string());
    assert_eq!(pick_timestamp(&vec![]), Err(DecodeError::NoCodeFound));
    assert_eq!(pick_timestamp(&vec![None]), Err(DecodeError::NoCodeFound));
    assert_eq!(pick_timestamp(&vec![None, None]), Err(DecodeError::NoCodeFound));
    assert_eq!(pick_timestamp(&vec![text("42")]), Ok(42));
    assert_eq!(pick_timestamp(&vec![None, text("42"), None]), Ok(42));
    assert_eq!(pick_timestamp(&vec![text("+7")]), Ok(7));
    assert_eq!(pick_timestamp(&vec![text("4 2")]), Err(DecodeError::ValueParseError));
    assert_eq!(pick_timestamp(&vec![text("")]), Err(DecodeError::ValueParseError));
    assert_eq!(pick_timestamp(&vec![None, text("x")]), Err(DecodeError::ValueParseError));
    assert_eq!(
        pick_timestamp(&vec![text("1"), text("1")]),
        Err(DecodeError::MultipleAmbiguous)
    );
    assert_eq!(
        pick_timestamp(&vec![text("x"), None, text("2")]),
        Err(DecodeError::MultipleAmbiguous)
    );
}

#[test]
fn drop_alpha_keeps_the_first_three_of_every_four_bytes() {
    assert_eq!(drop_alpha(&vec![1, 2, 3, 4, 5, 6, 7, 8]), vec![1, 2, 3, 5, 6, 7]);
    assert_eq!(drop_alpha(&vec![1, 2, 3, 4, 5, 6, 7]), vec![1, 2, 3]);
    assert_eq!(drop_alpha(&vec![1, 2, 3]), Vec::<u8>::new());
    assert_eq!(drop_alpha(&Vec::new()), Vec::<u8>::new());
}
