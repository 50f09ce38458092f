use tray_broker::pixmap::{argb_to_rgba, decode_pixmap, first_candidate, PixmapError};

#[test]
fn single_sample_is_reordered() {
    assert_eq!(argb_to_rgba(&[1, 2, 3, 4]), vec![2, 3, 4, 1]);
}

#[test]
fn named_channels_are_reordered() {
    let (a, r, g, b) = (255u8, 10u8, 20u8, 30u8);
    assert_eq!(argb_to_rgba(&[a, r, g, b]), vec![r, g, b, a]);
}

#[test]
fn every_sample_is_reordered() {
    let raw = [0, 1, 2, 3, 10, 11, 12, 13, 20, 21, 22, 23];
    assert_eq!(argb_to_rgba(&raw), vec![1, 2, 3, 0, 11, 12, 13, 10, 21, 22, 23, 20]);
}

#[test]
fn empty_buffer_stays_empty() {
    assert_eq!(argb_to_rgba(&[]), Vec::<u8>::new());
}

#[test]
fn incomplete_sample_is_dropped() {
    assert_eq!(argb_to_rgba(&[1, 2, 3]), Vec::<u8>::new());
    assert_eq!(argb_to_rgba(&[1, 2, 3, 4, 5]), vec![2, 3, 4, 1]);
    assert_eq!(argb_to_rgba(&[1, 2, 3, 4, 5, 6, 7]), vec![2, 3, 4, 1]);
}

#[test]
fn reordering_four_times_is_the_identity() {
    let raw: Vec<u8> = (0..64).collect();
    let once = argb_to_rgba(&raw);
    let twice = argb_to_rgba(&once);
    let thrice = argb_to_rgba(&twice);
    assert_eq!(argb_to_rgba(&thrice), raw);
    assert_ne!(once, raw);
}

#[test]
fn first_candidate_is_chosen() {
    let candidates = vec![
        (1, 1, vec![1, 2, 3, 4]),
        (64, 64, vec![0; 64 * 64 * 4]),
        (2, 1, vec![0; 8]),
    ];
    let chosen = first_candidate(&candidates).unwrap();
    assert_eq!(*chosen, (1, 1, vec![1, 2, 3, 4]));
}

#[test]
fn first_candidate_is_chosen_even_if_it_is_bad() {
    let candidates = vec![(3, 3, vec![1, 2]), (1, 1, vec![1, 2, 3, 4])];
    let chosen = first_candidate(&candidates).unwrap();
    assert_eq!(*chosen, (3, 3, vec![1, 2]));
}

#[test]
fn no_candidate_is_an_error() {
    let candidates: Vec<(i32, i32, Vec<u8>)> = Vec::new();
    assert_eq!(first_candidate(&candidates), Err(PixmapError::NoCandidate));
}

#[test]
fn decode_keeps_size_and_reorders() {
    let raw = [255, 10, 20, 30, 255, 10, 20, 30, 255, 10, 20, 30, 255, 10, 20, 30];
    let pixels = decode_pixmap(2, 2, &raw).unwrap();
    assert_eq!(pixels.width(), 2);
    assert_eq!(pixels.height(), 2);
    assert_eq!(
        *pixels.rgba(),
        vec![10, 20, 30, 255, 10, 20, 30, 255, 10, 20, 30, 255, 10, 20, 30, 255]
    );
}

#[test]
fn decode_accepts_non_square_images() {
    let raw: Vec<u8> = (0..24).collect();
    let pixels = decode_pixmap(3, 2, &raw).unwrap();
    assert_eq!((pixels.width(), pixels.height()), (3, 2));
    assert_eq!(pixels.rgba().len(), 24);
    let pixels = decode_pixmap(1, 6, &raw).unwrap();
    assert_eq!((pixels.width(), pixels.height()), (1, 6));
}

#[test]
fn decode_accepts_the_empty_image() {
    let pixels = decode_pixmap(0, 0, &[]).unwrap();
    assert_eq!((pixels.width(), pixels.height()), (0, 0));
    assert!(pixels.rgba().is_empty());
    assert!(decode_pixmap(0, 5, &[]).is_ok());
    assert!(decode_pixmap(5, 0, &[]).is_ok());
}

#[test]
fn negative_width_is_an_error() {
    assert_eq!(decode_pixmap(-1, 1, &[0, 0, 0, 0]).unwrap_err(), PixmapError::NegativeSize);
    assert_eq!(decode_pixmap(i32::MIN, 1, &[]).unwrap_err(), PixmapError::NegativeSize);
}

#[test]
fn negative_height_is_an_error() {
    assert_eq!(decode_pixmap(1, -1, &[0, 0, 0, 0]).unwrap_err(), PixmapError::NegativeSize);
    assert_eq!(decode_pixmap(-2, -2, &[0; 16]).unwrap_err(), PixmapError::NegativeSize);
}

#[test]
fn short_buffer_is_an_error() {
    assert_eq!(decode_pixmap(2, 2, &[0; 15]).unwrap_err(), PixmapError::SizeMismatch);
    assert_eq!(decode_pixmap(2, 2, &[0; 12]).unwrap_err(), PixmapError::SizeMismatch);
    assert_eq!(decode_pixmap(1, 1, &[]).unwrap_err(), PixmapError::SizeMismatch);
}

#[test]
fn long_buffer_is_an_error() {
    assert_eq!(decode_pixmap(2, 2, &[0; 17]).unwrap_err(), PixmapError::SizeMismatch);
    assert_eq!(decode_pixmap(2, 2, &[0; 20]).unwrap_err(), PixmapError::SizeMismatch);
    assert_eq!(decode_pixmap(0, 0, &[0; 4]).unwrap_err(), PixmapError::SizeMismatch);
}

#[test]
fn huge_sizes_do_not_overflow() {
    assert_eq!(
        decode_pixmap(i32::MAX, i32::MAX, &[0; 4]).unwrap_err(),
        PixmapError::SizeMismatch
    );
    assert_eq!(decode_pixmap(65536, 65536, &[]).unwrap_err(), PixmapError::SizeMismatch);
}
