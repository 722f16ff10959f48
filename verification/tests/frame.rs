use rphys::color::Color;
use rphys::frame::{draw_color_chip, Frame};

#[test]
fn test_frame_new_all_zero() {
    let frame = Frame::new(4, 4);
    assert_eq!(frame.width, 4);
    assert_eq!(frame.height, 4);
    assert_eq!(frame.pixels.len(), 4 * 4 * 4);
    assert!(frame.pixels.iter().all(|&b| b == 0));
}

#[test]
fn test_frame_pixel_reads_correctly() {
    let mut frame = Frame::new(2, 2);
    // Pixel (1, 0): row 0, column 1, stride 2 → byte offset 4.
    let idx = 4_usize;
    frame.pixels[idx] = 255;
    frame.pixels[idx + 1] = 128;
    frame.pixels[idx + 2] = 64;
    frame.pixels[idx + 3] = 200;
    assert_eq!(frame.pixel(1, 0), [255, 128, 64, 200]);
    assert_eq!(frame.pixel(0, 0), [0, 0, 0, 0]);
}

#[test]
fn color_chip_paints_eight_by_eight_opaque() {
    let mut frame = Frame::new(20, 20);
    draw_color_chip(&mut frame, 2, 3, Color::rgb(10, 20, 30));
    assert_eq!(frame.pixel(2, 3), [10, 20, 30, 255]);
    assert_eq!(frame.pixel(9, 10), [10, 20, 30, 255]);
    assert_eq!(frame.pixel(10, 10), [0, 0, 0, 0]);
    assert_eq!(frame.pixel(1, 3), [0, 0, 0, 0]);
    assert_eq!(frame.pixel(2, 11), [0, 0, 0, 0]);
}

#[test]
fn color_chip_alpha_channel_saturates() {
    let mut frame = Frame::new(8, 8);
    frame.pixels[3] = 100;
    draw_color_chip(&mut frame, 0, 0, Color::rgba(1, 2, 3, 200));
    // Colour channels replaced, alpha accumulates and saturates at 255.
    assert_eq!(frame.pixel(0, 0), [1, 2, 3, 255]);
    assert_eq!(frame.pixel(1, 0), [1, 2, 3, 200]);
}

#[test]
fn color_chip_is_clipped_at_the_edges() {
    let mut frame = Frame::new(5, 5);
    draw_color_chip(&mut frame, -4, 2, Color::rgb(255, 0, 0));
    assert_eq!(frame.pixel(0, 2), [255, 0, 0, 255]);
    assert_eq!(frame.pixel(3, 4), [255, 0, 0, 255]);
    assert_eq!(frame.pixel(4, 4), [0, 0, 0, 0]);
    assert_eq!(frame.pixel(0, 1), [0, 0, 0, 0]);
    let mut far = Frame::new(5, 5);
    draw_color_chip(&mut far, 100, 100, Color::rgb(255, 0, 0));
    assert!(far.pixels.iter().all(|&b| b == 0));
}
