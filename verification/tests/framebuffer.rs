use ch8::framebuffer::FrameBuffer;

#[test]
fn new_buffer_is_blank() {
    let fb = FrameBuffer::new();
    assert!(fb.buffer.iter().all(|&p| p == 0));
    assert!(!fb.draw_flag);
    assert!(fb.lit_pixels().is_empty());
}

#[test]
fn set_pixel_lights_and_flags_redraw() {
    let mut fb = FrameBuffer::new();
    assert!(!fb.set_pixel(3, 2, 1));
    assert_eq!(fb.buffer[2 * 64 + 3], 1);
    assert!(fb.draw_flag);
}

#[test]
fn set_pixel_twice_collides_and_restores() {
    let mut fb = FrameBuffer::new();
    fb.set_pixel(63, 31, 1);
    assert!(fb.set_pixel(63, 31, 1));
    assert_eq!(fb.buffer[2047], 0);
    assert!(fb.buffer.iter().all(|&p| p == 0));
}

#[test]
fn set_pixel_zero_changes_nothing() {
    let mut fb = FrameBuffer::new();
    fb.set_pixel(0, 0, 1);
    assert!(!fb.set_pixel(0, 0, 0));
    assert_eq!(fb.buffer[0], 1);
}

#[test]
fn set_pixel_off_screen_is_ignored() {
    let mut fb = FrameBuffer::new();
    assert!(!fb.set_pixel(64, 0, 1));
    assert!(!fb.set_pixel(0, 32, 1));
    assert!(fb.buffer.iter().all(|&p| p == 0));
    assert!(!fb.draw_flag);
}

#[test]
fn clear_turns_everything_off() {
    let mut fb = FrameBuffer::new();
    fb.set_pixel(10, 10, 1);
    fb.draw_flag = false;
    fb.clear();
    assert!(fb.buffer.iter().all(|&p| p == 0));
    assert!(fb.draw_flag);
}

#[test]
fn lit_pixels_row_major() {
    let mut fb = FrameBuffer::new();
    fb.set_pixel(5, 1, 1);
    fb.set_pixel(63, 0, 1);
    fb.set_pixel(0, 31, 1);
    assert_eq!(fb.lit_pixels(), vec![(63, 0), (5, 1), (0, 31)]);
}
