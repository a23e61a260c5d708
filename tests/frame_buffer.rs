use mod_mgmt::frame_buffer::{
    draw_line, draw_line_3d, draw_pixel, draw_pixel_3d, draw_square, draw_square_3d, Drawer, Point,
    EMPTY_DEPTH, FRAME_BUFFER_HEIGHT, FRAME_BUFFER_WIDTH, PIXEL_WIDTH,
};

fn pixel(d: &Drawer, x: usize, y: usize) -> [u8; 3] {
    let b = y * FRAME_BUFFER_WIDTH + x * 3;
    let buf = d.buffer();
    [buf[b], buf[b + 1], buf[b + 2]]
}

fn depth(d: &Drawer, x: usize, y: usize) -> usize {
    d.depth()[y * PIXEL_WIDTH + x]
}

#[test]
fn new_drawer_is_blank() {
    let d = Drawer::new();
    assert_eq!(d.buffer().len(), FRAME_BUFFER_WIDTH * FRAME_BUFFER_HEIGHT);
    assert_eq!(d.depth().len(), PIXEL_WIDTH * FRAME_BUFFER_HEIGHT);
    assert_eq!(d.start_address(), 0);
    assert_eq!(depth(&d, 0, 0), EMPTY_DEPTH);
}

#[test]
fn pixel_writes_color_bytes() {
    let mut d = Drawer::new();
    draw_pixel(&mut d, 10, 20, 0x123456);
    assert_eq!(pixel(&d, 10, 20), [0x56, 0x34, 0x12]);
    assert_eq!(depth(&d, 10, 20), 0);
    assert_eq!(pixel(&d, 11, 20), [0, 0, 0]);
}

#[test]
fn pixel_off_screen_changes_nothing() {
    let mut d = Drawer::new();
    draw_pixel(&mut d, PIXEL_WIDTH, 0, 0xffffff);
    draw_pixel(&mut d, 0, FRAME_BUFFER_HEIGHT, 0xffffff);
    assert!(d.buffer().iter().all(|b| *b == 0));
}

#[test]
fn farther_pixel_is_hidden_by_nearer() {
    let mut d = Drawer::new();
    draw_pixel_3d(&mut d, 5, 5, 10, 0x0000ff, true);
    draw_pixel_3d(&mut d, 5, 5, 20, 0x00ff00, true);
    assert_eq!(pixel(&d, 5, 5), [0xff, 0, 0]);
    assert_eq!(depth(&d, 5, 5), 10);
    draw_pixel_3d(&mut d, 5, 5, 3, 0x00ff00, true);
    assert_eq!(pixel(&d, 5, 5), [0, 0xff, 0]);
}

#[test]
fn hidden_pixel_erases_and_frees_depth() {
    let mut d = Drawer::new();
    draw_pixel_3d(&mut d, 7, 8, 4, 0xabcdef, true);
    draw_pixel_3d(&mut d, 7, 8, 4, 0xabcdef, false);
    assert_eq!(pixel(&d, 7, 8), [0, 0, 0]);
    assert_eq!(depth(&d, 7, 8), EMPTY_DEPTH);
}

#[test]
fn horizontal_line_leaves_out_its_end() {
    let mut d = Drawer::new();
    draw_line(&mut d, 2, 3, 6, 3, 0x010203);
    for x in 2..6 {
        assert_eq!(pixel(&d, x, 3), [3, 2, 1]);
    }
    assert_eq!(pixel(&d, 6, 3), [0, 0, 0]);
}

#[test]
fn steep_line_steps_along_y() {
    let mut d = Drawer::new();
    draw_line_3d(&mut d, 0, 0, 2, 4, 1, 0xff, true);
    // x = (y - 0) * 2 / 4 for y in 0..4
    assert_eq!(pixel(&d, 0, 0), [0xff, 0, 0]);
    assert_eq!(pixel(&d, 0, 1), [0xff, 0, 0]);
    assert_eq!(pixel(&d, 1, 2), [0xff, 0, 0]);
    assert_eq!(pixel(&d, 1, 3), [0xff, 0, 0]);
    assert_eq!(pixel(&d, 1, 1), [0, 0, 0]);
    assert_eq!(depth(&d, 1, 3), 1);
}

#[test]
fn backward_line_rounds_toward_zero() {
    let mut d = Drawer::new();
    draw_line(&mut d, 10, 10, 4, 8, 0x7);
    // x in 4..10, y = (x - 10) * -2 / -6 + 10, truncated toward zero
    assert_eq!(pixel(&d, 4, 8), [7, 0, 0]);
    assert_eq!(pixel(&d, 5, 9), [7, 0, 0]);
    assert_eq!(pixel(&d, 7, 9), [7, 0, 0]);
    assert_eq!(pixel(&d, 8, 10), [7, 0, 0]);
    assert_eq!(pixel(&d, 9, 10), [7, 0, 0]);
}

#[test]
fn degenerate_line_draws_nothing() {
    let mut d = Drawer::new();
    draw_line(&mut d, 3, 3, 3, 3, 0xffffff);
    assert!(d.buffer().iter().all(|b| *b == 0));
}

#[test]
fn square_fills_its_area() {
    let mut d = Drawer::new();
    draw_square(&mut d, 1, 2, 3, 2, 0x0a0b0c);
    for x in 1..4 {
        for y in 2..4 {
            assert_eq!(pixel(&d, x, y), [0x0c, 0x0b, 0x0a]);
        }
    }
    assert_eq!(pixel(&d, 4, 2), [0, 0, 0]);
    assert_eq!(pixel(&d, 1, 4), [0, 0, 0]);
}

#[test]
fn square_is_cut_at_the_edge() {
    let mut d = Drawer::new();
    draw_square_3d(&mut d, PIXEL_WIDTH - 1, FRAME_BUFFER_HEIGHT - 1, 10, 10, 2, 0x99, true);
    assert_eq!(pixel(&d, PIXEL_WIDTH - 1, FRAME_BUFFER_HEIGHT - 1), [0x99, 0, 0]);
    assert_eq!(depth(&d, PIXEL_WIDTH - 1, FRAME_BUFFER_HEIGHT - 1), 2);
}

#[test]
fn check_in_range_uses_the_byte_bound() {
    let d = Drawer::new();
    assert!(d.check_in_range(FRAME_BUFFER_WIDTH - 3, 0));
    assert!(!d.check_in_range(FRAME_BUFFER_WIDTH - 2, 0));
    assert!(!d.check_in_range(0, FRAME_BUFFER_HEIGHT));
}

#[test]
fn draw_points_plots_in_order() {
    let mut d = Drawer::new();
    let pts = vec![
        Point { x: 1, y: 1, z: 5, color: 0x01 },
        Point { x: 1, y: 1, z: 5, color: 0x02 },
    ];
    d.draw_points(pts, true);
    assert_eq!(pixel(&d, 1, 1), [0x02, 0, 0]);
}

#[test]
fn frame_buffer_binds_once() {
    let mut d = Drawer::new();
    assert!(d.init_frame_buffer(0).is_err());
    assert_eq!(d.start_address(), 0);
    assert!(d.init_frame_buffer(0xfd00_0000).is_ok());
    assert_eq!(d.start_address(), 0xfd00_0000);
    assert!(d.init_frame_buffer(0x1000).is_ok());
    assert_eq!(d.start_address(), 0xfd00_0000);
}
