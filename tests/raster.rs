use softraster::color::{rgba, unpack_channel};
use softraster::raster::{SoftwareDevice, DEPTH_CLEAR};
use softraster::triangle::ScreenVertex;

fn px(dev: &SoftwareDevice, x: usize, y: usize) -> u32 {
    dev.framebuffer[y * dev.width + x]
}

fn depth(dev: &SoftwareDevice, x: usize, y: usize) -> i32 {
    dev.depthbuffer[y * dev.width + x]
}

fn count_color(dev: &SoftwareDevice, c: u32) -> usize {
    dev.framebuffer.iter().filter(|p| **p == c).count()
}

fn sv(x: i32, y: i32, d: i32) -> ScreenVertex {
    ScreenVertex { x: x * 256, y: y * 256, depth: d }
}

#[test]
fn rgba_packs_red_in_lowest_byte() {
    assert_eq!(rgba(1, 2, 3, 4), 0x04030201);
    assert_eq!(unpack_channel(0x04030201, 0), 1);
    assert_eq!(unpack_channel(0x04030201, 1), 2);
    assert_eq!(unpack_channel(0x04030201, 2), 3);
    assert_eq!(unpack_channel(0x04030201, 3), 4);
}

#[test]
fn new_device_has_cleared_buffers() {
    let dev = SoftwareDevice::new(3, 2);
    assert_eq!(dev.framebuffer.len(), 6);
    assert_eq!(dev.depthbuffer.len(), 6);
    assert!(dev.framebuffer.iter().all(|p| *p == 0));
    assert!(dev.depthbuffer.iter().all(|d| *d == DEPTH_CLEAR));
}

#[test]
fn clear_sets_every_pixel_and_far_depth() {
    let mut dev = SoftwareDevice::new(4, 3);
    dev.draw_pixel(1, 1, 7, -5);
    let c = rgba(30, 30, 30, 255);
    dev.clear(c);
    for y in 0..3 {
        for x in 0..4 {
            assert_eq!(px(&dev, x, y), c);
            assert_eq!(depth(&dev, x, y), DEPTH_CLEAR);
        }
    }
}

#[test]
fn draw_pixel_nearer_depth_writes_both_buffers() {
    let mut dev = SoftwareDevice::new(4, 4);
    dev.draw_pixel(2, 3, 11, 100);
    assert_eq!(px(&dev, 2, 3), 11);
    assert_eq!(depth(&dev, 2, 3), 100);
    dev.draw_pixel(2, 3, 12, 99);
    assert_eq!(px(&dev, 2, 3), 12);
    assert_eq!(depth(&dev, 2, 3), 99);
}

#[test]
fn draw_pixel_equal_or_farther_depth_keeps_both_buffers() {
    let mut dev = SoftwareDevice::new(4, 4);
    dev.draw_pixel(1, 0, 11, 50);
    dev.draw_pixel(1, 0, 12, 50);
    assert_eq!(px(&dev, 1, 0), 11);
    dev.draw_pixel(1, 0, 13, 51);
    assert_eq!(px(&dev, 1, 0), 11);
    assert_eq!(depth(&dev, 1, 0), 50);
    dev.draw_pixel(0, 0, 14, DEPTH_CLEAR);
    assert_eq!(px(&dev, 0, 0), 0);
}

#[test]
fn draw_pixel_out_of_bounds_is_ignored() {
    let mut dev = SoftwareDevice::new(2, 2);
    dev.draw_pixel(2, 0, 9, 0);
    dev.draw_pixel(0, 2, 9, 0);
    assert_eq!(count_color(&dev, 9), 0);
    assert!(dev.depthbuffer.iter().all(|d| *d == DEPTH_CLEAR));
}

#[test]
fn horizontal_line_colors_five_pixels() {
    let mut dev = SoftwareDevice::new(8, 8);
    let c = rgba(255, 255, 0, 255);
    dev.draw_line(0, 0, 4, 0, c);
    assert_eq!(count_color(&dev, c), 5);
    for x in 0..5 {
        assert_eq!(px(&dev, x, 0), c);
        assert_eq!(depth(&dev, x, 0), 0);
    }
}

#[test]
fn diagonal_line_visits_four_pixels() {
    let mut dev = SoftwareDevice::new(8, 8);
    let c = rgba(255, 255, 0, 255);
    dev.draw_line(0, 0, 3, 3, c);
    assert_eq!(count_color(&dev, c), 4);
    for k in 0..4 {
        assert_eq!(px(&dev, k, k), c);
    }
}

#[test]
fn steep_line_picks_nearest_pixels() {
    let mut dev = SoftwareDevice::new(4, 4);
    dev.draw_line(0, 0, 1, 3, 5);
    assert_eq!(count_color(&dev, 5), 4);
    assert_eq!(px(&dev, 0, 0), 5);
    assert_eq!(px(&dev, 0, 1), 5);
    assert_eq!(px(&dev, 1, 2), 5);
    assert_eq!(px(&dev, 1, 3), 5);
}

#[test]
fn reversed_line_covers_the_same_pixels() {
    let mut dev = SoftwareDevice::new(8, 8);
    dev.draw_line(4, 2, 0, 0, 5);
    assert_eq!(count_color(&dev, 5), 5);
    assert_eq!(px(&dev, 4, 2), 5);
    assert_eq!(px(&dev, 0, 0), 5);
}

#[test]
fn line_with_equal_endpoints_draws_one_pixel() {
    let mut dev = SoftwareDevice::new(4, 4);
    dev.draw_line(2, 2, 2, 2, 5);
    assert_eq!(count_color(&dev, 5), 1);
    assert_eq!(px(&dev, 2, 2), 5);
}

#[test]
fn line_leaving_the_target_is_clipped() {
    let mut dev = SoftwareDevice::new(3, 3);
    dev.draw_line(0, 1, 6, 1, 5);
    assert_eq!(count_color(&dev, 5), 3);
}

#[test]
fn line_does_not_cover_nearer_pixels() {
    let mut dev = SoftwareDevice::new(4, 1);
    dev.draw_pixel(1, 0, 9, -1);
    dev.draw_line(0, 0, 3, 0, 5);
    assert_eq!(px(&dev, 1, 0), 9);
    assert_eq!(count_color(&dev, 5), 3);
}

#[test]
fn triangle_pixel_near_vertex_takes_its_color() {
    let mut dev = SoftwareDevice::new(8, 8);
    let red = rgba(255, 0, 0, 255);
    let green = rgba(0, 255, 0, 255);
    let blue = rgba(0, 0, 255, 255);
    dev.draw_triangle(sv(0, 0, 0), sv(4, 0, 0), sv(0, 4, 0), red, green, blue);
    let c = px(&dev, 0, 0);
    assert_eq!(c, rgba(191, 31, 31, 255));
    assert!(unpack_channel(c, 0) > unpack_channel(c, 1));
    assert!(unpack_channel(c, 0) > unpack_channel(c, 2));
    assert_eq!(px(&dev, 5, 5), 0);
}

#[test]
fn triangle_centroid_mixes_equally() {
    let mut dev = SoftwareDevice::new(8, 8);
    let red = rgba(255, 0, 0, 255);
    let green = rgba(0, 255, 0, 255);
    let blue = rgba(0, 0, 255, 255);
    let v0 = ScreenVertex { x: 0, y: 0, depth: 0 };
    let v1 = ScreenVertex { x: 1152, y: 0, depth: 0 };
    let v2 = ScreenVertex { x: 0, y: 1152, depth: 0 };
    dev.draw_triangle(v0, v1, v2, red, green, blue);
    assert_eq!(px(&dev, 1, 1), rgba(85, 85, 85, 255));
}

#[test]
fn triangle_depth_is_interpolated_and_tested() {
    let mut dev = SoftwareDevice::new(8, 8);
    dev.draw_triangle(sv(0, 0, 100), sv(8, 0, 100), sv(0, 8, 100), 1, 1, 1);
    assert_eq!(depth(&dev, 0, 0), 100);
    dev.draw_triangle(sv(0, 0, 200), sv(8, 0, 200), sv(0, 8, 200), 2, 2, 2);
    assert_eq!(px(&dev, 0, 0), 1);
    dev.draw_triangle(sv(0, 0, 50), sv(8, 0, 50), sv(0, 8, 50), 3, 3, 3);
    assert_eq!(px(&dev, 0, 0), 3);
    assert_eq!(depth(&dev, 0, 0), 50);
}

#[test]
fn triangle_winding_does_not_matter() {
    let mut a = SoftwareDevice::new(8, 8);
    let mut b = SoftwareDevice::new(8, 8);
    a.draw_triangle(sv(0, 0, 0), sv(4, 0, 0), sv(0, 4, 0), 7, 7, 7);
    b.draw_triangle(sv(0, 0, 0), sv(0, 4, 0), sv(4, 0, 0), 7, 7, 7);
    assert_eq!(a.framebuffer, b.framebuffer);
    assert!(count_color(&a, 7) > 0);
}

#[test]
fn zero_area_triangle_writes_nothing() {
    let mut dev = SoftwareDevice::new(8, 8);
    dev.clear(4);
    dev.draw_triangle(sv(0, 0, 0), sv(2, 2, 0), sv(4, 4, 0), 9, 9, 9);
    assert_eq!(count_color(&dev, 4), 64);
    assert!(dev.depthbuffer.iter().all(|d| *d == DEPTH_CLEAR));
}

#[test]
fn triangle_off_screen_writes_nothing() {
    let mut dev = SoftwareDevice::new(4, 4);
    dev.draw_triangle(sv(-8, -8, 0), sv(-4, -8, 0), sv(-8, -4, 0), 9, 9, 9);
    dev.draw_triangle(sv(10, 10, 0), sv(14, 10, 0), sv(10, 14, 0), 9, 9, 9);
    assert_eq!(count_color(&dev, 9), 0);
}
