use shot_engine::frame::Frame;
use shot_engine::geometry::{square_around, Point, Region, DEFAULT_TARGET_RADIUS};

#[test]
fn frame_keeps_what_it_was_made_of() {
    let data: Vec<u8> = (0u8..24).collect();
    let frame = Frame::new(Point { x: -3, y: 8 }, 3, 2, data.clone()).unwrap();
    assert_eq!(frame.origin(), Point { x: -3, y: 8 });
    assert_eq!(frame.width(), 3);
    assert_eq!(frame.height(), 2);
    assert_eq!(frame.data(), &data[..]);
}

#[test]
fn frame_refuses_a_buffer_of_another_size() {
    assert!(Frame::new(Point { x: 0, y: 0 }, 3, 2, vec![0u8; 23]).is_none());
    assert!(Frame::new(Point { x: 0, y: 0 }, 3, 2, vec![0u8; 25]).is_none());
    assert!(Frame::new(Point { x: 0, y: 0 }, 3, 2, vec![0u8; 6]).is_none());
    assert!(Frame::new(Point { x: 0, y: 0 }, 3, 2, vec![0u8; 24]).is_some());
}

#[test]
fn frame_refuses_an_empty_side() {
    assert!(Frame::new(Point { x: 0, y: 0 }, 0, 2, vec![]).is_none());
    assert!(Frame::new(Point { x: 0, y: 0 }, 2, 0, vec![]).is_none());
    assert!(Frame::new(Point { x: 0, y: 0 }, 0, 0, vec![]).is_none());
}

#[test]
fn frame_refuses_pixels_without_screen_coordinates() {
    assert!(Frame::new(Point { x: i32::MAX, y: 0 }, 1, 1, vec![0u8; 4]).is_some());
    assert!(Frame::new(Point { x: i32::MAX, y: 0 }, 2, 1, vec![0u8; 8]).is_none());
    assert!(Frame::new(Point { x: 0, y: i32::MAX }, 1, 1, vec![0u8; 4]).is_some());
    assert!(Frame::new(Point { x: 0, y: i32::MAX }, 1, 2, vec![0u8; 8]).is_none());
    assert!(Frame::new(Point { x: i32::MIN, y: i32::MIN }, 2, 2, vec![0u8; 16]).is_some());
}

#[test]
fn frame_refuses_sizes_whose_product_wraps() {
    // 65536 * 65536 * 4 is 2^34, which a 32-bit product would wrap to zero.
    assert!(Frame::new(Point { x: 0, y: 0 }, 65536, 65536, vec![]).is_none());
    assert!(Frame::new(Point { x: 0, y: 0 }, u32::MAX, u32::MAX, vec![0u8; 4]).is_none());
}

#[test]
fn point_offset_adds_both_coordinates() {
    let p = Point { x: 10, y: -20 };
    assert_eq!(p.offset(5, 7), Some(Point { x: 15, y: -13 }));
    assert_eq!(p.offset(-10, 20), Some(Point { x: 0, y: 0 }));
    assert_eq!(p.offset(0, 0), Some(p));
}

#[test]
fn point_offset_refuses_what_leaves_the_screen_coordinates() {
    let p = Point { x: i32::MAX, y: i32::MIN };
    assert_eq!(p.offset(0, 0), Some(p));
    assert_eq!(p.offset(1, 0), None);
    assert_eq!(p.offset(0, -1), None);
    assert_eq!(p.offset(-1, 1), Some(Point { x: i32::MAX - 1, y: i32::MIN + 1 }));
    assert_eq!(Point { x: 0, y: 0 }.offset(i64::MAX, 0), None);
    assert_eq!(Point { x: -1, y: 0 }.offset(i64::MIN, 0), None);
    assert_eq!(
        Point { x: i32::MIN, y: 0 }.offset(u32::MAX as i64, 0),
        Some(Point { x: i32::MAX, y: 0 })
    );
}

#[test]
fn square_around_has_the_centre_in_its_middle() {
    assert_eq!(
        square_around(Point { x: 750, y: 1104 }, DEFAULT_TARGET_RADIUS),
        Some(Region { x: 670, y: 1024, width: 160, height: 160 })
    );
    assert_eq!(
        square_around(Point { x: 5, y: 5 }, 10),
        Some(Region { x: -5, y: -5, width: 20, height: 20 })
    );
    assert_eq!(
        square_around(Point { x: 1, y: 2 }, 0),
        Some(Region { x: 1, y: 2, width: 0, height: 0 })
    );
}

#[test]
fn square_around_refuses_what_cannot_be_written() {
    assert_eq!(square_around(Point { x: i32::MIN, y: 0 }, 1), None);
    assert_eq!(square_around(Point { x: 0, y: i32::MIN }, 1), None);
    assert_eq!(square_around(Point { x: i32::MAX, y: i32::MAX }, 0x8000_0000), None);
    assert_eq!(
        square_around(Point { x: i32::MAX, y: i32::MAX }, 0x7fff_ffff),
        Some(Region { x: 0, y: 0, width: 0xffff_fffe, height: 0xffff_fffe })
    );
    assert_eq!(
        square_around(Point { x: i32::MIN + 3, y: i32::MIN + 3 }, 3),
        Some(Region { x: i32::MIN, y: i32::MIN, width: 6, height: 6 })
    );
}
