use kraster2d::draw::{clear, draw_circle, draw_line, draw_rect, fill_rect, set_pixel};
use kraster2d::pix::{Color, Surface};

fn lit(s: &Surface, c: Color) -> Vec<(i32, i32)> {
    let mut out = Vec::new();
    for y in 0..s.height() as i32 {
        for x in 0..s.width() as i32 {
            if s.get_pixel(x, y) == Some(c) {
                out.push((x, y));
            }
        }
    }
    out
}

#[test]
fn color_pack_unpack_roundtrip() {
    let c = Color::rgba(10, 20, 30, 40);
    let p = c.to_u32();
    let d = Color::from_u32(p);
    assert_eq!(c, d);
    assert_eq!(p, u32::from_le_bytes([10, 20, 30, 40]));
    assert_eq!(Color::from_u32(0x04030201), Color::rgba(1, 2, 3, 4));
}

#[test]
fn surface_new_dimensions_and_clear() {
    let mut s = Surface::new(4, 3);
    assert_eq!(s.width(), 4);
    assert_eq!(s.height(), 3);

    let red = Color::rgba(255, 0, 0, 255);
    s.clear(red);
    for &px in s.pixels() {
        assert_eq!(px, red.to_u32());
    }
    assert_eq!(s.pixels().len(), 12);
    let t = s.clone();
    assert_eq!(t.pixels(), s.pixels());
}

#[test]
fn set_pixel_in_bounds_and_oob_ignored() {
    let mut s = Surface::new(2, 2);
    let c = Color::rgba(1, 2, 3, 4);
    s.set_pixel(1, 1, c);
    assert_eq!(s.get_pixel(1, 1), Some(c));

    s.set_pixel(-1, 0, c);
    s.set_pixel(0, -1, c);
    s.set_pixel(2, 0, c);
    s.set_pixel(0, 2, c);
    assert_eq!(s.get_pixel(0, 0), Some(Color::from_u32(0)));
    assert_eq!(s.get_pixel(2, 0), None);
    assert_eq!(s.get_pixel(0, -1), None);
    assert_eq!(s.pixels(), &[0, 0, 0, c.to_u32()]);
}

#[test]
fn wrappers_delegate_to_surface() {
    let mut s = Surface::new(2, 2);
    let c = Color::rgba(1, 2, 3, 255);
    clear(&mut s, c);
    for &px in s.pixels() {
        assert_eq!(px, c.to_u32());
    }
    let d = Color::rgba(4, 5, 6, 255);
    set_pixel(&mut s, 1, 1, d);
    assert_eq!(s.get_pixel(1, 1), Some(d));
}

#[test]
fn line_horizontal() {
    let mut s = Surface::new(5, 3);
    let c = Color::rgba(255, 0, 0, 255);
    draw_line(&mut s, 0, 1, 4, 1, c);
    for x in 0..5 {
        assert_eq!(s.get_pixel(x, 1), Some(c));
    }
    for y in [0, 2] {
        for x in 0..5 {
            assert_eq!(s.get_pixel(x, y), Some(Color::from_u32(0)));
        }
    }
}

#[test]
fn line_vertical() {
    let mut s = Surface::new(3, 5);
    let c = Color::rgba(0, 255, 0, 255);
    draw_line(&mut s, 1, 0, 1, 4, c);
    for y in 0..5 {
        assert_eq!(s.get_pixel(1, y), Some(c));
    }
}

#[test]
fn line_diagonal_positive_slope() {
    let mut s = Surface::new(5, 5);
    let c = Color::rgba(0, 0, 255, 255);
    draw_line(&mut s, 0, 0, 4, 4, c);
    for i in 0..5 {
        assert_eq!(s.get_pixel(i, i), Some(c));
    }
}

#[test]
fn line_diagonal_negative_slope() {
    let mut s = Surface::new(5, 5);
    let c = Color::rgba(200, 200, 0, 255);
    draw_line(&mut s, 0, 4, 4, 0, c);
    for i in 0..5 {
        assert_eq!(s.get_pixel(i, 4 - i), Some(c));
    }
}

#[test]
fn line_forward_backward_equivalence() {
    let mut a = Surface::new(8, 8);
    let mut b = Surface::new(8, 8);
    let c = Color::rgba(123, 45, 67, 255);
    draw_line(&mut a, 1, 2, 7, 6, c);
    draw_line(&mut b, 7, 6, 1, 2, c);

    assert_eq!(a.pixels(), b.pixels());
}

#[test]
fn line_out_of_bounds_clipped_by_set_pixel() {
    let mut s = Surface::new(5, 3);
    let c = Color::rgba(255, 0, 255, 255);
    draw_line(&mut s, -2, 1, 6, 1, c);
    for x in 0..5 {
        assert_eq!(s.get_pixel(x, 1), Some(c));
    }
}

#[test]
fn rect_outline_basic() {
    let mut s = Surface::new(5, 5);
    let c = Color::rgba(10, 20, 30, 255);
    draw_rect(&mut s, 1, 1, 3, 3, c);
    for (x, y) in [(1, 1), (3, 1), (1, 3), (3, 3)] {
        assert_eq!(s.get_pixel(x, y), Some(c));
    }
    assert_eq!(s.get_pixel(2, 2), Some(Color::from_u32(0)));
    assert_eq!(lit(&s, c).len(), 8);
}

#[test]
fn rect_fill_basic_and_area() {
    let mut s = Surface::new(6, 4);
    let c = Color::rgba(200, 50, 50, 255);
    fill_rect(&mut s, 1, 1, 3, 2, c);
    let mut cnt = 0;
    for y in 0..4 {
        for x in 0..6 {
            if s.get_pixel(x, y) == Some(c) {
                cnt += 1;
            }
        }
    }
    assert_eq!(cnt, 3 * 2);
}

#[test]
fn rect_negative_size_normalizes() {
    let mut a = Surface::new(6, 4);
    let mut b = Surface::new(6, 4);
    let c = Color::rgba(0, 200, 0, 255);
    fill_rect(&mut a, 4, 3, -3, -2, c);
    fill_rect(&mut b, 1, 1, 3, 2, c);
    assert_eq!(a.pixels(), b.pixels());
}

#[test]
fn rect_clip_out_of_bounds() {
    let mut s = Surface::new(4, 3);
    let c = Color::rgba(50, 50, 200, 255);
    fill_rect(&mut s, -2, -1, 6, 4, c);
    for y in 0..3 {
        for x in 0..4 {
            assert_eq!(s.get_pixel(x, y), Some(c));
        }
    }
}

#[test]
fn circle_radius_zero_sets_center() {
    let mut s = Surface::new(5, 5);
    let c = Color::rgba(100, 100, 100, 255);
    draw_circle(&mut s, 2, 2, 0, c);
    assert_eq!(s.get_pixel(2, 2), Some(c));
    assert_eq!(lit(&s, c), vec![(2, 2)]);
}

#[test]
fn circle_cardinals_for_small_radius() {
    let mut s = Surface::new(7, 7);
    let c = Color::rgba(10, 200, 10, 255);
    draw_circle(&mut s, 3, 3, 2, c);
    assert_eq!(s.get_pixel(3 + 2, 3), Some(c));
    assert_eq!(s.get_pixel(3 - 2, 3), Some(c));
    assert_eq!(s.get_pixel(3, 3 + 2), Some(c));
    assert_eq!(s.get_pixel(3, 3 - 2), Some(c));
}

#[test]
fn circle_symmetry_and_clipping() {
    let mut s = Surface::new(5, 5);
    let c = Color::rgba(200, 10, 10, 255);
    draw_circle(&mut s, 0, 0, 3, c);
    assert_eq!(s.get_pixel(0, 3), Some(c));
    assert_eq!(s.get_pixel(3, 0), Some(c));
}

#[test]
fn line_points_round_half_up() {
    let c = Color::rgba(1, 1, 1, 255);
    // one step in y over four in x: the half-way point goes up
    let mut s = Surface::new(6, 3);
    draw_line(&mut s, 0, 0, 4, 1, c);
    assert_eq!(lit(&s, c), vec![(0, 0), (1, 0), (2, 1), (3, 1), (4, 1)]);
    // steep
    let mut t = Surface::new(3, 6);
    draw_line(&mut t, 0, 0, 1, 4, c);
    assert_eq!(lit(&t, c), vec![(0, 0), (0, 1), (1, 2), (1, 3), (1, 4)]);
    // a single point
    let mut u = Surface::new(3, 3);
    draw_line(&mut u, 1, 1, 1, 1, c);
    assert_eq!(lit(&u, c), vec![(1, 1)]);
    // far outside, in any direction
    let mut v = Surface::new(3, 3);
    draw_line(&mut v, i32::MIN, 1, i32::MIN + 5, 1, c);
    draw_line(&mut v, i32::MAX, i32::MAX, i32::MAX - 3, i32::MAX - 7, c);
    assert!(lit(&v, c).is_empty());
}

#[test]
fn circle_points_match_midpoint_rule() {
    let c = Color::rgba(2, 2, 2, 255);
    for r in 0..12i32 {
        let n = 2 * r + 5;
        let mut s = Surface::new(n as usize, n as usize);
        let cx = r + 2;
        draw_circle(&mut s, cx, cx, r, c);
        for y in 0..n {
            for x in 0..n {
                let u = (x - cx).abs();
                let v = (y - cx).abs();
                let (a, b) = if u >= v { (u, v) } else { (v, u) };
                let on = if r == 0 {
                    a == 0
                } else {
                    a * (a - 1) + b * b <= r * r && r * r < a * (a + 1) + b * b
                };
                assert_eq!(s.get_pixel(x, y) == Some(c), on, "r={} x={} y={}", r, x, y);
            }
        }
    }
    let mut s = Surface::new(4, 4);
    draw_circle(&mut s, 1, 1, -1, c);
    draw_circle(&mut s, i32::MAX, i32::MIN, 5, c);
    assert!(lit(&s, c).is_empty());
}

#[test]
fn rect_outline_of_negative_and_thin_sizes() {
    let c = Color::rgba(3, 3, 3, 255);
    let mut a = Surface::new(6, 6);
    let mut b = Surface::new(6, 6);
    draw_rect(&mut a, 5, 4, -4, -3, c);
    draw_rect(&mut b, 1, 1, 4, 3, c);
    assert_eq!(a.pixels(), b.pixels());
    assert_eq!(lit(&a, c).len(), 10);
    let mut t = Surface::new(6, 6);
    draw_rect(&mut t, 1, 2, 4, 1, c);
    assert_eq!(lit(&t, c), vec![(1, 2), (2, 2), (3, 2), (4, 2)]);
    let mut z = Surface::new(6, 6);
    draw_rect(&mut z, 1, 2, 0, 3, c);
    fill_rect(&mut z, 1, 2, 3, 0, c);
    assert!(lit(&z, c).is_empty());
}
