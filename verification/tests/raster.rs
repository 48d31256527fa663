use kraster2d::fixed::{Fixed, Vec2, Vec3};
use kraster2d::frame::Frame;
use kraster2d::pix::Color;
use kraster2d::rand::Krand;
use kraster2d::raster::{
    draw_triangle_solid, draw_triangle_textured, draw_triangle_vertex_color, Vertex,
};
use kraster2d::setup::{bbox_clamped, edge_function, is_top_left, signed_area, EPS};
use kraster2d::texture::Texture;

fn fx(v: f64) -> Fixed {
    Fixed::from_raw((v * 65536.0).round() as i32)
}

fn nearest_raw(v: f32) -> i32 {
    (v as f64 * 65536.0).round() as i32
}

fn v2(x: f64, y: f64) -> Vec2 {
    Vec2::new(fx(x), fx(y))
}

fn v3(x: f64, y: f64, z: f64) -> Vec3 {
    Vec3::new(fx(x), fx(y), fx(z))
}

fn painted(f: &Frame, c: Color) -> Vec<(usize, usize)> {
    let mut out = Vec::new();
    for y in 0..f.height() {
        for x in 0..f.width() {
            if f.pixels()[y * f.width() + x] == c.to_u32() {
                out.push((x, y));
            }
        }
    }
    out
}

#[test]
fn edge_function_basic_orientation_y_down() {
    let a = v2(0.0, 0.0);
    let b = v2(1.0, 0.0);
    let p_above = v2(0.0, -1.0);
    let p_below = v2(0.0, 1.0);
    assert!(edge_function(a, b, p_above) < 0);
    assert!(edge_function(a, b, p_below) > 0);
}

#[test]
fn signed_area_matches_edge_function() {
    let v0 = v2(10.0, 10.0);
    let v1 = v2(20.0, 10.0);
    let v2_ = v2(10.0, 20.0);
    assert_eq!(signed_area(v0, v1, v2_), edge_function(v0, v1, v2_));
    let v2_ = v2(15.0, 10.0);
    assert_eq!(signed_area(v0, v1, v2_), 0);
}

#[test]
fn bbox_is_clamped_and_ordered() {
    let v0 = v2(-5.1, -1.0);
    let v1 = v2(3.2, 4.7);
    let v2_ = v2(1000.0, 2.2);
    let (minx, miny, maxx, maxy) = bbox_clamped(v0, v1, v2_, 10, 8);
    assert!(0 <= minx && minx <= maxx && maxx < 10);
    assert!(0 <= miny && miny <= maxy && maxy < 8);
}

#[test]
fn topl_left_rule_y_down() {
    let a = v2(0.0, 0.0);
    let b = v2(10.0, 0.0);
    assert!(is_top_left(a, b));
    let b2 = v2(0.0, 10.0);
    assert!(!is_top_left(a, b2));
    let b3 = v2(0.0, -10.0);
    assert!(is_top_left(a, b3));
}

#[test]
fn edge_values_are_exact() {
    // one square pixel is 2^32 raw units
    let unit: i128 = 1 << 32;
    assert_eq!(edge_function(v2(0.0, 0.0), v2(1.0, 0.0), v2(0.0, 1.0)), unit);
    assert_eq!(edge_function(v2(0.0, 0.0), v2(1.0, 0.0), v2(7.0, -1.0)), -unit);
    assert_eq!(edge_function(v2(0.0, 0.0), v2(1.0, 0.0), v2(9.0, 0.0)), 0);
    assert_eq!(signed_area(v2(10.0, 10.0), v2(20.0, 10.0), v2(10.0, 20.0)), 100 * unit);
    assert_eq!(signed_area(v2(10.0, 10.0), v2(10.0, 20.0), v2(20.0, 10.0)), -100 * unit);
    assert_eq!(signed_area(v2(0.5, 0.25), v2(2.5, 0.25), v2(0.5, 1.0)), 3 * unit / 2);
    // the extremes of the format do not overflow
    let lo = Fixed::from_raw(i32::MIN);
    let hi = Fixed::from_raw(i32::MAX);
    let a = edge_function(Vec2::new(lo, lo), Vec2::new(hi, lo), Vec2::new(lo, hi));
    assert_eq!(a, (u32::MAX as i128) * (u32::MAX as i128));
    assert_eq!(EPS, 4294);
}

#[test]
fn bbox_values_are_exact() {
    assert_eq!(bbox_clamped(v2(-5.1, -1.0), v2(3.2, 4.7), v2(1000.0, 2.2), 10, 8), (0, 0, 9, 4));
    assert_eq!(bbox_clamped(v2(2.0, 2.0), v2(13.0, 2.0), v2(13.0, 13.0), 16, 16), (2, 2, 12, 12));
    assert_eq!(bbox_clamped(v2(2.25, 2.5), v2(3.75, 2.5), v2(3.0, 4.01), 16, 16), (2, 2, 3, 4));
    // beyond the right and the lower edge the range is empty
    assert_eq!(bbox_clamped(v2(20.0, 1.0), v2(30.0, 1.0), v2(20.0, 3.0), 8, 8), (20, 1, 7, 2));
    assert_eq!(bbox_clamped(v2(1.0, 9.5), v2(3.0, 9.5), v2(1.0, 12.0), 8, 8), (1, 9, 2, 7));
    // beyond the left and the upper edge too
    assert_eq!(bbox_clamped(v2(-9.0, 1.0), v2(-3.0, 1.0), v2(-9.0, 3.0), 8, 8), (0, 1, -4, 2));
    assert_eq!(bbox_clamped(v2(1.0, -9.0), v2(3.0, -9.0), v2(1.0, -0.5), 8, 8), (1, 0, 2, -1));
}

#[test]
fn top_left_of_level_and_upright_edges() {
    assert!(!is_top_left(v2(10.0, 0.0), v2(0.0, 0.0)));
    assert!(!is_top_left(v2(3.0, 3.0), v2(3.0, 3.0)));
    assert!(is_top_left(v2(3.0, 3.0), v2(2.0, 2.999)));
    assert!(!is_top_left(v2(3.0, 3.0), v2(9.0, 3.001)));
}

#[test]
fn solid_triangle_renders_some_pixels() {
    let mut f = Frame::new(32, 32);
    let c = Color::rgba(200, 50, 50, 255);
    let v0 = Vertex::new(v3(5.0, 5.0, 0.0));
    let v1 = Vertex::new(v3(25.0, 6.0, 0.0));
    let v2 = Vertex::new(v3(10.0, 20.0, 0.0));
    draw_triangle_solid(&mut f, v0, v1, v2, c);
    let mut count = 0;
    for &px in f.pixels() {
        if px == c.to_u32() {
            count += 1;
        }
    }
    assert!(count > 0);
}

#[test]
fn two_triangles_make_filled_rect_no_cracks() {
    let mut f = Frame::new(16, 16);
    let c = Color::rgba(80, 160, 200, 255);
    let a = v3(2.0, 2.0, 0.0);
    let b = v3(13.0, 2.0, 0.0);
    let d = v3(2.0, 13.0, 0.0);
    let cpt = v3(13.0, 13.0, 0.0);
    draw_triangle_solid(&mut f, Vertex::new(a), Vertex::new(b), Vertex::new(cpt), c);
    draw_triangle_solid(&mut f, Vertex::new(a), Vertex::new(cpt), Vertex::new(d), c);

    let mut ok = true;
    for y in 2..13 {
        for x in 2..13 {
            let idx = (y as usize) * f.width() + (x as usize);
            if f.pixels()[idx] != c.to_u32() {
                ok = false;
                break;
            }
        }
        if !ok {
            break;
        }
    }
    assert!(ok);
}

#[test]
fn vertex_color_matches_solid_when_all_equal() {
    let mut f_solid = Frame::new(32, 32);
    let mut f_interp = Frame::new(32, 32);
    let v0 = Vertex { pos: v3(4.0, 4.0, 0.0), uv: Vec2::zero(), color: [fx(1.0), fx(1.0), fx(1.0)] };
    let v1 = Vertex { pos: v3(28.0, 5.0, 0.0), uv: Vec2::zero(), color: [fx(1.0), fx(1.0), fx(1.0)] };
    let v2 = Vertex { pos: v3(10.0, 26.0, 0.0), uv: Vec2::zero(), color: [fx(1.0), fx(1.0), fx(1.0)] };
    let c = Color::rgba(255, 255, 255, 255);
    draw_triangle_solid(&mut f_solid, v0, v1, v2, c);
    draw_triangle_vertex_color(&mut f_interp, v0, v1, v2);
    assert_eq!(f_solid.pixels(), f_interp.pixels());
}

#[test]
fn textured_triangle_constant_uv_samples_texel() {
    let tex = Texture::from_rgba_le(
        vec![
            Color::rgba(255, 0, 0, 255).to_u32(),
            Color::rgba(0, 255, 0, 255).to_u32(),
            Color::rgba(0, 0, 255, 255).to_u32(),
            Color::rgba(255, 255, 255, 255).to_u32(),
        ],
        2,
        2,
    );
    let mut f = Frame::new(16, 16);
    let v0 = Vertex { pos: v3(2.0, 2.0, 0.0), uv: v2(0.0, 0.0), color: [fx(0.0); 3] };
    let v1 = Vertex { pos: v3(12.0, 2.0, 0.0), uv: v2(0.0, 0.0), color: [fx(0.0); 3] };
    let v2_ = Vertex { pos: v3(2.0, 12.0, 0.0), uv: v2(0.0, 0.0), color: [fx(0.0); 3] };
    draw_triangle_textured(&mut f, v0, v1, v2_, &tex);
    let red = Color::rgba(255, 0, 0, 255).to_u32();
    assert!(f.pixels().iter().any(|&px| px == red));
}

#[test]
fn watertight_square_is_painted_once() {
    let c1 = Color::rgba(10, 20, 30, 255);
    let c2 = Color::rgba(40, 50, 60, 255);
    let a = Vertex::new(v3(2.0, 2.0, 0.0));
    let b = Vertex::new(v3(13.0, 2.0, 0.0));
    let cpt = Vertex::new(v3(13.0, 13.0, 0.0));
    let d = Vertex::new(v3(2.0, 13.0, 0.0));
    let mut f1 = Frame::new(16, 16);
    draw_triangle_solid(&mut f1, a, b, cpt, c1);
    let mut f2 = Frame::new(16, 16);
    draw_triangle_solid(&mut f2, a, cpt, d, c2);
    let s1 = painted(&f1, c1);
    let s2 = painted(&f2, c2);
    assert_eq!(s1.len() + s2.len(), 121);
    for p in &s1 {
        assert!(!s2.contains(p));
        assert!((2..13).contains(&p.0) && (2..13).contains(&p.1));
    }
    for p in &s2 {
        assert!((2..13).contains(&p.0) && (2..13).contains(&p.1));
    }
    // the diagonal belongs to the first triangle, whose edge back to `a` is a left edge
    assert!(s1.contains(&(5, 5)));
    assert!(!s2.contains(&(5, 5)));
}

#[test]
fn winding_does_not_matter_off_the_edges() {
    let c = Color::rgba(1, 2, 3, 255);
    let v0 = Vertex::new(v3(5.25, 5.125, 0.0));
    let v1 = Vertex::new(v3(25.0625, 6.3125, 0.0));
    let v2 = Vertex::new(v3(10.1875, 20.4375, 0.0));
    let mut f1 = Frame::new(32, 32);
    let mut f2 = Frame::new(32, 32);
    draw_triangle_solid(&mut f1, v0, v1, v2, c);
    draw_triangle_solid(&mut f2, v0, v2, v1, c);
    assert_eq!(f1.pixels(), f2.pixels());
    assert!(!painted(&f1, c).is_empty());
}

#[test]
fn edge_pixels_go_to_one_winding() {
    // the centres of the diagonal pixels lie on the edge from (2, 2) to (13, 13)
    let c = Color::rgba(1, 2, 3, 255);
    let a = Vertex::new(v3(2.0, 2.0, 0.0));
    let b = Vertex::new(v3(13.0, 2.0, 0.0));
    let d = Vertex::new(v3(13.0, 13.0, 0.0));
    let mut f1 = Frame::new(16, 16);
    let mut f2 = Frame::new(16, 16);
    draw_triangle_solid(&mut f1, a, b, d, c);
    draw_triangle_solid(&mut f2, a, d, b, c);
    let s1 = painted(&f1, c);
    let s2 = painted(&f2, c);
    assert_eq!(s1.len(), 66);
    assert_eq!(s2.len(), 55);
    for p in &s2 {
        assert!(s1.contains(p));
    }
    for p in &s1 {
        assert_eq!(s2.contains(p), p.0 != p.1);
    }
    // naming another corner first changes nothing
    let mut f3 = Frame::new(16, 16);
    draw_triangle_solid(&mut f3, b, d, a, c);
    assert_eq!(f3.pixels(), f1.pixels());
}

#[test]
fn degenerate_triangle_paints_nothing() {
    let c = Color::rgba(9, 9, 9, 255);
    let mut f = Frame::new(8, 8);
    // collinear
    draw_triangle_solid(
        &mut f,
        Vertex::new(v3(1.0, 1.0, 0.0)),
        Vertex::new(v3(3.0, 3.0, 0.0)),
        Vertex::new(v3(6.0, 6.0, 0.0)),
        c,
    );
    assert!(painted(&f, c).is_empty());
    // a sliver round the centre of pixel (0, 0), doubled area 3600 raw units
    let p0 = Vec3::new(Fixed::from_raw(32768 - 30), Fixed::from_raw(32768 - 30), fx(0.0));
    let p1 = Vec3::new(Fixed::from_raw(32768 + 30), Fixed::from_raw(32768 - 30), fx(0.0));
    let p2 = Vec3::new(Fixed::from_raw(32768), Fixed::from_raw(32768 + 30), fx(0.0));
    assert!(3600 <= EPS);
    draw_triangle_solid(&mut f, Vertex::new(p0), Vertex::new(p1), Vertex::new(p2), c);
    assert!(painted(&f, c).is_empty());
}

#[test]
fn area_tolerance_boundary() {
    let c = Color::rgba(9, 9, 9, 255);
    // doubled area 4294 = 2 * 2147: at the tolerance, skipped
    let at = |h: i32| {
        let mut f = Frame::new(4, 4);
        let p0 = Vec3::new(Fixed::from_raw(32768 - 1), Fixed::from_raw(32768 - 1000), fx(0.0));
        let p1 = Vec3::new(Fixed::from_raw(32768 + 1), Fixed::from_raw(32768 - 1000), fx(0.0));
        let p2 = Vec3::new(Fixed::from_raw(32768), Fixed::from_raw(32768 - 1000 + h), fx(0.0));
        let a = signed_area(
            Vec2::new(p0.x, p0.y),
            Vec2::new(p1.x, p1.y),
            Vec2::new(p2.x, p2.y),
        );
        draw_triangle_solid(&mut f, Vertex::new(p0), Vertex::new(p1), Vertex::new(p2), c);
        (a, painted(&f, c))
    };
    let (a, s) = at(2147);
    assert_eq!(a, 4294);
    assert_eq!(a, EPS);
    assert!(s.is_empty());
    let (a, s) = at(2148);
    assert_eq!(a, 4296);
    assert_eq!(s, vec![(0, 0)]);
}

#[test]
fn out_of_view_triangle_paints_nothing() {
    let c = Color::rgba(7, 7, 7, 255);
    let mut f = Frame::new(8, 8);
    draw_triangle_solid(
        &mut f,
        Vertex::new(v3(20.0, 20.0, 0.0)),
        Vertex::new(v3(30.0, 20.0, 0.0)),
        Vertex::new(v3(20.0, 30.0, 0.0)),
        c,
    );
    draw_triangle_solid(
        &mut f,
        Vertex::new(v3(-20.0, -20.0, 0.0)),
        Vertex::new(v3(-3.0, -20.0, 0.0)),
        Vertex::new(v3(-20.0, -3.0, 0.0)),
        c,
    );
    assert!(painted(&f, c).is_empty());
    let (minx, _, maxx, _) = bbox_clamped(v2(20.0, 20.0), v2(30.0, 20.0), v2(20.0, 30.0), 8, 8);
    assert!(minx > maxx);
    let (minx, miny, maxx, maxy) = bbox_clamped(v2(1.0, 1.0), v2(3.0, 1.0), v2(1.0, 3.0), 0, 0);
    assert_eq!((minx, miny, maxx, maxy), (1, 1, -1, -1));
    let mut empty = Frame::new(0, 0);
    draw_triangle_solid(
        &mut empty,
        Vertex::new(v3(1.0, 1.0, 0.0)),
        Vertex::new(v3(3.0, 1.0, 0.0)),
        Vertex::new(v3(1.0, 3.0, 0.0)),
        c,
    );
    assert!(empty.pixels().is_empty());
}

#[test]
fn single_pixel_triangle() {
    let c = Color::rgba(5, 6, 7, 255);
    // inside pixel (3, 2), round its centre
    let mut f = Frame::new(8, 8);
    draw_triangle_solid(
        &mut f,
        Vertex::new(v3(3.125, 2.125, 0.0)),
        Vertex::new(v3(3.875, 2.125, 0.0)),
        Vertex::new(v3(3.5, 2.875, 0.0)),
        c,
    );
    assert_eq!(painted(&f, c), vec![(3, 2)]);
    assert_eq!(
        bbox_clamped(v2(3.125, 2.125), v2(3.875, 2.125), v2(3.5, 2.875), 8, 8),
        (3, 2, 3, 2)
    );
    // inside pixel (3, 2), but beside its centre
    let mut g = Frame::new(8, 8);
    draw_triangle_solid(
        &mut g,
        Vertex::new(v3(3.0625, 2.0625, 0.0)),
        Vertex::new(v3(3.375, 2.0625, 0.0)),
        Vertex::new(v3(3.0625, 2.375, 0.0)),
        c,
    );
    assert!(painted(&g, c).is_empty());
}

#[test]
fn vertex_colors_blend_and_quantize() {
    // red, green and blue corners
    let v0 = Vertex { pos: v3(0.0, 0.0, 0.0), uv: Vec2::zero(), color: [fx(1.0), fx(0.0), fx(0.0)] };
    let v1 = Vertex { pos: v3(8.0, 0.0, 0.0), uv: Vec2::zero(), color: [fx(0.0), fx(1.0), fx(0.0)] };
    let v2 = Vertex { pos: v3(0.0, 8.0, 0.0), uv: Vec2::zero(), color: [fx(0.0), fx(0.0), fx(1.0)] };
    let mut f = Frame::new(8, 8);
    draw_triangle_vertex_color(&mut f, v0, v1, v2);
    // centre (0.5, 0.5): weights 7/8, 1/16, 1/16
    assert_eq!(Color::from_u32(f.pixels()[0]), Color::rgba(223, 16, 16, 255));
    // centre (2.5, 1.5): weights 1/2, 5/16, 3/16
    assert_eq!(Color::from_u32(f.pixels()[8 + 2]), Color::rgba(128, 80, 48, 255));
    // outside the triangle
    assert_eq!(f.pixels()[7 * 8 + 7], 0);
    // channels outside [0, 1] are held at the ends
    let w0 = Vertex { pos: v3(0.0, 0.0, 0.0), uv: Vec2::zero(), color: [fx(2.0), fx(-1.0), fx(0.5)] };
    let w1 = Vertex { pos: v3(8.0, 0.0, 0.0), uv: Vec2::zero(), color: [fx(2.0), fx(-1.0), fx(0.5)] };
    let w2 = Vertex { pos: v3(0.0, 8.0, 0.0), uv: Vec2::zero(), color: [fx(2.0), fx(-1.0), fx(0.5)] };
    let mut g = Frame::new(8, 8);
    draw_triangle_vertex_color(&mut g, w0, w1, w2);
    assert_eq!(Color::from_u32(g.pixels()[0]), Color::rgba(255, 0, 128, 255));
}

#[test]
fn textured_triangle_maps_texels() {
    let red = Color::rgba(255, 0, 0, 255);
    let green = Color::rgba(0, 255, 0, 255);
    let blue = Color::rgba(0, 0, 255, 255);
    let white = Color::rgba(255, 255, 255, 255);
    let tex = Texture::from_rgba_le(
        vec![red.to_u32(), green.to_u32(), blue.to_u32(), white.to_u32()],
        2,
        2,
    );
    let v0 = Vertex { pos: v3(0.0, 0.0, 0.0), uv: v2(0.0, 0.0), color: [fx(0.0); 3] };
    let v1 = Vertex { pos: v3(8.0, 0.0, 0.0), uv: v2(1.0, 0.0), color: [fx(0.0); 3] };
    let v2_ = Vertex { pos: v3(0.0, 8.0, 0.0), uv: v2(0.0, 1.0), color: [fx(0.0); 3] };
    let mut f = Frame::new(8, 8);
    draw_triangle_textured(&mut f, v0, v1, v2_, &tex);
    assert_eq!(Color::from_u32(f.pixels()[0]), red);
    assert_eq!(Color::from_u32(f.pixels()[6]), green);
    assert_eq!(Color::from_u32(f.pixels()[6 * 8]), blue);
    // u = 3.5 / 8 is below one half, u = 4.5 / 8 above
    assert_eq!(Color::from_u32(f.pixels()[3]), red);
    assert_eq!(Color::from_u32(f.pixels()[4]), green);
}

#[test]
fn nearest_sampling_corners_and_clamp() {
    let px = vec![
        Color::rgba(255, 0, 0, 255).to_u32(),
        Color::rgba(0, 255, 0, 255).to_u32(),
        Color::rgba(0, 0, 255, 255).to_u32(),
        Color::rgba(255, 255, 255, 255).to_u32(),
    ];
    let tex = Texture::from_rgba_le(px, 2, 2);
    let tl = tex.sample_nearest(v2(0.0, 0.0));
    let tr = tex.sample_nearest(v2(1.0, 0.0));
    let bl = tex.sample_nearest(v2(0.0, 1.0));
    let br = tex.sample_nearest(v2(1.0, 1.0));
    assert_eq!(tl, Color::rgba(255, 0, 0, 255));
    assert_eq!(tr, Color::rgba(0, 255, 0, 255));
    assert_eq!(bl, Color::rgba(0, 0, 255, 255));
    assert_eq!(br, Color::rgba(255, 255, 255, 255));

    let tl2 = tex.sample_nearest(v2(-1.0, -1.0));
    assert_eq!(tl2, Color::rgba(255, 0, 0, 255));
}

#[test]
fn nearest_sampling_rounds_half_up() {
    let px: Vec<u32> = (0..12).collect();
    let tex = Texture::from_rgba_le(px, 4, 3);
    assert_eq!(tex.width(), 4);
    assert_eq!(tex.height(), 3);
    // u * 3 + 0.5: 1/6 lands on texel 1
    assert_eq!(tex.sample_nearest(v2(0.16, 0.0)), Color::from_u32(0));
    assert_eq!(tex.sample_nearest(v2(0.17, 0.0)), Color::from_u32(1));
    assert_eq!(tex.sample_nearest(v2(0.5, 0.0)), Color::from_u32(2));
    assert_eq!(tex.sample_nearest(v2(2.0, 0.25)), Color::from_u32(4 + 3));
    assert_eq!(tex.sample_nearest(v2(0.0, 0.75)), Color::from_u32(8));
}

#[test]
fn new_and_clear_and_set_pixel() {
    let mut f = Frame::new(3, 2);
    assert_eq!(f.width(), 3);
    assert_eq!(f.height(), 2);

    let red = Color::rgba(255, 0, 0, 255);
    f.clear(red);
    for &px in f.pixels() {
        assert_eq!(px, red.to_u32());
    }

    let c = Color::rgba(1, 2, 3, 255);
    f.set_pixel(1, 1, c);
    let idx = f.width() + 1;
    assert_eq!(f.pixels()[idx], c.to_u32());
    assert_eq!(f.surface().get_pixel(1, 1), Some(c));
}

#[test]
fn fixed_floor_and_ceil() {
    assert_eq!(fx(-5.1).floor(), -6);
    assert_eq!(fx(-5.1).ceil(), -5);
    assert_eq!(fx(4.7).floor(), 4);
    assert_eq!(fx(4.7).ceil(), 5);
    assert_eq!(fx(3.0).floor(), 3);
    assert_eq!(fx(3.0).ceil(), 3);
    assert_eq!(Fixed::from_int(-7).raw, -7 * 65536);
    assert_eq!(Fixed::one().raw, 65536);
    assert_eq!(Fixed::zero().raw, 0);
}

fn inside(p: [(i128, i128); 3], x: i128, y: i128) -> bool {
    let e = |a: (i128, i128), b: (i128, i128), q: (i128, i128)| {
        (b.0 - a.0) * (q.1 - a.1) - (b.1 - a.1) * (q.0 - a.0)
    };
    let tl = |a: (i128, i128), b: (i128, i128)| b.1 - a.1 < 0 || (b.1 == a.1 && b.0 > a.0);
    let area = e(p[0], p[1], p[2]);
    if area.abs() <= 4294 {
        return false;
    }
    let s = if area < 0 { -1 } else { 1 };
    let c = (x * 65536 + 32768, y * 65536 + 32768);
    let pass = |a, b| {
        let w = s * e(a, b, c);
        if tl(a, b) {
            w >= 0
        } else {
            w > 0
        }
    };
    pass(p[1], p[2]) && pass(p[2], p[0]) && pass(p[0], p[1])
}

#[test]
fn coverage_matches_the_inside_test() {
    let mut rng = Krand::new(2024);
    let c = Color::rgba(9, 8, 7, 255);
    for round in 0..300 {
        // corners on a grid of eighths, some outside the frame, some on pixel centres
        let mut raw = [(0i32, 0i32); 3];
        for r in raw.iter_mut() {
            let step = if round % 3 == 0 { 32768 } else { 8192 };
            r.0 = (rng.range_u32(0..40 * 65536 / step) as i32) * step as i32 - 8 * 65536;
            r.1 = (rng.range_u32(0..40 * 65536 / step) as i32) * step as i32 - 8 * 65536;
        }
        let vs: Vec<Vertex> = raw
            .iter()
            .map(|r| Vertex::new(Vec3::new(Fixed::from_raw(r.0), Fixed::from_raw(r.1), fx(0.0))))
            .collect();
        let mut f = Frame::new(24, 20);
        draw_triangle_solid(&mut f, vs[0], vs[1], vs[2], c);
        let p = [
            (raw[0].0 as i128, raw[0].1 as i128),
            (raw[1].0 as i128, raw[1].1 as i128),
            (raw[2].0 as i128, raw[2].1 as i128),
        ];
        for y in 0..20 {
            for x in 0..24 {
                let lit = f.pixels()[y * 24 + x] == c.to_u32();
                assert_eq!(lit, inside(p, x as i128, y as i128), "round {} at {},{}", round, x, y);
            }
        }
    }
}

#[test]
fn shared_edges_are_painted_once() {
    // fans of triangles round a point, all of one winding: every pixel of
    // the fan is painted by exactly one triangle
    let mut rng = Krand::new(77);
    for _ in 0..40 {
        let hub = (rng.range_u32(8..24) as f64 + 0.5, rng.range_u32(8..24) as f64 + 0.5);
        let rim = [
            (2.0, 2.0),
            (16.0, 1.5),
            (30.0, 2.0),
            (30.5, 16.0),
            (30.0, 30.0),
            (16.0, 30.5),
            (2.0, 30.0),
            (1.5, 16.0),
        ];
        let mut count = vec![0u32; 32 * 32];
        for k in 0..8 {
            let a = rim[k];
            let b = rim[(k + 1) % 8];
            let mut f = Frame::new(32, 32);
            let c = Color::rgba(1, 1, 1, 255);
            draw_triangle_solid(
                &mut f,
                Vertex::new(v3(hub.0, hub.1, 0.0)),
                Vertex::new(v3(a.0, a.1, 0.0)),
                Vertex::new(v3(b.0, b.1, 0.0)),
                c,
            );
            for (i, &px) in f.pixels().iter().enumerate() {
                if px == c.to_u32() {
                    count[i] += 1;
                }
            }
        }
        assert!(count.iter().all(|&n| n <= 1));
        // the hub's own pixel, whose centre is the hub, is painted
        let hx = hub.0 as usize;
        let hy = hub.1 as usize;
        assert_eq!(count[hy * 32 + hx], 1);
        for y in 3..30 {
            for x in 3..30 {
                assert_eq!(count[y * 32 + x], 1, "gap at {},{}", x, y);
            }
        }
    }
}

#[test]
fn single_precision_numbers_round_to_the_grid() {
    let cases: [(f32, i32); 14] = [
        (0.0, 0),
        (-0.0, 0),
        (1.0, 65536),
        (-1.0, -65536),
        (0.5, 32768),
        (5.1, 334234),
        (-5.1, -334234),
        (1.0 / 131072.0, 1),
        (-1.0 / 131072.0, -1),
        (1.4 / 131072.0, 1),
        (0.9 / 131072.0, 0),
        (32767.99, 2147483008),
        (32768.0, i32::MAX),
        (-32768.0, i32::MIN),
    ];
    for (v, raw) in cases {
        assert_eq!(Fixed::from_single_bits(v.to_bits()).raw, raw, "{}", v);
        assert_eq!(nearest_raw(v), raw, "{}", v);
    }
    assert_eq!(Fixed::from_single_bits(f32::NAN.to_bits()).raw, 0);
    assert_eq!(Fixed::from_single_bits(0xffc0_0001).raw, 0);
    assert_eq!(Fixed::from_single_bits(f32::INFINITY.to_bits()).raw, i32::MAX);
    assert_eq!(Fixed::from_single_bits(f32::NEG_INFINITY.to_bits()).raw, i32::MIN);
    assert_eq!(Fixed::from_single_bits(f32::MAX.to_bits()).raw, i32::MAX);
    assert_eq!(Fixed::from_single_bits(f32::MIN.to_bits()).raw, i32::MIN);
    assert_eq!(Fixed::from_single_bits(f32::MIN_POSITIVE.to_bits()).raw, 0);
    assert_eq!(Fixed::from_single_bits(1).raw, 0);
    assert_eq!(Fixed::from_single_bits(0x8000_0001).raw, 0);
    // every exponent, with a few fractions, against the float computation
    let mut rng = Krand::new(5);
    for e in 0u32..=255 {
        for k in 0..64 {
            let f = match k {
                0 => 0,
                1 => 0x7f_ffff,
                2 => 0x40_0000,
                _ => rng.next_u32() & 0x7f_ffff,
            };
            for s in 0u32..2 {
                let bits = (s << 31) | (e << 23) | f;
                let v = f32::from_bits(bits);
                assert_eq!(Fixed::from_single_bits(bits).raw, nearest_raw(v), "bits {:#x}", bits);
            }
        }
    }
    // numbers round the grid points and the half-way points
    for _ in 0..20000 {
        let raw = rng.next_u32() as i32 >> (rng.next_u32() % 24);
        let v = (raw as f64 / 65536.0) as f32;
        for d in [-1i32, 0, 1] {
            let bits = (v.to_bits() as i32).wrapping_add(d) as u32;
            let w = f32::from_bits(bits);
            assert_eq!(Fixed::from_single_bits(bits).raw, nearest_raw(w), "bits {:#x}", bits);
        }
        let h = ((raw as f64 + 0.5) / 65536.0) as f32;
        assert_eq!(Fixed::from_single_bits(h.to_bits()).raw, nearest_raw(h));
    }
}
