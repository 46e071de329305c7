use giraffics::canvas::{out_of_bounds, Canvas};
use giraffics::color::{add_with_ceiling, mul_with_ceiling, Color};
use giraffics::coord::{CanvasCoordinate, ScreenCoordinate, WorldCoordinate};
use giraffics::fixed::{Fixed, Triple, FP_MAX};
use giraffics::light::{directional_intensity, Light};
use giraffics::shape::Sphere;

fn fx(units: i64) -> Fixed {
    Fixed::from_int(units)
}

fn fxr(raw: i64) -> Fixed {
    Fixed::from_raw(raw)
}

fn world(x: i64, y: i64, z: i64) -> WorldCoordinate {
    WorldCoordinate::new(fx(x), fx(y), fx(z))
}

#[test]
fn fixed_arithmetic_is_exact_on_representable_values() {
    assert_eq!(fx(2).add(fx(3)), fx(5));
    assert_eq!(fx(2).sub(fx(3)), fx(-1));
    assert_eq!(fx(6).mul(fxr(500_000)), fx(3));
    assert_eq!(fx(7).div(fx(2)), fxr(3_500_000));
    assert_eq!(fx(4).sqrt(), fx(2));
    assert_eq!(fxr(2_250_000).sqrt(), fxr(1_500_000));
    assert_eq!(fx(-3).neg(), fx(3));
}

#[test]
fn fixed_arithmetic_saturates_instead_of_wrapping() {
    let top = Fixed::from_raw(FP_MAX);
    assert_eq!(top.add(Fixed::one()).raw, FP_MAX);
    assert_eq!(top.neg().sub(Fixed::one()).raw, -FP_MAX);
    // division by zero saturates with the sign of the dividend
    assert_eq!(fx(1).div(Fixed::zero()).raw, FP_MAX);
    assert_eq!(fx(-1).div(Fixed::zero()).raw, -FP_MAX);
    assert_eq!(Fixed::zero().div(Fixed::zero()).raw, 0);
    // the square root of a negative value is taken as zero
    assert_eq!(fx(-4).sqrt(), Fixed::zero());
}

#[test]
fn fixed_to_count_truncates_and_floors_at_zero() {
    assert_eq!(fxr(2_700_000).to_count(), 2);
    assert_eq!(fxr(-5_000_000).to_count(), 0);
    assert_eq!(fx(640).to_count(), 640);
}

#[test]
fn vector_operations() {
    let a = world(1, 2, 3);
    let b = world(4, -5, 6);
    assert_eq!(a.add(b), world(5, -3, 9));
    assert_eq!(a.sub(b), world(-3, 7, -3));
    assert_eq!(a.mul(fx(2)), world(2, 4, 6));
    assert_eq!(a.div(fx(2)), WorldCoordinate::new(fxr(500_000), fx(1), fxr(1_500_000)));
    assert_eq!(a.dot(b), fx(4 - 10 + 18));
    assert_eq!(world(0, 3, 4).abs(), fx(5));
    assert_eq!(WorldCoordinate::from_tuple(Triple::new(fx(1), fx(2), fx(3))), a);
}

#[test]
fn sphere_intersection_from_the_origin() {
    // camera (0,0,0), sphere center (0,0,5) radius 1, ray direction (0,0,1):
    // the roots are t1 = 6 and t2 = 4.
    let sphere = Sphere::new(fx(1), world(0, 0, 5), Color::rgb(255, 0, 0));
    let roots = sphere.intersect_ray(world(0, 0, 0), world(0, 0, 1));
    assert_eq!(roots, Some((fx(6), fx(4))));
    // the nearest valid hit t = 4 gives hit point (0, 0, 4)
    let point = world(0, 0, 0).add(world(0, 0, 1).mul(fx(4)));
    assert_eq!(point, world(0, 0, 4));
}

#[test]
fn sphere_miss_has_no_roots() {
    let sphere = Sphere::new(fx(1), world(0, 0, 5), Color::rgb(255, 0, 0));
    assert_eq!(sphere.intersect_ray(world(0, 0, 0), world(0, 1, 0)), None);
}

#[test]
fn directional_light_along_the_normal_contributes_its_intensity() {
    let normal = world(0, 0, 1);
    let half = fxr(500_000);
    assert_eq!(directional_intensity(normal, normal, half), half);
    // a light direction with n_dot_l <= 0 contributes exactly zero
    assert_eq!(directional_intensity(world(0, 0, -1), normal, half), Fixed::zero());
    assert_eq!(directional_intensity(world(1, 0, 0), normal, half), Fixed::zero());
}

#[test]
fn light_kinds_contribute_as_specified() {
    let normal = world(0, 0, 1);
    let point = world(0, 0, 0);
    assert_eq!(
        Light::ambient(fxr(200_000)).illumination_at_point(point, normal),
        fxr(200_000)
    );
    // a point light straight above the point acts along the normal
    assert_eq!(
        Light::point(world(0, 0, 7), fxr(600_000)).illumination_at_point(point, normal),
        fxr(600_000)
    );
    assert_eq!(
        Light::direction(normal, fx(1)).illumination_at_point(point, normal),
        fx(1)
    );
}

#[test]
fn canvas_center_maps_to_the_middle_pixel() {
    let canvas = Canvas::new(640, 480);
    assert_eq!(
        canvas.convert(CanvasCoordinate::new(0, 0)),
        ScreenCoordinate::OnScreen { x: 320, y: 240 }
    );
}

#[test]
fn coordinates_outside_the_half_extent_map_off_screen() {
    let canvas = Canvas::new(4, 4);
    assert_eq!(canvas.convert(CanvasCoordinate::new(2, 0)), ScreenCoordinate::OffScreen);
    assert_eq!(canvas.convert(CanvasCoordinate::new(-3, 0)), ScreenCoordinate::OffScreen);
    assert_eq!(canvas.convert(CanvasCoordinate::new(0, -2)), ScreenCoordinate::OffScreen);
    assert_eq!(canvas.convert(CanvasCoordinate::new(0, 3)), ScreenCoordinate::OffScreen);
}

#[test]
fn off_screen_pixel_writes_leave_the_buffer_untouched() {
    let canvas = Canvas::new(4, 4);
    let mut frame = vec![7u8; 4 * 4 * 4];
    canvas.put_pixel(&mut frame, CanvasCoordinate::new(2, 0), Color::rgb(1, 2, 3));
    assert_eq!(frame, vec![7u8; 4 * 4 * 4]);
}

#[test]
fn on_screen_pixel_writes_overwrite_exactly_four_bytes() {
    let canvas = Canvas::new(4, 4);
    let mut frame = vec![7u8; 4 * 4 * 4];
    canvas.put_pixel(&mut frame, CanvasCoordinate::new(0, 0), Color::rgb(1, 2, 3));
    // (0,0) lands on screen pixel (2,2): byte offset (2*4+2)*4 = 40
    let mut expected = vec![7u8; 4 * 4 * 4];
    expected[40..44].copy_from_slice(&[1, 2, 3, 255]);
    assert_eq!(frame, expected);
}

#[test]
fn out_of_bounds_checks_all_four_edges() {
    assert!(!out_of_bounds(0, 0, 4, 4));
    assert!(!out_of_bounds(3, 3, 4, 4));
    assert!(out_of_bounds(-1, 0, 4, 4));
    assert!(out_of_bounds(0, -1, 4, 4));
    assert!(out_of_bounds(4, 0, 4, 4));
    assert!(out_of_bounds(0, 4, 4, 4));
}

#[test]
fn iter_pixels_visits_every_coordinate_once() {
    let canvas = Canvas::new(2, 2);
    let mut it = canvas.iter_pixels();
    let mut seen = Vec::new();
    loop {
        match it.next() {
            Some(c) => seen.push((c.x, c.y)),
            None => break,
        }
    }
    assert_eq!(seen, vec![(-1, 0), (0, 0), (-1, 1), (0, 1)]);
}

#[test]
fn color_channels_and_constructors() {
    let c = Color::rgba(10, 20, 30, 40);
    assert_eq!((c.red(), c.green(), c.blue(), c.alpha()), (10, 20, 30, 40));
    assert_eq!(Color::rgb(1, 2, 3).alpha(), 255);
    assert_eq!(c.as_array(), &[10, 20, 30, 40]);
    assert_eq!(Color::black(), Color::rgb(0, 0, 0));
}

#[test]
fn color_scaling_saturates() {
    // channel 200 scaled by 2.0 is 255, never wrapped below 200
    assert_eq!(mul_with_ceiling(200, fx(2)), 255);
    assert!(mul_with_ceiling(200, fx(2)) >= 200);
    assert_eq!(mul_with_ceiling(200, fxr(500_000)), 100);
    assert_eq!(mul_with_ceiling(200, fx(-1)), 0);
    let scaled = Color::rgb(200, 100, 0).scale(fx(2));
    assert_eq!(scaled, Color::rgba(255, 200, 0, 255));
}

#[test]
fn color_addition_saturates() {
    assert_eq!(add_with_ceiling(200, 100), 255);
    assert_eq!(add_with_ceiling(20, 30), 50);
    let sum = Color::rgba(250, 1, 2, 3).add(Color::rgba(10, 1, 2, 3));
    assert_eq!(sum, Color::rgba(255, 2, 4, 6));
}

#[test]
fn from_rgb_tuple_clamps_into_channels() {
    let c = Color::from_rgb_tuple(Triple::new(fx(300), fx(-5), fxr(255_900_000)));
    assert_eq!(c, Color::rgb(255, 0, 255));
}

#[test]
fn iter_pixels_of_an_empty_canvas_is_finished() {
    let mut it = Canvas::new(0, 3).iter_pixels();
    assert_eq!(it.next(), None);
}
