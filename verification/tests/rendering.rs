use giraffics::ast::Definition;
use giraffics::color::Color;
use giraffics::coord::WorldCoordinate;
use giraffics::fixed::{Fixed, Triple};
use giraffics::light::Light;
use giraffics::parser::Parser;
use giraffics::scene::{load_scene, Scene, ViewPort};
use giraffics::shape::Sphere;

fn fx(units: i64) -> Fixed {
    Fixed::from_int(units)
}

fn fxr(raw: i64) -> Fixed {
    Fixed::from_raw(raw)
}

fn triple(a: i64, b: i64, c: i64) -> Triple {
    Triple::new(fx(a), fx(b), fx(c))
}

fn world(x: i64, y: i64, z: i64) -> WorldCoordinate {
    WorldCoordinate::new(fx(x), fx(y), fx(z))
}

#[test]
fn load_scene_defaults() {
    let scene = load_scene(vec![]);
    assert_eq!(scene.canvas.width, 1000);
    assert_eq!(scene.canvas.height, 700);
    assert_eq!(scene.title, b"Giraffics".to_vec());
    assert_eq!(scene.camera_position, world(0, 0, 0));
    assert_eq!(scene.viewport, ViewPort { depth: 1, width: 1, height: 1 });
    assert_eq!(scene.background_color, Color::black());
    assert!(scene.lights.is_empty());
    assert!(scene.spheres.is_empty());
}

#[test]
fn load_scene_applies_window_overrides() {
    let scene = load_scene(vec![Definition::Window {
        title: Some(b"Demo".to_vec()),
        width: Some(fxr(640_700_000)),
        height: Some(fx(480)),
    }]);
    // width truncates toward zero
    assert_eq!(scene.canvas.width, 640);
    assert_eq!(scene.canvas.height, 480);
    assert_eq!(scene.title, b"Demo".to_vec());
}

#[test]
fn load_scene_later_window_overwrites_earlier() {
    let scene = load_scene(vec![
        Definition::Window { title: Some(b"One".to_vec()), width: Some(fx(100)), height: None },
        Definition::Window { title: Some(b"Two".to_vec()), width: None, height: Some(fx(50)) },
    ]);
    assert_eq!(scene.title, b"Two".to_vec());
    assert_eq!(scene.canvas.width, 100);
    assert_eq!(scene.canvas.height, 50);
}

#[test]
fn load_scene_ignores_degenerate_dimensions() {
    // a width that truncates below one pixel keeps the default
    let scene = load_scene(vec![Definition::Window {
        title: None,
        width: Some(fxr(500_000)),
        height: Some(fx(-3)),
    }]);
    assert_eq!(scene.canvas.width, 1000);
    assert_eq!(scene.canvas.height, 700);
}

#[test]
fn load_scene_keeps_lights_and_spheres_in_order() {
    let scene = load_scene(vec![
        Definition::AmbientLight { intensity: fxr(200_000) },
        Definition::Sphere { color: triple(255, 0, 0), center: triple(0, -1, 3), radius: fx(1) },
        Definition::PointLight { intensity: fxr(600_000), position: triple(2, 1, 0) },
        Definition::DirectionLight { intensity: fx(1), direction: triple(1, 4, 4) },
    ]);
    assert_eq!(
        scene.lights,
        vec![
            Light::Ambient { intensity: fxr(200_000) },
            Light::Point { position: world(2, 1, 0), intensity: fxr(600_000) },
            Light::Direction { direction: world(1, 4, 4), intensity: fx(1) },
        ]
    );
    assert_eq!(
        scene.spheres,
        vec![Sphere::new(fx(1), world(0, -1, 3), Color::rgb(255, 0, 0))]
    );
    assert_eq!(scene.canvas(), scene.canvas);
}

fn small_scene(spheres: Vec<Sphere>, lights: Vec<Light>) -> Scene {
    Scene::new(
        world(0, 0, 0),
        ViewPort { depth: 1, width: 1, height: 1 },
        giraffics::canvas::Canvas::new(2, 2),
        Color::black(),
        b"t".to_vec(),
    )
    .with_lights(lights)
    .with_spheres(spheres)
}

#[test]
fn render_with_no_spheres_paints_the_background() {
    let scene = small_scene(vec![], vec![]);
    let mut frame = vec![9u8; 2 * 2 * 4];
    scene.render(&mut frame);
    let mut expected = Vec::new();
    for _ in 0..4 {
        expected.extend_from_slice(&[0, 0, 0, 255]);
    }
    assert_eq!(frame, expected);
}

#[test]
fn render_center_ray_hits_the_sphere() {
    // the ray through canvas (0,0) is (0,0,1); it hits the sphere ahead of
    // the camera, and a half-strength ambient light scales the color.
    let sphere = Sphere::new(fx(1), world(0, 0, 3), Color::rgb(200, 100, 0));
    let scene = small_scene(vec![sphere], vec![Light::Ambient { intensity: fxr(500_000) }]);
    let mut frame = vec![0u8; 2 * 2 * 4];
    scene.render(&mut frame);
    // canvas (0,0) lands on screen pixel (1,1): bytes 12..16
    assert_eq!(&frame[12..16], &[100, 50, 0, 127]);
}

#[test]
fn trace_ray_picks_the_nearest_sphere() {
    let near = Sphere::new(fx(1), world(0, 0, 3), Color::rgb(10, 0, 0));
    let far = Sphere::new(fx(1), world(0, 0, 8), Color::rgb(0, 10, 0));
    // full-strength ambient light: the color is the sphere's own
    let lights = vec![Light::Ambient { intensity: fx(1) }];
    let scene_a = small_scene(vec![near, far], lights.clone());
    let scene_b = small_scene(vec![far, near], lights);
    let d = world(0, 0, 1);
    assert_eq!(scene_a.trace_ray(d, Fixed::one(), None), Color::rgb(10, 0, 0));
    assert_eq!(scene_b.trace_ray(d, Fixed::one(), None), Color::rgb(10, 0, 0));
}

#[test]
fn trace_ray_respects_the_range() {
    let sphere = Sphere::new(fx(1), world(0, 0, 3), Color::rgb(10, 0, 0));
    let scene = small_scene(vec![sphere], vec![Light::Ambient { intensity: fx(1) }]);
    let d = world(0, 0, 1);
    // both roots (t=2 and t=4) lie beyond an upper bound of 1
    assert_eq!(scene.trace_ray(d, Fixed::one(), Some(fx(1))), Color::black());
    // and below a lower bound of 5
    assert_eq!(scene.trace_ray(d, fx(5), None), Color::black());
}

#[test]
fn parsed_scene_renders_end_to_end() {
    let text: &[u8] = b"window {
width = 2
height = 2
}
light {
type = ambient
intensity = 1
}
sphere {
color = (0, 200, 0)
center = (0, 0, 3)
radius = 1
}
";
    let defs = Parser::new(text).parse().expect("scene should parse");
    let scene = load_scene(defs);
    assert_eq!((scene.canvas.width, scene.canvas.height), (2, 2));
    let mut frame = vec![0u8; 2 * 2 * 4];
    scene.render(&mut frame);
    assert_eq!(&frame[12..16], &[0, 200, 0, 255]);
}
