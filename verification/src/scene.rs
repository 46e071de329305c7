//! The scene and its renderer.
//!
//! A `Scene` is built exactly once from validated definitions and read-only
//! thereafter.  Rendering is a pure function of the scene: every canvas
//! coordinate is converted to a world-space ray through the viewport, the
//! nearest sphere hit within `[t_min, t_max]` is found (ties go to the
//! sphere earliest in list order), lighting is accumulated over all lights,
//! and the pixel's four bytes are overwritten.  The fixed-point arithmetic
//! is total, so a successfully loaded scene cannot fail to render.

use vstd::prelude::*;
use crate::fixed::{Fixed, FP_SCALE, FP_MAX, fp_clip, fp_mul_spec, fp_div_spec, fp_add_spec,
    fp_count_spec};
use crate::coord::{WorldCoordinate, CanvasCoordinate, ScreenCoordinate, abs_spec, sub_spec,
    add_vec_spec, scale_vec_spec, div_vec_spec};
use crate::canvas::{Canvas, DEFAULT_WIDTH, DEFAULT_HEIGHT, canvas_wf, canvas_to_screen_spec,
    write_pixel_spec};
use crate::color::{Color, scale_spec};
use crate::light::{Light, illumination_spec};
use crate::shape::{Sphere, intersect_spec};
use crate::ast::Definition;

verus! {

/// The virtual rectangle in front of the camera through which rays are
/// cast; the default is the unit square at depth one.
#[derive(Clone, Copy, Debug, PartialEq, Eq, Structural)]
pub struct ViewPort {
    pub depth: usize,
    pub width: usize,
    pub height: usize,
}

impl Default for ViewPort {
    fn default() -> (r: Self)
        ensures
            r == (ViewPort { depth: 1, width: 1, height: 1 }),
    {
        ViewPort { depth: 1, width: 1, height: 1 }
    }
}

/// The immutable aggregate the renderer reads: camera, viewport, canvas
/// size, background color, spheres and lights in file order, and title.
pub struct Scene {
    pub camera_position: WorldCoordinate,
    pub viewport: ViewPort,
    pub canvas: Canvas,
    pub spheres: Vec<Sphere>,
    pub background_color: Color,
    pub lights: Vec<Light>,
    pub title: Vec<u8>,
}

/// A count scaled into fixed point, saturating.
pub open spec fn usize_fp(v: int) -> int {
    fp_clip(v * (FP_SCALE as int))
}

fn usize_to_fixed(v: usize) -> (r: Fixed)
    ensures
        r@ == usize_fp(v as int),
{
    if (v as u64) > 9_223_372_036_854u64 {
        proof {
            assert(v * (FP_SCALE as int) > FP_MAX as int) by (nonlinear_arith)
                requires
                    v >= 9_223_372_036_855,
                    FP_SCALE == 1_000_000,
            ;
        }
        Fixed { raw: FP_MAX }
    } else {
        Fixed::from_int(v as i64)
    }
}

fn isize_to_fixed(v: isize) -> (r: Fixed)
    ensures
        r@ == fp_clip(v as int * (FP_SCALE as int)),
{
    if (v as i64) > 9_223_372_036_854i64 {
        proof {
            assert(v * (FP_SCALE as int) > FP_MAX as int) by (nonlinear_arith)
                requires
                    v >= 9_223_372_036_855,
                    FP_SCALE == 1_000_000,
            ;
        }
        Fixed { raw: FP_MAX }
    } else if (v as i64) < -9_223_372_036_854i64 {
        proof {
            assert(v * (FP_SCALE as int) < -(FP_MAX as int)) by (nonlinear_arith)
                requires
                    v <= -9_223_372_036_855,
                    FP_SCALE == 1_000_000,
            ;
        }
        Fixed { raw: -FP_MAX }
    } else {
        Fixed::from_int(v as i64)
    }
}

/// The viewport projection: a canvas coordinate becomes the direction
/// `(x * vw/cw, y * vh/ch, depth)` from the camera through the viewport.
pub open spec fn canvas_to_world_spec(s: Scene, coord: CanvasCoordinate) -> WorldCoordinate {
    let ratio_x = fp_div_spec(usize_fp(s.viewport.width as int), usize_fp(s.canvas.width as int));
    let ratio_y = fp_div_spec(
        usize_fp(s.viewport.height as int),
        usize_fp(s.canvas.height as int),
    );
    WorldCoordinate {
        x: Fixed { raw: fp_mul_spec(fp_clip(coord.x as int * (FP_SCALE as int)), ratio_x) as i64 },
        y: Fixed { raw: fp_mul_spec(fp_clip(coord.y as int * (FP_SCALE as int)), ratio_y) as i64 },
        z: Fixed { raw: usize_fp(s.viewport.depth as int) as i64 },
    }
}

/// Whether a ray parameter lies within `[t_min, t_max]`; `None` stands for
/// an unbounded upper end.
pub open spec fn in_range(t: int, t_min: int, t_max: Option<int>) -> bool {
    t_min <= t && (match t_max {
        Some(m) => t <= m,
        None => true,
    })
}

/// Take `t` on sphere `j` as the new best hit only if it is in range and
/// strictly nearer than the best so far; ties keep the earlier sphere.
pub open spec fn better(
    best: Option<(int, int)>,
    j: int,
    t: int,
    t_min: int,
    t_max: Option<int>,
) -> Option<(int, int)> {
    if in_range(t, t_min, t_max) && (match best {
        None => true,
        Some(b) => t < b.1,
    }) {
        Some((j, t))
    } else {
        best
    }
}

/// Walk the spheres in list order from index `i`, offering each sphere's
/// two roots (first root first) to `better`.
pub open spec fn trace_fold(
    spheres: Seq<Sphere>,
    camera: WorldCoordinate,
    d: WorldCoordinate,
    t_min: int,
    t_max: Option<int>,
    i: int,
    best: Option<(int, int)>,
) -> Option<(int, int)>
    decreases spheres.len() - i,
{
    if i < 0 || i >= spheres.len() {
        best
    } else {
        let b1 = match intersect_spec(spheres[i], camera, d) {
            None => best,
            Some(p) => better(better(best, i, p.0, t_min, t_max), i, p.1, t_min, t_max),
        };
        trace_fold(spheres, camera, d, t_min, t_max, i + 1, b1)
    }
}

/// The color a ray yields: the nearest hit sphere's color scaled by the
/// summed lighting at the hit point, or the background color on a miss.
pub open spec fn trace_ray_spec(
    s: Scene,
    d: WorldCoordinate,
    t_min: int,
    t_max: Option<int>,
) -> Color {
    match trace_fold(s.spheres@, s.camera_position, d, t_min, t_max, 0, None) {
        None => s.background_color,
        Some(hit) => {
            let sphere = s.spheres@[hit.0];
            let point = add_vec_spec(s.camera_position, scale_vec_spec(d, hit.1));
            let normal_dir = sub_spec(point, sphere.center);
            let normal = div_vec_spec(normal_dir, abs_spec(normal_dir));
            let total = lighting_fold(s.lights@, point, normal, 0, 0);
            scale_spec(sphere.color, total)
        },
    }
}

/// Sum the lights' contributions in list order, saturating like every
/// fixed-point addition.
pub open spec fn lighting_fold(
    lights: Seq<Light>,
    point: WorldCoordinate,
    normal: WorldCoordinate,
    i: int,
    acc: int,
) -> int
    decreases lights.len() - i,
{
    if i < 0 || i >= lights.len() {
        acc
    } else {
        lighting_fold(
            lights,
            point,
            normal,
            i + 1,
            fp_add_spec(acc, illumination_spec(lights[i], point, normal)),
        )
    }
}

/// The color rendered at one canvas coordinate: the ray through the
/// viewport, traced from `t_min = 1` with no upper bound.
pub open spec fn pixel_color_spec(s: Scene, coord: CanvasCoordinate) -> Color {
    trace_ray_spec(s, canvas_to_world_spec(s, coord), FP_SCALE as int, None)
}

/// The canvas coordinate whose screen image is the pixel `(sx, sy)`.
pub open spec fn render_coord(c: Canvas, sx: int, sy: int) -> CanvasCoordinate {
    CanvasCoordinate {
        x: (sx - c.width as int / 2) as isize,
        y: (c.height as int / 2 - sy) as isize,
    }
}

/// The four bytes of pixel `(sx, sy)` in a row-major RGBA frame hold `c`.
pub open spec fn frame_pixel_is(frame: Seq<u8>, w: int, sx: int, sy: int, c: Color) -> bool {
    let i = (sy * w + sx) * 4;
    &&& frame[i] == c.0[0]
    &&& frame[i + 1] == c.0[1]
    &&& frame[i + 2] == c.0[2]
    &&& frame[i + 3] == c.0[3]
}

pub open spec fn best_view(o: Option<(usize, Fixed)>) -> Option<(int, int)> {
    match o {
        Some(p) => Some((p.0 as int, p.1@)),
        None => None,
    }
}

/// One candidate hit offered to the running best.
fn consider(
    best: Option<(usize, Fixed)>,
    j: usize,
    t: Fixed,
    t_min: Fixed,
    t_max: Option<Fixed>,
) -> (r: Option<(usize, Fixed)>)
    ensures
        best_view(r) == better(
            best_view(best),
            j as int,
            t@,
            t_min@,
            crate::validate::opt_fixed_view(t_max),
        ),
        r == best || (r matches Some(p) && p.0 == j),
{
    let ok_range = t_min.le(t) && (match t_max {
        Some(m) => t.le(m),
        None => true,
    });
    let nearer = match best {
        None => true,
        Some(b) => t.lt(b.1),
    };
    if ok_range && nearer {
        Some((j, t))
    } else {
        best
    }
}

impl Scene {
    pub fn new(
        camera_position: WorldCoordinate,
        viewport: ViewPort,
        canvas: Canvas,
        background_color: Color,
        title: Vec<u8>,
    ) -> (s: Scene)
        ensures
            s.camera_position == camera_position,
            s.viewport == viewport,
            s.canvas == canvas,
            s.background_color == background_color,
            s.title == title,
            s.spheres@ == Seq::<Sphere>::empty(),
            s.lights@ == Seq::<Light>::empty(),
    {
        let s = Scene {
            camera_position,
            viewport,
            canvas,
            spheres: Vec::new(),
            background_color,
            lights: Vec::new(),
            title,
        };
        proof {
            assert(s.spheres@ =~= Seq::<Sphere>::empty());
            assert(s.lights@ =~= Seq::<Light>::empty());
        }
        s
    }

    /// The scene with its lights replaced.
    pub fn with_lights(self, lights: Vec<Light>) -> (s: Scene)
        ensures
            s == (Scene { lights, ..self }),
    {
        Scene { lights, ..self }
    }

    /// The scene with its spheres replaced.
    pub fn with_spheres(self, spheres: Vec<Sphere>) -> (s: Scene)
        ensures
            s == (Scene { spheres, ..self }),
    {
        Scene { spheres, ..self }
    }

    pub fn canvas(&self) -> (c: Canvas)
        ensures
            c == self.canvas,
    {
        self.canvas
    }

    /// The viewport projection of a canvas coordinate.
    pub fn convert(&self, coord: CanvasCoordinate) -> (r: WorldCoordinate)
        ensures
            r == canvas_to_world_spec(*self, coord),
    {
        let ratio_x = usize_to_fixed(self.viewport.width).div(usize_to_fixed(self.canvas.width));
        let ratio_y = usize_to_fixed(self.viewport.height).div(
            usize_to_fixed(self.canvas.height),
        );
        let x = isize_to_fixed(coord.x).mul(ratio_x);
        let y = isize_to_fixed(coord.y).mul(ratio_y);
        let z = usize_to_fixed(self.viewport.depth);
        WorldCoordinate::new(x, y, z)
    }

    /// The summed contribution of every light at `point`.
    pub fn compute_lighting(&self, point: WorldCoordinate, normal: WorldCoordinate) -> (r: Fixed)
        ensures
            r@ == lighting_fold(self.lights@, point, normal, 0, 0),
    {
        let n: usize = self.lights.len();
        let mut total = Fixed::zero();
        let mut i: usize = 0;
        while i < n
            invariant
                i <= n,
                n == self.lights@.len(),
                lighting_fold(self.lights@, point, normal, 0, 0) == lighting_fold(
                    self.lights@,
                    point,
                    normal,
                    i as int,
                    total@,
                ),
            decreases n - i,
        {
            let light = self.lights[i];
            total = total.add(light.illumination_at_point(point, normal));
            i = i + 1;
        }
        total
    }

    /// Trace one ray: the nearest in-range hit over all spheres decides
    /// the color; ties on `t` go to the sphere earliest in list order.
    pub fn trace_ray(
        &self,
        viewport_coord: WorldCoordinate,
        t_min: Fixed,
        t_max: Option<Fixed>,
    ) -> (r: Color)
        ensures
            r == trace_ray_spec(
                *self,
                viewport_coord,
                t_min@,
                crate::validate::opt_fixed_view(t_max),
            ),
    {
        let ghost tmaxv = crate::validate::opt_fixed_view(t_max);
        let n: usize = self.spheres.len();
        let mut best: Option<(usize, Fixed)> = None;
        let mut i: usize = 0;
        while i < n
            invariant
                i <= n,
                n == self.spheres@.len(),
                tmaxv == crate::validate::opt_fixed_view(t_max),
                match best {
                    Some(p) => p.0 < n,
                    None => true,
                },
                trace_fold(
                    self.spheres@,
                    self.camera_position,
                    viewport_coord,
                    t_min@,
                    tmaxv,
                    0,
                    None,
                ) == trace_fold(
                    self.spheres@,
                    self.camera_position,
                    viewport_coord,
                    t_min@,
                    tmaxv,
                    i as int,
                    best_view(best),
                ),
            decreases n - i,
        {
            let ghost best0 = best_view(best);
            let sphere = self.spheres[i];
            proof {
                assert(sphere == self.spheres@[i as int]);
            }
            match sphere.intersect_ray(self.camera_position, viewport_coord) {
                None => {
                    proof {
                        assert(trace_fold(
                            self.spheres@,
                            self.camera_position,
                            viewport_coord,
                            t_min@,
                            tmaxv,
                            i as int,
                            best0,
                        ) == trace_fold(
                            self.spheres@,
                            self.camera_position,
                            viewport_coord,
                            t_min@,
                            tmaxv,
                            i + 1,
                            best0,
                        ));
                    }
                },
                Some(roots) => {
                    let (t1, t2) = roots;
                    best = consider(best, i, t1, t_min, t_max);
                    best = consider(best, i, t2, t_min, t_max);
                    proof {
                        assert(best_view(best) == better(
                            better(best0, i as int, t1@, t_min@, tmaxv),
                            i as int,
                            t2@,
                            t_min@,
                            tmaxv,
                        ));
                        assert(trace_fold(
                            self.spheres@,
                            self.camera_position,
                            viewport_coord,
                            t_min@,
                            tmaxv,
                            i as int,
                            best0,
                        ) == trace_fold(
                            self.spheres@,
                            self.camera_position,
                            viewport_coord,
                            t_min@,
                            tmaxv,
                            i + 1,
                            best_view(best),
                        ));
                    }
                },
            }
            i = i + 1;
        }
        match best {
            None => self.background_color,
            Some(hit) => {
                let (bi, bt) = hit;
                let sphere = self.spheres[bi];
                let point = self.camera_position.add(viewport_coord.mul(bt));
                let normal_dir = point.sub(sphere.center);
                let normal = normal_dir.div(normal_dir.abs());
                let light_intensity = self.compute_lighting(point, normal);
                sphere.color.scale(light_intensity)
            },
        }
    }

    /// Compute and write one pixel of the frame.
    fn render_pixel(&self, frame: &mut Vec<u8>, sx: usize, sy: usize)
        requires
            canvas_wf(self.canvas),
            sx < self.canvas.width,
            sy < self.canvas.height,
            old(frame)@.len() == self.canvas.width * self.canvas.height * 4,
        ensures
            final(frame)@ == write_pixel_spec(
                old(frame)@,
                (sy * self.canvas.width + sx) * 4,
                pixel_color_spec(*self, render_coord(self.canvas, sx as int, sy as int)),
            ),
            final(frame)@.len() == old(frame)@.len(),
    {
        let half_w: usize = self.canvas.width / 2;
        let half_h: usize = self.canvas.height / 2;
        let coord = CanvasCoordinate::new(
            (sx as isize) - (half_w as isize),
            (half_h as isize) - (sy as isize),
        );
        proof {
            assert(coord == render_coord(self.canvas, sx as int, sy as int));
        }
        let viewport_coord = self.convert(coord);
        let color = self.trace_ray(viewport_coord, Fixed::one(), None);
        proof {
            assert(color == pixel_color_spec(
                *self,
                render_coord(self.canvas, sx as int, sy as int),
            ));
            assert(canvas_to_screen_spec(self.canvas, coord) == ScreenCoordinate::OnScreen {
                x: sx,
                y: sy,
            });
        }
        self.canvas.put_pixel(frame, coord, color);
    }

    /// Render the whole frame: every pixel of the `width*height*4`-byte
    /// RGBA buffer is overwritten exactly once with its traced color.
    pub fn render(&self, frame: &mut Vec<u8>)
        requires
            old(frame)@.len() == self.canvas.width * self.canvas.height * 4,
            canvas_wf(self.canvas),
        ensures
            final(frame)@.len() == old(frame)@.len(),
            forall|sx: int, sy: int|
                0 <= sx < self.canvas.width && 0 <= sy < self.canvas.height
                    ==> #[trigger] frame_pixel_is(
                    final(frame)@,
                    self.canvas.width as int,
                    sx,
                    sy,
                    pixel_color_spec(*self, render_coord(self.canvas, sx, sy)),
                ),
    {
        let w: usize = self.canvas.width();
        let h: usize = self.canvas.height();
        let mut sy: usize = 0;
        while sy < h
            invariant
                sy <= h,
                w == self.canvas.width,
                h == self.canvas.height,
                canvas_wf(self.canvas),
                frame@.len() == self.canvas.width * self.canvas.height * 4,
                forall|x2: int, y2: int|
                    0 <= x2 < w && 0 <= y2 < sy ==> #[trigger] frame_pixel_is(
                        frame@,
                        w as int,
                        x2,
                        y2,
                        pixel_color_spec(*self, render_coord(self.canvas, x2, y2)),
                    ),
            decreases h - sy,
        {
            let mut sx: usize = 0;
            while sx < w
                invariant
                    sy < h,
                    sx <= w,
                    w == self.canvas.width,
                    h == self.canvas.height,
                    canvas_wf(self.canvas),
                    frame@.len() == self.canvas.width * self.canvas.height * 4,
                    forall|x2: int, y2: int|
                        0 <= x2 < w && 0 <= y2 < sy ==> #[trigger] frame_pixel_is(
                            frame@,
                            w as int,
                            x2,
                            y2,
                            pixel_color_spec(*self, render_coord(self.canvas, x2, y2)),
                        ),
                    forall|x2: int|
                        0 <= x2 < sx ==> #[trigger] frame_pixel_is(
                            frame@,
                            w as int,
                            x2,
                            sy as int,
                            pixel_color_spec(*self, render_coord(self.canvas, x2, sy as int)),
                        ),
                decreases w - sx,
            {
                let ghost frame0 = frame@;
                self.render_pixel(frame, sx, sy);
                proof {
                    let wi = w as int;
                    let sxi = sx as int;
                    let syi = sy as int;
                    let base = (syi * wi + sxi) * 4;
                    lemma_pixel_slot_in_range(wi, h as int, sxi, syi);
                    assert(frame_pixel_is(
                        frame@,
                        wi,
                        sxi,
                        syi,
                        pixel_color_spec(*self, render_coord(self.canvas, sxi, syi)),
                    ));
                    assert forall|x2: int, y2: int|
                        0 <= x2 < w && 0 <= y2 && (y2 < syi || (y2 == syi && x2 < sxi))
                        implies (frame_pixel_is(
                        frame@,
                        wi,
                        x2,
                        y2,
                        pixel_color_spec(*self, render_coord(self.canvas, x2, y2)),
                    ) == frame_pixel_is(
                        frame0,
                        wi,
                        x2,
                        y2,
                        pixel_color_spec(*self, render_coord(self.canvas, x2, y2)),
                    )) by {
                        lemma_pixel_slot_in_range(wi, h as int, x2, y2);
                        lemma_pixel_slots_disjoint(wi, sxi, syi, x2, y2);
                    }
                }
                sx = sx + 1;
            }
            sy = sy + 1;
        }
    }
}

/// A pixel's four-byte slot lies inside the frame.
proof fn lemma_pixel_slot_in_range(w: int, h: int, sx: int, sy: int)
    requires
        0 <= sx < w,
        0 <= sy < h,
    ensures
        0 <= (sy * w + sx) * 4,
        (sy * w + sx) * 4 + 3 < w * h * 4,
{
    assert(0 <= (sy * w + sx) * 4 && (sy * w + sx) * 4 + 3 < w * h * 4) by (nonlinear_arith)
        requires
            0 <= sx < w,
            0 <= sy < h,
    ;
}

/// Distinct pixels occupy disjoint four-byte slots of a row-major frame.
proof fn lemma_pixel_slots_disjoint(w: int, sx: int, sy: int, sx2: int, sy2: int)
    requires
        0 <= sx < w,
        0 <= sx2 < w,
        0 <= sy,
        0 <= sy2,
        sx != sx2 || sy != sy2,
    ensures
        (sy * w + sx) * 4 + 3 < (sy2 * w + sx2) * 4 || (sy2 * w + sx2) * 4 + 3 < (sy * w + sx)
            * 4,
{
    assert(sy * w + sx != sy2 * w + sx2) by (nonlinear_arith)
        requires
            0 <= sx < w,
            0 <= sx2 < w,
            0 <= sy,
            0 <= sy2,
            sx != sx2 || sy != sy2,
    ;
}


/// The default window title.
pub open spec fn default_title_spec() -> Seq<u8> {
    seq![71u8, 105u8, 114u8, 97u8, 102u8, 102u8, 105u8, 99u8, 115u8]
}

fn default_title() -> (r: Vec<u8>)
    ensures
        r@ == default_title_spec(),
{
    let mut v: Vec<u8> = Vec::new();
    v.push(71);
    v.push(105);
    v.push(114);
    v.push(97);
    v.push(102);
    v.push(102);
    v.push(105);
    v.push(99);
    v.push(115);
    proof {
        assert(v@ =~= default_title_spec());
    }
    v
}

/// The title and canvas dimensions after applying every window definition
/// in order: a later window block overwrites an earlier one, and a width
/// or height is taken only when it truncates to at least one pixel.
pub open spec fn window_config_of(defs: Seq<Definition>) -> (Seq<u8>, int, int)
    decreases defs.len(),
{
    if defs.len() == 0 {
        (default_title_spec(), DEFAULT_WIDTH as int, DEFAULT_HEIGHT as int)
    } else {
        let prev = window_config_of(defs.drop_last());
        match defs.last() {
            Definition::Window { title, width, height } => {
                let t = match title {
                    Some(t) => t@,
                    None => prev.0,
                };
                let w = match width {
                    Some(f) => if fp_count_spec(f@) >= 1 {
                        fp_count_spec(f@)
                    } else {
                        prev.1
                    },
                    None => prev.1,
                };
                let h = match height {
                    Some(f) => if fp_count_spec(f@) >= 1 {
                        fp_count_spec(f@)
                    } else {
                        prev.2
                    },
                    None => prev.2,
                };
                (t, w, h)
            },
            _ => prev,
        }
    }
}

/// Dimensions every pixel index of which the machine can address.
pub open spec fn scene_dims_ok(w: int, h: int) -> bool {
    w <= isize::MAX as int && h <= isize::MAX as int && w * h * 4 <= usize::MAX as int
}

/// The canvas width the scene is loaded with: the configured one, or the
/// default pair when the configured pair cannot be addressed.
pub open spec fn final_width(defs: Seq<Definition>) -> int {
    let c = window_config_of(defs);
    if scene_dims_ok(c.1, c.2) {
        c.1
    } else {
        DEFAULT_WIDTH as int
    }
}

pub open spec fn final_height(defs: Seq<Definition>) -> int {
    let c = window_config_of(defs);
    if scene_dims_ok(c.1, c.2) {
        c.2
    } else {
        DEFAULT_HEIGHT as int
    }
}

/// The lights of the definitions, in file order.
pub open spec fn lights_of(defs: Seq<Definition>) -> Seq<Light>
    decreases defs.len(),
{
    if defs.len() == 0 {
        Seq::empty()
    } else {
        lights_of(defs.drop_last()) + (match defs.last() {
            Definition::AmbientLight { intensity } => seq![Light::Ambient { intensity }],
            Definition::PointLight { intensity, position } => seq![
                Light::Point {
                    position: WorldCoordinate { x: position.x, y: position.y, z: position.z },
                    intensity,
                },
            ],
            Definition::DirectionLight { intensity, direction } => seq![
                Light::Direction {
                    direction: WorldCoordinate {
                        x: direction.x,
                        y: direction.y,
                        z: direction.z,
                    },
                    intensity,
                },
            ],
            _ => Seq::empty(),
        })
    }
}

/// The spheres of the definitions, in file order.
pub open spec fn spheres_of(defs: Seq<Definition>) -> Seq<Sphere>
    decreases defs.len(),
{
    if defs.len() == 0 {
        Seq::empty()
    } else {
        spheres_of(defs.drop_last()) + (match defs.last() {
            Definition::Sphere { color, center, radius } => seq![
                Sphere {
                    radius,
                    center: WorldCoordinate { x: center.x, y: center.y, z: center.z },
                    color: Color(
                        [
                            crate::color::to_channel_spec(color.x@) as u8,
                            crate::color::to_channel_spec(color.y@) as u8,
                            crate::color::to_channel_spec(color.z@) as u8,
                            255u8,
                        ],
                    ),
                },
            ],
            _ => Seq::empty(),
        })
    }
}

/// Build the immutable scene from validated definitions: defaults overlaid
/// by window blocks, lights and spheres in file order, camera at the
/// origin, the unit viewport, and a black background.
pub fn load_scene(definitions: Vec<Definition>) -> (s: Scene)
    ensures
        s.camera_position == (WorldCoordinate {
            x: Fixed { raw: 0 },
            y: Fixed { raw: 0 },
            z: Fixed { raw: 0 },
        }),
        s.viewport == (ViewPort { depth: 1, width: 1, height: 1 }),
        s.background_color == Color([0u8, 0u8, 0u8, 255u8]),
        s.title@ == window_config_of(definitions@).0,
        s.canvas.width as int == final_width(definitions@),
        s.canvas.height as int == final_height(definitions@),
        canvas_wf(s.canvas),
        s.lights@ == lights_of(definitions@),
        s.spheres@ == spheres_of(definitions@),
{
    let mut title: Vec<u8> = default_title();
    let mut cur_w: usize = DEFAULT_WIDTH;
    let mut cur_h: usize = DEFAULT_HEIGHT;
    let mut lights: Vec<Light> = Vec::new();
    let mut spheres: Vec<Sphere> = Vec::new();
    let n: usize = definitions.len();
    let mut i: usize = 0;
    proof {
        assert(definitions@.take(0) =~= Seq::<Definition>::empty());
        assert(lights@ =~= lights_of(definitions@.take(0)));
        assert(spheres@ =~= spheres_of(definitions@.take(0)));
    }
    while i < n
        invariant
            i <= n,
            n == definitions@.len(),
            title@ == window_config_of(definitions@.take(i as int)).0,
            cur_w as int == window_config_of(definitions@.take(i as int)).1,
            cur_h as int == window_config_of(definitions@.take(i as int)).2,
            lights@ == lights_of(definitions@.take(i as int)),
            spheres@ == spheres_of(definitions@.take(i as int)),
        decreases n - i,
    {
        proof {
            assert(definitions@.take(i + 1).drop_last() =~= definitions@.take(i as int));
            assert(definitions@.take(i + 1).last() == definitions@[i as int]);
        }
        let ghost lights0 = lights@;
        let ghost spheres0 = spheres@;
        match &definitions[i] {
            Definition::Window { title: t, width: w, height: h } => {
                match t {
                    Some(name) => {
                        title = crate::parser::dup_bytes(name);
                    },
                    None => {},
                }
                match w {
                    Some(f) => {
                        let c = f.to_count();
                        if c >= 1 {
                            cur_w = c;
                        }
                    },
                    None => {},
                }
                match h {
                    Some(f) => {
                        let c = f.to_count();
                        if c >= 1 {
                            cur_h = c;
                        }
                    },
                    None => {},
                }
                proof {
                    assert(lights@ =~= lights_of(definitions@.take(i + 1)));
                    assert(spheres@ =~= spheres_of(definitions@.take(i + 1)));
                }
            },
            Definition::AmbientLight { intensity } => {
                lights.push(Light::Ambient { intensity: *intensity });
                proof {
                    assert(lights@ =~= lights_of(definitions@.take(i + 1)));
                    assert(spheres@ =~= spheres_of(definitions@.take(i + 1)));
                }
            },
            Definition::PointLight { intensity, position } => {
                lights.push(
                    Light::Point {
                        position: WorldCoordinate::from_tuple(*position),
                        intensity: *intensity,
                    },
                );
                proof {
                    assert(lights@ =~= lights_of(definitions@.take(i + 1)));
                    assert(spheres@ =~= spheres_of(definitions@.take(i + 1)));
                }
            },
            Definition::DirectionLight { intensity, direction } => {
                lights.push(
                    Light::Direction {
                        direction: WorldCoordinate::from_tuple(*direction),
                        intensity: *intensity,
                    },
                );
                proof {
                    assert(lights@ =~= lights_of(definitions@.take(i + 1)));
                    assert(spheres@ =~= spheres_of(definitions@.take(i + 1)));
                }
            },
            Definition::Sphere { color, center, radius } => {
                spheres.push(
                    Sphere::new(
                        *radius,
                        WorldCoordinate::from_tuple(*center),
                        Color::from_rgb_tuple(*color),
                    ),
                );
                proof {
                    assert(lights@ =~= lights_of(definitions@.take(i + 1)));
                    assert(spheres@ =~= spheres_of(definitions@.take(i + 1)));
                }
            },
        }
        i = i + 1;
    }
    proof {
        assert(definitions@.take(n as int) =~= definitions@);
    }
    let dims_ok: bool = cur_w <= (isize::MAX as usize) && cur_h <= (isize::MAX as usize)
        && (match cur_w.checked_mul(cur_h) {
        Some(p) => match p.checked_mul(4) {
            Some(_) => true,
            None => false,
        },
        None => false,
    });
    proof {
        assert(dims_ok == scene_dims_ok(cur_w as int, cur_h as int));
    }
    let canvas = if dims_ok {
        Canvas::new(cur_w, cur_h)
    } else {
        Canvas::new(DEFAULT_WIDTH, DEFAULT_HEIGHT)
    };
    Scene::new(
        WorldCoordinate::origin(),
        ViewPort { depth: 1, width: 1, height: 1 },
        canvas,
        Color::black(),
        title,
    ).with_lights(lights).with_spheres(spheres)
}


/// Whether `t` is a hit candidate: an intersection root of sphere `i`
/// that lies within the ray's range.
pub open spec fn is_candidate(
    spheres: Seq<Sphere>,
    camera: WorldCoordinate,
    d: WorldCoordinate,
    t_min: int,
    t_max: Option<int>,
    i: int,
    t: int,
) -> bool {
    &&& 0 <= i < spheres.len()
    &&& in_range(t, t_min, t_max)
    &&& (match intersect_spec(spheres[i], camera, d) {
        Some(p) => t == p.0 || t == p.1,
        None => false,
    })
}

/// What a partial walk up to sphere `i` guarantees of its running best.
pub open spec fn partial_best_ok(
    spheres: Seq<Sphere>,
    camera: WorldCoordinate,
    d: WorldCoordinate,
    t_min: int,
    t_max: Option<int>,
    i: int,
    best: Option<(int, int)>,
) -> bool {
    match best {
        None => forall|j: int, u: int|
            0 <= j < i ==> !is_candidate(spheres, camera, d, t_min, t_max, j, u),
        Some(b) => {
            &&& is_candidate(spheres, camera, d, t_min, t_max, b.0, b.1)
            &&& b.0 < i
            &&& (forall|j: int, u: int|
                0 <= j < i && is_candidate(spheres, camera, d, t_min, t_max, j, u) ==> b.1
                    <= u)
            &&& (forall|j: int|
                0 <= j < i && is_candidate(spheres, camera, d, t_min, t_max, j, b.1) ==> b.0
                    <= j)
        },
    }
}

#[verifier::rlimit(100)]
proof fn lemma_trace_fold_nearest_from(
    spheres: Seq<Sphere>,
    camera: WorldCoordinate,
    d: WorldCoordinate,
    t_min: int,
    t_max: Option<int>,
    i: int,
    best: Option<(int, int)>,
)
    requires
        0 <= i <= spheres.len(),
        partial_best_ok(spheres, camera, d, t_min, t_max, i, best),
    ensures
        partial_best_ok(
            spheres,
            camera,
            d,
            t_min,
            t_max,
            spheres.len() as int,
            trace_fold(spheres, camera, d, t_min, t_max, i, best),
        ),
    decreases spheres.len() - i,
{
    if i < spheres.len() {
        let b1 = match intersect_spec(spheres[i], camera, d) {
            None => best,
            Some(p) => better(better(best, i, p.0, t_min, t_max), i, p.1, t_min, t_max),
        };
        assert(partial_best_ok(spheres, camera, d, t_min, t_max, i + 1, b1)) by {
            match intersect_spec(spheres[i], camera, d) {
                None => {
                    assert(forall|u: int| !is_candidate(
                        spheres, camera, d, t_min, t_max, i, u));
                },
                Some(p) => {
                    assert(forall|u: int| is_candidate(
                        spheres, camera, d, t_min, t_max, i, u) ==> (u == p.0 || u == p.1)
                        && in_range(u, t_min, t_max));
                },
            }
        }
        lemma_trace_fold_nearest_from(spheres, camera, d, t_min, t_max, i + 1, b1);
    }
}

/// The traced hit is the nearest candidate over all spheres, ties broken
/// by the sphere earliest in list order; a miss means no sphere offers a
/// candidate at all.
pub proof fn lemma_trace_finds_nearest(
    spheres: Seq<Sphere>,
    camera: WorldCoordinate,
    d: WorldCoordinate,
    t_min: int,
    t_max: Option<int>,
)
    ensures
        match trace_fold(spheres, camera, d, t_min, t_max, 0, None) {
            Some(hit) => is_candidate(spheres, camera, d, t_min, t_max, hit.0, hit.1) && (
            forall|j: int, u: int|
                is_candidate(spheres, camera, d, t_min, t_max, j, u) ==> hit.1 <= u) && (
            forall|j: int|
                is_candidate(spheres, camera, d, t_min, t_max, j, hit.1) ==> hit.0 <= j),
            None => forall|j: int, u: int|
                !is_candidate(spheres, camera, d, t_min, t_max, j, u),
        },
{
    lemma_trace_fold_nearest_from(spheres, camera, d, t_min, t_max, 0, None);
}

} // verus!
