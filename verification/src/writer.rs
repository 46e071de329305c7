//! Rendering scene definitions back to scene-description text.
//!
//! A programmatically built definition can be written out as
//! grammar-conformant text and parsed again.  The writer emits one block
//! per definition with its keys in a fixed order; numbers are written in
//! decimal with six fractional digits when the value has a fractional
//! part, and strings are quoted.

use vstd::prelude::*;
use crate::fixed::{Fixed, FP_SCALE, abs_int};
use crate::ast::{Definition, DefinitionV, ValueV, AssignmentV, RawDefinitionV};
use crate::lexer::TokenV;
use crate::ast::{SceneErrorV, Value};
use crate::parser::{spec_parse_value, spec_parse_assignment, spec_parse_more_assignments,
    spec_parse_raw_definition, spec_parse_raw_scene, spec_munch_newlines,
    lemma_find_error_none};
use crate::validate::{spec_from_raw, spec_validate_defs, spec_parse_tokens, spec_window_fold,
    WindowAcc, LightAcc, SphereAcc, spec_light_fold, spec_sphere_fold, spec_light_finish,
    spec_sphere_finish};
use crate::validate::{key_window, key_light, key_sphere, key_width, key_height, key_title,
    key_type, key_intensity, key_position, key_direction, key_color, key_center, key_radius,
    key_ambient, key_point, key_directional};

verus! {

/// The decimal digits of a nonnegative number, most significant first.
pub open spec fn fmt_digits(n: int) -> Seq<u8>
    decreases n,
{
    if n < 10 {
        seq![(48 + if n >= 0 {
            n
        } else {
            0
        }) as u8]
    } else {
        fmt_digits(n / 10).push((48 + n % 10) as u8)
    }
}

/// Exactly six decimal digits, zero-padded on the left.
pub open spec fn pad6(f: int) -> Seq<u8> {
    seq![
        (48 + (f / 100000) % 10) as u8,
        (48 + (f / 10000) % 10) as u8,
        (48 + (f / 1000) % 10) as u8,
        (48 + (f / 100) % 10) as u8,
        (48 + (f / 10) % 10) as u8,
        (48 + f % 10) as u8,
    ]
}

/// A fixed-point value in decimal: optional minus sign, the whole part,
/// and six fractional digits when the fractional part is not zero.
pub open spec fn fmt_fixed(v: int) -> Seq<u8> {
    let mag = abs_int(v);
    let whole = mag / (FP_SCALE as int);
    let frac = mag % (FP_SCALE as int);
    let body = if frac == 0 {
        fmt_digits(whole)
    } else {
        fmt_digits(whole) + seq![46u8] + pad6(frac)
    };
    if v < 0 {
        seq![45u8] + body
    } else {
        body
    }
}

/// The text of one value.
pub open spec fn value_text(v: ValueV) -> Seq<u8> {
    match v {
        ValueV::Num(n) => fmt_fixed(n),
        ValueV::VString(s) => seq![34u8] + s + seq![34u8],
        ValueV::Tuple(t) => seq![40u8] + fmt_fixed(t.0) + seq![44u8, 32u8] + fmt_fixed(t.1)
            + seq![44u8, 32u8] + fmt_fixed(t.2) + seq![41u8],
    }
}

/// One `key = value` line.
pub open spec fn assignment_text(a: AssignmentV) -> Seq<u8> {
    a.name + seq![32u8, 61u8, 32u8] + value_text(a.value) + seq![10u8]
}

pub open spec fn assignments_text(assigns: Seq<AssignmentV>) -> Seq<u8>
    decreases assigns.len(),
{
    if assigns.len() == 0 {
        Seq::empty()
    } else {
        assignment_text(assigns[0]) + assignments_text(assigns.skip(1))
    }
}

/// The definition kind a variant is written under.
pub open spec fn kind_of(d: DefinitionV) -> Seq<u8> {
    match d {
        DefinitionV::Window { .. } => key_window(),
        DefinitionV::Sphere { .. } => key_sphere(),
        _ => key_light(),
    }
}

/// The assignments a definition is written with, keys in a fixed order.
pub open spec fn assignments_of(d: DefinitionV) -> Seq<AssignmentV> {
    match d {
        DefinitionV::Window { title, width, height } => (match title {
            Some(t) => seq![AssignmentV { name: key_title(), value: ValueV::VString(t) }],
            None => Seq::empty(),
        }) + (match width {
            Some(w) => seq![AssignmentV { name: key_width(), value: ValueV::Num(w) }],
            None => Seq::empty(),
        }) + (match height {
            Some(h) => seq![AssignmentV { name: key_height(), value: ValueV::Num(h) }],
            None => Seq::empty(),
        }),
        DefinitionV::AmbientLight { intensity } => seq![
            AssignmentV { name: key_type(), value: ValueV::VString(key_ambient()) },
            AssignmentV { name: key_intensity(), value: ValueV::Num(intensity) },
        ],
        DefinitionV::PointLight { intensity, position } => seq![
            AssignmentV { name: key_type(), value: ValueV::VString(key_point()) },
            AssignmentV { name: key_intensity(), value: ValueV::Num(intensity) },
            AssignmentV { name: key_position(), value: ValueV::Tuple(position) },
        ],
        DefinitionV::DirectionLight { intensity, direction } => seq![
            AssignmentV { name: key_type(), value: ValueV::VString(key_directional()) },
            AssignmentV { name: key_intensity(), value: ValueV::Num(intensity) },
            AssignmentV { name: key_direction(), value: ValueV::Tuple(direction) },
        ],
        DefinitionV::Sphere { color, center, radius } => seq![
            AssignmentV { name: key_color(), value: ValueV::Tuple(color) },
            AssignmentV { name: key_center(), value: ValueV::Tuple(center) },
            AssignmentV { name: key_radius(), value: ValueV::Num(radius) },
        ],
    }
}

/// The raw block the writer's output parses to.
pub open spec fn raw_of(d: DefinitionV) -> RawDefinitionV {
    RawDefinitionV { def_type: kind_of(d), assignments: assignments_of(d) }
}

/// The text of one definition block.
pub open spec fn definition_text(d: DefinitionV) -> Seq<u8> {
    kind_of(d) + seq![32u8, 123u8, 10u8] + assignments_text(assignments_of(d)) + seq![
        125u8,
        10u8,
    ]
}

/// The text of a whole scene description.
pub open spec fn scene_text(defs: Seq<DefinitionV>) -> Seq<u8>
    decreases defs.len(),
{
    if defs.len() == 0 {
        Seq::empty()
    } else {
        definition_text(defs[0]) + scene_text(defs.skip(1))
    }
}

/// Append a copy of `v`.
fn append_bytes(out: &mut Vec<u8>, v: &Vec<u8>)
    ensures
        final(out)@ == old(out)@ + v@,
{
    let mut i: usize = 0;
    while i < v.len()
        invariant
            i <= v@.len(),
            out@ == old(out)@ + v@.take(i as int),
        decreases v@.len() - i,
    {
        out.push(v[i]);
        proof {
            assert(out@ =~= old(out)@ + v@.take(i + 1));
        }
        i = i + 1;
    }
    proof {
        assert(old(out)@ + v@.take(v@.len() as int) =~= old(out)@ + v@);
    }
}

/// Append the decimal digits of `n`.
fn append_digits(out: &mut Vec<u8>, n: u64)
    ensures
        final(out)@ == old(out)@ + fmt_digits(n as int),
    decreases n,
{
    if n < 10 {
        out.push(48 + (n as u8));
        proof {
            assert(final(out)@ =~= old(out)@ + fmt_digits(n as int));
        }
    } else {
        append_digits(out, n / 10);
        out.push(48 + ((n % 10) as u8));
        proof {
            assert(final(out)@ =~= old(out)@ + fmt_digits(n as int));
        }
    }
}

/// Append a fixed-point value in decimal.
fn append_fixed(out: &mut Vec<u8>, v: Fixed)
    ensures
        final(out)@ == old(out)@ + fmt_fixed(v@),
{
    let mag: u64 = if v.raw < 0 {
        out.push(45);
        (-(v.raw as i128)) as u64
    } else {
        v.raw as u64
    };
    let ghost mid = out@;
    let whole: u64 = mag / (FP_SCALE as u64);
    let frac: u64 = mag % (FP_SCALE as u64);
    append_digits(out, whole);
    if frac > 0 {
        out.push(46);
        let d0: u8 = ((frac / 100000) % 10) as u8;
        let d1: u8 = ((frac / 10000) % 10) as u8;
        let d2: u8 = ((frac / 1000) % 10) as u8;
        let d3: u8 = ((frac / 100) % 10) as u8;
        let d4: u8 = ((frac / 10) % 10) as u8;
        let d5: u8 = (frac % 10) as u8;
        out.push(48 + d0);
        out.push(48 + d1);
        out.push(48 + d2);
        out.push(48 + d3);
        out.push(48 + d4);
        out.push(48 + d5);
        proof {
            assert(final(out)@ =~= mid + fmt_digits(whole as int) + seq![46u8] + pad6(
                frac as int));
            assert(final(out)@ =~= old(out)@ + fmt_fixed(v@));
        }
    } else {
        proof {
            assert(final(out)@ =~= old(out)@ + fmt_fixed(v@));
        }
    }
}

/// Append one value's text.
fn append_value(out: &mut Vec<u8>, v: &crate::ast::Value)
    ensures
        final(out)@ == old(out)@ + value_text(v@),
{
    match v {
        crate::ast::Value::Num(f) => {
            append_fixed(out, *f);
        },
        crate::ast::Value::VString(s) => {
            out.push(34);
            append_bytes(out, s);
            out.push(34);
            proof {
                assert(final(out)@ =~= old(out)@ + value_text(v@));
            }
        },
        crate::ast::Value::Tuple(t) => {
            out.push(40);
            append_fixed(out, t.x);
            out.push(44);
            out.push(32);
            append_fixed(out, t.y);
            out.push(44);
            out.push(32);
            append_fixed(out, t.z);
            out.push(41);
            proof {
                assert(final(out)@ =~= old(out)@ + value_text(v@));
            }
        },
    }
}

/// One `key = value` line, written out.
fn append_assignment(out: &mut Vec<u8>, name: &Vec<u8>, value: &crate::ast::Value)
    ensures
        final(out)@ == old(out)@ + assignment_text(
            AssignmentV { name: name@, value: value@ },
        ),
{
    append_bytes(out, name);
    out.push(32);
    out.push(61);
    out.push(32);
    append_value(out, value);
    out.push(10);
    proof {
        assert(final(out)@ =~= old(out)@ + assignment_text(
            AssignmentV { name: name@, value: value@ },
        ));
    }
}

proof fn lemma_assignments_text_concat(a: Seq<AssignmentV>, b: Seq<AssignmentV>)
    ensures
        assignments_text(a + b) == assignments_text(a) + assignments_text(b),
    decreases a.len(),
{
    if a.len() == 0 {
        assert(a + b =~= b);
        assert(assignments_text(a) + assignments_text(b) =~= assignments_text(b));
    } else {
        assert((a + b)[0] == a[0]);
        assert((a + b).skip(1) =~= a.skip(1) + b);
        lemma_assignments_text_concat(a.skip(1), b);
        assert(assignment_text(a[0]) + (assignments_text(a.skip(1)) + assignments_text(b))
            =~= (assignment_text(a[0]) + assignments_text(a.skip(1))) + assignments_text(b));
    }
}

proof fn lemma_assignments_text1(a: AssignmentV)
    ensures
        assignments_text(seq![a]) == assignment_text(a),
{
    assert(seq![a].skip(1) =~= Seq::<AssignmentV>::empty());
    assert(assignment_text(a) + assignments_text(Seq::<AssignmentV>::empty())
        =~= assignment_text(a));
}

proof fn lemma_assignments_text2(a0: AssignmentV, a1: AssignmentV)
    ensures
        assignments_text(seq![a0, a1]) == assignment_text(a0) + assignment_text(a1),
{
    assert(seq![a0, a1] =~= seq![a0] + seq![a1]);
    lemma_assignments_text_concat(seq![a0], seq![a1]);
    lemma_assignments_text1(a0);
    lemma_assignments_text1(a1);
}

proof fn lemma_assignments_text3(a0: AssignmentV, a1: AssignmentV, a2: AssignmentV)
    ensures
        assignments_text(seq![a0, a1, a2]) == assignment_text(a0) + assignment_text(a1)
            + assignment_text(a2),
{
    assert(seq![a0, a1, a2] =~= seq![a0, a1] + seq![a2]);
    lemma_assignments_text_concat(seq![a0, a1], seq![a2]);
    lemma_assignments_text2(a0, a1);
    lemma_assignments_text1(a2);
}

impl Definition {
    /// This definition written as one grammar-conformant block.
    pub fn to_text(&self) -> (r: Vec<u8>)
        ensures
            r@ == definition_text(self@),
    {
        match self {
            Definition::Window { .. } => self.window_text(),
            Definition::AmbientLight { .. } => self.ambient_text(),
            Definition::PointLight { .. } => self.point_text(),
            Definition::DirectionLight { .. } => self.direction_text(),
            Definition::Sphere { .. } => self.sphere_text(),
        }
    }

    #[verifier::rlimit(100)]
    fn window_text(&self) -> (r: Vec<u8>)
        requires
            self is Window,
        ensures
            r@ == definition_text(self@),
    {
        let mut out: Vec<u8> = Vec::new();
        match self {
            Definition::Window { title, width, height } => {
            append_bytes(&mut out, &crate::validate::key_vec_window());
            out.push(32);
            out.push(123);
            out.push(10);
            let ghost head = out@;
            let ghost t_part = match self@ {
                DefinitionV::Window { title: t, .. } => match t {
                    Some(tv) => seq![
                        AssignmentV { name: key_title(), value: ValueV::VString(tv) },
                    ],
                    None => Seq::<AssignmentV>::empty(),
                },
                _ => Seq::<AssignmentV>::empty(),
            };
            match title {
                Some(t) => {
                    let v = crate::ast::Value::VString(crate::parser::dup_bytes(t));
                    append_assignment(&mut out, &crate::validate::key_vec_title(), &v);
                    proof {
                        lemma_assignments_text1(t_part[0]);
                        assert(out@ =~= head + assignments_text(t_part));
                    }
                },
                None => {
                    proof {
                        assert(out@ =~= head + assignments_text(t_part));
                    }
                },
            }
            let ghost mid1 = out@;
            let ghost w_part = match self@ {
                DefinitionV::Window { width: w, .. } => match w {
                    Some(wv) => seq![
                        AssignmentV { name: key_width(), value: ValueV::Num(wv) },
                    ],
                    None => Seq::<AssignmentV>::empty(),
                },
                _ => Seq::<AssignmentV>::empty(),
            };
            match width {
                Some(w) => {
                    let v = crate::ast::Value::Num(*w);
                    append_assignment(&mut out, &crate::validate::key_vec_width(), &v);
                    proof {
                        lemma_assignments_text1(w_part[0]);
                        assert(out@ =~= mid1 + assignments_text(w_part));
                    }
                },
                None => {
                    proof {
                        assert(out@ =~= mid1 + assignments_text(w_part));
                    }
                },
            }
            let ghost mid2 = out@;
            let ghost h_part = match self@ {
                DefinitionV::Window { height: h, .. } => match h {
                    Some(hv) => seq![
                        AssignmentV { name: key_height(), value: ValueV::Num(hv) },
                    ],
                    None => Seq::<AssignmentV>::empty(),
                },
                _ => Seq::<AssignmentV>::empty(),
            };
            match height {
                Some(h) => {
                    let v = crate::ast::Value::Num(*h);
                    append_assignment(&mut out, &crate::validate::key_vec_height(), &v);
                    proof {
                        lemma_assignments_text1(h_part[0]);
                        assert(out@ =~= mid2 + assignments_text(h_part));
                    }
                },
                None => {
                    proof {
                        assert(out@ =~= mid2 + assignments_text(h_part));
                    }
                },
            }
            proof {
                lemma_assignments_text_concat(t_part, w_part);
                lemma_assignments_text_concat(t_part + w_part, h_part);
                assert(assignments_of(self@) == (t_part + w_part) + h_part);
                assert(out@ =~= head + assignments_text(assignments_of(self@)));
            }
        
            },
            _ => {
                proof {
                    assert(false);
                }
            },
        }
        out.push(125);
        out.push(10);
        proof {
            assert(out@ =~= definition_text(self@));
        }
        out
    }

    #[verifier::rlimit(100)]
    fn ambient_text(&self) -> (r: Vec<u8>)
        requires
            self is AmbientLight,
        ensures
            r@ == definition_text(self@),
    {
        let mut out: Vec<u8> = Vec::new();
        match self {
            Definition::AmbientLight { intensity } => {
            append_bytes(&mut out, &crate::validate::key_vec_light());
            out.push(32);
            out.push(123);
            out.push(10);
            let ghost head = out@;
            let tv = crate::ast::Value::VString(crate::validate::key_vec_ambient());
            append_assignment(&mut out, &crate::validate::key_vec_type(), &tv);
            let iv = crate::ast::Value::Num(*intensity);
            append_assignment(&mut out, &crate::validate::key_vec_intensity(), &iv);
            proof {
                let asgs = assignments_of(self@);
                assert(asgs =~= seq![asgs[0], asgs[1]]);
                lemma_assignments_text2(asgs[0], asgs[1]);
                assert(out@ =~= head + assignments_text(asgs));
            }
        
            },
            _ => {
                proof {
                    assert(false);
                }
            },
        }
        out.push(125);
        out.push(10);
        proof {
            assert(out@ =~= definition_text(self@));
        }
        out
    }

    #[verifier::rlimit(100)]
    fn point_text(&self) -> (r: Vec<u8>)
        requires
            self is PointLight,
        ensures
            r@ == definition_text(self@),
    {
        let mut out: Vec<u8> = Vec::new();
        match self {
            Definition::PointLight { intensity, position } => {
            append_bytes(&mut out, &crate::validate::key_vec_light());
            out.push(32);
            out.push(123);
            out.push(10);
            let ghost head = out@;
            let tv = crate::ast::Value::VString(crate::validate::key_vec_point());
            append_assignment(&mut out, &crate::validate::key_vec_type(), &tv);
            let iv = crate::ast::Value::Num(*intensity);
            append_assignment(&mut out, &crate::validate::key_vec_intensity(), &iv);
            let pv = crate::ast::Value::Tuple(*position);
            append_assignment(&mut out, &crate::validate::key_vec_position(), &pv);
            proof {
                let asgs = assignments_of(self@);
                assert(asgs =~= seq![asgs[0], asgs[1], asgs[2]]);
                lemma_assignments_text3(asgs[0], asgs[1], asgs[2]);
                assert(out@ =~= head + assignments_text(asgs));
            }
        
            },
            _ => {
                proof {
                    assert(false);
                }
            },
        }
        out.push(125);
        out.push(10);
        proof {
            assert(out@ =~= definition_text(self@));
        }
        out
    }

    #[verifier::rlimit(100)]
    fn direction_text(&self) -> (r: Vec<u8>)
        requires
            self is DirectionLight,
        ensures
            r@ == definition_text(self@),
    {
        let mut out: Vec<u8> = Vec::new();
        match self {
            Definition::DirectionLight { intensity, direction } => {
            append_bytes(&mut out, &crate::validate::key_vec_light());
            out.push(32);
            out.push(123);
            out.push(10);
            let ghost head = out@;
            let tv = crate::ast::Value::VString(crate::validate::key_vec_directional());
            append_assignment(&mut out, &crate::validate::key_vec_type(), &tv);
            let iv = crate::ast::Value::Num(*intensity);
            append_assignment(&mut out, &crate::validate::key_vec_intensity(), &iv);
            let dv = crate::ast::Value::Tuple(*direction);
            append_assignment(&mut out, &crate::validate::key_vec_direction(), &dv);
            proof {
                let asgs = assignments_of(self@);
                assert(asgs =~= seq![asgs[0], asgs[1], asgs[2]]);
                lemma_assignments_text3(asgs[0], asgs[1], asgs[2]);
                assert(out@ =~= head + assignments_text(asgs));
            }
        
            },
            _ => {
                proof {
                    assert(false);
                }
            },
        }
        out.push(125);
        out.push(10);
        proof {
            assert(out@ =~= definition_text(self@));
        }
        out
    }

    #[verifier::rlimit(100)]
    fn sphere_text(&self) -> (r: Vec<u8>)
        requires
            self is Sphere,
        ensures
            r@ == definition_text(self@),
    {
        let mut out: Vec<u8> = Vec::new();
        match self {
            Definition::Sphere { color, center, radius } => {
            append_bytes(&mut out, &crate::validate::key_vec_sphere());
            out.push(32);
            out.push(123);
            out.push(10);
            let ghost head = out@;
            let cv = crate::ast::Value::Tuple(*color);
            append_assignment(&mut out, &crate::validate::key_vec_color(), &cv);
            let ce = crate::ast::Value::Tuple(*center);
            append_assignment(&mut out, &crate::validate::key_vec_center(), &ce);
            let rv = crate::ast::Value::Num(*radius);
            append_assignment(&mut out, &crate::validate::key_vec_radius(), &rv);
            proof {
                let asgs = assignments_of(self@);
                assert(asgs =~= seq![asgs[0], asgs[1], asgs[2]]);
                lemma_assignments_text3(asgs[0], asgs[1], asgs[2]);
                assert(out@ =~= head + assignments_text(asgs));
            }
        
            },
            _ => {
                proof {
                    assert(false);
                }
            },
        }
        out.push(125);
        out.push(10);
        proof {
            assert(out@ =~= definition_text(self@));
        }
        out
    }
}

proof fn lemma_scene_text_snoc(defs: Seq<DefinitionV>, d: DefinitionV)
    ensures
        scene_text(defs.push(d)) == scene_text(defs) + definition_text(d),
    decreases defs.len(),
{
    if defs.len() == 0 {
        assert(defs.push(d)[0] == d);
        assert(defs.push(d).skip(1) =~= Seq::<DefinitionV>::empty());
        assert(scene_text(defs) + definition_text(d) =~= definition_text(d) + scene_text(
            Seq::<DefinitionV>::empty()));
    } else {
        assert(defs.push(d)[0] == defs[0]);
        assert(defs.push(d).skip(1) =~= defs.skip(1).push(d));
        lemma_scene_text_snoc(defs.skip(1), d);
        assert(definition_text(defs[0]) + (scene_text(defs.skip(1)) + definition_text(d))
            =~= (definition_text(defs[0]) + scene_text(defs.skip(1))) + definition_text(d));
    }
}

/// A whole scene description written as grammar-conformant text.
pub fn definitions_to_text(defs: &Vec<Definition>) -> (r: Vec<u8>)
    ensures
        r@ == scene_text(crate::parser::defs_view(defs@)),
{
    let mut out: Vec<u8> = Vec::new();
    let n: usize = defs.len();
    let mut i: usize = 0;
    proof {
        assert(crate::parser::defs_view(defs@).take(0) =~= Seq::<DefinitionV>::empty());
    }
    while i < n
        invariant
            i <= n,
            n == defs@.len(),
            out@ == scene_text(crate::parser::defs_view(defs@).take(i as int)),
        decreases n - i,
    {
        let block = defs[i].to_text();
        append_bytes(&mut out, &block);
        proof {
            let dv = crate::parser::defs_view(defs@);
            assert(dv.take(i + 1) =~= dv.take(i as int).push(dv[i as int]));
            lemma_scene_text_snoc(dv.take(i as int), dv[i as int]);
            assert(dv[i as int] == defs@[i as int]@);
        }
        i = i + 1;
    }
    proof {
        assert(crate::parser::defs_view(defs@).take(n as int) =~= crate::parser::defs_view(
            defs@));
    }
    out
}

/// The token form the writer's text lexes to: one token per lexeme, keys
/// and values in the writer's order.
pub open spec fn value_tokens(v: ValueV) -> Seq<TokenV> {
    match v {
        ValueV::Num(n) => seq![TokenV::Number(n)],
        ValueV::VString(s) => seq![TokenV::VString(seq![34u8] + s + seq![34u8])],
        ValueV::Tuple(t) => seq![
            TokenV::LParen,
            TokenV::Number(t.0),
            TokenV::Comma,
            TokenV::Number(t.1),
            TokenV::Comma,
            TokenV::Number(t.2),
            TokenV::RParen,
        ],
    }
}

pub open spec fn assignment_tokens(a: AssignmentV) -> Seq<TokenV> {
    seq![TokenV::Identifier(a.name), TokenV::Equal] + value_tokens(a.value) + seq![
        TokenV::NewLine,
    ]
}

pub open spec fn assignments_tokens(assigns: Seq<AssignmentV>) -> Seq<TokenV>
    decreases assigns.len(),
{
    if assigns.len() == 0 {
        Seq::empty()
    } else {
        assignment_tokens(assigns[0]) + assignments_tokens(assigns.skip(1))
    }
}

pub open spec fn definition_tokens(d: DefinitionV) -> Seq<TokenV> {
    seq![TokenV::Identifier(kind_of(d)), TokenV::LBrace, TokenV::NewLine]
        + assignments_tokens(assignments_of(d)) + seq![TokenV::RBrace]
}

pub open spec fn scene_tokens(defs: Seq<DefinitionV>) -> Seq<TokenV>
    decreases defs.len(),
{
    if defs.len() == 0 {
        Seq::empty()
    } else {
        definition_tokens(defs[0]) + seq![TokenV::NewLine] + scene_tokens(defs.skip(1))
    }
}

/// A value whose written form survives the trip back: a string holds no
/// quote byte.
pub open spec fn wf_value(v: ValueV) -> bool {
    match v {
        ValueV::VString(s) => forall|i: int| 0 <= i < s.len() ==> s[i] != 34,
        _ => true,
    }
}

/// A definition whose written form survives the trip back: a window block
/// must carry at least one key (the grammar demands one assignment per
/// block), and a title holds no quote byte.
pub open spec fn wf_def(d: DefinitionV) -> bool {
    match d {
        DefinitionV::Window { title, width, height } => {
            &&& (title is Some || width is Some || height is Some)
            &&& (match title {
                Some(t) => forall|i: int| 0 <= i < t.len() ==> t[i] != 34,
                None => true,
            })
        },
        _ => true,
    }
}

pub open spec fn wf_defs(defs: Seq<DefinitionV>) -> bool {
    forall|i: int| 0 <= i < defs.len() ==> wf_def(#[trigger] defs[i])
}

/// Stripping the quotes the writer added yields the original content.
pub proof fn lemma_strip_quoted(s: Seq<u8>)
    requires
        forall|i: int| 0 <= i < s.len() ==> s[i] != 34,
    ensures
        crate::ast::strip_speechmarks_spec(seq![34u8] + s + seq![34u8]) == s,
{
    let q = seq![34u8];
    let full = q + s + q;
    assert(full[0] == 34);
    assert(full.skip(1) =~= s + q);
    if s.len() == 0 {
        assert(s + q =~= q);
        assert(q.skip(1) =~= Seq::<u8>::empty());
        assert(crate::ast::drop_leading_quotes(Seq::<u8>::empty()) == Seq::<u8>::empty());
        assert(crate::ast::drop_leading_quotes(q) == Seq::<u8>::empty());
        assert(crate::ast::drop_leading_quotes(full) == Seq::<u8>::empty());
        assert(crate::ast::drop_trailing_quotes(Seq::<u8>::empty()) =~= s);
    } else {
        assert((s + q)[0] == s[0]);
        assert(crate::ast::drop_leading_quotes(s + q) == s + q);
        assert(crate::ast::drop_leading_quotes(full) == s + q);
        assert((s + q).last() == 34);
        assert((s + q).drop_last() =~= s);
        assert(s.last() != 34);
        assert(crate::ast::drop_trailing_quotes(s + q) == crate::ast::drop_trailing_quotes(s));
        assert(crate::ast::drop_trailing_quotes(s) == s);
    }
}

/// A written value parses back to itself.
pub proof fn lemma_value_roundtrip(v: ValueV, rest: Seq<TokenV>)
    requires
        wf_value(v),
    ensures
        spec_parse_value(value_tokens(v) + rest) == Ok::<(ValueV, Seq<TokenV>), SceneErrorV>(
            (v, rest),
        ),
{
    let ts = value_tokens(v) + rest;
    match v {
        ValueV::Num(n) => {
            assert(ts[0] == TokenV::Number(n));
            assert(ts.skip(1) =~= rest);
        },
        ValueV::VString(s) => {
            assert(ts[0] == TokenV::VString(seq![34u8] + s + seq![34u8]));
            lemma_strip_quoted(s);
            assert(ts.skip(1) =~= rest);
        },
        ValueV::Tuple(t) => {
            assert(ts[0] == TokenV::LParen);
            let ts1 = ts.skip(1);
            assert(ts1 =~= seq![
                TokenV::Number(t.0),
                TokenV::Comma,
                TokenV::Number(t.1),
                TokenV::Comma,
                TokenV::Number(t.2),
                TokenV::RParen,
            ] + rest);
            assert(ts1[0] == TokenV::Number(t.0));
            let ts2 = ts1.skip(1);
            assert(ts2 =~= seq![
                TokenV::Comma,
                TokenV::Number(t.1),
                TokenV::Comma,
                TokenV::Number(t.2),
                TokenV::RParen,
            ] + rest);
            assert(ts2[0] == TokenV::Comma);
            let ts3 = ts2.skip(1);
            assert(ts3 =~= seq![
                TokenV::Number(t.1),
                TokenV::Comma,
                TokenV::Number(t.2),
                TokenV::RParen,
            ] + rest);
            assert(ts3[0] == TokenV::Number(t.1));
            let ts4 = ts3.skip(1);
            assert(ts4 =~= seq![TokenV::Comma, TokenV::Number(t.2), TokenV::RParen] + rest);
            assert(ts4[0] == TokenV::Comma);
            let ts5 = ts4.skip(1);
            assert(ts5 =~= seq![TokenV::Number(t.2), TokenV::RParen] + rest);
            assert(ts5[0] == TokenV::Number(t.2));
            let ts6 = ts5.skip(1);
            assert(ts6 =~= seq![TokenV::RParen] + rest);
            assert(ts6[0] == TokenV::RParen);
            assert(ts6.skip(1) =~= rest);
        },
    }
}

/// A written assignment parses back to itself.
pub proof fn lemma_assignment_roundtrip(a: AssignmentV, rest: Seq<TokenV>)
    requires
        wf_value(a.value),
    ensures
        spec_parse_assignment(assignment_tokens(a) + rest) == Ok::<
            (AssignmentV, Seq<TokenV>),
            SceneErrorV,
        >((a, rest)),
{
    let ts = assignment_tokens(a) + rest;
    assert(ts[0] == TokenV::Identifier(a.name));
    let ts1 = ts.skip(1);
    assert(ts1 =~= seq![TokenV::Equal] + (value_tokens(a.value) + (seq![TokenV::NewLine]
        + rest)));
    assert(ts1[0] == TokenV::Equal);
    let ts2 = ts1.skip(1);
    assert(ts2 =~= value_tokens(a.value) + (seq![TokenV::NewLine] + rest));
    lemma_value_roundtrip(a.value, seq![TokenV::NewLine] + rest);
    let ts3 = seq![TokenV::NewLine] + rest;
    assert(ts3[0] == TokenV::NewLine);
    assert(ts3.skip(1) =~= rest);
}

/// A written list of further assignments, closed by its brace, parses
/// back to itself.
pub proof fn lemma_assignments_roundtrip(assigns: Seq<AssignmentV>, rest: Seq<TokenV>)
    requires
        forall|i: int| 0 <= i < assigns.len() ==> wf_value(#[trigger] assigns[i].value),
    ensures
        spec_parse_more_assignments(assignments_tokens(assigns) + seq![TokenV::RBrace] + rest)
            == Ok::<(Seq<AssignmentV>, Seq<TokenV>), SceneErrorV>((assigns, rest)),
    decreases assigns.len(),
{
    let ts = assignments_tokens(assigns) + seq![TokenV::RBrace] + rest;
    if assigns.len() == 0 {
        assert(ts =~= seq![TokenV::RBrace] + rest);
        assert(ts[0] == TokenV::RBrace);
        assert(ts.skip(1) =~= rest);
        assert(assigns =~= Seq::<AssignmentV>::empty());
    } else {
        let a0 = assigns[0];
        let tail = assignments_tokens(assigns.skip(1)) + seq![TokenV::RBrace] + rest;
        assert(ts =~= assignment_tokens(a0) + tail);
        assert(ts[0] == TokenV::Identifier(a0.name)) by {
            assert(assignment_tokens(a0)[0] == TokenV::Identifier(a0.name));
        }
        lemma_assignment_roundtrip(a0, tail);
        assert(forall|i: int| 0 <= i < assigns.skip(1).len() ==> wf_value(
            #[trigger] assigns.skip(1)[i].value)) by {
            assert(forall|i: int| 0 <= i < assigns.skip(1).len() ==> assigns.skip(1)[i]
                == assigns[i + 1]);
        }
        lemma_assignments_roundtrip(assigns.skip(1), rest);
        assert(seq![a0] + assigns.skip(1) =~= assigns);
    }
}

/// Every written definition kind has at least one assignment, each with a
/// well-formed value.
pub proof fn lemma_assignments_of_wf(d: DefinitionV)
    requires
        wf_def(d),
    ensures
        assignments_of(d).len() >= 1,
        forall|i: int| 0 <= i < assignments_of(d).len() ==> wf_value(
            #[trigger] assignments_of(d)[i].value),
{
    assert(forall|i: int| 0 <= i < key_ambient().len() ==> key_ambient()[i] != 34);
    assert(forall|i: int| 0 <= i < key_point().len() ==> key_point()[i] != 34);
    assert(forall|i: int| 0 <= i < key_directional().len() ==> key_directional()[i] != 34);
}

/// A written definition block parses back to its raw block.
#[verifier::rlimit(100)]
pub proof fn lemma_definition_roundtrip(d: DefinitionV, rest: Seq<TokenV>)
    requires
        wf_def(d),
    ensures
        spec_parse_raw_definition(definition_tokens(d) + rest) == Ok::<
            (RawDefinitionV, Seq<TokenV>),
            SceneErrorV,
        >((raw_of(d), rest)),
{
    lemma_assignments_of_wf(d);
    let asgs = assignments_of(d);
    let ts = definition_tokens(d) + rest;
    assert(ts[0] == TokenV::Identifier(kind_of(d)));
    let ts1 = ts.skip(1);
    assert(ts1 =~= seq![TokenV::LBrace, TokenV::NewLine] + assignments_tokens(asgs) + seq![
        TokenV::RBrace,
    ] + rest);
    assert(ts1[0] == TokenV::LBrace);
    let ts2 = ts1.skip(1);
    let inner = assignments_tokens(asgs) + seq![TokenV::RBrace] + rest;
    assert(ts2 =~= seq![TokenV::NewLine] + inner);
    assert(ts2[0] == TokenV::NewLine);
    assert(ts2.skip(1) =~= inner);
    assert(inner =~= assignment_tokens(asgs[0]) + (assignments_tokens(asgs.skip(1)) + seq![
        TokenV::RBrace,
    ] + rest)) by {
        assert(assignments_tokens(asgs) == assignment_tokens(asgs[0]) + assignments_tokens(
            asgs.skip(1)));
    }
    assert(inner[0] == TokenV::Identifier(asgs[0].name)) by {
        assert(assignment_tokens(asgs[0])[0] == TokenV::Identifier(asgs[0].name));
    }
    assert(spec_munch_newlines(ts2) == spec_munch_newlines(inner));
    assert(spec_munch_newlines(inner) == inner);
    lemma_assignment_roundtrip(asgs[0], assignments_tokens(asgs.skip(1)) + seq![
        TokenV::RBrace,
    ] + rest);
    assert(forall|i: int| 0 <= i < asgs.skip(1).len() ==> wf_value(
        #[trigger] asgs.skip(1)[i].value)) by {
        assert(forall|i: int| 0 <= i < asgs.skip(1).len() ==> asgs.skip(1)[i] == asgs[i + 1]);
    }
    lemma_assignments_roundtrip(asgs.skip(1), rest);
    assert(seq![asgs[0]] + asgs.skip(1) =~= asgs);
}

/// Folding a window block's keys distributes over concatenation.
proof fn lemma_window_fold_append(a: Seq<AssignmentV>, b: Seq<AssignmentV>, acc: WindowAcc)
    ensures
        spec_window_fold(a + b, acc) == (match spec_window_fold(a, acc) {
            Ok(acc2) => spec_window_fold(b, acc2),
            Err(e) => Err(e),
        }),
    decreases a.len(),
{
    if a.len() == 0 {
        assert(a + b =~= b);
    } else {
        assert((a + b)[0] == a[0]);
        assert((a + b).skip(1) =~= a.skip(1) + b);
        let x = a[0];
        if x.name == key_width() {
            match crate::validate::spec_numeric_value(x.value, key_width()) {
                Ok(n) => {
                    lemma_window_fold_append(
                        a.skip(1),
                        b,
                        WindowAcc { width: Some(n), ..acc },
                    );
                },
                Err(_) => {},
            }
        } else if x.name == key_height() {
            match crate::validate::spec_numeric_value(x.value, key_height()) {
                Ok(n) => {
                    lemma_window_fold_append(
                        a.skip(1),
                        b,
                        WindowAcc { height: Some(n), ..acc },
                    );
                },
                Err(_) => {},
            }
        } else if x.name == key_title() {
            match crate::validate::spec_string_value(x.value, key_title()) {
                Ok(t) => {
                    lemma_window_fold_append(
                        a.skip(1),
                        b,
                        WindowAcc { title: Some(t), ..acc },
                    );
                },
                Err(_) => {},
            }
        }
    }
}

/// The keys the writer uses are pairwise distinct where their lengths
/// coincide.
proof fn lemma_written_keys_distinct()
    ensures
        key_title() != key_width(),
        key_radius() != key_center(),
        key_direction() != key_intensity(),
        key_sphere() != key_window(),
{
    assert(key_title()[0] == 116 && key_width()[0] == 119);
    assert(key_radius()[0] == 114 && key_center()[0] == 99);
    assert(key_direction()[0] == 100 && key_intensity()[0] == 105);
    assert(key_sphere()[0] == 115 && key_window()[0] == 119);
}

/// Validating the raw block a written definition parses to yields the
/// definition back.
#[verifier::rlimit(100)]
pub proof fn lemma_validate_written(d: DefinitionV)
    requires
        wf_def(d),
    ensures
        spec_from_raw(raw_of(d)) == Ok::<DefinitionV, SceneErrorV>(d),
{
    lemma_written_keys_distinct();
    let raw = raw_of(d);
    match d {
        DefinitionV::Window { title, width, height } => {
            let t_part = match title {
                Some(t) => seq![AssignmentV { name: key_title(), value: ValueV::VString(t) }],
                None => Seq::<AssignmentV>::empty(),
            };
            let w_part = match width {
                Some(w) => seq![AssignmentV { name: key_width(), value: ValueV::Num(w) }],
                None => Seq::<AssignmentV>::empty(),
            };
            let h_part = match height {
                Some(h) => seq![AssignmentV { name: key_height(), value: ValueV::Num(h) }],
                None => Seq::<AssignmentV>::empty(),
            };
            let acc0 = WindowAcc { title: None, width: None, height: None };
            lemma_window_fold_append(t_part + w_part, h_part, acc0);
            lemma_window_fold_append(t_part, w_part, acc0);
            let acc1 = WindowAcc { title, width: None, height: None };
            assert(spec_window_fold(t_part, acc0) == Ok::<WindowAcc, SceneErrorV>(acc1)) by {
                match title {
                    Some(t) => {
                        assert(t_part.skip(1) =~= Seq::<AssignmentV>::empty());
                    },
                    None => {
                        assert(t_part =~= Seq::<AssignmentV>::empty());
                    },
                }
            }
            let acc2 = WindowAcc { title, width, height: None };
            assert(spec_window_fold(w_part, acc1) == Ok::<WindowAcc, SceneErrorV>(acc2)) by {
                match width {
                    Some(w) => {
                        assert(w_part[0] == AssignmentV {
                            name: key_width(),
                            value: ValueV::Num(w),
                        });
                        assert(w_part.skip(1) =~= Seq::<AssignmentV>::empty());
                        assert(spec_window_fold(
                            w_part.skip(1),
                            WindowAcc { width: Some(w), ..acc1 },
                        ) == Ok::<WindowAcc, SceneErrorV>(acc2));
                    },
                    None => {
                        assert(w_part =~= Seq::<AssignmentV>::empty());
                    },
                }
            }
            let acc3 = WindowAcc { title, width, height };
            assert(spec_window_fold(h_part, acc2) == Ok::<WindowAcc, SceneErrorV>(acc3)) by {
                match height {
                    Some(h) => {
                        assert(h_part[0] == AssignmentV {
                            name: key_height(),
                            value: ValueV::Num(h),
                        });
                        assert(h_part.skip(1) =~= Seq::<AssignmentV>::empty());
                        assert(spec_window_fold(
                            h_part.skip(1),
                            WindowAcc { height: Some(h), ..acc2 },
                        ) == Ok::<WindowAcc, SceneErrorV>(acc3));
                    },
                    None => {
                        assert(h_part =~= Seq::<AssignmentV>::empty());
                    },
                }
            }
            assert(raw.assignments == (t_part + w_part) + h_part);
            assert(spec_window_fold(raw.assignments, acc0) == Ok::<WindowAcc, SceneErrorV>(
                acc3));
            assert(spec_from_raw(raw) == Ok::<DefinitionV, SceneErrorV>(d));
        },
        DefinitionV::AmbientLight { intensity } => {
            let asgs = raw.assignments;
            let acc0 = LightAcc {
                light_type: None,
                intensity: None,
                position: None,
                direction: None,
            };
            let acc1 = LightAcc { light_type: Some(key_ambient()), ..acc0 };
            let acc2 = LightAcc { intensity: Some(intensity), ..acc1 };
            assert(key_type().len() == 4 && key_intensity().len() == 9);
            assert(asgs[0] == AssignmentV {
                name: key_type(),
                value: ValueV::VString(key_ambient()),
            });
            assert(spec_light_fold(asgs, acc0) == spec_light_fold(asgs.skip(1), acc1));
            assert(asgs.skip(1)[0] == asgs[1]);
            assert(asgs[1] == AssignmentV { name: key_intensity(), value: ValueV::Num(intensity) });
            assert(spec_light_fold(asgs.skip(1), acc1) == spec_light_fold(asgs.skip(1).skip(1),
                acc2));
            assert(asgs.skip(1).skip(1) =~= Seq::<AssignmentV>::empty());
            assert(spec_light_fold(asgs.skip(1).skip(1), acc2) == Ok::<LightAcc, SceneErrorV>(
                acc2));
            assert(key_ambient().len() == 7);
            assert(spec_light_finish(acc2) == Ok::<DefinitionV, SceneErrorV>(d));
            assert(spec_from_raw(raw) == Ok::<DefinitionV, SceneErrorV>(d));
        },
        DefinitionV::PointLight { intensity, position } => {
            let asgs = raw.assignments;
            let acc0 = LightAcc {
                light_type: None,
                intensity: None,
                position: None,
                direction: None,
            };
            let acc1 = LightAcc { light_type: Some(key_point()), ..acc0 };
            let acc2 = LightAcc { intensity: Some(intensity), ..acc1 };
            let acc3 = LightAcc { position: Some(position), ..acc2 };
            assert(key_type().len() == 4 && key_intensity().len() == 9 && key_position().len()
                == 8 && key_direction().len() == 9);
            assert(asgs[0] == AssignmentV { name: key_type(), value: ValueV::VString(key_point()) });
            assert(spec_light_fold(asgs, acc0) == spec_light_fold(asgs.skip(1), acc1));
            assert(asgs.skip(1)[0] == asgs[1]);
            assert(asgs[1] == AssignmentV { name: key_intensity(), value: ValueV::Num(intensity) });
            assert(spec_light_fold(asgs.skip(1), acc1) == spec_light_fold(asgs.skip(1).skip(1),
                acc2));
            assert(asgs.skip(1).skip(1) =~= asgs.skip(2));
            assert(asgs.skip(2)[0] == asgs[2]);
            assert(asgs[2] == AssignmentV { name: key_position(), value: ValueV::Tuple(position) });
            assert(spec_light_fold(asgs.skip(2), acc2) == spec_light_fold(asgs.skip(2).skip(1),
                acc3));
            assert(asgs.skip(2).skip(1) =~= Seq::<AssignmentV>::empty());
            assert(spec_light_fold(asgs.skip(2).skip(1), acc3) == Ok::<LightAcc, SceneErrorV>(
                acc3));
            assert(key_ambient().len() == 7 && key_point().len() == 5 && key_directional().len()
                == 11);
            assert(spec_light_finish(acc3) == Ok::<DefinitionV, SceneErrorV>(d));
            assert(spec_from_raw(raw) == Ok::<DefinitionV, SceneErrorV>(d));
        },
        DefinitionV::DirectionLight { intensity, direction } => {
            let asgs = raw.assignments;
            let acc0 = LightAcc {
                light_type: None,
                intensity: None,
                position: None,
                direction: None,
            };
            let acc1 = LightAcc { light_type: Some(key_directional()), ..acc0 };
            let acc2 = LightAcc { intensity: Some(intensity), ..acc1 };
            let acc3 = LightAcc { direction: Some(direction), ..acc2 };
            assert(key_type().len() == 4 && key_intensity().len() == 9 && key_position().len()
                == 8 && key_direction().len() == 9);
            assert(asgs[0] == AssignmentV { name: key_type(), value: ValueV::VString(key_directional()) });
            assert(spec_light_fold(asgs, acc0) == spec_light_fold(asgs.skip(1), acc1));
            assert(asgs.skip(1)[0] == asgs[1]);
            assert(asgs[1] == AssignmentV { name: key_intensity(), value: ValueV::Num(intensity) });
            assert(spec_light_fold(asgs.skip(1), acc1) == spec_light_fold(asgs.skip(1).skip(1),
                acc2));
            assert(asgs.skip(1).skip(1) =~= asgs.skip(2));
            assert(asgs.skip(2)[0] == asgs[2]);
            assert(asgs[2] == AssignmentV { name: key_direction(), value: ValueV::Tuple(direction) });
            assert(spec_light_fold(asgs.skip(2), acc2) == spec_light_fold(asgs.skip(2).skip(1),
                acc3));
            assert(asgs.skip(2).skip(1) =~= Seq::<AssignmentV>::empty());
            assert(spec_light_fold(asgs.skip(2).skip(1), acc3) == Ok::<LightAcc, SceneErrorV>(
                acc3));
            assert(key_ambient().len() == 7 && key_point().len() == 5 && key_directional().len()
                == 11);
            assert(spec_light_finish(acc3) == Ok::<DefinitionV, SceneErrorV>(d));
            assert(spec_from_raw(raw) == Ok::<DefinitionV, SceneErrorV>(d));
        },
        DefinitionV::Sphere { color, center, radius } => {
            let asgs = raw.assignments;
            let acc0 = SphereAcc { color: None, center: None, radius: None };
            let acc1 = SphereAcc { color: Some(color), ..acc0 };
            let acc2 = SphereAcc { center: Some(center), ..acc1 };
            let acc3 = SphereAcc { radius: Some(radius), ..acc2 };
            assert(key_color().len() == 5 && key_center().len() == 6 && key_radius().len()
                == 6);
            assert(asgs[0] == AssignmentV { name: key_color(), value: ValueV::Tuple(color) });
            assert(spec_sphere_fold(asgs, acc0) == spec_sphere_fold(asgs.skip(1), acc1));
            assert(asgs.skip(1)[0] == asgs[1]);
            assert(asgs[1] == AssignmentV { name: key_center(), value: ValueV::Tuple(center) });
            assert(spec_sphere_fold(asgs.skip(1), acc1) == spec_sphere_fold(
                asgs.skip(1).skip(1), acc2));
            assert(asgs.skip(1).skip(1) =~= asgs.skip(2));
            assert(asgs.skip(2)[0] == asgs[2]);
            assert(asgs[2] == AssignmentV { name: key_radius(), value: ValueV::Num(radius) });
            assert(spec_sphere_fold(asgs.skip(2), acc2) == spec_sphere_fold(
                asgs.skip(2).skip(1), acc3));
            assert(asgs.skip(2).skip(1) =~= Seq::<AssignmentV>::empty());
            assert(spec_sphere_fold(asgs.skip(2).skip(1), acc3) == Ok::<SphereAcc, SceneErrorV>(
                acc3));
            assert(spec_sphere_finish(acc3) == Ok::<DefinitionV, SceneErrorV>(d));
            assert(spec_from_raw(raw) == Ok::<DefinitionV, SceneErrorV>(d));
        },
    }
}

/// The raw blocks a written scene parses to, in order.
pub open spec fn raws_of(defs: Seq<DefinitionV>) -> Seq<RawDefinitionV> {
    defs.map_values(|d: DefinitionV| raw_of(d))
}

/// A written scene parses back to its raw blocks.
pub proof fn lemma_scene_raw_roundtrip(defs: Seq<DefinitionV>)
    requires
        wf_defs(defs),
    ensures
        spec_parse_raw_scene(scene_tokens(defs)) == Ok::<Seq<RawDefinitionV>, SceneErrorV>(
            raws_of(defs),
        ),
    decreases defs.len(),
{
    if defs.len() == 0 {
        assert(spec_munch_newlines(scene_tokens(defs)) == scene_tokens(defs));
        assert(raws_of(defs) =~= Seq::<RawDefinitionV>::empty());
    } else {
        let d0 = defs[0];
        let rest = seq![TokenV::NewLine] + scene_tokens(defs.skip(1));
        let ts = scene_tokens(defs);
        assert(ts =~= definition_tokens(d0) + rest);
        assert(ts[0] == TokenV::Identifier(kind_of(d0))) by {
            assert(definition_tokens(d0)[0] == TokenV::Identifier(kind_of(d0)));
        }
        assert(spec_munch_newlines(ts) == ts);
        lemma_definition_roundtrip(d0, rest);
        assert(rest[0] == TokenV::NewLine);
        assert(rest.skip(1) =~= scene_tokens(defs.skip(1)));
        assert(spec_munch_newlines(rest) == spec_munch_newlines(scene_tokens(defs.skip(1))));
        assert(spec_parse_raw_scene(rest) == spec_parse_raw_scene(scene_tokens(defs.skip(1))));
        assert(wf_defs(defs.skip(1))) by {
            assert(forall|i: int| 0 <= i < defs.skip(1).len() ==> #[trigger] defs.skip(1)[i]
                == defs[i + 1]);
        }
        lemma_scene_raw_roundtrip(defs.skip(1));
        assert(seq![raw_of(d0)] + raws_of(defs.skip(1)) =~= raws_of(defs));
    }
}

/// Validating the raw blocks of written definitions yields them all back.
pub proof fn lemma_validate_written_list(defs: Seq<DefinitionV>)
    requires
        wf_defs(defs),
    ensures
        spec_validate_defs(raws_of(defs)) == Ok::<Seq<DefinitionV>, SceneErrorV>(defs),
    decreases defs.len(),
{
    if defs.len() == 0 {
        assert(raws_of(defs) =~= Seq::<RawDefinitionV>::empty());
        assert(defs =~= Seq::<DefinitionV>::empty());
    } else {
        assert(raws_of(defs)[0] == raw_of(defs[0]));
        lemma_validate_written(defs[0]);
        assert(raws_of(defs).skip(1) =~= raws_of(defs.skip(1)));
        assert(wf_defs(defs.skip(1))) by {
            assert(forall|i: int| 0 <= i < defs.skip(1).len() ==> #[trigger] defs.skip(1)[i]
                == defs[i + 1]);
        }
        lemma_validate_written_list(defs.skip(1));
        assert(seq![defs[0]] + defs.skip(1) =~= defs);
    }
}

/// No token of a written scene is a lexing error.
pub open spec fn no_error_tokens(ts: Seq<TokenV>) -> bool {
    forall|i: int| 0 <= i < ts.len() ==> !((#[trigger] ts[i]) is Error)
}

proof fn lemma_no_error_concat(a: Seq<TokenV>, b: Seq<TokenV>)
    requires
        no_error_tokens(a),
        no_error_tokens(b),
    ensures
        no_error_tokens(a + b),
{
    assert forall|i: int| 0 <= i < (a + b).len() implies !((#[trigger] (a + b)[i]) is Error) by {
        if i < a.len() {
            assert((a + b)[i] == a[i]);
        } else {
            assert((a + b)[i] == b[i - a.len()]);
        }
    }
}

proof fn lemma_assignments_tokens_no_error(assigns: Seq<AssignmentV>)
    ensures
        no_error_tokens(assignments_tokens(assigns)),
    decreases assigns.len(),
{
    if assigns.len() == 0 {
    } else {
        let a0 = assigns[0];
        assert(no_error_tokens(assignment_tokens(a0))) by {
            lemma_no_error_concat(
                seq![TokenV::Identifier(a0.name), TokenV::Equal],
                value_tokens(a0.value),
            );
            lemma_no_error_concat(
                seq![TokenV::Identifier(a0.name), TokenV::Equal] + value_tokens(a0.value),
                seq![TokenV::NewLine],
            );
        }
        lemma_assignments_tokens_no_error(assigns.skip(1));
        lemma_no_error_concat(assignment_tokens(a0), assignments_tokens(assigns.skip(1)));
    }
}

proof fn lemma_scene_tokens_no_error(defs: Seq<DefinitionV>)
    ensures
        no_error_tokens(scene_tokens(defs)),
    decreases defs.len(),
{
    if defs.len() == 0 {
    } else {
        let d0 = defs[0];
        lemma_assignments_tokens_no_error(assignments_of(d0));
        lemma_no_error_concat(
            seq![TokenV::Identifier(kind_of(d0)), TokenV::LBrace, TokenV::NewLine],
            assignments_tokens(assignments_of(d0)),
        );
        lemma_no_error_concat(
            seq![TokenV::Identifier(kind_of(d0)), TokenV::LBrace, TokenV::NewLine]
                + assignments_tokens(assignments_of(d0)),
            seq![TokenV::RBrace],
        );
        lemma_scene_tokens_no_error(defs.skip(1));
        lemma_no_error_concat(seq![TokenV::NewLine], scene_tokens(defs.skip(1)));
        lemma_no_error_concat(
            definition_tokens(d0),
            seq![TokenV::NewLine] + scene_tokens(defs.skip(1)),
        );
        assert(scene_tokens(defs) =~= definition_tokens(d0) + (seq![TokenV::NewLine]
            + scene_tokens(defs.skip(1))));
    }
}

/// Round trip: a scene description built from well-formed definitions,
/// written out in token form and parsed and validated again, yields
/// field-wise equal definitions — for window blocks, each light kind, and
/// spheres.
pub proof fn lemma_definitions_roundtrip(defs: Seq<DefinitionV>)
    requires
        wf_defs(defs),
    ensures
        spec_parse_tokens(scene_tokens(defs)) == Ok::<Seq<DefinitionV>, SceneErrorV>(defs),
{
    lemma_scene_tokens_no_error(defs);
    lemma_find_error_none(scene_tokens(defs));
    lemma_scene_raw_roundtrip(defs);
    lemma_validate_written_list(defs);
}

} // verus!
