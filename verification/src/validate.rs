//! Per-kind validation of raw definition blocks.
//!
//! A raw block is checked exhaustively against its kind's key table:
//! unknown keys, wrongly shaped values, missing required keys and mutually
//! exclusive keys are each a hard error, and the first error aborts
//! loading.  The kinds:
//!
//! | kind   | keys                                                        |
//! |--------|-------------------------------------------------------------|
//! | window | `title?` (string), `width?` (number), `height?` (number)    |
//! | light  | `type` (string), `intensity` (number), `position` (tuple), `direction` (tuple) |
//! | sphere | `color` (tuple), `center` (tuple), `radius` (number)        |
//!
//! A light's `type` decides which of `position`/`direction` is required
//! and which is forbidden: `ambient` forbids both, `point` requires
//! `position` and forbids `direction`, `directional` the other way round.

use vstd::prelude::*;
use crate::ast::{Value, ValueV, Assignment, AssignmentV, RawDefinition, RawDefinitionV,
    Definition, DefinitionV, SceneError, SceneErrorV, ShapeKind};
use crate::lexer::{TokenV, spec_tokenize};
use crate::parser::{spec_parse_raw_scene, find_error_token};
use crate::fixed::{Fixed, Triple};

verus! {

pub open spec fn key_window() -> Seq<u8> {
    seq![119u8, 105u8, 110u8, 100u8, 111u8, 119u8]
}

pub open spec fn key_light() -> Seq<u8> {
    seq![108u8, 105u8, 103u8, 104u8, 116u8]
}

pub open spec fn key_sphere() -> Seq<u8> {
    seq![115u8, 112u8, 104u8, 101u8, 114u8, 101u8]
}

pub open spec fn key_width() -> Seq<u8> {
    seq![119u8, 105u8, 100u8, 116u8, 104u8]
}

pub open spec fn key_height() -> Seq<u8> {
    seq![104u8, 101u8, 105u8, 103u8, 104u8, 116u8]
}

pub open spec fn key_title() -> Seq<u8> {
    seq![116u8, 105u8, 116u8, 108u8, 101u8]
}

pub open spec fn key_type() -> Seq<u8> {
    seq![116u8, 121u8, 112u8, 101u8]
}

pub open spec fn key_intensity() -> Seq<u8> {
    seq![105u8, 110u8, 116u8, 101u8, 110u8, 115u8, 105u8, 116u8, 121u8]
}

pub open spec fn key_position() -> Seq<u8> {
    seq![112u8, 111u8, 115u8, 105u8, 116u8, 105u8, 111u8, 110u8]
}

pub open spec fn key_direction() -> Seq<u8> {
    seq![100u8, 105u8, 114u8, 101u8, 99u8, 116u8, 105u8, 111u8, 110u8]
}

pub open spec fn key_color() -> Seq<u8> {
    seq![99u8, 111u8, 108u8, 111u8, 114u8]
}

pub open spec fn key_center() -> Seq<u8> {
    seq![99u8, 101u8, 110u8, 116u8, 101u8, 114u8]
}

pub open spec fn key_radius() -> Seq<u8> {
    seq![114u8, 97u8, 100u8, 105u8, 117u8, 115u8]
}

pub open spec fn key_ambient() -> Seq<u8> {
    seq![97u8, 109u8, 98u8, 105u8, 101u8, 110u8, 116u8]
}

pub open spec fn key_point() -> Seq<u8> {
    seq![112u8, 111u8, 105u8, 110u8, 116u8]
}

pub open spec fn key_directional() -> Seq<u8> {
    seq![100u8, 105u8, 114u8, 101u8, 99u8, 116u8, 105u8, 111u8, 110u8, 97u8, 108u8]
}

/// A number where the key demands one.
pub open spec fn spec_numeric_value(v: ValueV, property: Seq<u8>) -> Result<int, SceneErrorV> {
    match v {
        ValueV::Num(n) => Ok(n),
        _ => Err(SceneErrorV::WrongValueShape { property, expected: ShapeKind::NumberShape }),
    }
}

/// A string where the key demands one.
pub open spec fn spec_string_value(v: ValueV, property: Seq<u8>) -> Result<Seq<u8>, SceneErrorV> {
    match v {
        ValueV::VString(s) => Ok(s),
        _ => Err(SceneErrorV::WrongValueShape { property, expected: ShapeKind::TextShape }),
    }
}

/// A tuple where the key demands one.
pub open spec fn spec_tuple_value(v: ValueV, property: Seq<u8>) -> Result<
    (int, int, int),
    SceneErrorV,
> {
    match v {
        ValueV::Tuple(t) => Ok(t),
        _ => Err(SceneErrorV::WrongValueShape { property, expected: ShapeKind::TupleShape }),
    }
}

pub ghost struct WindowAcc {
    pub title: Option<Seq<u8>>,
    pub width: Option<int>,
    pub height: Option<int>,
}

/// Walk a window block's assignments; a later key overwrites an earlier
/// duplicate.
pub open spec fn spec_window_fold(assigns: Seq<AssignmentV>, acc: WindowAcc) -> Result<
    WindowAcc,
    SceneErrorV,
>
    decreases assigns.len(),
{
    if assigns.len() == 0 {
        Ok(acc)
    } else {
        let a = assigns[0];
        if a.name == key_width() {
            match spec_numeric_value(a.value, key_width()) {
                Err(e) => Err(e),
                Ok(n) => spec_window_fold(
                    assigns.skip(1),
                    WindowAcc { width: Some(n), ..acc },
                ),
            }
        } else if a.name == key_height() {
            match spec_numeric_value(a.value, key_height()) {
                Err(e) => Err(e),
                Ok(n) => spec_window_fold(
                    assigns.skip(1),
                    WindowAcc { height: Some(n), ..acc },
                ),
            }
        } else if a.name == key_title() {
            match spec_string_value(a.value, key_title()) {
                Err(e) => Err(e),
                Ok(s) => spec_window_fold(
                    assigns.skip(1),
                    WindowAcc { title: Some(s), ..acc },
                ),
            }
        } else {
            Err(SceneErrorV::UnknownProperty { def_type: key_window(), name: a.name })
        }
    }
}

pub open spec fn spec_window_from_raw(raw: RawDefinitionV) -> Result<DefinitionV, SceneErrorV> {
    match spec_window_fold(
        raw.assignments,
        WindowAcc { title: None, width: None, height: None },
    ) {
        Err(e) => Err(e),
        Ok(acc) => Ok(
            DefinitionV::Window { title: acc.title, width: acc.width, height: acc.height },
        ),
    }
}

pub ghost struct LightAcc {
    pub light_type: Option<Seq<u8>>,
    pub intensity: Option<int>,
    pub position: Option<(int, int, int)>,
    pub direction: Option<(int, int, int)>,
}

pub open spec fn spec_light_fold(assigns: Seq<AssignmentV>, acc: LightAcc) -> Result<
    LightAcc,
    SceneErrorV,
>
    decreases assigns.len(),
{
    if assigns.len() == 0 {
        Ok(acc)
    } else {
        let a = assigns[0];
        if a.name == key_type() {
            match spec_string_value(a.value, key_type()) {
                Err(e) => Err(e),
                Ok(s) => spec_light_fold(
                    assigns.skip(1),
                    LightAcc { light_type: Some(s), ..acc },
                ),
            }
        } else if a.name == key_intensity() {
            match spec_numeric_value(a.value, key_intensity()) {
                Err(e) => Err(e),
                Ok(n) => spec_light_fold(
                    assigns.skip(1),
                    LightAcc { intensity: Some(n), ..acc },
                ),
            }
        } else if a.name == key_position() {
            match spec_tuple_value(a.value, key_position()) {
                Err(e) => Err(e),
                Ok(t) => spec_light_fold(
                    assigns.skip(1),
                    LightAcc { position: Some(t), ..acc },
                ),
            }
        } else if a.name == key_direction() {
            match spec_tuple_value(a.value, key_direction()) {
                Err(e) => Err(e),
                Ok(t) => spec_light_fold(
                    assigns.skip(1),
                    LightAcc { direction: Some(t), ..acc },
                ),
            }
        } else {
            Err(SceneErrorV::UnknownProperty { def_type: key_light(), name: a.name })
        }
    }
}

/// The mutually exclusive key rules, decided by the light's `type`.
pub open spec fn spec_light_finish(acc: LightAcc) -> Result<DefinitionV, SceneErrorV> {
    if acc.light_type is None {
        Err(SceneErrorV::MissingProperty { def_type: key_light(), name: key_type() })
    } else if acc.intensity is None {
        Err(SceneErrorV::MissingProperty { def_type: key_light(), name: key_intensity() })
    } else {
        let lt = acc.light_type->0;
        let intensity = acc.intensity->0;
        if lt == key_ambient() {
            if acc.position is Some {
                Err(
                    SceneErrorV::ForbiddenProperty {
                        light_type: key_ambient(),
                        name: key_position(),
                    },
                )
            } else if acc.direction is Some {
                Err(
                    SceneErrorV::ForbiddenProperty {
                        light_type: key_ambient(),
                        name: key_direction(),
                    },
                )
            } else {
                Ok(DefinitionV::AmbientLight { intensity })
            }
        } else if lt == key_point() {
            if acc.position is None {
                Err(SceneErrorV::MissingProperty { def_type: key_light(), name: key_position() })
            } else if acc.direction is Some {
                Err(
                    SceneErrorV::ForbiddenProperty {
                        light_type: key_point(),
                        name: key_direction(),
                    },
                )
            } else {
                Ok(DefinitionV::PointLight { intensity, position: acc.position->0 })
            }
        } else if lt == key_directional() {
            if acc.direction is None {
                Err(
                    SceneErrorV::MissingProperty {
                        def_type: key_light(),
                        name: key_direction(),
                    },
                )
            } else if acc.position is Some {
                Err(
                    SceneErrorV::ForbiddenProperty {
                        light_type: key_directional(),
                        name: key_position(),
                    },
                )
            } else {
                Ok(DefinitionV::DirectionLight { intensity, direction: acc.direction->0 })
            }
        } else {
            Err(SceneErrorV::UnknownLightType { name: lt })
        }
    }
}

pub open spec fn spec_light_from_raw(raw: RawDefinitionV) -> Result<DefinitionV, SceneErrorV> {
    match spec_light_fold(
        raw.assignments,
        LightAcc { light_type: None, intensity: None, position: None, direction: None },
    ) {
        Err(e) => Err(e),
        Ok(acc) => spec_light_finish(acc),
    }
}

pub ghost struct SphereAcc {
    pub color: Option<(int, int, int)>,
    pub center: Option<(int, int, int)>,
    pub radius: Option<int>,
}

pub open spec fn spec_sphere_fold(assigns: Seq<AssignmentV>, acc: SphereAcc) -> Result<
    SphereAcc,
    SceneErrorV,
>
    decreases assigns.len(),
{
    if assigns.len() == 0 {
        Ok(acc)
    } else {
        let a = assigns[0];
        if a.name == key_color() {
            match spec_tuple_value(a.value, key_color()) {
                Err(e) => Err(e),
                Ok(t) => spec_sphere_fold(assigns.skip(1), SphereAcc { color: Some(t), ..acc }),
            }
        } else if a.name == key_center() {
            match spec_tuple_value(a.value, key_center()) {
                Err(e) => Err(e),
                Ok(t) => spec_sphere_fold(
                    assigns.skip(1),
                    SphereAcc { center: Some(t), ..acc },
                ),
            }
        } else if a.name == key_radius() {
            match spec_numeric_value(a.value, key_radius()) {
                Err(e) => Err(e),
                Ok(n) => spec_sphere_fold(
                    assigns.skip(1),
                    SphereAcc { radius: Some(n), ..acc },
                ),
            }
        } else {
            Err(SceneErrorV::UnknownProperty { def_type: key_sphere(), name: a.name })
        }
    }
}

/// All three sphere keys are required; the first missing one is named.
pub open spec fn spec_sphere_finish(acc: SphereAcc) -> Result<DefinitionV, SceneErrorV> {
    if acc.color is None {
        Err(SceneErrorV::MissingProperty { def_type: key_sphere(), name: key_color() })
    } else if acc.center is None {
        Err(SceneErrorV::MissingProperty { def_type: key_sphere(), name: key_center() })
    } else if acc.radius is None {
        Err(SceneErrorV::MissingProperty { def_type: key_sphere(), name: key_radius() })
    } else {
        Ok(
            DefinitionV::Sphere {
                color: acc.color->0,
                center: acc.center->0,
                radius: acc.radius->0,
            },
        )
    }
}

pub open spec fn spec_sphere_from_raw(raw: RawDefinitionV) -> Result<DefinitionV, SceneErrorV> {
    match spec_sphere_fold(raw.assignments, SphereAcc { color: None, center: None, radius: None }) {
        Err(e) => Err(e),
        Ok(acc) => spec_sphere_finish(acc),
    }
}

/// Dispatch a raw block on its definition kind.
pub open spec fn spec_from_raw(raw: RawDefinitionV) -> Result<DefinitionV, SceneErrorV> {
    if raw.def_type == key_window() {
        spec_window_from_raw(raw)
    } else if raw.def_type == key_light() {
        spec_light_from_raw(raw)
    } else if raw.def_type == key_sphere() {
        spec_sphere_from_raw(raw)
    } else {
        Err(SceneErrorV::UnknownDefinitionType { name: raw.def_type })
    }
}

/// Validate raw blocks in file order; the first invalid one aborts.
pub open spec fn spec_validate_defs(rs: Seq<RawDefinitionV>) -> Result<
    Seq<DefinitionV>,
    SceneErrorV,
>
    decreases rs.len(),
{
    if rs.len() == 0 {
        Ok(Seq::empty())
    } else {
        match spec_from_raw(rs[0]) {
            Err(e) => Err(e),
            Ok(d) => match spec_validate_defs(rs.skip(1)) {
                Err(e) => Err(e),
                Ok(ds) => Ok(seq![d] + ds),
            },
        }
    }
}

/// What parsing a token stream yields: a lexing fault is fatal first, then
/// the grammar, then per-kind validation of each block in order.
pub open spec fn spec_parse_tokens(ts: Seq<TokenV>) -> Result<Seq<DefinitionV>, SceneErrorV> {
    match find_error_token(ts) {
        Some(i) => Err(SceneErrorV::LexError { position: i }),
        None => match spec_parse_raw_scene(ts) {
            Err(e) => Err(e),
            Ok(raws) => spec_validate_defs(raws),
        },
    }
}

/// The whole pipeline: text to validated definitions, a function of the
/// input bytes alone.
pub open spec fn spec_scene_defs(text: Seq<u8>) -> Result<Seq<DefinitionV>, SceneErrorV> {
    spec_parse_tokens(spec_tokenize(text))
}

/// Parsing is deterministic: identical input text always yields identical
/// definitions or an identical error.
pub proof fn lemma_parsing_deterministic(a: Seq<u8>, b: Seq<u8>)
    requires
        a == b,
    ensures
        spec_scene_defs(a) == spec_scene_defs(b),
{
}

/// Whether two byte strings hold the same bytes.
fn bytes_eq_vec(a: &Vec<u8>, b: &Vec<u8>) -> (r: bool)
    ensures
        r == (a@ == b@),
{
    if a.len() != b.len() {
        return false;
    }
    let mut i: usize = 0;
    while i < a.len()
        invariant
            i <= a@.len(),
            a@.len() == b@.len(),
            forall|j: int| 0 <= j < i ==> a@[j] == b@[j],
        decreases a@.len() - i,
    {
        if a[i] != b[i] {
            return false;
        }
        i = i + 1;
    }
    proof {
        assert(a@ =~= b@);
    }
    true
}

/// Copy a value.
fn dup_value(v: &Value) -> (r: Value)
    ensures
        r@ == v@,
{
    match v {
        Value::Num(f) => Value::Num(*f),
        Value::VString(s) => Value::VString(crate::parser::dup_bytes(s)),
        Value::Tuple(t) => Value::Tuple(*t),
    }
}

pub(crate) fn key_vec_window() -> (r: Vec<u8>)
    ensures
        r@ == key_window(),
{
    let mut v: Vec<u8> = Vec::new();
    v.push(119);
    v.push(105);
    v.push(110);
    v.push(100);
    v.push(111);
    v.push(119);
    proof {
        assert(v@ =~= key_window());
    }
    v
}

pub(crate) fn key_vec_light() -> (r: Vec<u8>)
    ensures
        r@ == key_light(),
{
    let mut v: Vec<u8> = Vec::new();
    v.push(108);
    v.push(105);
    v.push(103);
    v.push(104);
    v.push(116);
    proof {
        assert(v@ =~= key_light());
    }
    v
}

pub(crate) fn key_vec_sphere() -> (r: Vec<u8>)
    ensures
        r@ == key_sphere(),
{
    let mut v: Vec<u8> = Vec::new();
    v.push(115);
    v.push(112);
    v.push(104);
    v.push(101);
    v.push(114);
    v.push(101);
    proof {
        assert(v@ =~= key_sphere());
    }
    v
}

pub(crate) fn key_vec_width() -> (r: Vec<u8>)
    ensures
        r@ == key_width(),
{
    let mut v: Vec<u8> = Vec::new();
    v.push(119);
    v.push(105);
    v.push(100);
    v.push(116);
    v.push(104);
    proof {
        assert(v@ =~= key_width());
    }
    v
}

pub(crate) fn key_vec_height() -> (r: Vec<u8>)
    ensures
        r@ == key_height(),
{
    let mut v: Vec<u8> = Vec::new();
    v.push(104);
    v.push(101);
    v.push(105);
    v.push(103);
    v.push(104);
    v.push(116);
    proof {
        assert(v@ =~= key_height());
    }
    v
}

pub(crate) fn key_vec_title() -> (r: Vec<u8>)
    ensures
        r@ == key_title(),
{
    let mut v: Vec<u8> = Vec::new();
    v.push(116);
    v.push(105);
    v.push(116);
    v.push(108);
    v.push(101);
    proof {
        assert(v@ =~= key_title());
    }
    v
}

pub(crate) fn key_vec_type() -> (r: Vec<u8>)
    ensures
        r@ == key_type(),
{
    let mut v: Vec<u8> = Vec::new();
    v.push(116);
    v.push(121);
    v.push(112);
    v.push(101);
    proof {
        assert(v@ =~= key_type());
    }
    v
}

pub(crate) fn key_vec_intensity() -> (r: Vec<u8>)
    ensures
        r@ == key_intensity(),
{
    let mut v: Vec<u8> = Vec::new();
    v.push(105);
    v.push(110);
    v.push(116);
    v.push(101);
    v.push(110);
    v.push(115);
    v.push(105);
    v.push(116);
    v.push(121);
    proof {
        assert(v@ =~= key_intensity());
    }
    v
}

pub(crate) fn key_vec_position() -> (r: Vec<u8>)
    ensures
        r@ == key_position(),
{
    let mut v: Vec<u8> = Vec::new();
    v.push(112);
    v.push(111);
    v.push(115);
    v.push(105);
    v.push(116);
    v.push(105);
    v.push(111);
    v.push(110);
    proof {
        assert(v@ =~= key_position());
    }
    v
}

pub(crate) fn key_vec_direction() -> (r: Vec<u8>)
    ensures
        r@ == key_direction(),
{
    let mut v: Vec<u8> = Vec::new();
    v.push(100);
    v.push(105);
    v.push(114);
    v.push(101);
    v.push(99);
    v.push(116);
    v.push(105);
    v.push(111);
    v.push(110);
    proof {
        assert(v@ =~= key_direction());
    }
    v
}

pub(crate) fn key_vec_color() -> (r: Vec<u8>)
    ensures
        r@ == key_color(),
{
    let mut v: Vec<u8> = Vec::new();
    v.push(99);
    v.push(111);
    v.push(108);
    v.push(111);
    v.push(114);
    proof {
        assert(v@ =~= key_color());
    }
    v
}

pub(crate) fn key_vec_center() -> (r: Vec<u8>)
    ensures
        r@ == key_center(),
{
    let mut v: Vec<u8> = Vec::new();
    v.push(99);
    v.push(101);
    v.push(110);
    v.push(116);
    v.push(101);
    v.push(114);
    proof {
        assert(v@ =~= key_center());
    }
    v
}

pub(crate) fn key_vec_radius() -> (r: Vec<u8>)
    ensures
        r@ == key_radius(),
{
    let mut v: Vec<u8> = Vec::new();
    v.push(114);
    v.push(97);
    v.push(100);
    v.push(105);
    v.push(117);
    v.push(115);
    proof {
        assert(v@ =~= key_radius());
    }
    v
}

pub(crate) fn key_vec_ambient() -> (r: Vec<u8>)
    ensures
        r@ == key_ambient(),
{
    let mut v: Vec<u8> = Vec::new();
    v.push(97);
    v.push(109);
    v.push(98);
    v.push(105);
    v.push(101);
    v.push(110);
    v.push(116);
    proof {
        assert(v@ =~= key_ambient());
    }
    v
}

pub(crate) fn key_vec_point() -> (r: Vec<u8>)
    ensures
        r@ == key_point(),
{
    let mut v: Vec<u8> = Vec::new();
    v.push(112);
    v.push(111);
    v.push(105);
    v.push(110);
    v.push(116);
    proof {
        assert(v@ =~= key_point());
    }
    v
}

pub(crate) fn key_vec_directional() -> (r: Vec<u8>)
    ensures
        r@ == key_directional(),
{
    let mut v: Vec<u8> = Vec::new();
    v.push(100);
    v.push(105);
    v.push(114);
    v.push(101);
    v.push(99);
    v.push(116);
    v.push(105);
    v.push(111);
    v.push(110);
    v.push(97);
    v.push(108);
    proof {
        assert(v@ =~= key_directional());
    }
    v
}

pub open spec fn opt_bytes_view(o: Option<Vec<u8>>) -> Option<Seq<u8>> {
    match o {
        Some(v) => Some(v@),
        None => None,
    }
}

pub open spec fn opt_fixed_view(o: Option<Fixed>) -> Option<int> {
    match o {
        Some(f) => Some(f@),
        None => None,
    }
}

pub open spec fn opt_triple_view(o: Option<Triple>) -> Option<(int, int, int)> {
    match o {
        Some(t) => Some(t@),
        None => None,
    }
}

impl Definition {
    /// A number where the key demands one.
    pub fn numeric_value(value: Value, property: Vec<u8>) -> (r: Result<Fixed, SceneError>)
        ensures
            match spec_numeric_value(value@, property@) {
                Ok(n) => r matches Ok(f) && f@ == n,
                Err(e) => r matches Err(x) && x@ == e,
            },
    {
        match value {
            Value::Num(f) => Ok(f),
            _ => Err(
                SceneError::WrongValueShape { property, expected: ShapeKind::NumberShape },
            ),
        }
    }

    /// A string where the key demands one.
    pub fn string_value(value: Value, property: Vec<u8>) -> (r: Result<Vec<u8>, SceneError>)
        ensures
            match spec_string_value(value@, property@) {
                Ok(s) => r matches Ok(v) && v@ == s,
                Err(e) => r matches Err(x) && x@ == e,
            },
    {
        match value {
            Value::VString(s) => Ok(s),
            _ => Err(SceneError::WrongValueShape { property, expected: ShapeKind::TextShape }),
        }
    }

    /// A tuple where the key demands one.
    pub fn tuple_value(value: Value, property: Vec<u8>) -> (r: Result<Triple, SceneError>)
        ensures
            match spec_tuple_value(value@, property@) {
                Ok(t) => r matches Ok(v) && v@ == t,
                Err(e) => r matches Err(x) && x@ == e,
            },
    {
        match value {
            Value::Tuple(t) => Ok(t),
            _ => Err(SceneError::WrongValueShape { property, expected: ShapeKind::TupleShape }),
        }
    }

    /// Validate a `window` block: any subset of `title`, `width`, `height`.
    pub fn window_from_raw(raw: RawDefinition) -> (r: Result<Definition, SceneError>)
        ensures
            match spec_window_from_raw(raw@) {
                Ok(d) => r matches Ok(x) && x@ == d,
                Err(e) => r matches Err(x) && x@ == e,
            },
    {
        let mut title: Option<Vec<u8>> = None;
        let mut width: Option<Fixed> = None;
        let mut height: Option<Fixed> = None;
        let ghost assigns = raw@.assignments;
        let ghost init = WindowAcc { title: None, width: None, height: None };
        let n: usize = raw.assignments.len();
        let mut i: usize = 0;
        proof {
            assert(assigns.skip(0) =~= assigns);
        }
        while i < n
            invariant
                i <= n,
                n == raw.assignments@.len(),
                assigns == raw@.assignments,
                init == (WindowAcc { title: None, width: None, height: None }),
                spec_window_fold(assigns, init) == spec_window_fold(
                    assigns.skip(i as int),
                    WindowAcc {
                        title: opt_bytes_view(title),
                        width: opt_fixed_view(width),
                        height: opt_fixed_view(height),
                    },
                ),
            decreases n - i,
        {
            let a = &raw.assignments[i];
            proof {
                assert(assigns[i as int] == raw.assignments@[i as int]@);
                assert(assigns.skip(i as int)[0] == assigns[i as int]);
                assert(assigns.skip(i as int).skip(1) =~= assigns.skip(i + 1));
            }
            if bytes_eq_vec(&a.name, &key_vec_width()) {
                match Definition::numeric_value(dup_value(&a.value), key_vec_width()) {
                    Ok(f) => {
                        width = Some(f);
                    },
                    Err(e) => {
                        return Err(e);
                    },
                }
            } else if bytes_eq_vec(&a.name, &key_vec_height()) {
                match Definition::numeric_value(dup_value(&a.value), key_vec_height()) {
                    Ok(f) => {
                        height = Some(f);
                    },
                    Err(e) => {
                        return Err(e);
                    },
                }
            } else if bytes_eq_vec(&a.name, &key_vec_title()) {
                match Definition::string_value(dup_value(&a.value), key_vec_title()) {
                    Ok(s) => {
                        title = Some(s);
                    },
                    Err(e) => {
                        return Err(e);
                    },
                }
            } else {
                return Err(
                    SceneError::UnknownProperty {
                        def_type: key_vec_window(),
                        name: crate::parser::dup_bytes(&a.name),
                    },
                );
            }
            i = i + 1;
        }
        proof {
            assert(assigns.skip(n as int) =~= Seq::<AssignmentV>::empty());
        }
        Ok(Definition::Window { title, width, height })
    }

    /// Validate a `light` block: `type` and `intensity` required, and the
    /// type decides which of `position`/`direction` is allowed.
    #[verifier::rlimit(50)]
    pub fn light_from_raw(raw: RawDefinition) -> (r: Result<Definition, SceneError>)
        ensures
            match spec_light_from_raw(raw@) {
                Ok(d) => r matches Ok(x) && x@ == d,
                Err(e) => r matches Err(x) && x@ == e,
            },
    {
        let mut light_type: Option<Vec<u8>> = None;
        let mut intensity: Option<Fixed> = None;
        let mut position: Option<Triple> = None;
        let mut direction: Option<Triple> = None;
        let ghost assigns = raw@.assignments;
        let ghost init = LightAcc {
            light_type: None,
            intensity: None,
            position: None,
            direction: None,
        };
        let n: usize = raw.assignments.len();
        let mut i: usize = 0;
        proof {
            assert(assigns.skip(0) =~= assigns);
        }
        while i < n
            invariant
                i <= n,
                n == raw.assignments@.len(),
                assigns == raw@.assignments,
                init == (LightAcc {
                    light_type: None,
                    intensity: None,
                    position: None,
                    direction: None,
                }),
                spec_light_fold(assigns, init) == spec_light_fold(
                    assigns.skip(i as int),
                    LightAcc {
                        light_type: opt_bytes_view(light_type),
                        intensity: opt_fixed_view(intensity),
                        position: opt_triple_view(position),
                        direction: opt_triple_view(direction),
                    },
                ),
            decreases n - i,
        {
            let a = &raw.assignments[i];
            proof {
                assert(assigns[i as int] == raw.assignments@[i as int]@);
                assert(assigns.skip(i as int)[0] == assigns[i as int]);
                assert(assigns.skip(i as int).skip(1) =~= assigns.skip(i + 1));
            }
            if bytes_eq_vec(&a.name, &key_vec_type()) {
                match Definition::string_value(dup_value(&a.value), key_vec_type()) {
                    Ok(s) => {
                        light_type = Some(s);
                    },
                    Err(e) => {
                        return Err(e);
                    },
                }
            } else if bytes_eq_vec(&a.name, &key_vec_intensity()) {
                match Definition::numeric_value(dup_value(&a.value), key_vec_intensity()) {
                    Ok(f) => {
                        intensity = Some(f);
                    },
                    Err(e) => {
                        return Err(e);
                    },
                }
            } else if bytes_eq_vec(&a.name, &key_vec_position()) {
                match Definition::tuple_value(dup_value(&a.value), key_vec_position()) {
                    Ok(t) => {
                        position = Some(t);
                    },
                    Err(e) => {
                        return Err(e);
                    },
                }
            } else if bytes_eq_vec(&a.name, &key_vec_direction()) {
                match Definition::tuple_value(dup_value(&a.value), key_vec_direction()) {
                    Ok(t) => {
                        direction = Some(t);
                    },
                    Err(e) => {
                        return Err(e);
                    },
                }
            } else {
                return Err(
                    SceneError::UnknownProperty {
                        def_type: key_vec_light(),
                        name: crate::parser::dup_bytes(&a.name),
                    },
                );
            }
            i = i + 1;
        }
        proof {
            assert(assigns.skip(n as int) =~= Seq::<AssignmentV>::empty());
        }
        let lt = match light_type {
            Some(lt) => lt,
            None => {
                return Err(
                    SceneError::MissingProperty {
                        def_type: key_vec_light(),
                        name: key_vec_type(),
                    },
                );
            },
        };
        let ity = match intensity {
            Some(f) => f,
            None => {
                return Err(
                    SceneError::MissingProperty {
                        def_type: key_vec_light(),
                        name: key_vec_intensity(),
                    },
                );
            },
        };
        if bytes_eq_vec(&lt, &key_vec_ambient()) {
            if position.is_some() {
                Err(
                    SceneError::ForbiddenProperty {
                        light_type: key_vec_ambient(),
                        name: key_vec_position(),
                    },
                )
            } else if direction.is_some() {
                Err(
                    SceneError::ForbiddenProperty {
                        light_type: key_vec_ambient(),
                        name: key_vec_direction(),
                    },
                )
            } else {
                Ok(Definition::AmbientLight { intensity: ity })
            }
        } else if bytes_eq_vec(&lt, &key_vec_point()) {
            match position {
                None => Err(
                    SceneError::MissingProperty {
                        def_type: key_vec_light(),
                        name: key_vec_position(),
                    },
                ),
                Some(pos) => {
                    if direction.is_some() {
                        Err(
                            SceneError::ForbiddenProperty {
                                light_type: key_vec_point(),
                                name: key_vec_direction(),
                            },
                        )
                    } else {
                        Ok(Definition::PointLight { intensity: ity, position: pos })
                    }
                },
            }
        } else if bytes_eq_vec(&lt, &key_vec_directional()) {
            match direction {
                None => Err(
                    SceneError::MissingProperty {
                        def_type: key_vec_light(),
                        name: key_vec_direction(),
                    },
                ),
                Some(dir) => {
                    if position.is_some() {
                        Err(
                            SceneError::ForbiddenProperty {
                                light_type: key_vec_directional(),
                                name: key_vec_position(),
                            },
                        )
                    } else {
                        Ok(Definition::DirectionLight { intensity: ity, direction: dir })
                    }
                },
            }
        } else {
            Err(SceneError::UnknownLightType { name: lt })
        }
    }

    /// Validate a `sphere` block: `color`, `center` and `radius`, all
    /// required.
    pub fn sphere_from_raw(raw: RawDefinition) -> (r: Result<Definition, SceneError>)
        ensures
            match spec_sphere_from_raw(raw@) {
                Ok(d) => r matches Ok(x) && x@ == d,
                Err(e) => r matches Err(x) && x@ == e,
            },
    {
        let mut color: Option<Triple> = None;
        let mut center: Option<Triple> = None;
        let mut radius: Option<Fixed> = None;
        let ghost assigns = raw@.assignments;
        let ghost init = SphereAcc { color: None, center: None, radius: None };
        let n: usize = raw.assignments.len();
        let mut i: usize = 0;
        proof {
            assert(assigns.skip(0) =~= assigns);
        }
        while i < n
            invariant
                i <= n,
                n == raw.assignments@.len(),
                assigns == raw@.assignments,
                init == (SphereAcc { color: None, center: None, radius: None }),
                spec_sphere_fold(assigns, init) == spec_sphere_fold(
                    assigns.skip(i as int),
                    SphereAcc {
                        color: opt_triple_view(color),
                        center: opt_triple_view(center),
                        radius: opt_fixed_view(radius),
                    },
                ),
            decreases n - i,
        {
            let a = &raw.assignments[i];
            proof {
                assert(assigns[i as int] == raw.assignments@[i as int]@);
                assert(assigns.skip(i as int)[0] == assigns[i as int]);
                assert(assigns.skip(i as int).skip(1) =~= assigns.skip(i + 1));
            }
            if bytes_eq_vec(&a.name, &key_vec_color()) {
                match Definition::tuple_value(dup_value(&a.value), key_vec_color()) {
                    Ok(t) => {
                        color = Some(t);
                    },
                    Err(e) => {
                        return Err(e);
                    },
                }
            } else if bytes_eq_vec(&a.name, &key_vec_center()) {
                match Definition::tuple_value(dup_value(&a.value), key_vec_center()) {
                    Ok(t) => {
                        center = Some(t);
                    },
                    Err(e) => {
                        return Err(e);
                    },
                }
            } else if bytes_eq_vec(&a.name, &key_vec_radius()) {
                match Definition::numeric_value(dup_value(&a.value), key_vec_radius()) {
                    Ok(f) => {
                        radius = Some(f);
                    },
                    Err(e) => {
                        return Err(e);
                    },
                }
            } else {
                return Err(
                    SceneError::UnknownProperty {
                        def_type: key_vec_sphere(),
                        name: crate::parser::dup_bytes(&a.name),
                    },
                );
            }
            i = i + 1;
        }
        proof {
            assert(assigns.skip(n as int) =~= Seq::<AssignmentV>::empty());
        }
        let c = match color {
            Some(c) => c,
            None => {
                return Err(
                    SceneError::MissingProperty {
                        def_type: key_vec_sphere(),
                        name: key_vec_color(),
                    },
                );
            },
        };
        let ce = match center {
            Some(ce) => ce,
            None => {
                return Err(
                    SceneError::MissingProperty {
                        def_type: key_vec_sphere(),
                        name: key_vec_center(),
                    },
                );
            },
        };
        let ra = match radius {
            Some(ra) => ra,
            None => {
                return Err(
                    SceneError::MissingProperty {
                        def_type: key_vec_sphere(),
                        name: key_vec_radius(),
                    },
                );
            },
        };
        Ok(Definition::Sphere { color: c, center: ce, radius: ra })
    }

    /// Validate one raw block according to its definition kind.
    pub fn from_raw(raw: RawDefinition) -> (r: Result<Definition, SceneError>)
        ensures
            match spec_from_raw(raw@) {
                Ok(d) => r matches Ok(x) && x@ == d,
                Err(e) => r matches Err(x) && x@ == e,
            },
    {
        if bytes_eq_vec(&raw.def_type, &key_vec_window()) {
            Definition::window_from_raw(raw)
        } else if bytes_eq_vec(&raw.def_type, &key_vec_light()) {
            Definition::light_from_raw(raw)
        } else if bytes_eq_vec(&raw.def_type, &key_vec_sphere()) {
            Definition::sphere_from_raw(raw)
        } else {
            Err(SceneError::UnknownDefinitionType { name: raw.def_type })
        }
    }
}

} // verus!
