//! Parsed forms of the scene-description language: raw key/value blocks,
//! validated definitions, and the errors that loading can report.
//!
//! Every error names the offending token or property and what was expected
//! in its place; the first error aborts loading, with no accumulation and
//! no partial result.

use vstd::prelude::*;
use crate::fixed::{Fixed, Triple};
use crate::lexer::Token;
use crate::lexer::TokenV;

verus! {

/// The right-hand side of one `key = value` assignment.
#[derive(Clone, Debug, PartialEq, Eq)]
pub enum Value {
    Num(Fixed),
    VString(Vec<u8>),
    Tuple(Triple),
}

pub ghost enum ValueV {
    Num(int),
    VString(Seq<u8>),
    Tuple((int, int, int)),
}

impl View for Value {
    type V = ValueV;

    open spec fn view(&self) -> ValueV {
        match self {
            Value::Num(f) => ValueV::Num(f@),
            Value::VString(v) => ValueV::VString(v@),
            Value::Tuple(t) => ValueV::Tuple(t@),
        }
    }
}

/// One `key = value` line inside a definition block.
#[derive(Clone, Debug, PartialEq, Eq)]
pub struct Assignment {
    pub name: Vec<u8>,
    pub value: Value,
}

pub ghost struct AssignmentV {
    pub name: Seq<u8>,
    pub value: ValueV,
}

impl View for Assignment {
    type V = AssignmentV;

    open spec fn view(&self) -> AssignmentV {
        AssignmentV { name: self.name@, value: self.value@ }
    }
}

/// A grammatically parsed definition block, not yet validated for its kind.
#[derive(Clone, Debug, PartialEq, Eq)]
pub struct RawDefinition {
    pub def_type: Vec<u8>,
    pub assignments: Vec<Assignment>,
}

pub ghost struct RawDefinitionV {
    pub def_type: Seq<u8>,
    pub assignments: Seq<AssignmentV>,
}

impl View for RawDefinition {
    type V = RawDefinitionV;

    open spec fn view(&self) -> RawDefinitionV {
        RawDefinitionV {
            def_type: self.def_type@,
            assignments: self.assignments@.map_values(|a: Assignment| a@),
        }
    }
}

/// A validated top-level definition, one variant per kind.
#[derive(Clone, Debug, PartialEq, Eq)]
pub enum Definition {
    PointLight { intensity: Fixed, position: Triple },
    DirectionLight { intensity: Fixed, direction: Triple },
    AmbientLight { intensity: Fixed },
    Sphere { color: Triple, center: Triple, radius: Fixed },
    Window { title: Option<Vec<u8>>, width: Option<Fixed>, height: Option<Fixed> },
}

pub ghost enum DefinitionV {
    PointLight { intensity: int, position: (int, int, int) },
    DirectionLight { intensity: int, direction: (int, int, int) },
    AmbientLight { intensity: int },
    Sphere { color: (int, int, int), center: (int, int, int), radius: int },
    Window { title: Option<Seq<u8>>, width: Option<int>, height: Option<int> },
}

impl View for Definition {
    type V = DefinitionV;

    open spec fn view(&self) -> DefinitionV {
        match self {
            Definition::PointLight { intensity, position } => DefinitionV::PointLight {
                intensity: intensity@,
                position: position@,
            },
            Definition::DirectionLight { intensity, direction } => DefinitionV::DirectionLight {
                intensity: intensity@,
                direction: direction@,
            },
            Definition::AmbientLight { intensity } => DefinitionV::AmbientLight {
                intensity: intensity@,
            },
            Definition::Sphere { color, center, radius } => DefinitionV::Sphere {
                color: color@,
                center: center@,
                radius: radius@,
            },
            Definition::Window { title, width, height } => DefinitionV::Window {
                title: match title {
                    Some(t) => Some(t@),
                    None => None,
                },
                width: match width {
                    Some(w) => Some(w@),
                    None => None,
                },
                height: match height {
                    Some(h) => Some(h@),
                    None => None,
                },
            },
        }
    }
}

/// What a parser step was looking for when it failed.
#[derive(Clone, Copy, Debug, PartialEq, Eq, Structural)]
pub enum Expected {
    DefinitionType,
    PropertyName,
    AValue,
    ANumber,
    Equal,
    NewLine,
    Comma,
    LParen,
    RParen,
    LBrace,
    AssignmentOrRBrace,
}

/// The shape a property's value must have.
#[derive(Clone, Copy, Debug, PartialEq, Eq, Structural)]
pub enum ShapeKind {
    NumberShape,
    TextShape,
    TupleShape,
}

/// Why loading a scene description failed.  The first of these aborts
/// loading; no partial scene survives.
#[derive(Clone, Debug, PartialEq, Eq)]
pub enum SceneError {
    /// An unrecognized character; the position is the token's index in the
    /// stream.
    LexError { position: usize },
    UnexpectedEof { expected: Expected },
    UnexpectedToken { expected: Expected, found: Token },
    UnknownDefinitionType { name: Vec<u8> },
    UnknownProperty { def_type: Vec<u8>, name: Vec<u8> },
    WrongValueShape { property: Vec<u8>, expected: ShapeKind },
    MissingProperty { def_type: Vec<u8>, name: Vec<u8> },
    ForbiddenProperty { light_type: Vec<u8>, name: Vec<u8> },
    UnknownLightType { name: Vec<u8> },
}

pub ghost enum SceneErrorV {
    LexError { position: int },
    UnexpectedEof { expected: Expected },
    UnexpectedToken { expected: Expected, found: TokenV },
    UnknownDefinitionType { name: Seq<u8> },
    UnknownProperty { def_type: Seq<u8>, name: Seq<u8> },
    WrongValueShape { property: Seq<u8>, expected: ShapeKind },
    MissingProperty { def_type: Seq<u8>, name: Seq<u8> },
    ForbiddenProperty { light_type: Seq<u8>, name: Seq<u8> },
    UnknownLightType { name: Seq<u8> },
}

impl View for SceneError {
    type V = SceneErrorV;

    open spec fn view(&self) -> SceneErrorV {
        match self {
            SceneError::LexError { position } => SceneErrorV::LexError {
                position: *position as int,
            },
            SceneError::UnexpectedEof { expected } => SceneErrorV::UnexpectedEof {
                expected: *expected,
            },
            SceneError::UnexpectedToken { expected, found } => SceneErrorV::UnexpectedToken {
                expected: *expected,
                found: found@,
            },
            SceneError::UnknownDefinitionType { name } => SceneErrorV::UnknownDefinitionType {
                name: name@,
            },
            SceneError::UnknownProperty { def_type, name } => SceneErrorV::UnknownProperty {
                def_type: def_type@,
                name: name@,
            },
            SceneError::WrongValueShape { property, expected } => SceneErrorV::WrongValueShape {
                property: property@,
                expected: *expected,
            },
            SceneError::MissingProperty { def_type, name } => SceneErrorV::MissingProperty {
                def_type: def_type@,
                name: name@,
            },
            SceneError::ForbiddenProperty { light_type, name } => SceneErrorV::ForbiddenProperty {
                light_type: light_type@,
                name: name@,
            },
            SceneError::UnknownLightType { name } => SceneErrorV::UnknownLightType {
                name: name@,
            },
        }
    }
}

/// Quotes stripped from the front of a byte string.
pub open spec fn drop_leading_quotes(s: Seq<u8>) -> Seq<u8>
    decreases s.len(),
{
    if s.len() > 0 && s[0] == 34 {
        drop_leading_quotes(s.skip(1))
    } else {
        s
    }
}

/// Quotes stripped from the back of a byte string.
pub open spec fn drop_trailing_quotes(s: Seq<u8>) -> Seq<u8>
    decreases s.len(),
{
    if s.len() > 0 && s.last() == 34 {
        drop_trailing_quotes(s.drop_last())
    } else {
        s
    }
}

/// What stripping the speech marks leaves: quotes removed from both ends.
pub open spec fn strip_speechmarks_spec(s: Seq<u8>) -> Seq<u8> {
    drop_trailing_quotes(drop_leading_quotes(s))
}

proof fn lemma_drop_leading_eq(s: Seq<u8>, k: int)
    requires
        0 <= k <= s.len(),
        forall|i: int| 0 <= i < k ==> s[i] == 34,
        k == s.len() || s[k] != 34,
    ensures
        drop_leading_quotes(s) == s.skip(k),
    decreases s.len(),
{
    if k == 0 {
        assert(s.skip(0) =~= s);
    } else {
        assert(forall|i: int| 0 <= i < k - 1 ==> s.skip(1)[i] == s[i + 1] && s[i + 1] == 34);
        lemma_drop_leading_eq(s.skip(1), k - 1);
        assert(s.skip(1).skip(k - 1) =~= s.skip(k));
    }
}

proof fn lemma_drop_trailing_eq(s: Seq<u8>, m: int)
    requires
        0 <= m <= s.len(),
        forall|i: int| m <= i < s.len() ==> s[i] == 34,
        m == 0 || s[m - 1] != 34,
    ensures
        drop_trailing_quotes(s) == s.take(m),
    decreases s.len(),
{
    if m == s.len() {
        if s.len() > 0 {
            assert(s.take(m) =~= s);
        } else {
            assert(s.take(0) =~= s);
        }
    } else {
        assert(s.last() == 34);
        assert(forall|i: int| m <= i < s.len() - 1 ==> s.drop_last()[i] == s[i]);
        lemma_drop_trailing_eq(s.drop_last(), m);
        assert(s.drop_last().take(m) =~= s.take(m));
    }
}

/// Remove the quotes around a string token's content, as many as stand at
/// either end.
pub fn strip_speechmarks(src: Vec<u8>) -> (r: Vec<u8>)
    ensures
        r@ == strip_speechmarks_spec(src@),
{
    let len: usize = src.len();
    let mut start: usize = 0;
    while start < len && src[start] == 34
        invariant
            start <= len,
            len == src@.len(),
            forall|i: int| 0 <= i < start ==> src@[i] == 34,
        decreases len - start,
    {
        start = start + 1;
    }
    proof {
        lemma_drop_leading_eq(src@, start as int);
    }
    let mut end: usize = len;
    while end > start && src[end - 1] == 34
        invariant
            start <= end <= len,
            len == src@.len(),
            forall|i: int| end <= i < len ==> src@[i] == 34,
        decreases end,
    {
        end = end - 1;
    }
    proof {
        let t = src@.skip(start as int);
        assert(forall|i: int| end - start <= i < t.len() ==> t[i] == src@[i + start] && src@[i
            + start] == 34);
        assert(end > start ==> t[end - start - 1] == src@[end - 1]);
        lemma_drop_trailing_eq(t, end - start);
        assert(t.take(end - start) =~= src@.subrange(start as int, end as int));
    }
    let mut out: Vec<u8> = Vec::new();
    let mut i: usize = start;
    while i < end
        invariant
            start <= i <= end <= len,
            len == src@.len(),
            out@ == src@.subrange(start as int, i as int),
        decreases end - i,
    {
        out.push(src[i]);
        proof {
            assert(out@ =~= src@.subrange(start as int, i + 1 as int));
        }
        i = i + 1;
    }
    out
}

} // verus!
