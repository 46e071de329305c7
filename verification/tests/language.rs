use giraffics::ast::{Definition, SceneError, Value};
use giraffics::ast::strip_speechmarks;
use giraffics::fixed::{Fixed, Triple, FP_SCALE};
use giraffics::lexer::{tokenize, Token};
use giraffics::parser::Parser;
use giraffics::writer::definitions_to_text;

fn fx(units: i64) -> Fixed {
    Fixed::from_int(units)
}

fn fxr(raw: i64) -> Fixed {
    Fixed::from_raw(raw)
}

fn triple(a: i64, b: i64, c: i64) -> Triple {
    Triple::new(fx(a), fx(b), fx(c))
}

#[test]
fn tokenize_simple_block() {
    let toks = tokenize(b"window {\nwidth = 640\n}\n");
    assert_eq!(
        toks,
        vec![
            Token::Identifier(b"window".to_vec()),
            Token::LBrace,
            Token::NewLine,
            Token::Identifier(b"width".to_vec()),
            Token::Equal,
            Token::Number(fx(640)),
            Token::NewLine,
            Token::RBrace,
            Token::NewLine,
        ]
    );
}

#[test]
fn tokenize_numbers() {
    assert_eq!(tokenize(b"1.5"), vec![Token::Number(fxr(1_500_000))]);
    assert_eq!(tokenize(b"-0.25"), vec![Token::Number(fxr(-250_000))]);
    assert_eq!(tokenize(b"0.1234567"), vec![Token::Number(fxr(123_456))]);
    // a point with no digit after it ends the number token
    assert_eq!(
        tokenize(b"1."),
        vec![Token::Number(fx(1)), Token::Error]
    );
    // a lone minus sign is not a number
    assert_eq!(tokenize(b"-"), vec![Token::Error]);
}

#[test]
fn tokenize_collapses_newlines_and_comments() {
    assert_eq!(tokenize(b"\n\n\r\n"), vec![Token::NewLine]);
    // a comment through its newline is one NewLine token
    assert_eq!(tokenize(b"# hello\n"), vec![Token::NewLine]);
    // an unterminated comment is an error at the '#'
    assert_eq!(
        tokenize(b"#x"),
        vec![Token::Error, Token::Identifier(b"x".to_vec())]
    );
}

#[test]
fn tokenize_strings_and_errors() {
    assert_eq!(
        tokenize(b"\"Demo\""),
        vec![Token::VString(b"\"Demo\"".to_vec())]
    );
    // an unterminated quote is an error token
    assert_eq!(
        tokenize(b"\"oops"),
        vec![
            Token::Error,
            Token::Identifier(b"oops".to_vec()),
        ]
    );
    assert_eq!(tokenize(b"@"), vec![Token::Error]);
}

#[test]
fn strip_speechmarks_removes_quotes() {
    assert_eq!(strip_speechmarks(b"\"Demo\"".to_vec()), b"Demo".to_vec());
    assert_eq!(strip_speechmarks(b"\"\"".to_vec()), b"".to_vec());
    assert_eq!(strip_speechmarks(b"bare".to_vec()), b"bare".to_vec());
}

const SCENE: &[u8] = b"window {
title = \"Demo\"
width = 640
height = 480
}
light {
type = ambient
intensity = 0.2
}
light {
type = point
intensity = 0.6
position = (2, 1, 0)
}
sphere {
color = (255, 0, 0)
center = (0, -1, 3)
radius = 1
}
";

#[test]
fn parse_full_scene() {
    let mut parser = Parser::new(SCENE);
    let defs = parser.parse().expect("scene should parse");
    assert_eq!(
        defs,
        vec![
            Definition::Window {
                title: Some(b"Demo".to_vec()),
                width: Some(fx(640)),
                height: Some(fx(480)),
            },
            Definition::AmbientLight { intensity: fxr(200_000) },
            Definition::PointLight {
                intensity: fxr(600_000),
                position: triple(2, 1, 0),
            },
            Definition::Sphere {
                color: triple(255, 0, 0),
                center: triple(0, -1, 3),
                radius: fx(1),
            },
        ]
    );
}

#[test]
fn parse_deterministic() {
    let a = Parser::new(SCENE).parse();
    let b = Parser::new(SCENE).parse();
    assert_eq!(a, b);
    let bad: &[u8] = b"sphere {\ncolor = (1, 2, 3)\n}\n";
    let e1 = Parser::new(bad).parse();
    let e2 = Parser::new(bad).parse();
    assert_eq!(e1, e2);
}

#[test]
fn bare_identifier_is_a_string_value() {
    let mut parser = Parser::new(b"light {\ntype = ambient\nintensity = 1\n}\n");
    let defs = parser.parse().expect("should parse");
    assert_eq!(defs, vec![Definition::AmbientLight { intensity: fx(1) }]);
}

#[test]
fn missing_radius_is_an_error_naming_radius() {
    let text: &[u8] = b"sphere {
color = (255, 0, 0)
center = (0, -1, 3)
}
";
    let mut parser = Parser::new(text);
    let err = parser.parse().expect_err("missing radius must be fatal");
    assert_eq!(
        err,
        SceneError::MissingProperty {
            def_type: b"sphere".to_vec(),
            name: b"radius".to_vec(),
        }
    );
}

#[test]
fn unknown_definition_type_is_an_error() {
    let err = Parser::new(b"cube {\nsize = 1\n}\n").parse().expect_err("no cubes");
    assert_eq!(err, SceneError::UnknownDefinitionType { name: b"cube".to_vec() });
}

#[test]
fn unknown_property_is_an_error() {
    let err = Parser::new(b"sphere {\nshine = 1\n}\n").parse().expect_err("no shine");
    assert_eq!(
        err,
        SceneError::UnknownProperty {
            def_type: b"sphere".to_vec(),
            name: b"shine".to_vec(),
        }
    );
}

#[test]
fn wrong_value_shape_is_an_error() {
    let err = Parser::new(b"sphere {\nradius = (1, 2, 3)\n}\n").parse().expect_err("tuple radius");
    assert_eq!(
        err,
        SceneError::WrongValueShape {
            property: b"radius".to_vec(),
            expected: giraffics::ast::ShapeKind::NumberShape,
        }
    );
}

#[test]
fn light_key_rules_are_enforced() {
    // ambient forbids position
    let err = Parser::new(b"light {\ntype = ambient\nintensity = 1\nposition = (0, 0, 0)\n}\n")
        .parse()
        .expect_err("ambient with position");
    assert_eq!(
        err,
        SceneError::ForbiddenProperty {
            light_type: b"ambient".to_vec(),
            name: b"position".to_vec(),
        }
    );
    // point requires position
    let err = Parser::new(b"light {\ntype = point\nintensity = 1\n}\n")
        .parse()
        .expect_err("point without position");
    assert_eq!(
        err,
        SceneError::MissingProperty {
            def_type: b"light".to_vec(),
            name: b"position".to_vec(),
        }
    );
    // directional forbids position
    let err = Parser::new(
        b"light {\ntype = directional\nintensity = 1\ndirection = (0, 0, 1)\nposition = (0, 0, 0)\n}\n",
    )
    .parse()
    .expect_err("directional with position");
    assert_eq!(
        err,
        SceneError::ForbiddenProperty {
            light_type: b"directional".to_vec(),
            name: b"position".to_vec(),
        }
    );
    // a light needs a type and an intensity
    let err = Parser::new(b"light {\nintensity = 1\n}\n").parse().expect_err("no type");
    assert_eq!(
        err,
        SceneError::MissingProperty { def_type: b"light".to_vec(), name: b"type".to_vec() }
    );
    // an unknown light type is rejected
    let err = Parser::new(b"light {\ntype = laser\nintensity = 1\n}\n")
        .parse()
        .expect_err("no lasers");
    assert_eq!(err, SceneError::UnknownLightType { name: b"laser".to_vec() });
}

#[test]
fn lex_error_token_aborts_parsing() {
    let err = Parser::new(b"sphere @ {\nradius = 1\n}\n").parse().expect_err("bad char");
    // the '@' is the second token in the stream
    assert_eq!(err, SceneError::LexError { position: 1 });
}

#[test]
fn syntax_errors_abort_parsing() {
    assert!(Parser::new(b"sphere {\n").parse().is_err());
    assert!(Parser::new(b"sphere radius = 1\n").parse().is_err());
    assert!(Parser::new(b"sphere {\nradius = (1, 2\n}\n").parse().is_err());
    assert!(Parser::new(b"sphere {\n}\n").parse().is_err());
}

#[test]
fn empty_input_is_an_empty_scene() {
    assert_eq!(Parser::new(b"").parse(), Ok(vec![]));
    assert_eq!(Parser::new(b"\n# only a comment\n").parse(), Ok(vec![]));
}

#[test]
fn numeric_value_helpers_check_shapes() {
    assert_eq!(
        Definition::numeric_value(Value::Num(fx(3)), b"radius".to_vec()),
        Ok(fx(3))
    );
    assert!(Definition::string_value(Value::Num(fx(3)), b"title".to_vec()).is_err());
    assert!(Definition::tuple_value(Value::Num(fx(3)), b"center".to_vec()).is_err());
    assert_eq!(
        Definition::tuple_value(Value::Tuple(triple(1, 2, 3)), b"center".to_vec()),
        Ok(triple(1, 2, 3))
    );
}

#[test]
fn round_trip_window() {
    let defs = vec![Definition::Window {
        title: Some(b"Demo".to_vec()),
        width: Some(fx(640)),
        height: Some(fx(480)),
    }];
    let text = definitions_to_text(&defs);
    assert_eq!(Parser::new(&text).parse(), Ok(defs));
}

#[test]
fn round_trip_each_light_kind() {
    let defs = vec![
        Definition::AmbientLight { intensity: fxr(200_000) },
        Definition::PointLight { intensity: fxr(600_000), position: triple(2, 1, 0) },
        Definition::DirectionLight { intensity: fx(1), direction: triple(0, -4, 4) },
    ];
    let text = definitions_to_text(&defs);
    assert_eq!(Parser::new(&text).parse(), Ok(defs));
}

#[test]
fn round_trip_sphere() {
    let defs = vec![Definition::Sphere {
        color: triple(255, 0, 0),
        center: triple(0, -1, 3),
        radius: fxr(1_500_000),
    }];
    let text = definitions_to_text(&defs);
    assert_eq!(Parser::new(&text).parse(), Ok(defs));
}

#[test]
fn round_trip_negative_and_fractional_numbers() {
    let defs = vec![Definition::Sphere {
        color: triple(0, 0, 0),
        center: Triple::new(fxr(-123_456), fxr(700_000), fxr(-3_000_001)),
        radius: fxr(250),
    }];
    let text = definitions_to_text(&defs);
    assert_eq!(Parser::new(&text).parse(), Ok(defs));
}
