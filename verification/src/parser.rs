//! Recursive-descent parser for the scene-description language, with a
//! single token of lookahead.
//!
//! Grammar:
//! ```text
//! scene       := definition+
//! definition  := identifier '{' NEWLINE assignment+ '}'
//! assignment  := identifier '=' value NEWLINE
//! value       := number | string | bare-identifier-as-string | tuple
//! tuple       := '(' number ',' number ',' number ')'
//! ```
//!
//! The first error aborts parsing; there is no recovery and no partial
//! result.  An `Error` token anywhere in the stream is fatal before any
//! grammar rule runs.  Every step of the executable parser is pinned to a
//! spec-level parsing function over the token sequence, so parsing is a
//! function of the input text alone.

use vstd::prelude::*;
use crate::ast::{Value, ValueV, Assignment, AssignmentV, RawDefinition, RawDefinitionV,
    SceneError, SceneErrorV, Expected, strip_speechmarks, strip_speechmarks_spec};
use crate::lexer::{Token, TokenV, tokenize, spec_tokenize, tokens_view};
use crate::fixed::{Fixed, Triple};

verus! {

/// The tokens left after leading newline tokens.
pub open spec fn spec_munch_newlines(ts: Seq<TokenV>) -> Seq<TokenV>
    decreases ts.len(),
{
    if ts.len() > 0 && ts[0] is NewLine {
        spec_munch_newlines(ts.skip(1))
    } else {
        ts
    }
}

pub proof fn lemma_munch_props(ts: Seq<TokenV>)
    ensures
        spec_munch_newlines(ts).len() <= ts.len(),
        spec_munch_newlines(ts).len() > 0 ==> !(spec_munch_newlines(ts)[0] is NewLine),
        spec_munch_newlines(spec_munch_newlines(ts)) == spec_munch_newlines(ts),
    decreases ts.len(),
{
    if ts.len() > 0 && ts[0] is NewLine {
        lemma_munch_props(ts.skip(1));
    }
}

/// Demand one particular (payload-free) token.
pub open spec fn spec_expect(ts: Seq<TokenV>, t: TokenV, exp: Expected) -> Result<
    Seq<TokenV>,
    SceneErrorV,
> {
    if ts.len() == 0 {
        Err(SceneErrorV::UnexpectedEof { expected: exp })
    } else if ts[0] == t {
        Ok(ts.skip(1))
    } else {
        Err(SceneErrorV::UnexpectedToken { expected: exp, found: ts[0] })
    }
}

/// Demand a number token and yield its value.
pub open spec fn spec_expect_number(ts: Seq<TokenV>, exp: Expected) -> Result<
    (int, Seq<TokenV>),
    SceneErrorV,
> {
    if ts.len() == 0 {
        Err(SceneErrorV::UnexpectedEof { expected: exp })
    } else {
        match ts[0] {
            TokenV::Number(n) => Ok((n, ts.skip(1))),
            _ => Err(SceneErrorV::UnexpectedToken { expected: exp, found: ts[0] }),
        }
    }
}

/// Demand an identifier token and yield its name.
pub open spec fn spec_expect_ident(ts: Seq<TokenV>, exp: Expected) -> Result<
    (Seq<u8>, Seq<TokenV>),
    SceneErrorV,
> {
    if ts.len() == 0 {
        Err(SceneErrorV::UnexpectedEof { expected: exp })
    } else {
        match ts[0] {
            TokenV::Identifier(s) => Ok((s, ts.skip(1))),
            _ => Err(SceneErrorV::UnexpectedToken { expected: exp, found: ts[0] }),
        }
    }
}

/// `( number , number , number )`, the opening parenthesis already eaten.
pub open spec fn spec_parse_tuple(ts: Seq<TokenV>) -> Result<(ValueV, Seq<TokenV>), SceneErrorV> {
    match spec_expect_number(ts, Expected::ANumber) {
        Err(e) => Err(e),
        Ok((n1, ts)) => match spec_expect(ts, TokenV::Comma, Expected::Comma) {
            Err(e) => Err(e),
            Ok(ts) => match spec_expect_number(ts, Expected::ANumber) {
                Err(e) => Err(e),
                Ok((n2, ts)) => match spec_expect(ts, TokenV::Comma, Expected::Comma) {
                    Err(e) => Err(e),
                    Ok(ts) => match spec_expect_number(ts, Expected::ANumber) {
                        Err(e) => Err(e),
                        Ok((n3, ts)) => match spec_expect(
                            ts,
                            TokenV::RParen,
                            Expected::RParen,
                        ) {
                            Err(e) => Err(e),
                            Ok(ts) => Ok((ValueV::Tuple((n1, n2, n3)), ts)),
                        },
                    },
                },
            },
        },
    }
}

/// A value: a number, a quoted string with its quotes stripped, a bare
/// identifier taken as a string, or a tuple.
pub open spec fn spec_parse_value(ts: Seq<TokenV>) -> Result<(ValueV, Seq<TokenV>), SceneErrorV> {
    if ts.len() == 0 {
        Err(SceneErrorV::UnexpectedEof { expected: Expected::AValue })
    } else {
        match ts[0] {
            TokenV::Number(n) => Ok((ValueV::Num(n), ts.skip(1))),
            TokenV::VString(s) => Ok((ValueV::VString(strip_speechmarks_spec(s)), ts.skip(1))),
            TokenV::Identifier(s) => Ok((ValueV::VString(s), ts.skip(1))),
            TokenV::LParen => spec_parse_tuple(ts.skip(1)),
            _ => Err(SceneErrorV::UnexpectedToken { expected: Expected::AValue, found: ts[0] }),
        }
    }
}

/// `identifier = value NEWLINE`.
pub open spec fn spec_parse_assignment(ts: Seq<TokenV>) -> Result<
    (AssignmentV, Seq<TokenV>),
    SceneErrorV,
> {
    match spec_expect_ident(ts, Expected::PropertyName) {
        Err(e) => Err(e),
        Ok((name, ts)) => match spec_expect(ts, TokenV::Equal, Expected::Equal) {
            Err(e) => Err(e),
            Ok(ts) => match spec_parse_value(ts) {
                Err(e) => Err(e),
                Ok((v, ts)) => match spec_expect(ts, TokenV::NewLine, Expected::NewLine) {
                    Err(e) => Err(e),
                    Ok(ts) => Ok((AssignmentV { name, value: v }, ts)),
                },
            },
        },
    }
}

pub proof fn lemma_parse_value_consumes(ts: Seq<TokenV>)
    ensures
        spec_parse_value(ts) matches Ok(p) ==> p.1.len() < ts.len(),
{
}

pub proof fn lemma_parse_assignment_consumes(ts: Seq<TokenV>)
    ensures
        spec_parse_assignment(ts) matches Ok(p) ==> p.1.len() < ts.len(),
{
    if ts.len() > 0 {
        lemma_parse_value_consumes(ts.skip(1));
    }
}

/// After the first assignment of a block: further assignments and blank
/// lines until the closing brace.
pub open spec fn spec_parse_more_assignments(ts: Seq<TokenV>) -> Result<
    (Seq<AssignmentV>, Seq<TokenV>),
    SceneErrorV,
>
    decreases ts.len(),
    via spec_parse_more_assignments_dec
{
    if ts.len() == 0 {
        Err(SceneErrorV::UnexpectedEof { expected: Expected::AssignmentOrRBrace })
    } else if ts[0] is NewLine {
        spec_parse_more_assignments(ts.skip(1))
    } else if ts[0] is RBrace {
        Ok((Seq::empty(), ts.skip(1)))
    } else if ts[0] is Identifier {
        match spec_parse_assignment(ts) {
            Err(e) => Err(e),
            Ok((a, rest)) => match spec_parse_more_assignments(rest) {
                Err(e) => Err(e),
                Ok((more, r2)) => Ok((seq![a] + more, r2)),
            },
        }
    } else {
        Err(SceneErrorV::UnexpectedToken {
            expected: Expected::AssignmentOrRBrace,
            found: ts[0],
        })
    }
}

#[via_fn]
proof fn spec_parse_more_assignments_dec(ts: Seq<TokenV>) {
    lemma_parse_assignment_consumes(ts);
}

pub proof fn lemma_parse_more_assignments_consumes(ts: Seq<TokenV>)
    ensures
        spec_parse_more_assignments(ts) matches Ok(p) ==> p.1.len() < ts.len(),
    decreases ts.len(),
{
    if ts.len() > 0 {
        if ts[0] is NewLine {
            lemma_parse_more_assignments_consumes(ts.skip(1));
        } else if ts[0] is Identifier {
            lemma_parse_assignment_consumes(ts);
            match spec_parse_assignment(ts) {
                Ok(p) => {
                    lemma_parse_more_assignments_consumes(p.1);
                },
                Err(_) => {},
            }
        }
    }
}

/// One whole definition block.
pub open spec fn spec_parse_raw_definition(ts: Seq<TokenV>) -> Result<
    (RawDefinitionV, Seq<TokenV>),
    SceneErrorV,
> {
    match spec_expect_ident(ts, Expected::DefinitionType) {
        Err(e) => Err(e),
        Ok((def_type, ts)) => match spec_expect(ts, TokenV::LBrace, Expected::LBrace) {
            Err(e) => Err(e),
            Ok(ts) => match spec_parse_assignment(spec_munch_newlines(ts)) {
                Err(e) => Err(e),
                Ok((first, ts)) => match spec_parse_more_assignments(ts) {
                    Err(e) => Err(e),
                    Ok((more, ts)) => Ok(
                        (RawDefinitionV { def_type, assignments: seq![first] + more }, ts),
                    ),
                },
            },
        },
    }
}

pub proof fn lemma_parse_raw_definition_consumes(ts: Seq<TokenV>)
    ensures
        spec_parse_raw_definition(ts) matches Ok(p) ==> p.1.len() < ts.len(),
{
    if ts.len() > 0 {
        match spec_expect_ident(ts, Expected::DefinitionType) {
            Ok(p1) => {
                match spec_expect(p1.1, TokenV::LBrace, Expected::LBrace) {
                    Ok(ts2) => {
                        lemma_munch_props(ts2);
                        lemma_parse_assignment_consumes(spec_munch_newlines(ts2));
                        match spec_parse_assignment(spec_munch_newlines(ts2)) {
                            Ok(p2) => {
                                lemma_parse_more_assignments_consumes(p2.1);
                            },
                            Err(_) => {},
                        }
                    },
                    Err(_) => {},
                }
            },
            Err(_) => {},
        }
    }
}

/// The whole stream: blank lines and definitions until the input ends.
pub open spec fn spec_parse_raw_scene(ts: Seq<TokenV>) -> Result<
    Seq<RawDefinitionV>,
    SceneErrorV,
>
    decreases ts.len(),
    via spec_parse_raw_scene_dec
{
    let ts1 = spec_munch_newlines(ts);
    if ts1.len() == 0 {
        Ok(Seq::empty())
    } else {
        match spec_parse_raw_definition(ts1) {
            Err(e) => Err(e),
            Ok((d, rest)) => match spec_parse_raw_scene(rest) {
                Err(e) => Err(e),
                Ok(ds) => Ok(seq![d] + ds),
            },
        }
    }
}

#[via_fn]
proof fn spec_parse_raw_scene_dec(ts: Seq<TokenV>) {
    lemma_munch_props(ts);
    lemma_parse_raw_definition_consumes(spec_munch_newlines(ts));
}

/// Index of the first `Error` token, if any: lexing faults are fatal
/// before any grammar rule runs.
pub open spec fn find_error_token(ts: Seq<TokenV>) -> Option<int>
    decreases ts.len(),
{
    if ts.len() == 0 {
        None
    } else if ts[0] is Error {
        Some(0)
    } else {
        match find_error_token(ts.skip(1)) {
            None => None,
            Some(i) => Some(i + 1),
        }
    }
}

pub proof fn lemma_find_error_none(ts: Seq<TokenV>)
    requires
        forall|i: int| 0 <= i < ts.len() ==> !(#[trigger] ts[i] is Error),
    ensures
        find_error_token(ts) is None,
    decreases ts.len(),
{
    if ts.len() > 0 {
        assert(forall|i: int| 0 <= i < ts.len() - 1 ==> #[trigger] ts.skip(1)[i] == ts[i + 1]);
        lemma_find_error_none(ts.skip(1));
    }
}

pub proof fn lemma_find_error_at(ts: Seq<TokenV>, j: int)
    requires
        0 <= j < ts.len(),
        forall|i: int| 0 <= i < j ==> !(#[trigger] ts[i] is Error),
        ts[j] is Error,
    ensures
        find_error_token(ts) == Some(j),
    decreases ts.len(),
{
    if j > 0 {
        assert(forall|i: int| 0 <= i < ts.len() - 1 ==> #[trigger] ts.skip(1)[i] == ts[i + 1]);
        lemma_find_error_at(ts.skip(1), j - 1);
    }
}

/// Copy a byte vector.
pub(crate) fn dup_bytes(v: &Vec<u8>) -> (r: Vec<u8>)
    ensures
        r@ == v@,
{
    let mut out: Vec<u8> = Vec::new();
    let mut i: usize = 0;
    while i < v.len()
        invariant
            i <= v@.len(),
            out@ == v@.take(i as int),
        decreases v@.len() - i,
    {
        out.push(v[i]);
        proof {
            assert(out@ =~= v@.take(i + 1 as int));
        }
        i = i + 1;
    }
    proof {
        assert(v@.take(v@.len() as int) =~= v@);
    }
    out
}

/// Copy a token.
pub(crate) fn dup_token(t: &Token) -> (r: Token)
    ensures
        r@ == t@,
{
    match t {
        Token::Identifier(v) => Token::Identifier(dup_bytes(v)),
        Token::Number(f) => Token::Number(*f),
        Token::VString(v) => Token::VString(dup_bytes(v)),
        Token::NewLine => Token::NewLine,
        Token::Equal => Token::Equal,
        Token::Comma => Token::Comma,
        Token::LParen => Token::LParen,
        Token::RParen => Token::RParen,
        Token::LBrace => Token::LBrace,
        Token::RBrace => Token::RBrace,
        Token::Error => Token::Error,
    }
}

/// A token without a payload.
pub open spec fn is_unit_token(t: Token) -> bool {
    match t {
        Token::Identifier(_) => false,
        Token::Number(_) => false,
        Token::VString(_) => false,
        _ => true,
    }
}

/// Whether `t` is the same payload-free token as `expected`.
fn token_kind_matches(t: &Token, expected: &Token) -> (r: bool)
    requires
        is_unit_token(*expected),
    ensures
        r == (t@ == expected@),
{
    match (t, expected) {
        (Token::NewLine, Token::NewLine) => true,
        (Token::Equal, Token::Equal) => true,
        (Token::Comma, Token::Comma) => true,
        (Token::LParen, Token::LParen) => true,
        (Token::RParen, Token::RParen) => true,
        (Token::LBrace, Token::LBrace) => true,
        (Token::RBrace, Token::RBrace) => true,
        (Token::Error, Token::Error) => true,
        _ => false,
    }
}

/// A cursor over the token buffer.
pub struct Parser {
    pub src: Vec<Token>,
    pub position: usize,
}

impl Parser {
    /// The cursor never runs past the buffer.
    pub open spec fn wf(self) -> bool {
        self.position <= self.src@.len()
    }

    /// The tokens not yet consumed, as their mathematical views.
    pub open spec fn remaining(self) -> Seq<TokenV> {
        tokens_view(self.src@).skip(self.position as int)
    }

    /// Lex `src` and stand ready to parse from the first token.
    pub fn new(src: &[u8]) -> (p: Parser)
        ensures
            p.wf(),
            p.position == 0,
            p.remaining() == spec_tokenize(src@),
    {
        let toks = tokenize(src);
        let p = Parser { src: toks, position: 0 };
        proof {
            assert(p.remaining() =~= tokens_view(p.src@));
        }
        p
    }

    /// The token under the cursor, if any, without consuming it.
    pub fn peek(&self) -> (r: Option<&Token>)
        requires
            self.wf(),
        ensures
            match r {
                Some(t) => self.remaining().len() > 0 && t@ == self.remaining()[0],
                None => self.remaining().len() == 0,
            },
    {
        if self.position >= self.src.len() {
            None
        } else {
            let t = &self.src[self.position];
            proof {
                assert(tokens_view(self.src@)[self.position as int] == self.src@[
                    self.position as int]@);
            }
            Some(t)
        }
    }

    /// The token under the cursor, copied out, the cursor moved past it.
    pub fn next(&mut self) -> (r: Option<Token>)
        requires
            old(self).wf(),
        ensures
            final(self).wf(),
            final(self).src == old(self).src,
            match r {
                Some(t) => old(self).remaining().len() > 0 && t@ == old(self).remaining()[0]
                    && final(self).remaining() == old(self).remaining().skip(1),
                None => old(self).remaining().len() == 0 && *final(self) == *old(self),
            },
    {
        if self.position >= self.src.len() {
            None
        } else {
            let t = dup_token(&self.src[self.position]);
            proof {
                assert(tokens_view(self.src@)[self.position as int] == self.src@[
                    self.position as int]@);
                assert(tokens_view(self.src@).skip(self.position as int).skip(1)
                    =~= tokens_view(self.src@).skip(self.position + 1));
            }
            self.position = self.position + 1;
            Some(t)
        }
    }

    /// Step over any run of newline tokens.
    pub fn munch_newlines(&mut self)
        requires
            old(self).wf(),
        ensures
            final(self).wf(),
            final(self).src == old(self).src,
            final(self).remaining() == spec_munch_newlines(old(self).remaining()),
            old(self).position <= final(self).position,
    {
        loop
            invariant
                self.wf(),
                self.src == old(self).src,
                old(self).position <= self.position,
                spec_munch_newlines(old(self).remaining()) == spec_munch_newlines(
                    self.remaining()),
            ensures
                self.wf(),
                self.src == old(self).src,
                old(self).position <= self.position,
                spec_munch_newlines(old(self).remaining()) == spec_munch_newlines(
                    self.remaining()),
                self.remaining().len() == 0 || !(self.remaining()[0] is NewLine),
            decreases self.src@.len() - self.position,
        {
            if self.position >= self.src.len() {
                proof {
                    assert(self.remaining().len() == 0);
                }
                break ;
            }
            let is_nl = token_kind_matches(&self.src[self.position], &Token::NewLine);
            proof {
                assert(tokens_view(self.src@)[self.position as int] == self.src@[
                    self.position as int]@);
                assert(self.remaining()[0] == tokens_view(self.src@)[self.position as int]);
            }
            if !is_nl {
                break ;
            }
            proof {
                assert(self.remaining().skip(1) =~= tokens_view(self.src@).skip(
                    self.position + 1));
            }
            self.position = self.position + 1;
        }
        proof {
            assert(spec_munch_newlines(self.remaining()) == self.remaining());
        }
    }

    /// Demand that the next token is `expected` (a payload-free token),
    /// consuming it.
    pub fn expect(&mut self, expected: &Token, exp: Expected) -> (r: Result<(), SceneError>)
        requires
            old(self).wf(),
            is_unit_token(*expected),
        ensures
            final(self).wf(),
            final(self).src == old(self).src,
            match spec_expect(old(self).remaining(), expected@, exp) {
                Ok(rest) => r is Ok && final(self).remaining() == rest,
                Err(e) => r matches Err(a) && a@ == e,
            },
    {
        if self.position >= self.src.len() {
            return Err(SceneError::UnexpectedEof { expected: exp });
        }
        let t = &self.src[self.position];
        proof {
            assert(tokens_view(self.src@)[self.position as int] == self.src@[
                self.position as int]@);
            assert(old(self).remaining()[0] == tokens_view(self.src@)[self.position as int]);
        }
        if token_kind_matches(t, expected) {
            proof {
                assert(old(self).remaining().skip(1) =~= tokens_view(self.src@).skip(
                    self.position + 1));
            }
            self.position = self.position + 1;
            Ok(())
        } else {
            let found = dup_token(t);
            Err(SceneError::UnexpectedToken { expected: exp, found })
        }
    }

    /// Demand a number token, consuming it and yielding its value.
    pub fn expect_number(&mut self, exp: Expected) -> (r: Result<Fixed, SceneError>)
        requires
            old(self).wf(),
        ensures
            final(self).wf(),
            final(self).src == old(self).src,
            match spec_expect_number(old(self).remaining(), exp) {
                Ok(p) => r matches Ok(f) && f@ == p.0 && final(self).remaining() == p.1,
                Err(e) => r matches Err(a) && a@ == e,
            },
    {
        if self.position >= self.src.len() {
            return Err(SceneError::UnexpectedEof { expected: exp });
        }
        let t = &self.src[self.position];
        proof {
            assert(tokens_view(self.src@)[self.position as int] == self.src@[
                self.position as int]@);
            assert(old(self).remaining()[0] == tokens_view(self.src@)[self.position as int]);
        }
        match t {
            Token::Number(f) => {
                let value: Fixed = *f;
                proof {
                    assert(old(self).remaining().skip(1) =~= tokens_view(self.src@).skip(
                        self.position + 1));
                }
                self.position = self.position + 1;
                Ok(value)
            },
            _ => {
                let found = dup_token(t);
                Err(SceneError::UnexpectedToken { expected: exp, found })
            },
        }
    }

    /// Demand an identifier token, consuming it and yielding its name.
    pub fn expect_ident(&mut self, exp: Expected) -> (r: Result<Vec<u8>, SceneError>)
        requires
            old(self).wf(),
        ensures
            final(self).wf(),
            final(self).src == old(self).src,
            match spec_expect_ident(old(self).remaining(), exp) {
                Ok(p) => r matches Ok(name) && name@ == p.0 && final(self).remaining() == p.1,
                Err(e) => r matches Err(a) && a@ == e,
            },
    {
        if self.position >= self.src.len() {
            return Err(SceneError::UnexpectedEof { expected: exp });
        }
        let t = &self.src[self.position];
        proof {
            assert(tokens_view(self.src@)[self.position as int] == self.src@[
                self.position as int]@);
            assert(old(self).remaining()[0] == tokens_view(self.src@)[self.position as int]);
        }
        match t {
            Token::Identifier(name) => {
                let owned = dup_bytes(name);
                proof {
                    assert(old(self).remaining().skip(1) =~= tokens_view(self.src@).skip(
                        self.position + 1));
                }
                self.position = self.position + 1;
                Ok(owned)
            },
            _ => {
                let found = dup_token(t);
                Err(SceneError::UnexpectedToken { expected: exp, found })
            },
        }
    }

    /// `( number , number , number )` after the opening parenthesis.
    pub fn parse_tuple(&mut self) -> (r: Result<Value, SceneError>)
        requires
            old(self).wf(),
        ensures
            final(self).wf(),
            final(self).src == old(self).src,
            match spec_parse_tuple(old(self).remaining()) {
                Ok(p) => r matches Ok(v) && v@ == p.0 && final(self).remaining() == p.1,
                Err(e) => r matches Err(a) && a@ == e,
            },
    {
        let n1 = match self.expect_number(Expected::ANumber) {
            Ok(n) => n,
            Err(e) => {
                return Err(e);
            },
        };
        match self.expect(&Token::Comma, Expected::Comma) {
            Ok(()) => (),
            Err(e) => {
                return Err(e);
            },
        }
        let n2 = match self.expect_number(Expected::ANumber) {
            Ok(n) => n,
            Err(e) => {
                return Err(e);
            },
        };
        match self.expect(&Token::Comma, Expected::Comma) {
            Ok(()) => (),
            Err(e) => {
                return Err(e);
            },
        }
        let n3 = match self.expect_number(Expected::ANumber) {
            Ok(n) => n,
            Err(e) => {
                return Err(e);
            },
        };
        match self.expect(&Token::RParen, Expected::RParen) {
            Ok(()) => (),
            Err(e) => {
                return Err(e);
            },
        }
        Ok(Value::Tuple(Triple::new(n1, n2, n3)))
    }

    /// One value: number, string, bare identifier, or tuple.
    pub fn parse_value(&mut self) -> (r: Result<Value, SceneError>)
        requires
            old(self).wf(),
        ensures
            final(self).wf(),
            final(self).src == old(self).src,
            match spec_parse_value(old(self).remaining()) {
                Ok(p) => r matches Ok(v) && v@ == p.0 && final(self).remaining() == p.1,
                Err(e) => r matches Err(a) && a@ == e,
            },
    {
        if self.position >= self.src.len() {
            return Err(SceneError::UnexpectedEof { expected: Expected::AValue });
        }
        let t = &self.src[self.position];
        proof {
            assert(tokens_view(self.src@)[self.position as int] == self.src@[
                self.position as int]@);
            assert(old(self).remaining()[0] == tokens_view(self.src@)[self.position as int]);
            assert(old(self).remaining().skip(1) =~= tokens_view(self.src@).skip(
                self.position + 1));
        }
        match t {
            Token::Number(f) => {
                let value: Fixed = *f;
                self.position = self.position + 1;
                Ok(Value::Num(value))
            },
            Token::VString(s) => {
                let owned = dup_bytes(s);
                self.position = self.position + 1;
                Ok(Value::VString(strip_speechmarks(owned)))
            },
            Token::Identifier(s) => {
                let owned = dup_bytes(s);
                self.position = self.position + 1;
                Ok(Value::VString(owned))
            },
            Token::LParen => {
                self.position = self.position + 1;
                self.parse_tuple()
            },
            _ => {
                let found = dup_token(t);
                Err(SceneError::UnexpectedToken { expected: Expected::AValue, found })
            },
        }
    }

    /// `identifier = value NEWLINE`.
    pub fn parse_assignment(&mut self) -> (r: Result<Assignment, SceneError>)
        requires
            old(self).wf(),
        ensures
            final(self).wf(),
            final(self).src == old(self).src,
            match spec_parse_assignment(old(self).remaining()) {
                Ok(p) => r matches Ok(a) && a@ == p.0 && final(self).remaining() == p.1,
                Err(e) => r matches Err(a) && a@ == e,
            },
    {
        let name = match self.expect_ident(Expected::PropertyName) {
            Ok(n) => n,
            Err(e) => {
                return Err(e);
            },
        };
        match self.expect(&Token::Equal, Expected::Equal) {
            Ok(()) => (),
            Err(e) => {
                return Err(e);
            },
        }
        let value = match self.parse_value() {
            Ok(v) => v,
            Err(e) => {
                return Err(e);
            },
        };
        match self.expect(&Token::NewLine, Expected::NewLine) {
            Ok(()) => (),
            Err(e) => {
                return Err(e);
            },
        }
        Ok(Assignment { name, value })
    }
}

pub open spec fn assigns_view(v: Seq<Assignment>) -> Seq<AssignmentV> {
    v.map_values(|a: Assignment| a@)
}

pub open spec fn raws_view(v: Seq<RawDefinition>) -> Seq<RawDefinitionV> {
    v.map_values(|r: RawDefinition| r@)
}

pub open spec fn defs_view(v: Seq<crate::ast::Definition>) -> Seq<crate::ast::DefinitionV> {
    v.map_values(|d: crate::ast::Definition| d@)
}

proof fn lemma_assigns_view_push(ts: Seq<Assignment>, t: Assignment)
    ensures
        assigns_view(ts.push(t)) == assigns_view(ts).push(t@),
{
    assert(assigns_view(ts.push(t)) =~= assigns_view(ts).push(t@));
}

proof fn lemma_raws_view_push(ts: Seq<RawDefinition>, t: RawDefinition)
    ensures
        raws_view(ts.push(t)) == raws_view(ts).push(t@),
{
    assert(raws_view(ts.push(t)) =~= raws_view(ts).push(t@));
}

proof fn lemma_defs_view_push(ts: Seq<crate::ast::Definition>, t: crate::ast::Definition)
    ensures
        defs_view(ts.push(t)) == defs_view(ts).push(t@),
{
    assert(defs_view(ts.push(t)) =~= defs_view(ts).push(t@));
}

/// Leading newlines do not change what the scene parser yields.
pub proof fn lemma_raw_scene_munch(ts: Seq<TokenV>)
    ensures
        spec_parse_raw_scene(spec_munch_newlines(ts)) == spec_parse_raw_scene(ts),
{
    lemma_munch_props(ts);
}

fn is_error_token(t: &Token) -> (r: bool)
    ensures
        r == (t@ is Error),
{
    match t {
        Token::Error => true,
        _ => false,
    }
}

impl Parser {
    /// One definition block: kind, brace, one or more assignments, brace.
    #[verifier::loop_isolation(false)]
    #[verifier::rlimit(50)]
    pub fn parse_raw_definition(&mut self) -> (r: Result<RawDefinition, SceneError>)
        requires
            old(self).wf(),
        ensures
            final(self).wf(),
            final(self).src == old(self).src,
            match spec_parse_raw_definition(old(self).remaining()) {
                Ok(p) => r matches Ok(d) && d@ == p.0 && final(self).remaining() == p.1,
                Err(e) => r matches Err(x) && x@ == e,
            },
    {
        let def_type = match self.expect_ident(Expected::DefinitionType) {
            Ok(n) => n,
            Err(e) => {
                return Err(e);
            },
        };
        match self.expect(&Token::LBrace, Expected::LBrace) {
            Ok(()) => (),
            Err(e) => {
                return Err(e);
            },
        }
        self.munch_newlines();
        let first = match self.parse_assignment() {
            Ok(a) => a,
            Err(e) => {
                return Err(e);
            },
        };
        let ghost first_v = first@;
        let ghost base = self.remaining();
        let mut assignments: Vec<Assignment> = Vec::new();
        assignments.push(first);
        proof {
            assert(assigns_view(assignments@) =~= seq![first_v]);
        }
        let mut closed = false;
        while !closed
            invariant
                self.wf(),
                self.src == old(self).src,
                assignments@.len() >= 1,
                assigns_view(assignments@)[0] == first_v,
                !closed ==> match spec_parse_more_assignments(self.remaining()) {
                    Ok(p) => spec_parse_more_assignments(base) == Result::<
                        (Seq<AssignmentV>, Seq<TokenV>),
                        SceneErrorV,
                    >::Ok((assigns_view(assignments@).skip(1) + p.0, p.1)),
                    Err(_) => spec_parse_more_assignments(base)
                        == spec_parse_more_assignments(self.remaining()),
                },
                closed ==> spec_parse_more_assignments(base) == Result::<
                    (Seq<AssignmentV>, Seq<TokenV>),
                    SceneErrorV,
                >::Ok((assigns_view(assignments@).skip(1), self.remaining())),
            decreases
                    (if closed {
                        0int
                    } else {
                        1int
                    }),
                    self.src@.len() - self.position,
        {
            let ghost rem = self.remaining();
            if self.position >= self.src.len() {
                proof {
                    assert(rem.len() == 0);
                }
                return Err(SceneError::UnexpectedEof { expected: Expected::AssignmentOrRBrace });
            }
            let t = &self.src[self.position];
            proof {
                assert(tokens_view(self.src@)[self.position as int] == self.src@[
                    self.position as int]@);
                assert(rem[0] == tokens_view(self.src@)[self.position as int]);
                assert(rem.skip(1) =~= tokens_view(self.src@).skip(self.position + 1));
            }
            match t {
                Token::NewLine => {
                    self.position = self.position + 1;
                },
                Token::RBrace => {
                    self.position = self.position + 1;
                    closed = true;
                    proof {
                        assert(spec_parse_more_assignments(rem) == Result::<
                            (Seq<AssignmentV>, Seq<TokenV>),
                            SceneErrorV,
                        >::Ok((Seq::<AssignmentV>::empty(), rem.skip(1))));
                        assert(assigns_view(assignments@).skip(1)
                            + Seq::<AssignmentV>::empty() =~= assigns_view(
                            assignments@).skip(1));
                    }
                },
                Token::Identifier(_) => {
                    let ghost tail0 = assigns_view(assignments@).skip(1);
                    match self.parse_assignment() {
                        Ok(a) => {
                            proof {
                                lemma_assigns_view_push(assignments@, a);
                            }
                            let ghost av = a@;
                            assignments.push(a);
                            proof {
                                assert(assigns_view(assignments@).skip(1) =~= tail0.push(av));
                                match spec_parse_more_assignments(self.remaining()) {
                                    Ok(p) => {
                                        assert(tail0 + (seq![av] + p.0) =~= tail0.push(av)
                                            + p.0);
                                    },
                                    Err(_) => {},
                                }
                            }
                        },
                        Err(e) => {
                            return Err(e);
                        },
                    }
                },
                _ => {
                    let found = dup_token(t);
                    return Err(
                        SceneError::UnexpectedToken {
                            expected: Expected::AssignmentOrRBrace,
                            found,
                        },
                    );
                },
            }
        }
        let d = RawDefinition { def_type, assignments };
        proof {
            assert(d@.assignments =~= seq![first_v] + assigns_view(d.assignments@).skip(1));
        }
        Ok(d)
    }

    /// The whole stream: a lexing fault is fatal first, then each
    /// definition block is parsed and validated in file order.  The result
    /// is a function of the token stream alone.
    #[verifier::loop_isolation(false)]
    #[verifier::rlimit(50)]
    pub fn parse(&mut self) -> (r: Result<Vec<crate::ast::Definition>, SceneError>)
        requires
            old(self).wf(),
        ensures
            final(self).wf(),
            final(self).src == old(self).src,
            match crate::validate::spec_parse_tokens(old(self).remaining()) {
                Ok(ds) => r matches Ok(v) && defs_view(v@) == ds,
                Err(e) => r matches Err(x) && x@ == e,
            },
    {
        let ghost ts = old(self).remaining();
        let start: usize = self.position;
        let mut j: usize = self.position;
        while j < self.src.len()
            invariant
                *self == *old(self),
                start == old(self).position,
                start <= j <= self.src@.len(),
                forall|m: int| 0 <= m < j - start ==> !(#[trigger] ts[m] is Error),
            decreases self.src@.len() - j,
        {
            proof {
                assert(ts[j - start] == tokens_view(self.src@)[j as int]);
                assert(tokens_view(self.src@)[j as int] == self.src@[j as int]@);
            }
            if is_error_token(&self.src[j]) {
                proof {
                    lemma_find_error_at(ts, j - start);
                }
                return Err(SceneError::LexError { position: j - start });
            }
            j = j + 1;
        }
        proof {
            lemma_find_error_none(ts);
        }
        let mut raws: Vec<RawDefinition> = Vec::new();
        self.munch_newlines();
        proof {
            lemma_raw_scene_munch(ts);
            lemma_munch_props(ts);
            assert(raws_view(raws@) =~= Seq::<RawDefinitionV>::empty());
            assert(raws_view(raws@) + Seq::<RawDefinitionV>::empty() =~= raws_view(raws@));
        }
        let mut at_end = false;
        while !at_end
            invariant
                self.wf(),
                self.src == old(self).src,
                self.remaining() == spec_munch_newlines(self.remaining()),
                !at_end ==> match spec_parse_raw_scene(self.remaining()) {
                    Ok(ds) => spec_parse_raw_scene(ts) == Result::<
                        Seq<RawDefinitionV>,
                        SceneErrorV,
                    >::Ok(raws_view(raws@) + ds),
                    Err(_) => spec_parse_raw_scene(ts) == spec_parse_raw_scene(
                        self.remaining()),
                },
                at_end ==> spec_parse_raw_scene(ts) == Result::<
                    Seq<RawDefinitionV>,
                    SceneErrorV,
                >::Ok(raws_view(raws@)),
            decreases
                    (if at_end {
                        0int
                    } else {
                        1int
                    }),
                    self.src@.len() - self.position,
        {
            let ghost rem = self.remaining();
            if self.position >= self.src.len() {
                proof {
                    assert(rem.len() == 0);
                    assert(spec_munch_newlines(rem) == rem);
                    assert(spec_parse_raw_scene(rem) == Result::<
                        Seq<RawDefinitionV>,
                        SceneErrorV,
                    >::Ok(Seq::<RawDefinitionV>::empty()));
                    assert(raws_view(raws@) + Seq::<RawDefinitionV>::empty() =~= raws_view(
                        raws@));
                }
                at_end = true;
            } else {
                let ghost raws0 = raws@;
                proof {
                    lemma_parse_raw_definition_consumes(rem);
                }
                match self.parse_raw_definition() {
                    Ok(d) => {
                        proof {
                            lemma_raws_view_push(raws0, d);
                        }
                        let ghost dv = d@;
                        raws.push(d);
                        let ghost rem2 = self.remaining();
                        self.munch_newlines();
                        proof {
                            lemma_raw_scene_munch(rem2);
                            lemma_munch_props(rem2);
                            match spec_parse_raw_scene(rem2) {
                                Ok(ds) => {
                                    assert(raws_view(raws0) + (seq![dv] + ds) =~= raws_view(
                                        raws0).push(dv) + ds);
                                },
                                Err(_) => {},
                            }
                        }
                    },
                    Err(e) => {
                        return Err(e);
                    },
                }
            }
        }
        let mut defs: Vec<crate::ast::Definition> = Vec::new();
        let ghost rawsv = raws_view(raws@);
        proof {
            assert(defs_view(defs@) =~= Seq::<crate::ast::DefinitionV>::empty());
            assert(raws@.map_values(|r: RawDefinition| r@).skip(0) =~= rawsv);
        }
        let n: usize = raws.len();
        let mut i: usize = 0;
        while i < n
            invariant
                i <= n,
                n == raws@.len(),
                rawsv == raws_view(raws@),
                match crate::validate::spec_validate_defs(raws_view(raws@).skip(i as int)) {
                    Ok(ds) => crate::validate::spec_validate_defs(rawsv) == Result::<
                        Seq<crate::ast::DefinitionV>,
                        SceneErrorV,
                    >::Ok(defs_view(defs@) + ds),
                    Err(_) => crate::validate::spec_validate_defs(rawsv)
                        == crate::validate::spec_validate_defs(
                        raws_view(raws@).skip(i as int)),
                },
            decreases n - i,
        {
            let raw = dup_raw(&raws[i]);
            proof {
                assert(raws_view(raws@)[i as int] == raws@[i as int]@);
                assert(raws_view(raws@).skip(i as int)[0] == raws_view(raws@)[i as int]);
                assert(raws_view(raws@).skip(i as int).skip(1) =~= raws_view(raws@).skip(
                    i + 1));
            }
            let ghost defs0 = defs@;
            match crate::ast::Definition::from_raw(raw) {
                Ok(d) => {
                    proof {
                        lemma_defs_view_push(defs0, d);
                    }
                    let ghost dv = d@;
                    defs.push(d);
                    proof {
                        match crate::validate::spec_validate_defs(raws_view(raws@).skip(
                            i + 1)) {
                            Ok(ds) => {
                                assert(defs_view(defs0) + (seq![dv] + ds) =~= defs_view(
                                    defs0).push(dv) + ds);
                            },
                            Err(_) => {},
                        }
                    }
                },
                Err(e) => {
                    return Err(e);
                },
            }
            i = i + 1;
        }
        proof {
            assert(raws_view(raws@).skip(n as int) =~= Seq::<RawDefinitionV>::empty());
            assert(defs_view(defs@) + Seq::<crate::ast::DefinitionV>::empty() =~= defs_view(
                defs@));
        }
        Ok(defs)
    }
}

/// Copy a whole assignment.
fn dup_assignment(a: &Assignment) -> (r: Assignment)
    ensures
        r@ == a@,
{
    let value = match &a.value {
        Value::Num(f) => Value::Num(*f),
        Value::VString(s) => Value::VString(dup_bytes(s)),
        Value::Tuple(t) => Value::Tuple(*t),
    };
    Assignment { name: dup_bytes(&a.name), value }
}

/// Copy a whole raw definition block.
fn dup_raw(raw: &RawDefinition) -> (r: RawDefinition)
    ensures
        r@ == raw@,
{
    let mut assignments: Vec<Assignment> = Vec::new();
    let mut i: usize = 0;
    while i < raw.assignments.len()
        invariant
            i <= raw.assignments@.len(),
            assigns_view(assignments@) == assigns_view(raw.assignments@).take(i as int),
        decreases raw.assignments@.len() - i,
    {
        let ghost before = assignments@;
        let a = dup_assignment(&raw.assignments[i]);
        proof {
            lemma_assigns_view_push(before, a);
        }
        assignments.push(a);
        proof {
            assert(assigns_view(raw.assignments@)[i as int] == raw.assignments@[i as int]@);
            assert(assigns_view(before).push(raw.assignments@[i as int]@) =~= assigns_view(
                raw.assignments@).take(i + 1));
        }
        i = i + 1;
    }
    proof {
        assert(assigns_view(raw.assignments@).take(raw.assignments@.len() as int)
            =~= assigns_view(raw.assignments@));
    }
    RawDefinition { def_type: dup_bytes(&raw.def_type), assignments }
}

} // verus!
