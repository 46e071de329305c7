//! The lexer of the scene-description language.
//!
//! Text is scanned byte by byte into a token stream.  Lexing is total and
//! deterministic over any input: an unrecognized byte becomes an `Error`
//! token rather than a failure.  Spaces, tabs and form feeds are discarded;
//! a run of newlines collapses into one `NewLine` token, and a `#` comment
//! through its terminating newline yields one `NewLine` token as well.
//! Numbers are an optional minus sign, digits, and an optional point with
//! further digits; their value is read into fixed point, truncating past
//! the sixth fractional digit and saturating at the representable range.
//! Strings keep their surrounding quotes in the token; identifiers are runs
//! of ASCII letters.

use vstd::prelude::*;
use crate::fixed::{Fixed, FP_SCALE, FP_MAX, fp_clip};

verus! {

/// One lexeme of the scene-description language.
#[derive(Clone, Debug, PartialEq, Eq)]
pub enum Token {
    Identifier(Vec<u8>),
    Number(Fixed),
    VString(Vec<u8>),
    NewLine,
    Equal,
    Comma,
    LParen,
    RParen,
    LBrace,
    RBrace,
    Error,
}

/// The mathematical image of a token: payloads as sequences and integers.
pub ghost enum TokenV {
    Identifier(Seq<u8>),
    Number(int),
    VString(Seq<u8>),
    NewLine,
    Equal,
    Comma,
    LParen,
    RParen,
    LBrace,
    RBrace,
    Error,
}

impl View for Token {
    type V = TokenV;

    open spec fn view(&self) -> TokenV {
        match self {
            Token::Identifier(v) => TokenV::Identifier(v@),
            Token::Number(f) => TokenV::Number(f@),
            Token::VString(v) => TokenV::VString(v@),
            Token::NewLine => TokenV::NewLine,
            Token::Equal => TokenV::Equal,
            Token::Comma => TokenV::Comma,
            Token::LParen => TokenV::LParen,
            Token::RParen => TokenV::RParen,
            Token::LBrace => TokenV::LBrace,
            Token::RBrace => TokenV::RBrace,
            Token::Error => TokenV::Error,
        }
    }
}

pub open spec fn tokens_view(ts: Seq<Token>) -> Seq<TokenV> {
    ts.map_values(|t: Token| t@)
}

pub open spec fn is_ws(b: u8) -> bool {
    b == 32 || b == 9 || b == 12
}

pub open spec fn is_nl(b: u8) -> bool {
    b == 10 || b == 13
}

pub open spec fn is_digit(b: u8) -> bool {
    48 <= b <= 57
}

pub open spec fn is_alpha(b: u8) -> bool {
    (65 <= b <= 90) || (97 <= b <= 122)
}

pub open spec fn pred_ws() -> spec_fn(u8) -> bool {
    |b: u8| is_ws(b)
}

pub open spec fn pred_nl() -> spec_fn(u8) -> bool {
    |b: u8| is_nl(b)
}

pub open spec fn pred_digit() -> spec_fn(u8) -> bool {
    |b: u8| is_digit(b)
}

pub open spec fn pred_alpha() -> spec_fn(u8) -> bool {
    |b: u8| is_alpha(b)
}

pub open spec fn pred_not_nl() -> spec_fn(u8) -> bool {
    |b: u8| b != 10
}

pub open spec fn pred_not_quote() -> spec_fn(u8) -> bool {
    |b: u8| b != 34
}

/// Length of the longest prefix of `s` whose bytes all satisfy `p`.
pub open spec fn take_while(s: Seq<u8>, p: spec_fn(u8) -> bool) -> int
    decreases s.len(),
{
    if s.len() == 0 || !p(s[0]) {
        0
    } else {
        1 + take_while(s.skip(1), p)
    }
}

pub proof fn lemma_take_while_eq(s: Seq<u8>, p: spec_fn(u8) -> bool, n: int)
    requires
        0 <= n <= s.len(),
        forall|i: int| 0 <= i < n ==> p(s[i]),
        n == s.len() || !p(s[n]),
    ensures
        take_while(s, p) == n,
    decreases s.len(),
{
    if n == 0 {
    } else {
        assert(forall|i: int| 0 <= i < n - 1 ==> p(s.skip(1)[i]) == p(s[i + 1]));
        lemma_take_while_eq(s.skip(1), p, n - 1);
    }
}

pub proof fn lemma_take_while_bounds(s: Seq<u8>, p: spec_fn(u8) -> bool)
    ensures
        0 <= take_while(s, p) <= s.len(),
        forall|i: int| 0 <= i < take_while(s, p) ==> p(s[i]),
        take_while(s, p) < s.len() ==> !p(s[take_while(s, p)]),
    decreases s.len(),
{
    if s.len() == 0 || !p(s[0]) {
    } else {
        lemma_take_while_bounds(s.skip(1), p);
        assert(forall|i: int| 1 <= i < take_while(s, p) ==> p(s.skip(1)[i - 1]) && s.skip(1)[i
            - 1] == s[i]);
    }
}

/// The whole number a digit string denotes, most significant digit first.
pub open spec fn digits_value(ds: Seq<u8>) -> int
    decreases ds.len(),
{
    if ds.len() == 0 {
        0
    } else {
        digits_value(ds.drop_last()) * 10 + (ds.last() - 48)
    }
}

pub open spec fn pow10(n: nat) -> int
    decreases n,
{
    if n == 0 {
        1
    } else {
        10 * pow10((n - 1) as nat)
    }
}

/// Digits past the sixth are truncated away; fewer than six scale up.
pub open spec fn frac_scaled(ds: Seq<u8>) -> int {
    let k = if ds.len() < 6 {
        ds.len() as int
    } else {
        6
    };
    digits_value(ds.take(k)) * pow10((6 - k) as nat)
}

/// Where the number token starting at the head of `s` ends: an optional
/// minus sign, digits, then a point with at least one digit or nothing.
pub open spec fn number_len(s: Seq<u8>) -> int {
    let sign = if s.len() > 0 && s[0] == 45 {
        1int
    } else {
        0int
    };
    let d = take_while(s.skip(sign), pred_digit());
    let k = sign + d;
    if k + 1 < s.len() && s[k] == 46 && is_digit(s[k + 1]) {
        k + 1 + take_while(s.skip(k + 1), pred_digit())
    } else {
        k
    }
}

/// The fixed-point raw value a number lexeme denotes, saturating.
pub open spec fn number_value(lexeme: Seq<u8>) -> int {
    let neg = lexeme.len() > 0 && lexeme[0] == 45;
    let body = if neg {
        lexeme.skip(1)
    } else {
        lexeme
    };
    let ilen = take_while(body, pred_digit());
    let ipart = body.take(ilen);
    let fpart = if ilen < body.len() {
        body.skip(ilen + 1)
    } else {
        Seq::<u8>::empty()
    };
    let mag = digits_value(ipart) * (FP_SCALE as int) + frac_scaled(fpart);
    fp_clip(
        if neg {
            -mag
        } else {
            mag
        },
    )
}

/// Whether the head of `s` starts a number token.
pub open spec fn starts_number(s: Seq<u8>) -> bool {
    s.len() > 0 && (is_digit(s[0]) || (s[0] == 45 && s.len() > 1 && is_digit(s[1])))
}

/// The token stream of a byte sequence, maximal munch, one recursive step
/// per token or discarded whitespace run.
pub open spec fn spec_tokenize(s: Seq<u8>) -> Seq<TokenV>
    decreases s.len(),
    via spec_tokenize_dec
{
    if s.len() == 0 {
        Seq::empty()
    } else {
        let b = s[0];
        if is_ws(b) {
            spec_tokenize(s.skip(take_while(s, pred_ws())))
        } else if is_nl(b) {
            seq![TokenV::NewLine] + spec_tokenize(s.skip(take_while(s, pred_nl())))
        } else if b == 35 {
            // '#': a comment through its newline collapses to one NewLine;
            // with no newline before the end of input the '#' is an error.
            let body = take_while(s.skip(1), pred_not_nl());
            if 1 + body < s.len() {
                seq![TokenV::NewLine] + spec_tokenize(s.skip(body + 2))
            } else {
                seq![TokenV::Error] + spec_tokenize(s.skip(1))
            }
        } else if b == 34 {
            // '"': the token keeps both quotes; an unterminated quote is an
            // error.
            let body = take_while(s.skip(1), pred_not_quote());
            if 1 + body < s.len() {
                seq![TokenV::VString(s.take(body + 2))] + spec_tokenize(s.skip(body + 2))
            } else {
                seq![TokenV::Error] + spec_tokenize(s.skip(1))
            }
        } else if is_alpha(b) {
            let n = take_while(s, pred_alpha());
            seq![TokenV::Identifier(s.take(n))] + spec_tokenize(s.skip(n))
        } else if starts_number(s) {
            let n = number_len(s);
            seq![TokenV::Number(number_value(s.take(n)))] + spec_tokenize(s.skip(n))
        } else if b == 61 {
            seq![TokenV::Equal] + spec_tokenize(s.skip(1))
        } else if b == 44 {
            seq![TokenV::Comma] + spec_tokenize(s.skip(1))
        } else if b == 40 {
            seq![TokenV::LParen] + spec_tokenize(s.skip(1))
        } else if b == 41 {
            seq![TokenV::RParen] + spec_tokenize(s.skip(1))
        } else if b == 123 {
            seq![TokenV::LBrace] + spec_tokenize(s.skip(1))
        } else if b == 125 {
            seq![TokenV::RBrace] + spec_tokenize(s.skip(1))
        } else {
            seq![TokenV::Error] + spec_tokenize(s.skip(1))
        }
    }
}

pub proof fn lemma_number_len_bounds(s: Seq<u8>)
    requires
        starts_number(s),
    ensures
        1 <= number_len(s) <= s.len(),
{
    let sign = if s.len() > 0 && s[0] == 45 {
        1int
    } else {
        0int
    };
    lemma_take_while_bounds(s.skip(sign), pred_digit());
    if s[0] == 45 {
        assert(pred_digit()(s.skip(1)[0]));
        assert(take_while(s.skip(1), pred_digit()) >= 1);
    } else {
        assert(pred_digit()(s.skip(0)[0]));
        assert(take_while(s.skip(0), pred_digit()) >= 1);
    }
    let d = take_while(s.skip(sign), pred_digit());
    let k = sign + d;
    if k + 1 < s.len() && s[k] == 46 && is_digit(s[k + 1]) {
        lemma_take_while_bounds(s.skip(k + 1), pred_digit());
    }
}

#[via_fn]
proof fn spec_tokenize_dec(s: Seq<u8>) {
    if s.len() > 0 {
        let b = s[0];
        lemma_take_while_bounds(s, pred_ws());
        lemma_take_while_bounds(s, pred_nl());
        lemma_take_while_bounds(s, pred_alpha());
        lemma_take_while_bounds(s.skip(1), pred_not_nl());
        lemma_take_while_bounds(s.skip(1), pred_not_quote());
        if is_ws(b) {
            assert(pred_ws()(s[0]));
            assert(take_while(s, pred_ws()) >= 1);
        }
        if is_nl(b) {
            assert(pred_nl()(s[0]));
            assert(take_while(s, pred_nl()) >= 1);
        }
        if is_alpha(b) {
            assert(pred_alpha()(s[0]));
            assert(take_while(s, pred_alpha()) >= 1);
        }
        if starts_number(s) {
            lemma_number_len_bounds(s);
        }
    }
}

fn is_ws_byte(b: u8) -> (r: bool)
    ensures
        r == is_ws(b),
{
    b == 32 || b == 9 || b == 12
}

fn is_nl_byte(b: u8) -> (r: bool)
    ensures
        r == is_nl(b),
{
    b == 10 || b == 13
}

fn is_digit_byte(b: u8) -> (r: bool)
    ensures
        r == is_digit(b),
{
    48 <= b && b <= 57
}

fn is_alpha_byte(b: u8) -> (r: bool)
    ensures
        r == is_alpha(b),
{
    (65 <= b && b <= 90) || (97 <= b && b <= 122)
}

fn scan_ws(src: &[u8], from: usize) -> (n: usize)
    requires
        from <= src@.len(),
    ensures
        from + n <= src@.len(),
        n as int == take_while(src@.skip(from as int), pred_ws()),
{
    let len: usize = src.len();
    let mut i: usize = from;
    while i < len && is_ws_byte(src[i])
        invariant
            from <= i <= len,
            len == src@.len(),
            forall|j: int| from <= j < i ==> is_ws(src@[j]),
        decreases len - i,
    {
        i = i + 1;
    }
    proof {
        assert(forall|j: int| 0 <= j < i - from ==> pred_ws()(src@.skip(from as int)[j]));
        lemma_take_while_eq(src@.skip(from as int), pred_ws(), i - from);
    }
    i - from
}

fn scan_nl(src: &[u8], from: usize) -> (n: usize)
    requires
        from <= src@.len(),
    ensures
        from + n <= src@.len(),
        n as int == take_while(src@.skip(from as int), pred_nl()),
{
    let len: usize = src.len();
    let mut i: usize = from;
    while i < len && is_nl_byte(src[i])
        invariant
            from <= i <= len,
            len == src@.len(),
            forall|j: int| from <= j < i ==> is_nl(src@[j]),
        decreases len - i,
    {
        i = i + 1;
    }
    proof {
        assert(forall|j: int| 0 <= j < i - from ==> pred_nl()(src@.skip(from as int)[j]));
        lemma_take_while_eq(src@.skip(from as int), pred_nl(), i - from);
    }
    i - from
}

fn scan_digits(src: &[u8], from: usize) -> (n: usize)
    requires
        from <= src@.len(),
    ensures
        from + n <= src@.len(),
        n as int == take_while(src@.skip(from as int), pred_digit()),
{
    let len: usize = src.len();
    let mut i: usize = from;
    while i < len && is_digit_byte(src[i])
        invariant
            from <= i <= len,
            len == src@.len(),
            forall|j: int| from <= j < i ==> is_digit(src@[j]),
        decreases len - i,
    {
        i = i + 1;
    }
    proof {
        assert(forall|j: int| 0 <= j < i - from ==> pred_digit()(src@.skip(from as int)[j]));
        lemma_take_while_eq(src@.skip(from as int), pred_digit(), i - from);
    }
    i - from
}

fn scan_alpha(src: &[u8], from: usize) -> (n: usize)
    requires
        from <= src@.len(),
    ensures
        from + n <= src@.len(),
        n as int == take_while(src@.skip(from as int), pred_alpha()),
{
    let len: usize = src.len();
    let mut i: usize = from;
    while i < len && is_alpha_byte(src[i])
        invariant
            from <= i <= len,
            len == src@.len(),
            forall|j: int| from <= j < i ==> is_alpha(src@[j]),
        decreases len - i,
    {
        i = i + 1;
    }
    proof {
        assert(forall|j: int| 0 <= j < i - from ==> pred_alpha()(src@.skip(from as int)[j]));
        lemma_take_while_eq(src@.skip(from as int), pred_alpha(), i - from);
    }
    i - from
}

fn scan_not_nl(src: &[u8], from: usize) -> (n: usize)
    requires
        from <= src@.len(),
    ensures
        from + n <= src@.len(),
        n as int == take_while(src@.skip(from as int), pred_not_nl()),
{
    let len: usize = src.len();
    let mut i: usize = from;
    while i < len && src[i] != 10
        invariant
            from <= i <= len,
            len == src@.len(),
            forall|j: int| from <= j < i ==> src@[j] != 10,
        decreases len - i,
    {
        i = i + 1;
    }
    proof {
        assert(forall|j: int| 0 <= j < i - from ==> pred_not_nl()(src@.skip(from as int)[j]));
        lemma_take_while_eq(src@.skip(from as int), pred_not_nl(), i - from);
    }
    i - from
}

fn scan_not_quote(src: &[u8], from: usize) -> (n: usize)
    requires
        from <= src@.len(),
    ensures
        from + n <= src@.len(),
        n as int == take_while(src@.skip(from as int), pred_not_quote()),
{
    let len: usize = src.len();
    let mut i: usize = from;
    while i < len && src[i] != 34
        invariant
            from <= i <= len,
            len == src@.len(),
            forall|j: int| from <= j < i ==> src@[j] != 34,
        decreases len - i,
    {
        i = i + 1;
    }
    proof {
        assert(forall|j: int| 0 <= j < i - from ==> pred_not_quote()(src@.skip(from as int)[j]));
        lemma_take_while_eq(src@.skip(from as int), pred_not_quote(), i - from);
    }
    i - from
}

/// Copy `src[from..to]` into a fresh vector.
fn copy_range(src: &[u8], from: usize, to: usize) -> (v: Vec<u8>)
    requires
        from <= to <= src@.len(),
    ensures
        v@ == src@.subrange(from as int, to as int),
{
    let mut v: Vec<u8> = Vec::new();
    let mut i: usize = from;
    while i < to
        invariant
            from <= i <= to <= src@.len(),
            v@ == src@.subrange(from as int, i as int),
        decreases to - i,
    {
        v.push(src[i]);
        proof {
            assert(v@ =~= src@.subrange(from as int, i + 1 as int));
        }
        i = i + 1;
    }
    v
}

/// Digit accumulation saturates here so that the final value saturates at
/// the representable range.
pub const LEX_CAP: u128 = 0x8000_0000_0000_0000;

/// Read `src[from..to]` as a whole number, capped at `LEX_CAP`.
fn parse_digits_capped(src: &[u8], from: usize, to: usize) -> (acc: u128)
    requires
        from <= to <= src@.len(),
        forall|i: int| from <= i < to ==> is_digit(src@[i]),
    ensures
        acc as int == if digits_value(src@.subrange(from as int, to as int)) < LEX_CAP as int {
            digits_value(src@.subrange(from as int, to as int))
        } else {
            LEX_CAP as int
        },
        digits_value(src@.subrange(from as int, to as int)) >= acc as int,
{
    let mut acc: u128 = 0;
    let mut i: usize = from;
    while i < to
        invariant
            from <= i <= to <= src@.len(),
            forall|j: int| from <= j < to ==> is_digit(src@[j]),
            acc as int == if digits_value(src@.subrange(from as int, i as int))
                < LEX_CAP as int {
                digits_value(src@.subrange(from as int, i as int))
            } else {
                LEX_CAP as int
            },
            digits_value(src@.subrange(from as int, i as int)) >= acc as int,
            digits_value(src@.subrange(from as int, i as int)) >= 0,
            acc <= LEX_CAP,
        decreases to - i,
    {
        let d: u8 = src[i];
        let digit: u128 = (d - 48) as u128;
        proof {
            let prev = src@.subrange(from as int, i as int);
            let cur = src@.subrange(from as int, i + 1 as int);
            assert(cur.drop_last() =~= prev);
            assert(cur.last() == src@[i as int]);
            assert(digits_value(cur) == digits_value(prev) * 10 + (src@[i as int] - 48));
        }
        let wide: u128 = acc * 10 + digit;
        if wide > LEX_CAP {
            acc = LEX_CAP;
        } else {
            acc = wide;
        }
        i = i + 1;
    }
    acc
}

fn pow10_exec(n: usize) -> (r: u64)
    requires
        n <= 6,
    ensures
        r as int == pow10(n as nat),
{
    proof {
        reveal_with_fuel(pow10, 8);
    }
    if n == 0 {
        1
    } else if n == 1 {
        10
    } else if n == 2 {
        100
    } else if n == 3 {
        1000
    } else if n == 4 {
        10000
    } else if n == 5 {
        100000
    } else {
        1000000
    }
}

/// Bounds on the number a digit string denotes.
pub proof fn lemma_digits_value_bound(ds: Seq<u8>)
    requires
        forall|i: int| 0 <= i < ds.len() ==> is_digit(ds[i]),
    ensures
        0 <= digits_value(ds) < pow10(ds.len()),
    decreases ds.len(),
{
    if ds.len() > 0 {
        lemma_digits_value_bound(ds.drop_last());
        assert(pow10(ds.len()) == 10 * pow10((ds.len() - 1) as nat));
    }
}

pub proof fn lemma_pow10_mono(a: nat, b: nat)
    requires
        a <= b,
    ensures
        pow10(a) <= pow10(b),
        pow10(a) >= 1,
    decreases b,
{
    if a < b {
        lemma_pow10_mono(a, (b - 1) as nat);
    } else if b > 0 {
        lemma_pow10_mono((a - 1) as nat, (b - 1) as nat);
    }
}

/// `take_while` of a truncated sequence: cut off at the truncation point.
pub proof fn lemma_take_while_take(s: Seq<u8>, p: spec_fn(u8) -> bool, m: int)
    requires
        0 <= m <= s.len(),
    ensures
        take_while(s.take(m), p) == if take_while(s, p) < m {
            take_while(s, p)
        } else {
            m
        },
{
    lemma_take_while_bounds(s, p);
    let tw = take_while(s, p);
    if tw < m {
        assert(forall|i: int| 0 <= i < tw ==> p(#[trigger] s.take(m)[i]));
        assert(s.take(m)[tw] == s[tw]);
        lemma_take_while_eq(s.take(m), p, tw);
    } else {
        assert(forall|i: int| 0 <= i < m ==> p(#[trigger] s.take(m)[i]));
        lemma_take_while_eq(s.take(m), p, m);
    }
}

/// Scan the extent of the number token at `from`.
fn number_token_len(src: &[u8], from: usize) -> (n: usize)
    requires
        from < src@.len(),
        starts_number(src@.skip(from as int)),
    ensures
        n as int == number_len(src@.skip(from as int)),
        1 <= n,
        from + n <= src@.len(),
{
    let ghost rest = src@.skip(from as int);
    let len: usize = src.len();
    let neg: bool = src[from] == 45;
    let sign: usize = if neg {
        1
    } else {
        0
    };
    proof {
        assert(src@.skip(from + sign as int) =~= rest.skip(sign as int));
        assert(rest[0] == src@[from as int]);
        lemma_number_len_bounds(rest);
    }
    let idn: usize = scan_digits(src, from + sign);
    let after: usize = from + sign + idn;
    let ghost k = sign as int + idn as int;
    proof {
        assert(after < len ==> rest[k] == src@[after as int]);
        assert(after + 1 < len ==> rest[k + 1] == src@[after + 1]);
    }
    if after < len && after + 1 < len && src[after] == 46 && is_digit_byte(src[after + 1]) {
        proof {
            assert(src@.skip(after + 1 as int) =~= rest.skip(k + 1));
        }
        let fdn: usize = scan_digits(src, after + 1);
        sign + idn + 1 + fdn
    } else {
        proof {
            assert(!(k + 1 < rest.len() && rest[k] == 46 && is_digit(rest[k + 1])));
        }
        sign + idn
    }
}

/// A number token, cut off at its own length, still lexes the same way.
pub proof fn lemma_number_truncate(rest: Seq<u8>)
    requires
        starts_number(rest),
    ensures
        starts_number(rest.take(number_len(rest))),
        number_len(rest.take(number_len(rest))) == number_len(rest),
{
    lemma_number_len_bounds(rest);
    let n = number_len(rest);
    let lexeme = rest.take(n);
    let sign = if rest[0] == 45 {
        1int
    } else {
        0int
    };
    let d = take_while(rest.skip(sign), pred_digit());
    let k = sign + d;
    lemma_take_while_bounds(rest.skip(sign), pred_digit());
    if rest[0] == 45 {
        assert(pred_digit()(rest.skip(1)[0]));
        assert(take_while(rest.skip(1), pred_digit()) >= 1);
    } else {
        assert(pred_digit()(rest.skip(0)[0]));
        assert(take_while(rest.skip(0), pred_digit()) >= 1);
    }
    if k + 1 < rest.len() && rest[k] == 46 && is_digit(rest[k + 1]) {
        lemma_take_while_bounds(rest.skip(k + 1), pred_digit());
    }
    assert(n >= k);
    assert(lexeme[0] == rest[0]);
    if sign == 1 {
        assert(lexeme[1] == rest[1]);
    }
    assert(starts_number(lexeme));
    let sign2 = if lexeme[0] == 45 {
        1int
    } else {
        0int
    };
    assert(sign2 == sign);
    assert(lexeme.skip(sign) =~= rest.skip(sign).take(n - sign));
    lemma_take_while_take(rest.skip(sign), pred_digit(), n - sign);
    if k + 1 < rest.len() && rest[k] == 46 && is_digit(rest[k + 1]) {
        let fd = take_while(rest.skip(k + 1), pred_digit());
        lemma_take_while_bounds(rest.skip(k + 1), pred_digit());
        assert(n == k + 1 + fd);
        assert(d < n - sign);
        assert(take_while(lexeme.skip(sign), pred_digit()) == d);
        assert(lexeme[k] == rest[k]);
        assert(lexeme[k + 1] == rest[k + 1]);
        assert(pred_digit()(rest.skip(k + 1)[0]));
        assert(fd >= 1);
        assert(k + 1 < lexeme.len());
        assert(lexeme.skip(k + 1) =~= rest.skip(k + 1).take(fd));
        lemma_take_while_take(rest.skip(k + 1), pred_digit(), fd);
        assert(number_len(lexeme) == k + 1 + fd);
    } else {
        assert(n == k);
        assert(take_while(lexeme.skip(sign), pred_digit()) == n - sign);
        assert(number_len(lexeme) == k);
    }
}

/// Parse a complete number lexeme into its saturating fixed-point value.
#[verifier::rlimit(50)]
fn parse_number_lexeme(lex: &[u8]) -> (r: Fixed)
    requires
        starts_number(lex@),
        number_len(lex@) == lex@.len(),
    ensures
        r@ == number_value(lex@),
{
    let len: usize = lex.len();
    let neg: bool = lex[0] == 45;
    let sign: usize = if neg {
        1
    } else {
        0
    };
    let ghost body = if neg {
        lex@.skip(1)
    } else {
        lex@
    };
    proof {
        assert(lex@.skip(sign as int) =~= body);
        lemma_number_len_bounds(lex@);
    }
    let idn: usize = scan_digits(lex, sign);
    let after: usize = sign + idn;
    let ghost k = sign as int + idn as int;
    let ghost ilen = take_while(body, pred_digit());
    let ghost ipart = body.take(ilen);
    proof {
        lemma_take_while_bounds(body, pred_digit());
        assert(ilen == idn);
        assert(ipart =~= lex@.subrange(sign as int, after as int));
        assert forall|i: int| sign <= i < after implies is_digit(#[trigger] lex@[i]) by {
            assert(pred_digit()(body[i - sign]));
            assert(body[i - sign] == lex@[i]);
        }
    }
    let iacc: u128 = parse_digits_capped(lex, sign, after);
    let ghost fpart = if ilen < body.len() {
        body.skip(ilen + 1)
    } else {
        Seq::<u8>::empty()
    };
    let has_frac: bool = after < len;
    proof {
        if has_frac {
            // The token runs to its end through a point and digits.
            assert(k + 1 < lex@.len() && lex@[k] == 46 && is_digit(lex@[k + 1]));
            lemma_take_while_bounds(lex@.skip(k + 1), pred_digit());
            assert(lex@.len() == k + 1 + take_while(lex@.skip(k + 1), pred_digit()));
            assert(fpart =~= lex@.skip(k + 1));
            assert forall|i: int| after + 1 <= i < len implies is_digit(
                #[trigger] lex@[i]) by {
                assert(pred_digit()(lex@.skip(k + 1)[i - k - 1]));
                assert(lex@.skip(k + 1)[i - k - 1] == lex@[i]);
            }
        } else {
            assert(fpart =~= Seq::<u8>::empty());
        }
    }
    let used: usize = if has_frac {
        let fdn: usize = len - after - 1;
        if fdn < 6 {
            fdn
        } else {
            6
        }
    } else {
        0
    };
    let facc: u128 = if has_frac {
        proof {
            assert(fpart.take(used as int) =~= lex@.subrange(after + 1, after + 1 + used));
        }
        parse_digits_capped(lex, after + 1, after + 1 + used)
    } else {
        0
    };
    let fscale: u64 = pow10_exec(6 - used);
    proof {
        assert(pow10(6) == 1000000) by {
            reveal_with_fuel(pow10, 8);
        }
        lemma_pow10_mono((6 - used) as nat, 6);
        assert(fscale <= 1000000);
        if has_frac {
            assert(used as int == if fpart.len() < 6 {
                fpart.len() as int
            } else {
                6
            });
            lemma_digits_value_bound(fpart.take(used as int));
            lemma_pow10_mono(used as nat, 6);
            assert(digits_value(fpart.take(used as int)) < 1000000);
            assert(facc as int == digits_value(fpart.take(used as int)));
        } else {
            assert(fpart.take(0) =~= Seq::<u8>::empty());
            assert(digits_value(fpart.take(0)) == 0);
            assert(facc == 0);
        }
        assert(facc < 1000000);
        assert(facc * (fscale as u128) < 0x10_0000_0000_0000u128) by (nonlinear_arith)
            requires
                facc < 1000000,
                fscale <= 1000000,
        ;
    }
    let frac_part: u128 = facc * (fscale as u128);
    let ghost mag_exact = digits_value(ipart) * (FP_SCALE as int) + frac_scaled(fpart);
    proof {
        if has_frac {
            assert(frac_scaled(fpart) == digits_value(fpart.take(used as int)) * pow10(
                (6 - used) as nat));
            assert(frac_part as int == frac_scaled(fpart));
        } else {
            assert(frac_scaled(fpart) == digits_value(fpart.take(0)) * pow10(6));
            assert(frac_part as int == frac_scaled(fpart));
        }
        assert(iacc * (FP_SCALE as u128) <= 0x7A12_0000_0000_0000_0000_0000u128)
            by (nonlinear_arith)
            requires
                iacc <= 0x8000_0000_0000_0000u128,
                FP_SCALE == 1_000_000,
        ;
    }
    let mag: u128 = iacc * (FP_SCALE as u128) + frac_part;
    proof {
        lemma_digits_value_bound(ipart);
        if iacc as int == digits_value(ipart) {
            assert(mag as int == mag_exact);
        } else {
            assert(iacc == LEX_CAP && digits_value(ipart) >= LEX_CAP as int);
            assert(digits_value(ipart) * (FP_SCALE as int) >= LEX_CAP as int * (
                FP_SCALE as int)) by (nonlinear_arith)
                requires
                    digits_value(ipart) >= LEX_CAP as int,
                    FP_SCALE == 1_000_000,
            ;
            assert(mag_exact > FP_MAX as int && mag > FP_MAX as u128);
        }
        assert(mag as int <= mag_exact);
        assert(mag_exact >= 0);
    }
    let raw: i64 = crate::fixed::clip_mag(mag, neg && mag > 0);
    proof {
        if mag == 0 {
            assert(mag_exact == 0);
        }
        assert(raw as int == number_value(lex@));
    }
    Fixed { raw }
}

proof fn lemma_tokens_view_push(ts: Seq<Token>, t: Token)
    ensures
        tokens_view(ts.push(t)) == tokens_view(ts).push(t@),
{
    assert(tokens_view(ts.push(t)) =~= tokens_view(ts).push(t@));
}

/// Turn a byte string into its token stream.  Total over any input:
/// unrecognized bytes come back as `Error` tokens, never as a failure.
pub fn tokenize(src: &[u8]) -> (r: Vec<Token>)
    ensures
        tokens_view(r@) == spec_tokenize(src@),
{
    let len: usize = src.len();
    let mut toks: Vec<Token> = Vec::new();
    let mut pos: usize = 0;
    proof {
        assert(src@.skip(0) =~= src@);
        assert(tokens_view(toks@) =~= Seq::<TokenV>::empty());
    }
    while pos < len
        invariant
            pos <= len,
            len == src@.len(),
            spec_tokenize(src@) == tokens_view(toks@) + spec_tokenize(src@.skip(pos as int)),
        decreases len - pos,
    {
        let ghost rest = src@.skip(pos as int);
        let ghost toks0 = toks@;
        let b: u8 = src[pos];
        proof {
            assert(rest[0] == b);
            assert(rest.len() == len - pos);
        }
        let adv: usize;
        if is_ws_byte(b) {
            let n: usize = scan_ws(src, pos);
            proof {
                lemma_take_while_bounds(rest.skip(1), pred_ws());
                assert(pred_ws()(rest[0]));
                assert(take_while(rest, pred_ws()) >= 1);
            }
            adv = n;
            proof {
                assert(spec_tokenize(rest) == spec_tokenize(rest.skip(n as int)));
            }
        } else if is_nl_byte(b) {
            let n: usize = scan_nl(src, pos);
            proof {
                lemma_take_while_bounds(rest.skip(1), pred_nl());
                assert(pred_nl()(rest[0]));
                assert(take_while(rest, pred_nl()) >= 1);
            }
            toks.push(Token::NewLine);
            adv = n;
            proof {
                lemma_tokens_view_push(toks0, Token::NewLine);
                assert(spec_tokenize(rest) == seq![TokenV::NewLine] + spec_tokenize(
                    rest.skip(n as int)));
            }
        } else if b == 35 {
            proof {
                assert(src@.skip(pos + 1 as int) =~= rest.skip(1));
            }
            let body: usize = scan_not_nl(src, pos + 1);
            if pos + 1 + body < len {
                toks.push(Token::NewLine);
                adv = body + 2;
                proof {
                    lemma_tokens_view_push(toks0, Token::NewLine);
                    assert(spec_tokenize(rest) == seq![TokenV::NewLine] + spec_tokenize(
                        rest.skip(body + 2)));
                }
            } else {
                toks.push(Token::Error);
                adv = 1;
                proof {
                    lemma_tokens_view_push(toks0, Token::Error);
                    assert(spec_tokenize(rest) == seq![TokenV::Error] + spec_tokenize(
                        rest.skip(1)));
                }
            }
        } else if b == 34 {
            proof {
                assert(src@.skip(pos + 1 as int) =~= rest.skip(1));
            }
            let body: usize = scan_not_quote(src, pos + 1);
            if pos + 1 + body < len {
                let bytes = copy_range(src, pos, pos + body + 2);
                proof {
                    assert(bytes@ =~= rest.take(body + 2));
                }
                toks.push(Token::VString(bytes));
                adv = body + 2;
                proof {
                    lemma_tokens_view_push(toks0, toks@.last());
                    assert(spec_tokenize(rest) == seq![TokenV::VString(rest.take(body + 2))]
                        + spec_tokenize(rest.skip(body + 2)));
                }
            } else {
                toks.push(Token::Error);
                adv = 1;
                proof {
                    lemma_tokens_view_push(toks0, Token::Error);
                    assert(spec_tokenize(rest) == seq![TokenV::Error] + spec_tokenize(
                        rest.skip(1)));
                }
            }
        } else if is_alpha_byte(b) {
            let n: usize = scan_alpha(src, pos);
            proof {
                lemma_take_while_bounds(rest.skip(1), pred_alpha());
                assert(pred_alpha()(rest[0]));
                assert(take_while(rest, pred_alpha()) >= 1);
            }
            let bytes = copy_range(src, pos, pos + n);
            proof {
                assert(bytes@ =~= rest.take(n as int));
            }
            toks.push(Token::Identifier(bytes));
            adv = n;
            proof {
                lemma_tokens_view_push(toks0, toks@.last());
                assert(spec_tokenize(rest) == seq![TokenV::Identifier(rest.take(n as int))]
                    + spec_tokenize(rest.skip(n as int)));
            }
        } else if is_digit_byte(b) || (b == 45 && pos + 1 < len && is_digit_byte(
            src[pos + 1],
        )) {
            proof {
                assert(pos + 1 < len ==> rest[1] == src@[pos + 1]);
                assert(starts_number(rest));
            }
            let n: usize = number_token_len(src, pos);
            let bytes = copy_range(src, pos, pos + n);
            proof {
                assert(bytes@ =~= rest.take(n as int));
                lemma_number_truncate(rest);
            }
            let value: Fixed = parse_number_lexeme(bytes.as_slice());
            toks.push(Token::Number(value));
            adv = n;
            proof {
                lemma_tokens_view_push(toks0, toks@.last());
                assert(spec_tokenize(rest) == seq![TokenV::Number(number_value(rest.take(
                    number_len(rest))))] + spec_tokenize(rest.skip(number_len(rest))));
            }
        } else {
            let tok: Token = if b == 61 {
                Token::Equal
            } else if b == 44 {
                Token::Comma
            } else if b == 40 {
                Token::LParen
            } else if b == 41 {
                Token::RParen
            } else if b == 123 {
                Token::LBrace
            } else if b == 125 {
                Token::RBrace
            } else {
                Token::Error
            };
            toks.push(tok);
            adv = 1;
            proof {
                lemma_tokens_view_push(toks0, tok);
                assert(!starts_number(rest));
                assert(spec_tokenize(rest) == seq![tok@] + spec_tokenize(rest.skip(1)));
            }
        }
        proof {
            assert(adv >= 1);
            assert(pos + adv <= len);
            assert(rest.skip(adv as int) =~= src@.skip(pos + adv as int));
            assert(tokens_view(toks0) + spec_tokenize(rest) =~= tokens_view(toks@)
                + spec_tokenize(src@.skip(pos + adv as int)));
        }
        pos = pos + adv;
    }
    proof {
        assert(src@.skip(len as int) =~= Seq::<u8>::empty());
        assert(spec_tokenize(src@) =~= tokens_view(toks@));
    }
    toks
}

} // verus!
