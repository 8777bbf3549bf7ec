//! The error model, the token stack, and the leaf rules of the grammar:
//! identifiers and literals.

use vstd::prelude::*;
use crate::number::{float_text, is_float_text, parse_isize, signed_value};
use crate::tokenize::{chars_of, strings_view};

verus! {

broadcast use vstd::string::group_string_axioms;

/// Why a parse failed.
#[derive(Debug, Clone, PartialEq)]
pub enum ParseError {
    /// The tokens ran out where one more was needed.
    EndOfFile,
    /// The next token does not fit the rule; `error` names what was expected.
    InvalidToken { token: String, error: String },
}

/// A parse error as plain values.
pub enum ErrorView {
    EndOfFile,
    InvalidToken { token: Seq<char>, error: Seq<char> },
}

impl View for ParseError {
    type V = ErrorView;

    open spec fn view(&self) -> ErrorView {
        match self {
            ParseError::EndOfFile => ErrorView::EndOfFile,
            ParseError::InvalidToken { token, error } => ErrorView::InvalidToken {
                token: token@,
                error: error@,
            },
        }
    }
}

/// A grammar rule that builds a value of the type from a token stack, whose
/// next token is its last; each type's own `parse` states what it reads.
pub trait Parse: Sized {
    fn parse(tokens: &mut Vec<String>) -> Result<Self, ParseError>;
}

/// The outcome of a rule on a token stack, with the stack that it leaves.
pub type Parsed<T> = (Result<T, ErrorView>, Seq<Seq<char>>);

/// The token stack as plain values; the next token is the last one.
pub open spec fn stack(tokens: &Vec<String>) -> Seq<Seq<char>> {
    strings_view(tokens@)
}

/// A result as plain values.
pub open spec fn res_view<T: View>(r: Result<T, ParseError>) -> Result<T::V, ErrorView> {
    match r {
        Ok(v) => Ok(v@),
        Err(e) => Err(e@),
    }
}

/// What a rule returned and left behind, as plain values.
pub open spec fn outcome<T: View>(r: Result<T, ParseError>, tokens: &Vec<String>) -> Parsed<T::V> {
    (res_view(r), stack(tokens))
}

/// A failure passed on from a sub-rule.
pub open spec fn fail<A, B>(p: Parsed<A>) -> Parsed<B> {
    (Err(p.0->Err_0), p.1)
}

/// Taking the next token.
pub open spec fn take_token(ts: Seq<Seq<char>>) -> Parsed<Seq<char>> {
    if ts.len() == 0 {
        (Err(ErrorView::EndOfFile), ts)
    } else {
        (Ok(ts.last()), ts.drop_last())
    }
}

/// Taking the next token, which must be `t`.
pub open spec fn expect_token(ts: Seq<Seq<char>>, t: Seq<char>) -> Parsed<Seq<char>> {
    if ts.len() == 0 {
        (Err(ErrorView::EndOfFile), ts)
    } else if ts.last() == t {
        (Ok(t), ts.drop_last())
    } else {
        (
            Err(ErrorView::InvalidToken { token: ts.last(), error: "Expected "@ + t }),
            ts.drop_last(),
        )
    }
}

/// The next token is `t`.
pub open spec fn next_is_spec(ts: Seq<Seq<char>>, t: Seq<char>) -> bool {
    ts.len() > 0 && ts.last() == t
}

/// `a` followed by `b`.
pub(crate) fn join(a: &str, b: &str) -> (r: String)
    ensures
        r@ == a@ + b@,
{
    let mut r = String::new();
    let ac = chars_of(a);
    let bc = chars_of(b);
    let mut i: usize = 0;
    while i < ac.len()
        invariant
            ac@ == a@,
            i <= ac@.len(),
            r@ == ac@.take(i as int),
        decreases ac@.len() - i,
    {
        r.push(ac[i]);
        assert(r@ =~= ac@.take(i + 1));
        i += 1;
    }
    let mut j: usize = 0;
    while j < bc.len()
        invariant
            ac@ == a@,
            bc@ == b@,
            j <= bc@.len(),
            r@ == ac@ + bc@.take(j as int),
        decreases bc@.len() - j,
    {
        r.push(bc[j]);
        assert(r@ =~= ac@ + bc@.take(j + 1));
        j += 1;
    }
    assert(bc@.take(j as int) =~= bc@);
    r
}

/// An owned copy of `s`.
pub(crate) fn text(s: &str) -> (r: String)
    ensures
        r@ == s@,
{
    s.to_string()
}

/// An error for `token`, naming what was expected.
pub(crate) fn invalid(token: String, error: &str) -> (r: ParseError)
    ensures
        r@ == (ErrorView::InvalidToken { token: token@, error: error@ }),
{
    ParseError::InvalidToken { token, error: text(error) }
}

/// Whether `s` is `t`.
pub(crate) fn same(s: &String, t: &str) -> (r: bool)
    ensures
        r == (s@ == t@),
{
    *s == text(t)
}

/// Whether the next token is `t`.
pub(crate) fn next_is(tokens: &Vec<String>, t: &str) -> (r: bool)
    ensures
        r == next_is_spec(stack(tokens), t@),
{
    let n = tokens.len();
    if n == 0 {
        false
    } else {
        let r = tokens[n - 1] == text(t);
        assert(stack(tokens).last() == tokens@[n - 1]@);
        r
    }
}

/// Takes the next token.
pub(crate) fn pop_token(tokens: &mut Vec<String>) -> (r: Result<String, ParseError>)
    ensures
        outcome(r, final(tokens)) == take_token(stack(old(tokens))),
{
    let ghost ts = stack(tokens);
    match tokens.pop() {
        Some(t) => {
            assert(stack(tokens) =~= ts.drop_last());
            Ok(t)
        },
        None => Err(ParseError::EndOfFile),
    }
}

/// Puts `t` back on top of the stack.
pub(crate) fn push_token(tokens: &mut Vec<String>, t: String)
    ensures
        stack(final(tokens)) == stack(old(tokens)).push(t@),
{
    let ghost ts = stack(tokens);
    tokens.push(t);
    assert(stack(tokens) =~= ts.push(t@));
}

/// Takes the next token, which must be `t`.
pub(crate) fn expect(tokens: &mut Vec<String>, t: &str) -> (r: Result<(), ParseError>)
    ensures
        (r is Ok <==> expect_token(stack(old(tokens)), t@).0 is Ok),
        r is Err ==> r->Err_0@ == expect_token(stack(old(tokens)), t@).0->Err_0,
        stack(final(tokens)) == expect_token(stack(old(tokens)), t@).1,
{
    let token = pop_token(tokens)?;
    if token == text(t) {
        Ok(())
    } else {
        let message = join("Expected ", t);
        Err(ParseError::InvalidToken { token, error: message })
    }
}

pub open spec fn is_ascii_alpha(c: char) -> bool {
    ('a' <= c && c <= 'z') || ('A' <= c && c <= 'Z')
}

pub open spec fn is_ident_char(c: char) -> bool {
    is_ascii_alpha(c) || ('0' <= c && c <= '9') || c == '_'
}

/// A name: an ASCII letter, then ASCII letters, digits and underscores.
pub open spec fn is_identifier(t: Seq<char>) -> bool {
    t.len() > 0 && is_ascii_alpha(t[0]) && forall|j: int|
        1 <= j < t.len() ==> is_ident_char(#[trigger] t[j])
}

/// What is wrong with a token that is no name.
pub open spec fn identifier_error(t: Seq<char>) -> Seq<char> {
    if t.len() == 0 {
        "Empty identifier"@
    } else if !is_ascii_alpha(t[0]) {
        "Identifiers must start with a letter"@
    } else {
        "Identifiers can only contain letters, numbers, and underscores"@
    }
}

/// The identifier rule: the next token, which must be a name.
pub open spec fn parse_identifier(ts: Seq<Seq<char>>) -> Parsed<Seq<char>> {
    if ts.len() == 0 {
        (Err(ErrorView::EndOfFile), ts)
    } else {
        let t = ts.last();
        if is_identifier(t) {
            (Ok(t), ts.drop_last())
        } else {
            (Err(ErrorView::InvalidToken { token: t, error: identifier_error(t) }), ts.drop_last())
        }
    }
}

/// A name declared or referred to in a description.
#[derive(Debug, Clone, PartialEq, Eq, Hash)]
pub struct Identifier(pub String);

impl View for Identifier {
    type V = Seq<char>;

    open spec fn view(&self) -> Seq<char> {
        self.0@
    }
}

impl Identifier {
    /// Takes the next token as a name.
    pub fn parse(tokens: &mut Vec<String>) -> (r: Result<Identifier, ParseError>)
        ensures
            outcome(r, final(tokens)) == parse_identifier(stack(old(tokens))),
    {
        let name = pop_token(tokens)?;
        let cs = chars_of(name.as_str());
        if cs.len() == 0 {
            return Err(invalid(name, "Empty identifier"));
        }
        let c = cs[0];
        if !(('a' <= c && c <= 'z') || ('A' <= c && c <= 'Z')) {
            return Err(invalid(name, "Identifiers must start with a letter"));
        }
        let mut j: usize = 1;
        while j < cs.len()
            invariant
                cs@ == name@,
                1 <= j <= cs@.len(),
                is_ascii_alpha(cs@[0]),
                stack(old(tokens)).len() > 0,
                name@ == stack(old(tokens)).last(),
                stack(tokens) == parse_identifier(stack(old(tokens))).1,
                forall|i: int| 1 <= i < j ==> is_ident_char(#[trigger] cs@[i]),
            decreases cs@.len() - j,
        {
            let c = cs[j];
            if !(('a' <= c && c <= 'z') || ('A' <= c && c <= 'Z') || ('0' <= c && c <= '9') || c
                == '_') {
                assert(!is_ident_char(name@[j as int]));
                return Err(
                    invalid(name, "Identifiers can only contain letters, numbers, and underscores"),
                );
            }
            j += 1;
        }
        Ok(Identifier(name))
    }
}

impl Parse for Identifier {
    fn parse(tokens: &mut Vec<String>) -> Result<Identifier, ParseError> {
        Identifier::parse(tokens)
    }
}

/// A constant as written in a description.
#[derive(Debug, Clone, PartialEq)]
pub enum Literal {
    /// An integer literal, with its value.
    Integer(isize),
    /// A floating-point literal, kept as its text.
    Float(String),
}

pub enum LiteralView {
    Integer(int),
    Float(Seq<char>),
}

impl View for Literal {
    type V = LiteralView;

    open spec fn view(&self) -> LiteralView {
        match self {
            Literal::Integer(v) => LiteralView::Integer(*v as int),
            Literal::Float(t) => LiteralView::Float(t@),
        }
    }
}

/// The literal that a token spells: an integer where it reads as one, else a
/// floating-point number where it reads as one.
pub open spec fn literal_of(t: Seq<char>) -> Option<LiteralView> {
    match signed_value(t) {
        Some(v) => Some(LiteralView::Integer(v)),
        None => if is_float_text(t) {
            Some(LiteralView::Float(t))
        } else {
            None
        },
    }
}

/// The literal rule: the next token, which must be a literal; it is taken
/// either way.
pub open spec fn parse_literal(ts: Seq<Seq<char>>) -> Parsed<LiteralView> {
    if ts.len() == 0 {
        (Err(ErrorView::EndOfFile), ts)
    } else {
        match literal_of(ts.last()) {
            Some(l) => (Ok(l), ts.drop_last()),
            None => (
                Err(ErrorView::InvalidToken { token: ts.last(), error: "Invalid literal"@ }),
                ts.drop_last(),
            ),
        }
    }
}

/// How a literal is named in an error: `Integer(42)`, `Float(1.5)`.
pub open spec fn literal_text(l: LiteralView) -> Seq<char> {
    match l {
        LiteralView::Integer(v) => "Integer("@ + crate::number::int_text(v) + ")"@,
        LiteralView::Float(t) => "Float("@ + t + ")"@,
    }
}

impl Literal {
    /// Takes the next token as a literal.
    pub fn parse(tokens: &mut Vec<String>) -> (r: Result<Literal, ParseError>)
        ensures
            outcome(r, final(tokens)) == parse_literal(stack(old(tokens))),
    {
        let token = pop_token(tokens)?;
        match parse_isize(token.as_str()) {
            Some(v) => Ok(Literal::Integer(v)),
            None => if float_text(token.as_str()) {
                Ok(Literal::Float(token))
            } else {
                Err(invalid(token, "Invalid literal"))
            },
        }
    }

    /// The literal as an error names it: `Integer(42)`, `Float(1.5)`.
    pub fn describe(&self) -> (r: String)
        ensures
            r@ == literal_text(self@),
    {
        match self {
            Literal::Integer(v) => {
                let digits = crate::number::int_to_text(*v as i128);
                let head = join("Integer(", digits.as_str());
                join(head.as_str(), ")")
            },
            Literal::Float(t) => {
                let head = join("Float(", t.as_str());
                join(head.as_str(), ")")
            },
        }
    }
}

impl Parse for Literal {
    fn parse(tokens: &mut Vec<String>) -> Result<Literal, ParseError> {
        Literal::parse(tokens)
    }
}

} // verus!
