//! Integer types, base types, values, fields and field lists.

use vstd::prelude::*;
use crate::parse::{
    expect, expect_token, fail, invalid, next_is, next_is_spec, outcome, parse_identifier,
    parse_literal, pop_token, push_token, same, stack, take_token, ErrorView, Parse, Identifier, Literal,
    LiteralView, ParseError, Parsed,
};
use crate::number::{parse_usize, unsigned_value};
use crate::tokenize::strings_view;
use crate::types::{lemma_type_shrinks, parse_type, type_view, Type, TypeView};


verus! {

/// The integer types of the description language.
#[derive(Debug, Clone, Copy, PartialEq, Eq, Hash, Structural)]
pub enum IntegerType {
    U8,
    U16,
    U32,
    U64,
    I8,
    I16,
    I32,
    I64,
    VarInt,
    VarLong,
}

impl View for IntegerType {
    type V = IntegerType;

    open spec fn view(&self) -> IntegerType {
        *self
    }
}

/// The least value of an integer type.
pub open spec fn int_min(t: IntegerType) -> int {
    match t {
        IntegerType::U8 | IntegerType::U16 | IntegerType::U32 | IntegerType::U64 => 0,
        IntegerType::I8 => i8::MIN as int,
        IntegerType::I16 => i16::MIN as int,
        IntegerType::I32 | IntegerType::VarInt => i32::MIN as int,
        IntegerType::I64 | IntegerType::VarLong => i64::MIN as int,
    }
}

/// The greatest value of an integer type.
pub open spec fn int_max(t: IntegerType) -> int {
    match t {
        IntegerType::U8 => u8::MAX as int,
        IntegerType::U16 => u16::MAX as int,
        IntegerType::U32 => u32::MAX as int,
        IntegerType::U64 => u64::MAX as int,
        IntegerType::I8 => i8::MAX as int,
        IntegerType::I16 => i16::MAX as int,
        IntegerType::I32 | IntegerType::VarInt => i32::MAX as int,
        IntegerType::I64 | IntegerType::VarLong => i64::MAX as int,
    }
}

/// The integer type that a keyword names.
pub open spec fn integer_type_named(t: Seq<char>) -> Option<IntegerType> {
    if t == "u8"@ {
        Some(IntegerType::U8)
    } else if t == "u16"@ {
        Some(IntegerType::U16)
    } else if t == "u32"@ {
        Some(IntegerType::U32)
    } else if t == "u64"@ {
        Some(IntegerType::U64)
    } else if t == "i8"@ {
        Some(IntegerType::I8)
    } else if t == "i16"@ {
        Some(IntegerType::I16)
    } else if t == "i32"@ {
        Some(IntegerType::I32)
    } else if t == "i64"@ {
        Some(IntegerType::I64)
    } else if t == "VarInt"@ {
        Some(IntegerType::VarInt)
    } else if t == "VarLong"@ {
        Some(IntegerType::VarLong)
    } else {
        None
    }
}

/// The integer type rule; a token that names none is left on the stack.
pub open spec fn parse_integer_type(ts: Seq<Seq<char>>) -> Parsed<IntegerType> {
    if ts.len() == 0 {
        (Err(ErrorView::EndOfFile), ts)
    } else {
        match integer_type_named(ts.last()) {
            Some(k) => (Ok(k), ts.drop_last()),
            None => (
                Err(ErrorView::InvalidToken { token: ts.last(), error: "Invalid integer type"@ }),
                ts,
            ),
        }
    }
}

impl IntegerType {
    /// The values of the type, both ends included.
    pub fn range(&self) -> (r: std::ops::RangeInclusive<i128>)
        ensures
            r@.start == int_min(*self),
            r@.end == int_max(*self),
            !r@.exhausted,
    {
        let (lo, hi): (i128, i128) = match self {
            IntegerType::U8 => (0, u8::MAX as i128),
            IntegerType::U16 => (0, u16::MAX as i128),
            IntegerType::U32 => (0, u32::MAX as i128),
            IntegerType::U64 => (0, u64::MAX as i128),
            IntegerType::I8 => (i8::MIN as i128, i8::MAX as i128),
            IntegerType::I16 => (i16::MIN as i128, i16::MAX as i128),
            IntegerType::I32 | IntegerType::VarInt => (i32::MIN as i128, i32::MAX as i128),
            IntegerType::I64 | IntegerType::VarLong => (i64::MIN as i128, i64::MAX as i128),
        };
        std::ops::RangeInclusive::new(lo, hi)
    }

    /// Whether `value` is a value of the type.
    pub fn check(&self, value: isize) -> (r: bool)
        ensures
            r == (int_min(*self) <= value && value <= int_max(*self)),
    {
        let range = self.range();
        range.contains(&(value as i128))
    }

    /// Takes the next token as an integer type; a token that names none is
    /// put back.
    pub fn parse(tokens: &mut Vec<String>) -> (r: Result<IntegerType, ParseError>)
        ensures
            outcome(r, final(tokens)) == parse_integer_type(stack(old(tokens))),
    {
        let token = pop_token(tokens)?;
        let k = if same(&token, "u8") {
            IntegerType::U8
        } else if same(&token, "u16") {
            IntegerType::U16
        } else if same(&token, "u32") {
            IntegerType::U32
        } else if same(&token, "u64") {
            IntegerType::U64
        } else if same(&token, "i8") {
            IntegerType::I8
        } else if same(&token, "i16") {
            IntegerType::I16
        } else if same(&token, "i32") {
            IntegerType::I32
        } else if same(&token, "i64") {
            IntegerType::I64
        } else if same(&token, "VarInt") {
            IntegerType::VarInt
        } else if same(&token, "VarLong") {
            IntegerType::VarLong
        } else {
            let error = invalid(token.clone(), "Invalid integer type");
            push_token(tokens, token);
            return Err(error);
        };
        Ok(k)
    }
}

/// The built-in types of fields.
#[derive(Debug, PartialEq, Eq, Hash)]
pub enum BaseType {
    Bool,
    Integer(IntegerType),
    F32,
    F64,
    /// A string, with its fixed length if it has one.
    String { length: Option<usize> },
    /// A list of `ty`, with its fixed length if it has one.
    List { ty: Box<Type>, length: Option<usize> },
    /// An opaque binary blob.
    Nbt,
}

pub enum BaseTypeView {
    Bool,
    Integer(IntegerType),
    F32,
    F64,
    String { length: Option<nat> },
    List { ty: Box<TypeView>, length: Option<nat> },
    Nbt,
}

pub open spec fn opt_nat(o: Option<usize>) -> Option<nat> {
    match o {
        Some(n) => Some(n as nat),
        None => None,
    }
}

/// A base type as plain values.
pub open spec fn base_type_view(b: BaseType) -> BaseTypeView
    decreases b,
{
    match b {
        BaseType::Bool => BaseTypeView::Bool,
        BaseType::Integer(k) => BaseTypeView::Integer(k),
        BaseType::F32 => BaseTypeView::F32,
        BaseType::F64 => BaseTypeView::F64,
        BaseType::String { length } => BaseTypeView::String { length: opt_nat(length) },
        BaseType::List { ty, length } => BaseTypeView::List {
            ty: Box::new(type_view(*ty)),
            length: opt_nat(length),
        },
        BaseType::Nbt => BaseTypeView::Nbt,
    }
}

impl View for BaseType {
    type V = BaseTypeView;

    open spec fn view(&self) -> BaseTypeView {
        base_type_view(*self)
    }
}

/// The optional `[n]` after `String`: where the next token is `[`, an integer
/// literal that is not negative, then `]`.
pub open spec fn parse_string_length(ts: Seq<Seq<char>>) -> Parsed<Option<nat>> {
    if !next_is_spec(ts, "["@) {
        (Ok(None), ts)
    } else {
        let l = parse_literal(ts.drop_last());
        if l.0 is Err {
            fail(l)
        } else {
            match l.0->Ok_0 {
                LiteralView::Integer(n) => if n >= 0 {
                    let c = expect_token(l.1, "]"@);
                    if c.0 is Err {
                        fail(c)
                    } else {
                        (Ok(Some(n as nat)), c.1)
                    }
                } else {
                    (
                        Err(
                            ErrorView::InvalidToken {
                                token: crate::parse::literal_text(l.0->Ok_0),
                                error: "Invalid list length"@,
                            },
                        ),
                        l.1,
                    )
                },
                LiteralView::Float(_) => (
                    Err(
                        ErrorView::InvalidToken {
                            token: crate::parse::literal_text(l.0->Ok_0),
                            error: "Invalid list length"@,
                        },
                    ),
                    l.1,
                ),
            }
        }
    }
}

/// The optional `; n` of a list: where the next token is `;`, an unsigned
/// integer literal.
pub open spec fn parse_list_length(ts: Seq<Seq<char>>) -> Parsed<Option<nat>> {
    if !next_is_spec(ts, ";"@) {
        (Ok(None), ts)
    } else {
        let t = take_token(ts.drop_last());
        if t.0 is Err {
            fail(t)
        } else {
            match unsigned_value(t.0->Ok_0, usize::MAX as int) {
                Some(n) => (Ok(Some(n as nat)), t.1),
                None => (
                    Err(ErrorView::InvalidToken { token: t.0->Ok_0, error: "Invalid list length"@ }),
                    t.1,
                ),
            }
        }
    }
}

/// The base type rule. A token that names no base type is left on the stack.
pub open spec fn parse_base_type(ts: Seq<Seq<char>>) -> Parsed<BaseTypeView>
    decreases ts.len(), 0nat,
{
    if ts.len() == 0 {
        (Err(ErrorView::EndOfFile), ts)
    } else {
        let t = ts.last();
        let rest = ts.drop_last();
        if t == "bool"@ {
            (Ok(BaseTypeView::Bool), rest)
        } else if t == "f32"@ {
            (Ok(BaseTypeView::F32), rest)
        } else if t == "f64"@ {
            (Ok(BaseTypeView::F64), rest)
        } else if t == "String"@ {
            let l = parse_string_length(rest);
            if l.0 is Err {
                fail(l)
            } else {
                (Ok(BaseTypeView::String { length: l.0->Ok_0 }), l.1)
            }
        } else if t == "List"@ {
            let o = expect_token(rest, "["@);
            if o.0 is Err {
                fail(o)
            } else {
                let e = parse_type(o.1);
                if e.0 is Err {
                    fail(e)
                } else {
                    let l = parse_list_length(e.1);
                    if l.0 is Err {
                        fail(l)
                    } else {
                        let c = expect_token(l.1, "]"@);
                        if c.0 is Err {
                            fail(c)
                        } else {
                            (
                                Ok(
                                    BaseTypeView::List {
                                        ty: Box::new(e.0->Ok_0),
                                        length: l.0->Ok_0,
                                    },
                                ),
                                c.1,
                            )
                        }
                    }
                }
            }
        } else if t == "Nbt"@ {
            (Ok(BaseTypeView::Nbt), rest)
        } else {
            match integer_type_named(t) {
                Some(k) => (Ok(BaseTypeView::Integer(k)), rest),
                None => (Err(ErrorView::InvalidToken { token: t, error: "Invalid type"@ }), ts),
            }
        }
    }
}

pub proof fn lemma_list_length_shrinks(ts: Seq<Seq<char>>)
    ensures
        parse_list_length(ts).1.len() <= ts.len(),
{
    if next_is_spec(ts, ";"@) {
        let t = take_token(ts.drop_last());
        assert(t.1.len() <= ts.len());
    }
}

/// The base type rule never grows the stack, and takes a token where it
/// succeeds.
pub proof fn lemma_base_type_shrinks(ts: Seq<Seq<char>>)
    ensures
        parse_base_type(ts).1.len() <= ts.len(),
        parse_base_type(ts).0 is Ok ==> parse_base_type(ts).1.len() < ts.len(),
    decreases ts.len(), 0nat,
{
    if ts.len() > 0 {
        let rest = ts.drop_last();
        let t = ts.last();
        assert(parse_string_length(rest).1.len() <= rest.len());
        let o = expect_token(rest, "["@);
        assert(o.1.len() <= rest.len());
        lemma_type_shrinks(o.1);
        let e = parse_type(o.1);
        lemma_list_length_shrinks(e.1);
    }
}

impl BaseType {
    fn parse_length_suffix(tokens: &mut Vec<String>) -> (r: Result<Option<usize>, ParseError>)
        ensures
            (match r {
                Ok(o) => Ok(opt_nat(o)),
                Err(e) => Err(e@),
            }, stack(final(tokens))) == parse_string_length(stack(old(tokens))),
    {
        if !next_is(tokens, "[") {
            return Ok(None);
        }
        let _ = pop_token(tokens);
        let l = Literal::parse(tokens)?;
        match l {
            Literal::Integer(n) => {
                if n < 0 {
                    return Err(invalid(l.describe(), "Invalid list length"));
                }
                expect(tokens, "]")?;
                Ok(Some(n as usize))
            },
            Literal::Float(_) => Err(invalid(l.describe(), "Invalid list length")),
        }
    }

    fn parse_list_length(tokens: &mut Vec<String>) -> (r: Result<Option<usize>, ParseError>)
        ensures
            (match r {
                Ok(o) => Ok(opt_nat(o)),
                Err(e) => Err(e@),
            }, stack(final(tokens))) == parse_list_length(stack(old(tokens))),
    {
        if !next_is(tokens, ";") {
            return Ok(None);
        }
        let _ = pop_token(tokens);
        let token = pop_token(tokens)?;
        match parse_usize(token.as_str()) {
            Some(n) => Ok(Some(n)),
            None => Err(invalid(token, "Invalid list length")),
        }
    }

    /// Takes a base type from the stack. A token that names no base type is
    /// put back.
    pub fn parse(tokens: &mut Vec<String>) -> (r: Result<BaseType, ParseError>)
        ensures
            outcome(r, final(tokens)) == parse_base_type(stack(old(tokens))),
        decreases old(tokens)@.len(), 0nat,
    {
        let token = pop_token(tokens)?;
        if same(&token, "bool") {
            Ok(BaseType::Bool)
        } else if same(&token, "f32") {
            Ok(BaseType::F32)
        } else if same(&token, "f64") {
            Ok(BaseType::F64)
        } else if same(&token, "String") {
            let length = BaseType::parse_length_suffix(tokens)?;
            Ok(BaseType::String { length })
        } else if same(&token, "List") {
            expect(tokens, "[")?;
            let ty = Type::parse(tokens)?;
            let length = BaseType::parse_list_length(tokens)?;
            expect(tokens, "]")?;
            Ok(BaseType::List { ty: Box::new(ty), length })
        } else if same(&token, "Nbt") {
            Ok(BaseType::Nbt)
        } else {
            push_token(tokens, token);
            match IntegerType::parse(tokens) {
                Ok(k) => Ok(BaseType::Integer(k)),
                Err(_) => {
                    let token = pop_token(tokens)?;
                    let error = invalid(token.clone(), "Invalid type");
                    push_token(tokens, token);
                    Err(error)
                },
            }
        }
    }
}

/// A value given to a field.
#[derive(Debug, Clone, PartialEq)]
pub enum Value {
    /// The length of another field, a list or a blob.
    Length(Identifier),
    /// A constant.
    Literal(Literal),
    /// Another field, by name.
    Identifier(Identifier),
}

pub enum ValueView {
    Length(Seq<char>),
    Literal(LiteralView),
    Identifier(Seq<char>),
}

impl View for Value {
    type V = ValueView;

    open spec fn view(&self) -> ValueView {
        match self {
            Value::Length(n) => ValueView::Length(n@),
            Value::Literal(l) => ValueView::Literal(l@),
            Value::Identifier(n) => ValueView::Identifier(n@),
        }
    }
}

/// The value rule: `len ( name )`, else a literal, else a name.
pub open spec fn parse_value(ts: Seq<Seq<char>>) -> Parsed<ValueView> {
    if ts.len() == 0 {
        (Err(ErrorView::EndOfFile), ts)
    } else if ts.last() == "len"@ {
        let o = expect_token(ts.drop_last(), "("@);
        if o.0 is Err {
            fail(o)
        } else {
            let n = parse_identifier(o.1);
            if n.0 is Err {
                fail(n)
            } else {
                let c = expect_token(n.1, ")"@);
                if c.0 is Err {
                    fail(c)
                } else {
                    (Ok(ValueView::Length(n.0->Ok_0)), c.1)
                }
            }
        }
    } else {
        let l = parse_literal(ts);
        if l.0 is Ok {
            (Ok(ValueView::Literal(l.0->Ok_0)), l.1)
        } else {
            let n = parse_identifier(ts);
            if n.0 is Err {
                fail(n)
            } else {
                (Ok(ValueView::Identifier(n.0->Ok_0)), n.1)
            }
        }
    }
}

impl Value {
    /// Takes a value from the stack.
    pub fn parse(tokens: &mut Vec<String>) -> (r: Result<Value, ParseError>)
        ensures
            outcome(r, final(tokens)) == parse_value(stack(old(tokens))),
    {
        let ghost ts = stack(tokens);
        if tokens.len() == 0 {
            return Err(ParseError::EndOfFile);
        }
        if next_is(tokens, "len") {
            let _ = pop_token(tokens);
            expect(tokens, "(")?;
            let name = Identifier::parse(tokens)?;
            expect(tokens, ")")?;
            return Ok(Value::Length(name));
        }
        match Literal::parse(tokens) {
            Ok(l) => Ok(Value::Literal(l)),
            Err(e) => {
                match e {
                    ParseError::InvalidToken { token, error: _ } => {
                        push_token(tokens, token);
                        assert(stack(tokens) =~= ts);
                    },
                    ParseError::EndOfFile => {},
                }
                let name = Identifier::parse(tokens)?;
                Ok(Value::Identifier(name))
            },
        }
    }
}

/// A field of a packet or a composite type.
#[derive(Debug, PartialEq)]
pub struct Field {
    pub ty: Type,
    pub name: Identifier,
    /// The value given to the field, if any.
    pub value: Option<Value>,
    /// The guard conditions of the `if` blocks that the field stands in,
    /// outermost first.
    pub conditions: Vec<String>,
}

pub struct FieldView {
    pub ty: TypeView,
    pub name: Seq<char>,
    pub value: Option<ValueView>,
    pub conditions: Seq<Seq<char>>,
}

pub open spec fn opt_value_view(v: Option<Value>) -> Option<ValueView> {
    match v {
        Some(x) => Some(x@),
        None => None,
    }
}

impl View for Field {
    type V = FieldView;

    open spec fn view(&self) -> FieldView {
        FieldView {
            ty: self.ty@,
            name: self.name@,
            value: opt_value_view(self.value),
            conditions: strings_view(self.conditions@),
        }
    }
}

/// The field rule: a type, a name, and an optional `= value`; the field has
/// no conditions of its own.
pub open spec fn parse_field(ts: Seq<Seq<char>>) -> Parsed<FieldView> {
    let t = parse_type(ts);
    if t.0 is Err {
        fail(t)
    } else {
        let n = parse_identifier(t.1);
        if n.0 is Err {
            fail(n)
        } else if next_is_spec(n.1, "="@) {
            let v = parse_value(n.1.drop_last());
            if v.0 is Err {
                fail(v)
            } else {
                (
                    Ok(
                        FieldView {
                            ty: t.0->Ok_0,
                            name: n.0->Ok_0,
                            value: Some(v.0->Ok_0),
                            conditions: seq![],
                        },
                    ),
                    v.1,
                )
            }
        } else {
            (
                Ok(FieldView { ty: t.0->Ok_0, name: n.0->Ok_0, value: None, conditions: seq![] }),
                n.1,
            )
        }
    }
}

/// The field rule never grows the stack, and takes a token where it succeeds.
pub proof fn lemma_field_shrinks(ts: Seq<Seq<char>>)
    ensures
        parse_field(ts).1.len() <= ts.len(),
        parse_field(ts).0 is Ok ==> parse_field(ts).1.len() < ts.len(),
{
    lemma_type_shrinks(ts);
}

impl Field {
    /// Takes a field from the stack.
    pub fn parse(tokens: &mut Vec<String>) -> (r: Result<Field, ParseError>)
        ensures
            outcome(r, final(tokens)) == parse_field(stack(old(tokens))),
    {
        let ty = Type::parse(tokens)?;
        let name = Identifier::parse(tokens)?;
        let mut value: Option<Value> = None;
        if next_is(tokens, "=") {
            let _ = pop_token(tokens);
            value = Some(Value::parse(tokens)?);
        }
        let conditions: Vec<String> = Vec::new();
        let r = Field { ty, name, value, conditions };
        assert(strings_view(r.conditions@) =~= seq![]);
        Ok(r)
    }
}

/// The text of a guard condition, read up to the parenthesis that closes
/// `depth` open ones: the tokens joined by single spaces, parentheses left
/// out.
pub open spec fn condition_from(ts: Seq<Seq<char>>, depth: nat, acc: Seq<char>) -> (
    Seq<char>,
    Seq<Seq<char>>,
)
    decreases ts.len(),
{
    if ts.len() == 0 || depth == 0 {
        (acc, ts)
    } else {
        let t = ts.last();
        let rest = ts.drop_last();
        if t == "("@ {
            condition_from(rest, depth + 1, acc)
        } else if t == ")"@ {
            condition_from(rest, (depth - 1) as nat, acc)
        } else {
            condition_from(
                rest,
                depth,
                if acc.len() == 0 {
                    t
                } else {
                    acc + " "@ + t
                },
            )
        }
    }
}

pub proof fn lemma_condition_shrinks(ts: Seq<Seq<char>>, depth: nat, acc: Seq<char>)
    ensures
        condition_from(ts, depth, acc).1.len() <= ts.len(),
    decreases ts.len(),
{
    if ts.len() > 0 && depth > 0 {
        let t = ts.last();
        let rest = ts.drop_last();
        if t == "("@ {
            lemma_condition_shrinks(rest, depth + 1, acc);
        } else if t == ")"@ {
            lemma_condition_shrinks(rest, (depth - 1) as nat, acc);
        } else {
            lemma_condition_shrinks(
                rest,
                depth,
                if acc.len() == 0 {
                    t
                } else {
                    acc + " "@ + t
                },
            );
        }
    }
}

/// The field-list rule, from the point where `conds` are the conditions of
/// the open `if` blocks and `acc` the fields read so far. It stops, leaving
/// the `}` on the stack, at a `}` that closes no block of its own, or where
/// the tokens run out outside every block; running out inside a block is an
/// unexpected end.
pub open spec fn field_list_from(
    ts: Seq<Seq<char>>,
    conds: Seq<Seq<char>>,
    acc: Seq<FieldView>,
) -> Parsed<Seq<FieldView>>
    decreases ts.len(),
{
    if ts.len() == 0 {
        if conds.len() == 0 {
            (Ok(acc), ts)
        } else {
            (Err(ErrorView::EndOfFile), ts)
        }
    } else {
        let t = ts.last();
        let rest = ts.drop_last();
        if t == "}"@ {
            if conds.len() == 0 {
                (Ok(acc), ts)
            } else {
                field_list_from(rest, conds.drop_last(), acc)
            }
        } else if t == "if"@ {
            let o = expect_token(rest, "("@);
            if o.0 is Err {
                fail(o)
            } else {
                let c = condition_from(o.1, 1, seq![]);
                let b = expect_token(c.1, "{"@);
                if b.0 is Err {
                    fail(b)
                } else {
                    proof {
                        lemma_condition_shrinks(o.1, 1, seq![]);
                    }
                    field_list_from(b.1, conds.push(c.0), acc)
                }
            }
        } else {
            let f = parse_field(ts);
            if f.0 is Err {
                fail(f)
            } else {
                proof {
                    lemma_field_shrinks(ts);
                }
                let fv = f.0->Ok_0;
                field_list_from(
                    f.1,
                    conds,
                    acc.push(
                        FieldView {
                            ty: fv.ty,
                            name: fv.name,
                            value: fv.value,
                            conditions: conds,
                        },
                    ),
                )
            }
        }
    }
}

/// The field-list rule never grows the stack.
pub proof fn lemma_field_list_shrinks(ts: Seq<Seq<char>>, conds: Seq<Seq<char>>, acc: Seq<FieldView>)
    ensures
        field_list_from(ts, conds, acc).1.len() <= ts.len(),
    decreases ts.len(),
{
    if ts.len() > 0 {
        let t = ts.last();
        let rest = ts.drop_last();
        if t == "}"@ {
            if conds.len() > 0 {
                lemma_field_list_shrinks(rest, conds.drop_last(), acc);
            }
        } else if t == "if"@ {
            let o = expect_token(rest, "("@);
            if o.0 is Ok {
                let c = condition_from(o.1, 1, seq![]);
                lemma_condition_shrinks(o.1, 1, seq![]);
                let b = expect_token(c.1, "{"@);
                if b.0 is Ok {
                    lemma_field_list_shrinks(b.1, conds.push(c.0), acc);
                }
            }
        } else {
            let f = parse_field(ts);
            lemma_field_shrinks(ts);
            if f.0 is Ok {
                let fv = f.0->Ok_0;
                lemma_field_list_shrinks(
                    f.1,
                    conds,
                    acc.push(
                        FieldView {
                            ty: fv.ty,
                            name: fv.name,
                            value: fv.value,
                            conditions: conds,
                        },
                    ),
                );
            }
        }
    }
}

/// The field-list rule: fields and `if ( condition ) { ... }` blocks, flattened
/// into one list in which each field carries the conditions of the blocks
/// that it stands in.
pub open spec fn parse_field_list(ts: Seq<Seq<char>>) -> Parsed<Seq<FieldView>> {
    field_list_from(ts, seq![], seq![])
}

/// The fields of a packet or a composite type, in order.
#[derive(Debug, PartialEq)]
pub struct FieldList(pub Vec<Field>);

pub open spec fn fields_view(v: Seq<Field>) -> Seq<FieldView> {
    Seq::new(v.len(), |i: int| v[i]@)
}

impl View for FieldList {
    type V = Seq<FieldView>;

    open spec fn view(&self) -> Seq<FieldView> {
        fields_view(self.0@)
    }
}

/// A copy of a list of strings.
fn copy_strings(v: &Vec<String>) -> (r: Vec<String>)
    ensures
        strings_view(r@) == strings_view(v@),
{
    let mut r: Vec<String> = Vec::new();
    let mut i: usize = 0;
    while i < v.len()
        invariant
            i <= v@.len(),
            r@.len() == i,
            strings_view(r@) == strings_view(v@).take(i as int),
        decreases v@.len() - i,
    {
        let s = v[i].clone();
        assert(s@ == strings_view(v@)[i as int]);
        let ghost before = r@;
        r.push(s);
        assert forall|j: int| 0 <= j < i + 1 implies #[trigger] strings_view(r@)[j] == strings_view(
            v@,
        )[j] by {
            assert(r@.len() == i + 1);
            assert(strings_view(r@)[j] == r@[j]@);
            if j < i {
                assert(r@[j] == before[j]);
                assert(strings_view(before)[j] == before[j]@);
                assert(strings_view(before)[j] == strings_view(v@).take(i as int)[j]);
            } else {
                assert(r@[j] == s);
            }
        }
        assert(strings_view(r@) =~= strings_view(v@).take(i + 1));
        i += 1;
    }
    assert(strings_view(v@).take(i as int) =~= strings_view(v@));
    r
}

impl FieldList {
    /// Reads a guard condition, after its opening parenthesis.
    fn condition(tokens: &mut Vec<String>) -> (r: String)
        ensures
            (r@, stack(final(tokens))) == condition_from(stack(old(tokens)), 1, seq![]),
    {
        let mut cond = String::new();
        let mut depth: u128 = 1;
        let n0 = tokens.len();
        while tokens.len() > 0 && depth != 0
            invariant
                condition_from(stack(tokens), depth as nat, cond@) == condition_from(
                    stack(old(tokens)),
                    1,
                    seq![],
                ),
                depth + stack(tokens).len() <= stack(old(tokens)).len() + 1,
                stack(old(tokens)).len() == n0,
            decreases stack(tokens).len(),
        {
            let token = pop_token(tokens).unwrap();
            if same(&token, "(") {
                depth = depth + 1;
            } else if same(&token, ")") {
                depth = depth - 1;
            } else {
                if !cond.as_str().is_empty() {
                    cond = crate::parse::join(cond.as_str(), " ");
                }
                cond = crate::parse::join(cond.as_str(), token.as_str());
            }
        }
        cond
    }

    /// Takes fields and `if` blocks from the stack, up to a `}` that closes no
    /// block of the list's own, which it leaves on the stack; the tokens may
    /// run out only outside every block.
    pub fn parse(tokens: &mut Vec<String>) -> (r: Result<FieldList, ParseError>)
        ensures
            outcome(r, final(tokens)) == parse_field_list(stack(old(tokens))),
    {
        let mut fields: Vec<Field> = Vec::new();
        let mut conds: Vec<String> = Vec::new();
        assert(strings_view(conds@) =~= seq![]);
        assert(fields_view(fields@) =~= seq![]);
        loop
            invariant
                field_list_from(stack(tokens), strings_view(conds@), fields_view(fields@))
                    == parse_field_list(stack(old(tokens))),
            decreases tokens@.len(),
        {
            let ghost ts = stack(tokens);
            let ghost cv = strings_view(conds@);
            let ghost fv = fields_view(fields@);
            if tokens.len() == 0 {
                if conds.len() == 0 {
                    return Ok(FieldList(fields));
                }
                return Err(ParseError::EndOfFile);
            }
            let token = pop_token(tokens).unwrap();
            if same(&token, "}") {
                if conds.len() == 0 {
                    push_token(tokens, token);
                    assert(stack(tokens) =~= ts);
                    return Ok(FieldList(fields));
                }
                let _ = conds.pop();
                assert(strings_view(conds@) =~= cv.drop_last());
            } else if same(&token, "if") {
                expect(tokens, "(")?;
                let ghost o = stack(tokens);
                let cond = FieldList::condition(tokens);
                proof {
                    lemma_condition_shrinks(o, 1, seq![]);
                }
                expect(tokens, "{")?;
                conds.push(cond);
                assert(strings_view(conds@) =~= cv.push(cond@));
            } else {
                push_token(tokens, token);
                assert(stack(tokens) =~= ts);
                proof {
                    lemma_field_shrinks(ts);
                }
                let mut field = Field::parse(tokens)?;
                field.conditions = copy_strings(&conds);
                fields.push(field);
                assert(fields_view(fields@) =~= fv.push(fields@.last()@));
            }
        }
    }
}

impl Parse for IntegerType {
    fn parse(tokens: &mut Vec<String>) -> Result<IntegerType, ParseError> {
        IntegerType::parse(tokens)
    }
}

impl Parse for BaseType {
    fn parse(tokens: &mut Vec<String>) -> Result<BaseType, ParseError> {
        BaseType::parse(tokens)
    }
}

impl Parse for Value {
    fn parse(tokens: &mut Vec<String>) -> Result<Value, ParseError> {
        Value::parse(tokens)
    }
}

impl Parse for Field {
    fn parse(tokens: &mut Vec<String>) -> Result<Field, ParseError> {
        Field::parse(tokens)
    }
}

impl Parse for FieldList {
    fn parse(tokens: &mut Vec<String>) -> Result<FieldList, ParseError> {
        FieldList::parse(tokens)
    }
}

} // verus!
