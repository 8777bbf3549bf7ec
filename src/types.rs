//! Types of fields, and composite types.

use vstd::prelude::*;
use crate::base::{
    integer_type_named,     base_type_view, lemma_base_type_shrinks, lemma_field_list_shrinks, parse_base_type,
    parse_field_list, BaseType, BaseTypeView, FieldList, FieldView,
};
use crate::parse::{
    expect, expect_token, fail, is_identifier, outcome, parse_identifier, stack, ErrorView, Parse, Identifier,
    ParseError, Parsed,
};

verus! {

/// The type of a field: a base type, or a composite type by name.
#[derive(Debug, PartialEq, Eq, Hash)]
pub enum Type {
    BaseType(BaseType),
    CustomType(Identifier),
}

pub enum TypeView {
    Base(BaseTypeView),
    Custom(Seq<char>),
}

/// A type as plain values.
pub open spec fn type_view(t: Type) -> TypeView
    decreases t,
{
    match t {
        Type::BaseType(b) => TypeView::Base(base_type_view(b)),
        Type::CustomType(n) => TypeView::Custom(n@),
    }
}

impl View for Type {
    type V = TypeView;

    open spec fn view(&self) -> TypeView {
        type_view(*self)
    }
}

/// The type rule: a base type where the tokens spell one, else a name.
pub open spec fn parse_type(ts: Seq<Seq<char>>) -> Parsed<TypeView>
    decreases ts.len(), 1nat,
{
    let b = parse_base_type(ts);
    if b.0 is Ok {
        (Ok(TypeView::Base(b.0->Ok_0)), b.1)
    } else {
        let n = parse_identifier(b.1);
        if n.0 is Err {
            fail(n)
        } else {
            (Ok(TypeView::Custom(n.0->Ok_0)), n.1)
        }
    }
}

/// The type rule never grows the stack, and takes a token where it succeeds.
pub proof fn lemma_type_shrinks(ts: Seq<Seq<char>>)
    ensures
        parse_type(ts).1.len() <= ts.len(),
        parse_type(ts).0 is Ok ==> parse_type(ts).1.len() < ts.len(),
    decreases ts.len(), 1nat,
{
    lemma_base_type_shrinks(ts);
}

/// A word that names no built-in type.
pub open spec fn names_no_base_type(t: Seq<char>) -> bool {
    t != "bool"@ && t != "f32"@ && t != "f64"@ && t != "String"@ && t != "List"@ && t != "Nbt"@
        && integer_type_named(t) is None
}

/// A name that is no keyword of a built-in type parses as a reference to a
/// composite type, and the type rule takes that one token only: the built-in
/// types are tried first, and their failure gives the token back.
pub proof fn lemma_name_is_custom_type(ts: Seq<Seq<char>>, t: Seq<char>)
    requires
        is_identifier(t),
        names_no_base_type(t),
    ensures
        parse_type(ts.push(t)) == (Ok::<TypeView, ErrorView>(TypeView::Custom(t)), ts),
{
    let s = ts.push(t);
    assert(s.drop_last() =~= ts);
    assert(s.last() == t);
    assert(parse_base_type(s).1 == s);
}

impl Type {
    /// Takes a type from the stack: a base type, else a name.
    pub fn parse(tokens: &mut Vec<String>) -> (r: Result<Type, ParseError>)
        ensures
            outcome(r, final(tokens)) == parse_type(stack(old(tokens))),
        decreases old(tokens)@.len(), 1nat,
    {
        match BaseType::parse(tokens) {
            Ok(b) => Ok(Type::BaseType(b)),
            Err(_) => {
                let name = Identifier::parse(tokens)?;
                Ok(Type::CustomType(name))
            },
        }
    }
}

/// A composite type: a name and its fields.
#[derive(Debug, PartialEq)]
pub struct CustomType {
    pub name: Identifier,
    pub fields: FieldList,
}

pub struct CustomTypeView {
    pub name: Seq<char>,
    pub fields: Seq<FieldView>,
}

impl View for CustomType {
    type V = CustomTypeView;

    open spec fn view(&self) -> CustomTypeView {
        CustomTypeView { name: self.name@, fields: self.fields@ }
    }
}

/// The composite type rule: `type name { fields }`.
pub open spec fn parse_custom_type(ts: Seq<Seq<char>>) -> Parsed<CustomTypeView> {
    let k = expect_token(ts, "type"@);
    if k.0 is Err {
        fail(k)
    } else {
        let n = parse_identifier(k.1);
        if n.0 is Err {
            fail(n)
        } else {
            let o = expect_token(n.1, "{"@);
            if o.0 is Err {
                fail(o)
            } else {
                let f = parse_field_list(o.1);
                if f.0 is Err {
                    fail(f)
                } else {
                    let c = expect_token(f.1, "}"@);
                    if c.0 is Err {
                        fail(c)
                    } else {
                        (Ok(CustomTypeView { name: n.0->Ok_0, fields: f.0->Ok_0 }), c.1)
                    }
                }
            }
        }
    }
}

/// The composite type rule never grows the stack, and takes a token where it
/// succeeds.
pub proof fn lemma_custom_type_shrinks(ts: Seq<Seq<char>>)
    ensures
        parse_custom_type(ts).1.len() <= ts.len(),
        parse_custom_type(ts).0 is Ok ==> parse_custom_type(ts).1.len() < ts.len(),
{
    let k = expect_token(ts, "type"@);
    let n = parse_identifier(k.1);
    let o = expect_token(n.1, "{"@);
    lemma_field_list_shrinks(o.1, seq![], seq![]);
}

impl CustomType {
    /// Takes a composite type from the stack.
    pub fn parse(tokens: &mut Vec<String>) -> (r: Result<CustomType, ParseError>)
        ensures
            outcome(r, final(tokens)) == parse_custom_type(stack(old(tokens))),
    {
        expect(tokens, "type")?;
        let name = Identifier::parse(tokens)?;
        expect(tokens, "{")?;
        let fields = FieldList::parse(tokens)?;
        expect(tokens, "}")?;
        Ok(CustomType { name, fields })
    }
}

impl Parse for Type {
    fn parse(tokens: &mut Vec<String>) -> Result<Type, ParseError> {
        Type::parse(tokens)
    }
}

impl Parse for CustomType {
    fn parse(tokens: &mut Vec<String>) -> Result<CustomType, ParseError> {
        CustomType::parse(tokens)
    }
}

} // verus!
