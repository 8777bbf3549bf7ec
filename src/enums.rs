//! Enumerations: named integer variants, numbered explicitly or by counting
//! on from the previous one.

use vstd::prelude::*;
use crate::base::{int_max, int_min, parse_integer_type, IntegerType};
use crate::number::{int_text, int_to_text};
use crate::parse::{
    expect, expect_token, fail, invalid, literal_text, next_is, next_is_spec, outcome,
    parse_identifier, parse_literal, pop_token, stack, ErrorView, Parse, Identifier, Literal,
    LiteralView, ParseError, Parsed,
};

verus! {

/// A variant of an enumeration, with its value where one is known.
#[derive(Debug, Clone, PartialEq, Eq, Hash)]
pub struct Variant {
    pub name: Identifier,
    pub value: Option<isize>,
}

pub struct VariantView {
    pub name: Seq<char>,
    pub value: Option<int>,
}

impl View for Variant {
    type V = VariantView;

    open spec fn view(&self) -> VariantView {
        VariantView {
            name: self.name@,
            value: match self.value {
                Some(v) => Some(v as int),
                None => None,
            },
        }
    }
}

/// The variant rule: a name, then an optional `= integer`.
pub open spec fn parse_variant(ts: Seq<Seq<char>>) -> Parsed<VariantView> {
    let n = parse_identifier(ts);
    if n.0 is Err {
        fail(n)
    } else if next_is_spec(n.1, "="@) {
        let l = parse_literal(n.1.drop_last());
        if l.0 is Err {
            fail(l)
        } else {
            match l.0->Ok_0 {
                LiteralView::Integer(v) => (Ok(VariantView { name: n.0->Ok_0, value: Some(v) }), l.1),
                LiteralView::Float(_) => (
                    Err(
                        ErrorView::InvalidToken {
                            token: literal_text(l.0->Ok_0),
                            error: "Invalid variant value"@,
                        },
                    ),
                    l.1,
                ),
            }
        }
    } else {
        (Ok(VariantView { name: n.0->Ok_0, value: None }), n.1)
    }
}

impl Variant {
    /// Takes a variant from the stack.
    pub fn parse(tokens: &mut Vec<String>) -> (r: Result<Variant, ParseError>)
        ensures
            outcome(r, final(tokens)) == parse_variant(stack(old(tokens))),
    {
        let name = Identifier::parse(tokens)?;
        if !next_is(tokens, "=") {
            return Ok(Variant { name, value: None });
        }
        let _ = pop_token(tokens);
        let l = Literal::parse(tokens)?;
        match l {
            Literal::Integer(v) => Ok(Variant { name, value: Some(v) }),
            Literal::Float(_) => Err(invalid(l.describe(), "Invalid variant value")),
        }
    }
}

/// `v` is a value of `ty` that a variant can hold.
pub open spec fn fits(ty: IntegerType, v: int) -> bool {
    int_min(ty) <= v && v <= int_max(ty) && isize::MIN <= v && v <= isize::MAX
}

/// Some variant in `acc` has the value `v`.
pub open spec fn has_value(acc: Seq<VariantView>, v: int) -> bool {
    exists|j: int| 0 <= j < acc.len() && (#[trigger] acc[j]).value == Some(v)
}

/// The variants of an enumeration of type `ty`, from the point where `counter`
/// is the value of the next implicit variant and `acc` the variants resolved
/// so far. Each variant takes its explicit value, else the counter; the value
/// must fit `ty` and be new; the counter goes on from it by one.
pub open spec fn variants_from(
    ts: Seq<Seq<char>>,
    ty: IntegerType,
    counter: int,
    acc: Seq<VariantView>,
) -> Parsed<Seq<VariantView>>
    decreases ts.len(),
{
    if ts.len() == 0 || ts.last() == "}"@ {
        (Ok(acc), ts)
    } else {
        let p = parse_variant(ts);
        if p.0 is Err {
            fail(p)
        } else {
            let var = p.0->Ok_0;
            let v = match var.value {
                Some(x) => x,
                None => counter,
            };
            if !fits(ty, v) {
                (
                    Err(ErrorView::InvalidToken { token: int_text(v), error: "Enum has incompatible type"@ }),
                    p.1,
                )
            } else if has_value(acc, v) {
                (
                    Err(ErrorView::InvalidToken { token: int_text(v), error: "Enum has duplicate value"@ }),
                    p.1,
                )
            } else {
                variants_from(p.1, ty, v + 1, acc.push(VariantView { name: var.name, value: Some(v) }))
            }
        }
    }
}

/// An enumeration.
#[derive(Debug, Clone, PartialEq, Eq, Hash)]
pub struct Enum {
    pub name: Identifier,
    pub ty: IntegerType,
    pub variants: Vec<Variant>,
}

pub struct EnumView {
    pub name: Seq<char>,
    pub ty: IntegerType,
    pub variants: Seq<VariantView>,
}

pub open spec fn variants_view(v: Seq<Variant>) -> Seq<VariantView> {
    Seq::new(v.len(), |i: int| v[i]@)
}

impl View for Enum {
    type V = EnumView;

    open spec fn view(&self) -> EnumView {
        EnumView { name: self.name@, ty: self.ty, variants: variants_view(self.variants@) }
    }
}

/// The enumeration rule: `enum name ( integer-type ) { variant* }`.
pub open spec fn parse_enum(ts: Seq<Seq<char>>) -> Parsed<EnumView> {
    let h = enum_header(ts);
    if h.0 is Err {
        fail(h)
    } else {
        let (name, ty) = h.0->Ok_0;
        enum_tail(variants_from(h.1, ty, 0, seq![]), name, ty)
    }
}

/// The head of the enumeration rule, `enum name ( integer-type ) {`, with the
/// name and the type.
pub open spec fn enum_header(ts: Seq<Seq<char>>) -> Parsed<(Seq<char>, IntegerType)> {
    let k = expect_token(ts, "enum"@);
    if k.0 is Err {
        fail(k)
    } else {
        let n = parse_identifier(k.1);
        if n.0 is Err {
            fail(n)
        } else {
            let o = expect_token(n.1, "("@);
            if o.0 is Err {
                fail(o)
            } else {
                let t = parse_integer_type(o.1);
                if t.0 is Err {
                    fail(t)
                } else {
                    let c = expect_token(t.1, ")"@);
                    if c.0 is Err {
                        fail(c)
                    } else {
                        let b = expect_token(c.1, "{"@);
                        if b.0 is Err {
                            fail(b)
                        } else {
                            (Ok((n.0->Ok_0, t.0->Ok_0)), b.1)
                        }
                    }
                }
            }
        }
    }
}

/// The end of the enumeration rule, after its variants: the closing `}`.
pub open spec fn enum_tail(vs: Parsed<Seq<VariantView>>, name: Seq<char>, ty: IntegerType) -> Parsed<EnumView> {
    if vs.0 is Err {
        fail(vs)
    } else {
        let e = expect_token(vs.1, "}"@);
        if e.0 is Err {
            fail(e)
        } else {
            (Ok(EnumView { name, ty, variants: vs.0->Ok_0 }), e.1)
        }
    }
}

/// The variants of an enumeration of type `ty` are well formed: each has a
/// value, each value fits `ty`, and no two share a value.
pub open spec fn resolved_variants(ty: IntegerType, vs: Seq<VariantView>) -> bool {
    &&& forall|i: int| 0 <= i < vs.len() ==> (#[trigger] vs[i]).value is Some && fits(ty, vs[i].value->Some_0)
    &&& forall|i: int, j: int|
        0 <= i < j < vs.len() ==> (#[trigger] vs[i]).value != (#[trigger] vs[j]).value
}

proof fn lemma_variants_resolved(ts: Seq<Seq<char>>, ty: IntegerType, counter: int, acc: Seq<VariantView>)
    requires
        resolved_variants(ty, acc),
    ensures
        variants_from(ts, ty, counter, acc).0 is Ok ==> resolved_variants(
            ty,
            variants_from(ts, ty, counter, acc).0->Ok_0,
        ),
        variants_from(ts, ty, counter, acc).1.len() <= ts.len(),
    decreases ts.len(),
{
    if ts.len() == 0 || ts.last() == "}"@ {
    } else {
        let p = parse_variant(ts);
        if p.0 is Ok {
            let var = p.0->Ok_0;
            let v = match var.value {
                Some(x) => x,
                None => counter,
            };
            if fits(ty, v) && !has_value(acc, v) {
                let acc2 = acc.push(VariantView { name: var.name, value: Some(v) });
                assert forall|i: int, j: int| 0 <= i < j < acc2.len() implies (#[trigger] acc2[i]).value
                    != (#[trigger] acc2[j]).value by {
                    if j == acc.len() {
                        assert(acc2[i] == acc[i]);
                    } else {
                        assert(acc2[i] == acc[i]);
                        assert(acc2[j] == acc[j]);
                    }
                }
                assert forall|i: int| 0 <= i < acc2.len() implies (#[trigger] acc2[i]).value is Some
                    && fits(ty, acc2[i].value->Some_0) by {
                    if i < acc.len() {
                        assert(acc2[i] == acc[i]);
                    }
                }
                lemma_variants_resolved(p.1, ty, v + 1, acc2);
            }
        }
    }
}

/// Every enumeration that parses is well formed: each variant has a value
/// that fits the enumeration's type, and no two variants share a value; a
/// variant whose value repeats an earlier one fails the parse.
pub proof fn lemma_enum_resolved(ts: Seq<Seq<char>>)
    ensures
        parse_enum(ts).0 is Ok ==> resolved_variants(
            parse_enum(ts).0->Ok_0.ty,
            parse_enum(ts).0->Ok_0.variants,
        ),
        parse_enum(ts).1.len() <= ts.len(),
        parse_enum(ts).0 is Ok ==> parse_enum(ts).1.len() < ts.len(),
{
    let h = enum_header(ts);
    if h.0 is Ok {
        lemma_variants_resolved(h.1, h.0->Ok_0.1, 0, seq![]);
    }
}

/// The variants as written, before any value is resolved: variants up to a
/// `}` or the end of the tokens, after those in `acc`.
pub open spec fn written_variants(ts: Seq<Seq<char>>, acc: Seq<VariantView>) -> Parsed<
    Seq<VariantView>,
>
    decreases ts.len(),
{
    if ts.len() == 0 || ts.last() == "}"@ {
        (Ok(acc), ts)
    } else {
        let p = parse_variant(ts);
        if p.0 is Err {
            fail(p)
        } else {
            written_variants(p.1, acc.push(p.0->Ok_0))
        }
    }
}

/// The value that the `j`th of the written variants `raw` resolves to: its
/// own where it has one, else one more than the previous variant's, and zero
/// for the first.
pub open spec fn resolved_value(raw: Seq<VariantView>, j: nat) -> int
    decreases j,
{
    match raw[j as int].value {
        Some(x) => x,
        None => if j == 0 {
            0
        } else {
            resolved_value(raw, (j - 1) as nat) + 1
        },
    }
}

/// The `j`th written variant is accepted: its value fits `ty`, and no earlier
/// variant resolves to it.
pub open spec fn accepted(ty: IntegerType, raw: Seq<VariantView>, j: nat) -> bool {
    fits(ty, resolved_value(raw, j)) && forall|i: nat|
        i < j ==> #[trigger] resolved_value(raw, i) != resolved_value(raw, j)
}

/// Why the `j`th written variant is refused.
pub open spec fn refusal(ty: IntegerType, raw: Seq<VariantView>, j: nat) -> ErrorView {
    ErrorView::InvalidToken {
        token: int_text(resolved_value(raw, j)),
        error: if !fits(ty, resolved_value(raw, j)) {
            "Enum has incompatible type"@
        } else {
            "Enum has duplicate value"@
        },
    }
}

/// The written variants `raw` with their resolved values.
pub open spec fn resolved(raw: Seq<VariantView>) -> Seq<VariantView> {
    Seq::new(raw.len(), |j: int| VariantView { name: raw[j].name, value: Some(resolved_value(raw, j as nat)) })
}

proof fn lemma_resolved_prefix(a: Seq<VariantView>, b: Seq<VariantView>, j: nat)
    requires
        j < a.len(),
        a.len() <= b.len(),
        a =~= b.take(a.len() as int),
    ensures
        resolved_value(a, j) == resolved_value(b, j),
    decreases j,
{
    assert(a[j as int] == b[j as int]);
    if j > 0 {
        lemma_resolved_prefix(a, b, (j - 1) as nat);
    }
}

proof fn lemma_written_extends(ts: Seq<Seq<char>>, acc: Seq<VariantView>)
    ensures
        written_variants(ts, acc).0 is Ok ==> ({
            let raw = written_variants(ts, acc).0->Ok_0;
            acc.len() <= raw.len() && acc =~= raw.take(acc.len() as int)
        }),
    decreases ts.len(),
{
    if ts.len() > 0 && ts.last() != "}"@ {
        let p = parse_variant(ts);
        if p.0 is Ok {
            lemma_written_extends(p.1, acc.push(p.0->Ok_0));
            if written_variants(p.1, acc.push(p.0->Ok_0)).0 is Ok {
                let raw = written_variants(ts, acc).0->Ok_0;
                assert(acc =~= acc.push(p.0->Ok_0).take(acc.len() as int));
                assert(acc.push(p.0->Ok_0).take(acc.len() as int) =~= raw.take(acc.len() as int));
            }
        }
    }
}

/// The resolution from a point part-way through the variants: `written`
/// holds the variants read so far, all accepted, `acc` the same variants
/// resolved, and `counter` the value that follows the last of them.
proof fn lemma_variants_numbered(
    ts: Seq<Seq<char>>,
    ty: IntegerType,
    counter: int,
    acc: Seq<VariantView>,
    written: Seq<VariantView>,
)
    requires
        written_variants(ts, written).0 is Ok,
        acc == resolved(written),
        forall|j: nat| j < written.len() ==> accepted(ty, written, j),
        counter == if written.len() == 0 {
            0
        } else {
            resolved_value(written, (written.len() - 1) as nat) + 1
        },
    ensures
        ({
            let raw = written_variants(ts, written).0->Ok_0;
            let r = variants_from(ts, ty, counter, acc).0;
            &&& (forall|j: nat| j < raw.len() ==> accepted(ty, raw, j)) ==> r == Ok::<
                Seq<VariantView>,
                ErrorView,
            >(resolved(raw))
            &&& forall|j: nat|
                #![trigger accepted(ty, raw, j)]
                j < raw.len() && !accepted(ty, raw, j) && (forall|i: nat|
                    i < j ==> accepted(ty, raw, i)) ==> r == Err::<Seq<VariantView>, ErrorView>(
                    refusal(ty, raw, j),
                )
        }),
    decreases ts.len(),
{
    let raw = written_variants(ts, written).0->Ok_0;
    lemma_written_extends(ts, written);
    let n = written.len();
    if ts.len() == 0 || ts.last() == "}"@ {
        assert(raw == written);
        assert forall|j: nat| j < raw.len() && !accepted(ty, raw, j) implies false by {}
        assert(resolved(raw) =~= acc);
    } else {
        let p = parse_variant(ts);
        let var = p.0->Ok_0;
        let w2 = written.push(var);
        lemma_written_extends(p.1, w2);
        assert(raw == written_variants(p.1, w2).0->Ok_0);
        assert forall|j: nat| j < w2.len() implies resolved_value(w2, j) == resolved_value(raw, j) by {
            lemma_resolved_prefix(w2, raw, j);
        }
        assert forall|j: nat| j < n implies resolved_value(written, j) == resolved_value(w2, j) by {
            assert(written =~= w2.take(n as int));
            lemma_resolved_prefix(written, w2, j);
        }
        let v = match var.value {
            Some(x) => x,
            None => counter,
        };
        assert(v == resolved_value(w2, n));
        assert(v == resolved_value(raw, n));
        assert(has_value(acc, v) <==> exists|i: nat| i < n && resolved_value(raw, i) == v) by {
            if has_value(acc, v) {
                let i = choose|i: int| 0 <= i < acc.len() && (#[trigger] acc[i]).value == Some(v);
                assert(resolved_value(raw, i as nat) == v);
            }
            if exists|i: nat| i < n && resolved_value(raw, i) == v {
                let i = choose|i: nat| i < n && resolved_value(raw, i) == v;
                assert(acc[i as int].value == Some(v));
            }
        }
        assert forall|j: nat| j < n implies accepted(ty, raw, j) by {
            assert(accepted(ty, written, j));
            assert forall|i: nat| i < j implies #[trigger] resolved_value(raw, i) != resolved_value(raw, j) by {
                assert(resolved_value(written, i) != resolved_value(written, j));
            }
        }
        if !fits(ty, v) || has_value(acc, v) {
            assert(!accepted(ty, raw, n));
            assert forall|j: nat|
                j < raw.len() && !accepted(ty, raw, j) && (forall|i: nat| i < j ==> accepted(ty, raw, i))
                implies j == n by {
                if j > n {
                    assert(accepted(ty, raw, n));
                }
            }
        } else {
            assert(accepted(ty, raw, n));
            let acc2 = acc.push(VariantView { name: var.name, value: Some(v) });
            assert forall|j: nat| j < w2.len() implies accepted(ty, w2, j) by {
                assert(accepted(ty, raw, j));
                assert forall|i: nat| i < j implies #[trigger] resolved_value(w2, i) != resolved_value(w2, j) by {
                    assert(resolved_value(raw, i) != resolved_value(raw, j));
                }
            }
            assert(acc2 =~= resolved(w2));
            lemma_variants_numbered(p.1, ty, v + 1, acc2, w2);
        }
    }
}

/// Enumeration numbering. Where the variants after the head of an
/// enumeration parse as written, each resolves to its own value, else to one
/// more than the previous variant's, and the first to zero. Where every value
/// fits the type and is new, those are the variants of the enumeration that
/// parses; otherwise the parse fails at the first variant whose value does
/// not fit, or repeats an earlier one, naming that value.
pub proof fn lemma_enum_numbering(ts: Seq<Seq<char>>)
    requires
        enum_header(ts).0 is Ok,
        written_variants(enum_header(ts).1, seq![]).0 is Ok,
    ensures
        ({
            let ty = enum_header(ts).0->Ok_0.1;
            let raw = written_variants(enum_header(ts).1, seq![]).0->Ok_0;
            &&& parse_enum(ts).0 is Ok ==> parse_enum(ts).0->Ok_0.variants == resolved(raw)
            &&& forall|j: nat|
                #![trigger accepted(ty, raw, j)]
                j < raw.len() && !accepted(ty, raw, j) && (forall|i: nat|
                    i < j ==> accepted(ty, raw, i)) ==> parse_enum(ts).0 == Err::<
                    EnumView,
                    ErrorView,
                >(refusal(ty, raw, j))
        }),
{
    let h = enum_header(ts);
    let ty = h.0->Ok_0.1;
    let raw = written_variants(h.1, seq![]).0->Ok_0;
    assert(resolved(seq![]) =~= seq![]);
    lemma_variants_numbered(h.1, ty, 0, seq![], seq![]);
    let r = variants_from(h.1, ty, 0, seq![]).0;
    if parse_enum(ts).0 is Ok {
        if !(forall|j: nat| j < raw.len() ==> accepted(ty, raw, j)) {
            let j0 = choose|j: nat| j < raw.len() && !accepted(ty, raw, j);
            lemma_first_refused(ty, raw, j0);
        }
    }
}

/// Where some variant is refused, a first one is.
proof fn lemma_first_refused(ty: IntegerType, raw: Seq<VariantView>, j: nat)
    requires
        j < raw.len(),
        !accepted(ty, raw, j),
    ensures
        exists|k: nat|
            #![trigger accepted(ty, raw, k)]
            k < raw.len() && !accepted(ty, raw, k) && (forall|i: nat| i < k ==> accepted(ty, raw, i)),
    decreases j,
{
    if forall|i: nat| i < j ==> accepted(ty, raw, i) {
        assert(!accepted(ty, raw, j));
    } else {
        let i = choose|i: nat| i < j && !accepted(ty, raw, i);
        lemma_first_refused(ty, raw, i);
    }
}

/// Whether some value in `values` is `v`.
fn contains_value(values: &Vec<isize>, v: isize) -> (r: bool)
    ensures
        r == exists|j: int| 0 <= j < values@.len() && values@[j] == v,
{
    let mut j: usize = 0;
    while j < values.len()
        invariant
            j <= values@.len(),
            forall|i: int| 0 <= i < j ==> values@[i] != v,
        decreases values@.len() - j,
    {
        if values[j] == v {
            return true;
        }
        j += 1;
    }
    false
}

impl Enum {
    /// Takes an enumeration from the stack, resolving the value of each
    /// variant.
    pub fn parse(tokens: &mut Vec<String>) -> (r: Result<Enum, ParseError>)
        ensures
            outcome(r, final(tokens)) == parse_enum(stack(old(tokens))),
    {
        expect(tokens, "enum")?;
        let name = Identifier::parse(tokens)?;
        expect(tokens, "(")?;
        let ty = IntegerType::parse(tokens)?;
        expect(tokens, ")")?;
        expect(tokens, "{")?;
        let ghost start = stack(tokens);
        let mut variants: Vec<Variant> = Vec::new();
        let mut values: Vec<isize> = Vec::new();
        let mut counter: i128 = 0;
        assert(variants_view(variants@) =~= seq![]);
        while !(tokens.len() == 0 || next_is(tokens, "}"))
            invariant
                variants_from(stack(tokens), ty, counter as int, variants_view(variants@))
                    == variants_from(start, ty, 0, seq![]),
                values@.len() == variants@.len(),
                forall|j: int| 0 <= j < values@.len() ==> (#[trigger] variants@[j]).value == Some(values@[j]),
                isize::MIN < counter <= isize::MAX as int + 1,
                parse_enum(stack(old(tokens))) == enum_tail(variants_from(start, ty, 0, seq![]), name@, ty),
            decreases stack(tokens).len(),
        {
            let ghost before = variants_view(variants@);
            let variant = Variant::parse(tokens)?;
            let v: i128 = match variant.value {
                Some(x) => x as i128,
                None => counter,
            };
            if !(isize::MIN as i128 <= v && v <= isize::MAX as i128 && ty.check(v as isize)) {
                return Err(invalid(int_to_text(v), "Enum has incompatible type"));
            }
            let vi = v as isize;
            if contains_value(&values, vi) {
                proof {
                    let j = choose|j: int| 0 <= j < values@.len() && values@[j] == vi;
                    assert(before[j] == variants@[j]@);
                }
                return Err(invalid(int_to_text(v), "Enum has duplicate value"));
            }
            proof {
                if has_value(before, v as int) {
                    let j = choose|j: int| 0 <= j < before.len() && (#[trigger] before[j]).value == Some(v as int);
                    assert(before[j] == variants@[j]@);
                    assert(values@[j] == vi);
                }
            }
            variants.push(Variant { name: variant.name, value: Some(vi) });
            values.push(vi);
            assert(variants_view(variants@) =~= before.push(VariantView { name: variant.name@, value: Some(v as int) }));
            counter = v + 1;
        }
        expect(tokens, "}")?;
        Ok(Enum { name, ty, variants })
    }
}

impl Parse for Variant {
    fn parse(tokens: &mut Vec<String>) -> Result<Variant, ParseError> {
        Variant::parse(tokens)
    }
}

impl Parse for Enum {
    fn parse(tokens: &mut Vec<String>) -> Result<Enum, ParseError> {
        Enum::parse(tokens)
    }
}

} // verus!
