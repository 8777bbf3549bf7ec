//! What the rules do when the stack is cut short: its bottom `m` tokens taken
//! away. A rule that stopped above the cut gives the same result; one that
//! went past it uses up what is left, and where it had succeeded it succeeds
//! or runs out of tokens. A packet cut anywhere runs out of tokens.

use vstd::prelude::*;
use crate::base::{
    condition_from, field_list_from, lemma_base_type_shrinks, lemma_condition_shrinks,
    lemma_field_list_shrinks, lemma_field_shrinks, lemma_list_length_shrinks,
    parse_base_type, parse_field, parse_list_length, parse_string_length, parse_value, FieldView,
};
use crate::packets::{
    packet_body, parse_direction, parse_packet, parse_packet_id, Direction, PacketView,
};
use crate::parse::{expect_token, parse_identifier, parse_literal, ErrorView, Parsed};
use crate::types::{lemma_type_shrinks, parse_type};

verus! {

/// A rule's outcome `p` on a stack, and its outcome `q` on that stack without
/// its bottom `m` tokens, agree. Where `p` stopped above the cut (it succeeded
/// and left at least `m` tokens, or left more than `m`), `q` is the same
/// result with the same stack cut the same way. Otherwise `q` used up the
/// stack, and where `p` succeeded `q` succeeded or ran out of tokens.
pub open spec fn agrees_cut<T>(p: Parsed<T>, q: Parsed<T>, m: int) -> bool {
    if (p.0 is Ok && p.1.len() >= m) || p.1.len() >= m + 1 {
        q == (p.0, p.1.skip(m))
    } else {
        q.1.len() == 0 && (p.0 is Ok ==> (q.0 is Ok || q.0 == Err::<T, ErrorView>(
            ErrorView::EndOfFile,
        )))
    }
}

proof fn lemma_cut(s: Seq<Seq<char>>, m: int)
    requires
        1 <= m <= s.len(),
    ensures
        s.skip(m).len() == s.len() - m,
        s.len() > m ==> s.skip(m).last() == s.last(),
        s.len() > m ==> s.skip(m).drop_last() == s.drop_last().skip(m),
{
    if s.len() > m {
        assert(s.skip(m).drop_last() =~= s.drop_last().skip(m));
    }
}

/// The rules that read one token look only at the top of the stack.
proof fn lemma_leaves_cut(s: Seq<Seq<char>>, m: int, t: Seq<char>)
    requires
        1 <= m <= s.len(),
    ensures
        agrees_cut(parse_identifier(s), parse_identifier(s.skip(m)), m),
        agrees_cut(parse_literal(s), parse_literal(s.skip(m)), m),
        agrees_cut(expect_token(s, t), expect_token(s.skip(m), t), m),
        agrees_cut(parse_packet_id(s), parse_packet_id(s.skip(m)), m),
        agrees_cut(parse_direction(s), parse_direction(s.skip(m)), m),
{
    lemma_cut(s, m);
}

proof fn lemma_string_length_cut(s: Seq<Seq<char>>, m: int)
    requires
        1 <= m <= s.len(),
    ensures
        agrees_cut(parse_string_length(s), parse_string_length(s.skip(m)), m),
        parse_string_length(s).1.len() <= s.len(),
{
    lemma_cut(s, m);
    if s.len() > m && s.last() == "["@ {
        let r = s.drop_last();
        lemma_leaves_cut(r, m, "]"@);
        let l = parse_literal(r);
        if m <= l.1.len() {
            lemma_leaves_cut(l.1, m, "]"@);
        }
    }
}

proof fn lemma_list_length_cut(s: Seq<Seq<char>>, m: int)
    requires
        1 <= m <= s.len(),
    ensures
        agrees_cut(parse_list_length(s), parse_list_length(s.skip(m)), m),
        parse_list_length(s).1.len() <= s.len(),
{
    lemma_cut(s, m);
    if s.len() > m && s.last() == ";"@ {
        let r = s.drop_last();
        lemma_cut(r, m);
    }
}

proof fn lemma_base_type_cut(s: Seq<Seq<char>>, m: int)
    requires
        1 <= m <= s.len(),
    ensures
        agrees_cut(parse_base_type(s), parse_base_type(s.skip(m)), m),
    decreases s.len(), 0nat,
{
    lemma_cut(s, m);
    lemma_base_type_shrinks(s);
    let r = s.drop_last();
    let t = s.last();
    if t == "String"@ {
        lemma_string_length_shrinks(r);
        if s.len() > m {
            lemma_string_length_cut(r, m);
        }
    } else if t == "List"@ {
        let o = expect_token(r, "["@);
        lemma_type_shrinks(o.1);
        let e = parse_type(o.1);
        lemma_list_length_shrinks(e.1);
        let l = parse_list_length(e.1);
        if s.len() > m {
            lemma_leaves_cut(r, m, "["@);
            if m <= o.1.len() {
                lemma_type_cut(o.1, m);
                if m <= e.1.len() {
                    lemma_list_length_cut(e.1, m);
                    if m <= l.1.len() {
                        lemma_leaves_cut(l.1, m, "]"@);
                    }
                }
            }
        }
    }
}

proof fn lemma_string_length_shrinks(s: Seq<Seq<char>>)
    ensures
        parse_string_length(s).1.len() <= s.len(),
{
}

proof fn lemma_type_cut(s: Seq<Seq<char>>, m: int)
    requires
        1 <= m <= s.len(),
    ensures
        agrees_cut(parse_type(s), parse_type(s.skip(m)), m),
    decreases s.len(), 1nat,
{
    lemma_base_type_cut(s, m);
    let b = parse_base_type(s);
    crate::base::lemma_base_type_shrinks(s);
    if m <= b.1.len() {
        lemma_leaves_cut(b.1, m, "]"@);
    }
}

proof fn lemma_value_cut(s: Seq<Seq<char>>, m: int)
    requires
        1 <= m <= s.len(),
    ensures
        agrees_cut(parse_value(s), parse_value(s.skip(m)), m),
        parse_value(s).1.len() <= s.len(),
{
    lemma_cut(s, m);
    lemma_leaves_cut(s, m, "("@);
    if s.len() > m {
        let r = s.drop_last();
        lemma_leaves_cut(r, m, "("@);
        let o = expect_token(r, "("@);
        if m <= o.1.len() {
            lemma_leaves_cut(o.1, m, "("@);
            let n = parse_identifier(o.1);
            if m <= n.1.len() {
                lemma_leaves_cut(n.1, m, ")"@);
            }
        }
    }
}

proof fn lemma_field_cut(s: Seq<Seq<char>>, m: int)
    requires
        1 <= m <= s.len(),
    ensures
        agrees_cut(parse_field(s), parse_field(s.skip(m)), m),
{
    lemma_type_cut(s, m);
    lemma_type_shrinks(s);
    let t = parse_type(s);
    if m <= t.1.len() {
        lemma_leaves_cut(t.1, m, "="@);
        let n = parse_identifier(t.1);
        if m <= n.1.len() {
            lemma_cut(n.1, m);
            if m < n.1.len() {
                lemma_value_cut(n.1.drop_last(), m);
            }
        }
    }
}

proof fn lemma_condition_cut(s: Seq<Seq<char>>, m: int, depth: nat, acc: Seq<char>)
    requires
        1 <= m <= s.len(),
    ensures
        condition_from(s, depth, acc).1.len() >= m ==> condition_from(s.skip(m), depth, acc) == (
            condition_from(s, depth, acc).0,
            condition_from(s, depth, acc).1.skip(m),
        ),
        condition_from(s, depth, acc).1.len() < m ==> condition_from(s.skip(m), depth, acc).1.len()
            == 0,
    decreases s.len(),
{
    lemma_cut(s, m);
    if depth > 0 {
        let t = s.last();
        let rest = s.drop_last();
        let (d2, a2) = if t == "("@ {
            (depth + 1, acc)
        } else if t == ")"@ {
            ((depth - 1) as nat, acc)
        } else {
            (
                depth,
                if acc.len() == 0 {
                    t
                } else {
                    acc + " "@ + t
                },
            )
        };
        lemma_condition_shrinks(rest, d2, a2);
        assert(condition_from(s, depth, acc) == condition_from(rest, d2, a2));
        if s.len() > m {
            lemma_condition_cut(rest, m, d2, a2);
            assert(condition_from(s.skip(m), depth, acc) == condition_from(rest.skip(m), d2, a2));
        }
    }
}

proof fn lemma_field_list_cut(s: Seq<Seq<char>>, m: int, conds: Seq<Seq<char>>, acc: Seq<FieldView>)
    requires
        1 <= m <= s.len(),
    ensures
        agrees_cut(field_list_from(s, conds, acc), field_list_from(s.skip(m), conds, acc), m),
    decreases s.len(), 1nat,
{
    let t = s.last();
    if t == "}"@ {
        lemma_field_list_cut_close(s, m, conds, acc);
    } else if t == "if"@ {
        lemma_field_list_cut_block(s, m, conds, acc);
    } else {
        lemma_field_list_cut_field(s, m, conds, acc);
    }
}

proof fn lemma_field_list_at_end(ts: Seq<Seq<char>>, conds: Seq<Seq<char>>, acc: Seq<FieldView>)
    requires
        ts.len() == 0,
    ensures
        field_list_from(ts, conds, acc).1.len() == 0,
        field_list_from(ts, conds, acc).0 is Ok || field_list_from(ts, conds, acc).0 == Err::<
            Seq<FieldView>,
            ErrorView,
        >(ErrorView::EndOfFile),
{
}

proof fn lemma_field_list_cut_close(s: Seq<Seq<char>>, m: int, conds: Seq<Seq<char>>, acc: Seq<FieldView>)
    requires
        1 <= m <= s.len(),
        s.last() == "}"@,
    ensures
        agrees_cut(field_list_from(s, conds, acc), field_list_from(s.skip(m), conds, acc), m),
    decreases s.len(), 0nat,
{
    lemma_cut(s, m);
    let rest = s.drop_last();
    if conds.len() > 0 {
        lemma_field_list_shrinks(rest, conds.drop_last(), acc);
        if s.len() > m {
            lemma_field_list_cut(rest, m, conds.drop_last(), acc);
        }
    }
}

proof fn lemma_field_list_cut_block(s: Seq<Seq<char>>, m: int, conds: Seq<Seq<char>>, acc: Seq<FieldView>)
    requires
        1 <= m <= s.len(),
        s.last() == "if"@,
    ensures
        agrees_cut(field_list_from(s, conds, acc), field_list_from(s.skip(m), conds, acc), m),
    decreases s.len(), 0nat,
{
    lemma_cut(s, m);
    reveal_strlit("if");
    reveal_strlit("}");
    assert("if"@.len() != "}"@.len());
    let rest = s.drop_last();
    let o = expect_token(rest, "("@);
    lemma_condition_shrinks(o.1, 1, seq![]);
    let c = condition_from(o.1, 1, seq![]);
    let b = expect_token(c.1, "{"@);
    lemma_field_list_shrinks(b.1, conds.push(c.0), acc);
    if s.len() > m {
        lemma_leaves_cut(rest, m, "("@);
        if m <= o.1.len() {
            lemma_condition_cut(o.1, m, 1, seq![]);
            if m <= c.1.len() {
                lemma_leaves_cut(c.1, m, "{"@);
                if m <= b.1.len() {
                    lemma_field_list_cut(b.1, m, conds.push(c.0), acc);
                }
            }
        }
        let ot = expect_token(rest.skip(m), "("@);
        let ct = condition_from(ot.1, 1, seq![]);
        let bt = expect_token(ct.1, "{"@);
        lemma_condition_shrinks(ot.1, 1, seq![]);
        if bt.1.len() == 0 {
            lemma_field_list_at_end(bt.1, conds.push(ct.0), acc);
        }
    }
}

proof fn lemma_field_list_cut_field(s: Seq<Seq<char>>, m: int, conds: Seq<Seq<char>>, acc: Seq<FieldView>)
    requires
        1 <= m <= s.len(),
        s.last() != "}"@,
        s.last() != "if"@,
    ensures
        agrees_cut(field_list_from(s, conds, acc), field_list_from(s.skip(m), conds, acc), m),
    decreases s.len(), 0nat,
{
    lemma_cut(s, m);
    lemma_field_shrinks(s);
    let f = parse_field(s);
    let fv = f.0->Ok_0;
    let acc2 = acc.push(FieldView { ty: fv.ty, name: fv.name, value: fv.value, conditions: conds });
    lemma_field_list_shrinks(f.1, conds, acc2);
    lemma_field_cut(s, m);
    if f.0 is Ok && m <= f.1.len() {
        lemma_field_list_cut(f.1, m, conds, acc2);
    }
    let ft = parse_field(s.skip(m));
    if ft.1.len() == 0 {
        let fvt = ft.0->Ok_0;
        lemma_field_list_at_end(
            ft.1,
            conds,
            acc.push(FieldView { ty: fvt.ty, name: fvt.name, value: fvt.value, conditions: conds }),
        );
    }
}

proof fn lemma_body_cut(x: Seq<Seq<char>>, m: int, name: Seq<char>, direction: Direction, state: Seq<char>, id: nat)
    requires
        packet_body(x, name, direction, state, id).0 is Ok,
        packet_body(x, name, direction, state, id).1.len() == 0,
        1 <= m <= x.len(),
    ensures
        packet_body(x.skip(m), name, direction, state, id).0 == Err::<PacketView, ErrorView>(
            ErrorView::EndOfFile,
        ),
{
    let c = expect_token(x, ")"@);
    let b = expect_token(c.1, "{"@);
    lemma_field_list_shrinks(b.1, seq![], seq![]);
    lemma_leaves_cut(x, m, ")"@);
    if m <= c.1.len() {
        lemma_leaves_cut(c.1, m, "{"@);
        if m <= b.1.len() {
            lemma_field_list_cut(b.1, m, seq![], seq![]);
        }
    }
    let ct = expect_token(x.skip(m), ")"@);
    let bt = expect_token(ct.1, "{"@);
    if bt.1.len() == 0 {
        lemma_field_list_at_end(bt.1, seq![], seq![]);
    }
}

/// A packet cut short anywhere fails for want of tokens: where a whole
/// description of a packet parses and uses up the stack, taking away its
/// bottom `m` tokens (the end of its text) leaves a stack on which the packet
/// rule reports an unexpected end, never another error or a shorter packet.
pub proof fn lemma_truncated_packet(ts: Seq<Seq<char>>, m: int)
    requires
        parse_packet(ts).0 is Ok,
        parse_packet(ts).1.len() == 0,
        1 <= m <= ts.len(),
    ensures
        parse_packet(ts.skip(m)).0 == Err::<PacketView, ErrorView>(ErrorView::EndOfFile),
{
    let k = expect_token(ts, "packet"@);
    let n = parse_identifier(k.1);
    let o = expect_token(n.1, "("@);
    let d = parse_direction(o.1);
    let c1 = expect_token(d.1, ","@);
    let st = parse_identifier(c1.1);
    let c2 = expect_token(st.1, ","@);
    let i = parse_packet_id(c2.1);
    lemma_leaves_cut(ts, m, "packet"@);
    if m <= k.1.len() {
        lemma_leaves_cut(k.1, m, "("@);
        if m <= n.1.len() {
            lemma_leaves_cut(n.1, m, "("@);
            if m <= o.1.len() {
                lemma_leaves_cut(o.1, m, ","@);
                if m <= d.1.len() {
                    lemma_leaves_cut(d.1, m, ","@);
                    if m <= c1.1.len() {
                        lemma_leaves_cut(c1.1, m, ","@);
                        if m <= st.1.len() {
                            lemma_leaves_cut(st.1, m, ","@);
                            if m <= c2.1.len() {
                                lemma_leaves_cut(c2.1, m, ")"@);
                                if m <= i.1.len() {
                                    lemma_body_cut(i.1, m, n.0->Ok_0, d.0->Ok_0, st.0->Ok_0, i.0->Ok_0);
                                }
                            }
                        }
                    }
                }
            }
        }
    }
}

} // verus!
