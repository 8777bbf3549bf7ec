//! Packets: named messages with a direction, a protocol state, a numeric id
//! and fields.

use vstd::prelude::*;
use crate::base::{lemma_field_list_shrinks, parse_field_list, FieldList, FieldView};
use crate::number::{parse_u32, unsigned_value};
use crate::parse::{
    expect, expect_token, fail, invalid, outcome, parse_identifier, pop_token, same, stack,
    take_token, ErrorView, Parse, Identifier, ParseError, Parsed,
};

verus! {

/// Which way a packet travels.
#[derive(Debug, Clone, Copy, PartialEq, Eq, Hash, Structural)]
pub enum Direction {
    /// From the client to the server.
    Serverbound,
    /// From the server to the client.
    Clientbound,
}

impl View for Direction {
    type V = Direction;

    open spec fn view(&self) -> Direction {
        *self
    }
}

/// The direction rule: `serverbound` or `clientbound`.
pub open spec fn parse_direction(ts: Seq<Seq<char>>) -> Parsed<Direction> {
    if ts.len() == 0 {
        (Err(ErrorView::EndOfFile), ts)
    } else if ts.last() == "serverbound"@ {
        (Ok(Direction::Serverbound), ts.drop_last())
    } else if ts.last() == "clientbound"@ {
        (Ok(Direction::Clientbound), ts.drop_last())
    } else {
        (
            Err(ErrorView::InvalidToken { token: ts.last(), error: "Invalid direction"@ }),
            ts.drop_last(),
        )
    }
}

impl Direction {
    /// Takes a direction from the stack.
    pub fn parse(tokens: &mut Vec<String>) -> (r: Result<Direction, ParseError>)
        ensures
            outcome(r, final(tokens)) == parse_direction(stack(old(tokens))),
    {
        let token = pop_token(tokens)?;
        if same(&token, "serverbound") {
            Ok(Direction::Serverbound)
        } else if same(&token, "clientbound") {
            Ok(Direction::Clientbound)
        } else {
            Err(invalid(token, "Invalid direction"))
        }
    }
}

/// The packet id: an unsigned integer literal that fits 32 bits.
pub open spec fn parse_packet_id(ts: Seq<Seq<char>>) -> Parsed<nat> {
    let t = take_token(ts);
    if t.0 is Err {
        fail(t)
    } else {
        match unsigned_value(t.0->Ok_0, u32::MAX as int) {
            Some(v) => (Ok(v as nat), t.1),
            None => (
                Err(ErrorView::InvalidToken { token: t.0->Ok_0, error: "Invalid packet id"@ }),
                t.1,
            ),
        }
    }
}

/// A packet.
#[derive(Debug, PartialEq)]
pub struct Packet {
    pub name: Identifier,
    pub direction: Direction,
    /// The protocol state that the packet belongs to.
    pub state: Identifier,
    pub id: u32,
    pub fields: FieldList,
}

pub struct PacketView {
    pub name: Seq<char>,
    pub direction: Direction,
    pub state: Seq<char>,
    pub id: nat,
    pub fields: Seq<FieldView>,
}

impl View for Packet {
    type V = PacketView;

    open spec fn view(&self) -> PacketView {
        PacketView {
            name: self.name@,
            direction: self.direction,
            state: self.state@,
            id: self.id as nat,
            fields: self.fields@,
        }
    }
}

/// The packet rule:
/// `packet name ( direction , state , id ) { fields }`.
pub open spec fn parse_packet(ts: Seq<Seq<char>>) -> Parsed<PacketView> {
    let k = expect_token(ts, "packet"@);
    if k.0 is Err {
        fail(k)
    } else {
        let n = parse_identifier(k.1);
        if n.0 is Err {
            fail(n)
        } else {
            let o = expect_token(n.1, "("@);
            if o.0 is Err {
                fail(o)
            } else {
                let d = parse_direction(o.1);
                if d.0 is Err {
                    fail(d)
                } else {
                    let c1 = expect_token(d.1, ","@);
                    if c1.0 is Err {
                        fail(c1)
                    } else {
                        let s = parse_identifier(c1.1);
                        if s.0 is Err {
                            fail(s)
                        } else {
                            let c2 = expect_token(s.1, ","@);
                            if c2.0 is Err {
                                fail(c2)
                            } else {
                                let i = parse_packet_id(c2.1);
                                if i.0 is Err {
                                    fail(i)
                                } else {
                                    packet_body(i.1, n.0->Ok_0, d.0->Ok_0, s.0->Ok_0, i.0->Ok_0)
                                }
                            }
                        }
                    }
                }
            }
        }
    }
}

/// The rest of the packet rule, after its id: `) { fields }`.
pub open spec fn packet_body(
    ts: Seq<Seq<char>>,
    name: Seq<char>,
    direction: Direction,
    state: Seq<char>,
    id: nat,
) -> Parsed<PacketView> {
    let c = expect_token(ts, ")"@);
    if c.0 is Err {
        fail(c)
    } else {
        let o = expect_token(c.1, "{"@);
        if o.0 is Err {
            fail(o)
        } else {
            let f = parse_field_list(o.1);
            if f.0 is Err {
                fail(f)
            } else {
                let e = expect_token(f.1, "}"@);
                if e.0 is Err {
                    fail(e)
                } else {
                    (Ok(PacketView { name, direction, state, id, fields: f.0->Ok_0 }), e.1)
                }
            }
        }
    }
}

/// The packet rule never grows the stack, and takes a token where it succeeds.
pub proof fn lemma_packet_shrinks(ts: Seq<Seq<char>>)
    ensures
        parse_packet(ts).1.len() <= ts.len(),
        parse_packet(ts).0 is Ok ==> parse_packet(ts).1.len() < ts.len(),
{
    let k = expect_token(ts, "packet"@);
    let n = parse_identifier(k.1);
    let o = expect_token(n.1, "("@);
    let d = parse_direction(o.1);
    let c1 = expect_token(d.1, ","@);
    let s = parse_identifier(c1.1);
    let c2 = expect_token(s.1, ","@);
    let i = parse_packet_id(c2.1);
    let c = expect_token(i.1, ")"@);
    let b = expect_token(c.1, "{"@);
    lemma_field_list_shrinks(b.1, seq![], seq![]);
}

impl Packet {
    /// Takes a packet from the stack.
    pub fn parse(tokens: &mut Vec<String>) -> (r: Result<Packet, ParseError>)
        ensures
            outcome(r, final(tokens)) == parse_packet(stack(old(tokens))),
    {
        expect(tokens, "packet")?;
        let name = Identifier::parse(tokens)?;
        expect(tokens, "(")?;
        let direction = Direction::parse(tokens)?;
        expect(tokens, ",")?;
        let state = Identifier::parse(tokens)?;
        expect(tokens, ",")?;
        let token = pop_token(tokens)?;
        let id = match parse_u32(token.as_str()) {
            Some(v) => v,
            None => {
                return Err(invalid(token, "Invalid packet id"));
            },
        };
        expect(tokens, ")")?;
        expect(tokens, "{")?;
        let fields = FieldList::parse(tokens)?;
        expect(tokens, "}")?;
        Ok(Packet { name, direction, state, id, fields })
    }
}

impl Parse for Direction {
    fn parse(tokens: &mut Vec<String>) -> Result<Direction, ParseError> {
        Direction::parse(tokens)
    }
}

impl Parse for Packet {
    fn parse(tokens: &mut Vec<String>) -> Result<Packet, ParseError> {
        Packet::parse(tokens)
    }
}

} // verus!
