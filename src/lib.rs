//! Parsing of protocol descriptions: enumerations, composite types and
//! packets, from source text to a typed tree.

pub mod base;
pub mod closing;
pub mod enums;
pub mod number;
pub mod packets;
pub mod parse;
pub mod tokenize;
pub mod types;

use vstd::prelude::*;
use crate::enums::{lemma_enum_resolved, parse_enum, Enum, EnumView};
use crate::packets::{lemma_packet_shrinks, parse_packet, Packet, PacketView};
use crate::parse::{fail, invalid, next_is, outcome, stack, ErrorView, Parse, ParseError, Parsed};
use crate::types::{lemma_custom_type_shrinks, parse_custom_type, CustomType, CustomTypeView};

verus! {

/// A whole description: its enumerations, composite types and packets, each
/// kind in the order in which it stands.
#[derive(Debug, PartialEq)]
pub struct Protocol {
    pub enums: Vec<Enum>,
    pub types: Vec<CustomType>,
    pub packets: Vec<Packet>,
}

pub struct ProtocolView {
    pub enums: Seq<EnumView>,
    pub types: Seq<CustomTypeView>,
    pub packets: Seq<PacketView>,
}

/// The declarations of a description as plain values.
pub open spec fn declarations_view(enums: Seq<Enum>, types: Seq<CustomType>, packets: Seq<Packet>) -> ProtocolView {
    ProtocolView {
        enums: Seq::new(enums.len(), |i: int| enums[i]@),
        types: Seq::new(types.len(), |i: int| types[i]@),
        packets: Seq::new(packets.len(), |i: int| packets[i]@),
    }
}

impl View for Protocol {
    type V = ProtocolView;

    open spec fn view(&self) -> ProtocolView {
        declarations_view(self.enums@, self.types@, self.packets@)
    }
}

/// The description rule, from the point where `acc` holds the declarations
/// read so far: declarations up to the end of the tokens, each chosen by its
/// keyword.
pub open spec fn protocol_from(ts: Seq<Seq<char>>, acc: ProtocolView) -> Parsed<ProtocolView>
    decreases ts.len(),
{
    if ts.len() == 0 {
        (Ok(acc), ts)
    } else if ts.last() == "enum"@ {
        let d = parse_enum(ts);
        if d.0 is Err {
            fail(d)
        } else {
            proof {
                lemma_enum_resolved(ts);
            }
            protocol_from(d.1, ProtocolView { enums: acc.enums.push(d.0->Ok_0), ..acc })
        }
    } else if ts.last() == "type"@ {
        let d = parse_custom_type(ts);
        if d.0 is Err {
            fail(d)
        } else {
            proof {
                lemma_custom_type_shrinks(ts);
            }
            protocol_from(d.1, ProtocolView { types: acc.types.push(d.0->Ok_0), ..acc })
        }
    } else if ts.last() == "packet"@ {
        let d = parse_packet(ts);
        if d.0 is Err {
            fail(d)
        } else {
            proof {
                lemma_packet_shrinks(ts);
            }
            protocol_from(d.1, ProtocolView { packets: acc.packets.push(d.0->Ok_0), ..acc })
        }
    } else {
        (
            Err(
                ErrorView::InvalidToken {
                    token: ts.last(),
                    error: "Expected \"enum\", \"type\" or \"packet\""@,
                },
            ),
            ts,
        )
    }
}

/// The description rule.
pub open spec fn parse_protocol(ts: Seq<Seq<char>>) -> Parsed<ProtocolView> {
    protocol_from(ts, ProtocolView { enums: seq![], types: seq![], packets: seq![] })
}

/// A description that parses uses up every token.
pub proof fn lemma_protocol_consumes_all(ts: Seq<Seq<char>>, acc: ProtocolView)
    ensures
        protocol_from(ts, acc).0 is Ok ==> protocol_from(ts, acc).1.len() == 0,
    decreases ts.len(),
{
    if ts.len() > 0 {
        if ts.last() == "enum"@ {
            let d = parse_enum(ts);
            lemma_enum_resolved(ts);
            if d.0 is Ok {
                lemma_protocol_consumes_all(d.1, ProtocolView { enums: acc.enums.push(d.0->Ok_0), ..acc });
            }
        } else if ts.last() == "type"@ {
            let d = parse_custom_type(ts);
            lemma_custom_type_shrinks(ts);
            if d.0 is Ok {
                lemma_protocol_consumes_all(d.1, ProtocolView { types: acc.types.push(d.0->Ok_0), ..acc });
            }
        } else if ts.last() == "packet"@ {
            let d = parse_packet(ts);
            lemma_packet_shrinks(ts);
            if d.0 is Ok {
                lemma_protocol_consumes_all(
                    d.1,
                    ProtocolView { packets: acc.packets.push(d.0->Ok_0), ..acc },
                );
            }
        }
    }
}

impl Protocol {
    /// Parses a whole description from the stack.
    pub fn parse(tokens: &mut Vec<String>) -> (r: Result<Protocol, ParseError>)
        ensures
            outcome(r, final(tokens)) == parse_protocol(stack(old(tokens))),
            r is Ok ==> final(tokens)@.len() == 0,
    {
        let mut enums: Vec<Enum> = Vec::new();
        let mut types: Vec<CustomType> = Vec::new();
        let mut packets: Vec<Packet> = Vec::new();
        proof {
            lemma_protocol_consumes_all(stack(tokens), ProtocolView { enums: seq![], types: seq![], packets: seq![] });
            assert(declarations_view(enums@, types@, packets@).enums =~= seq![]);
            assert(declarations_view(enums@, types@, packets@).types =~= seq![]);
            assert(declarations_view(enums@, types@, packets@).packets =~= seq![]);
        }
        loop
            invariant
                protocol_from(stack(tokens), declarations_view(enums@, types@, packets@))
                    == parse_protocol(stack(old(tokens))),
            decreases stack(tokens).len(),
        {
            let ghost ts = stack(tokens);
            let ghost acc = declarations_view(enums@, types@, packets@);
            if tokens.len() == 0 {
                return Ok(Protocol { enums, types, packets });
            }
            if next_is(tokens, "enum") {
                proof {
                    lemma_enum_resolved(ts);
                }
                let d = Enum::parse(tokens)?;
                enums.push(d);
                assert(declarations_view(enums@, types@, packets@).enums =~= acc.enums.push(d@));
                assert(declarations_view(enums@, types@, packets@) == ProtocolView { enums: acc.enums.push(d@), ..acc });
            } else if next_is(tokens, "type") {
                proof {
                    lemma_custom_type_shrinks(ts);
                }
                let d = CustomType::parse(tokens)?;
                types.push(d);
                assert(declarations_view(enums@, types@, packets@).types =~= acc.types.push(d@));
                assert(declarations_view(enums@, types@, packets@) == ProtocolView { types: acc.types.push(d@), ..acc });
            } else if next_is(tokens, "packet") {
                proof {
                    lemma_packet_shrinks(ts);
                }
                let d = Packet::parse(tokens)?;
                packets.push(d);
                assert(declarations_view(enums@, types@, packets@).packets =~= acc.packets.push(d@));
                assert(declarations_view(enums@, types@, packets@) == ProtocolView { packets: acc.packets.push(d@), ..acc });
            } else {
                let n = tokens.len();
                let token = tokens[n - 1].clone();
                return Err(invalid(token, "Expected \"enum\", \"type\" or \"packet\""));
            }
        }
    }
}

impl Parse for Protocol {
    fn parse(tokens: &mut Vec<String>) -> Result<Protocol, ParseError> {
        Protocol::parse(tokens)
    }
}

} // verus!
