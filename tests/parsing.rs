use specmc_protocol::base::{BaseType, Field, FieldList, IntegerType, Value};
use specmc_protocol::enums::{Enum, Variant};
use specmc_protocol::packets::{Direction, Packet};
use specmc_protocol::parse::{Identifier, Literal, ParseError};
use specmc_protocol::tokenize::tokenize;
use specmc_protocol::types::{CustomType, Type};
use specmc_protocol::Protocol;

fn tokens_of(input: &str) -> Vec<String> {
    let mut tokens: Vec<String> = tokenize(input);
    tokens.reverse();
    tokens
}

fn ident(name: &str) -> Identifier {
    Identifier(name.to_string())
}

fn field(ty: Type, name: &str, value: Option<Value>, conditions: Vec<&str>) -> Field {
    Field {
        ty,
        name: ident(name),
        value,
        conditions: conditions.into_iter().map(|c| c.to_string()).collect(),
    }
}

fn int_type(t: IntegerType) -> Type {
    Type::BaseType(BaseType::Integer(t))
}

fn invalid_token(token: &str, error: &str) -> ParseError {
    ParseError::InvalidToken {
        token: token.to_string(),
        error: error.to_string(),
    }
}

#[test]
fn test_integer_type() {
    let mut tokens = tokens_of("u8 u16 u32 u64 i8 i16 i32 i64 VarInt VarLong Unknown");

    assert_eq!(IntegerType::parse(&mut tokens), Ok(IntegerType::U8));
    assert_eq!(IntegerType::parse(&mut tokens), Ok(IntegerType::U16));
    assert_eq!(IntegerType::parse(&mut tokens), Ok(IntegerType::U32));
    assert_eq!(IntegerType::parse(&mut tokens), Ok(IntegerType::U64));
    assert_eq!(IntegerType::parse(&mut tokens), Ok(IntegerType::I8));
    assert_eq!(IntegerType::parse(&mut tokens), Ok(IntegerType::I16));
    assert_eq!(IntegerType::parse(&mut tokens), Ok(IntegerType::I32));
    assert_eq!(IntegerType::parse(&mut tokens), Ok(IntegerType::I64));
    assert_eq!(IntegerType::parse(&mut tokens), Ok(IntegerType::VarInt));
    assert_eq!(IntegerType::parse(&mut tokens), Ok(IntegerType::VarLong));

    assert_eq!(
        IntegerType::parse(&mut tokens),
        Err(invalid_token("Unknown", "Invalid integer type"))
    );
    assert_eq!(tokens.pop().unwrap(), "Unknown");
    assert!(tokens.is_empty());
    assert_eq!(IntegerType::parse(&mut tokens), Err(ParseError::EndOfFile));
}

#[test]
fn test_base_type() {
    let mut tokens =
        tokens_of("bool VarInt f32 f64 String String[42] List[i32] List[u8; 42] Nbt Unknown");

    assert_eq!(BaseType::parse(&mut tokens), Ok(BaseType::Bool));
    assert_eq!(BaseType::parse(&mut tokens), Ok(BaseType::Integer(IntegerType::VarInt)));
    assert_eq!(BaseType::parse(&mut tokens), Ok(BaseType::F32));
    assert_eq!(BaseType::parse(&mut tokens), Ok(BaseType::F64));
    assert_eq!(BaseType::parse(&mut tokens), Ok(BaseType::String { length: None }));
    assert_eq!(BaseType::parse(&mut tokens), Ok(BaseType::String { length: Some(42) }));
    assert_eq!(
        BaseType::parse(&mut tokens),
        Ok(BaseType::List {
            ty: Box::new(int_type(IntegerType::I32)),
            length: None,
        })
    );
    assert_eq!(
        BaseType::parse(&mut tokens),
        Ok(BaseType::List {
            ty: Box::new(int_type(IntegerType::U8)),
            length: Some(42),
        })
    );
    assert_eq!(BaseType::parse(&mut tokens), Ok(BaseType::Nbt));

    assert_eq!(
        BaseType::parse(&mut tokens),
        Err(invalid_token("Unknown", "Invalid type"))
    );
    assert_eq!(tokens.pop().unwrap(), "Unknown");
    assert!(tokens.is_empty());
    assert_eq!(BaseType::parse(&mut tokens), Err(ParseError::EndOfFile));
}

#[test]
fn test_value() {
    let mut tokens = tokens_of("len(iden) 42.0 iden");

    assert_eq!(Value::parse(&mut tokens), Ok(Value::Length(ident("iden"))));
    assert_eq!(
        Value::parse(&mut tokens),
        Ok(Value::Literal(Literal::Float("42.0".to_string())))
    );
    assert_eq!(Value::parse(&mut tokens), Ok(Value::Identifier(ident("iden"))));

    assert!(tokens.is_empty());
    assert_eq!(Value::parse(&mut tokens), Err(ParseError::EndOfFile));
}

#[test]
fn test_field() {
    let mut tokens = tokens_of(
        "
        i32 first_field
        Nbt second_field = 42.0
        i64 third_field = len(list)
        List[i32] list
        ",
    );

    assert_eq!(
        Field::parse(&mut tokens),
        Ok(field(int_type(IntegerType::I32), "first_field", None, vec![]))
    );
    assert_eq!(
        Field::parse(&mut tokens),
        Ok(field(
            Type::BaseType(BaseType::Nbt),
            "second_field",
            Some(Value::Literal(Literal::Float("42.0".to_string()))),
            vec![]
        ))
    );
    assert_eq!(
        Field::parse(&mut tokens),
        Ok(field(
            int_type(IntegerType::I64),
            "third_field",
            Some(Value::Length(ident("list"))),
            vec![]
        ))
    );
    assert_eq!(
        Field::parse(&mut tokens),
        Ok(field(
            Type::BaseType(BaseType::List {
                ty: Box::new(int_type(IntegerType::I32)),
                length: None
            }),
            "list",
            None,
            vec![]
        ))
    );

    assert!(tokens.is_empty());
    assert_eq!(Field::parse(&mut tokens), Err(ParseError::EndOfFile));
}

#[test]
fn test_field_list() {
    let mut tokens = tokens_of(
        "
        bool cond
        if (cond) {
            i32 number
        }
        if (!cond) {
            u64 other
        }
        ",
    );

    assert_eq!(
        FieldList::parse(&mut tokens),
        Ok(FieldList(vec![
            field(Type::BaseType(BaseType::Bool), "cond", None, vec![]),
            field(int_type(IntegerType::I32), "number", None, vec!["cond"]),
            field(int_type(IntegerType::U64), "other", None, vec!["!cond"]),
        ]))
    );

    assert!(tokens.is_empty());
    assert_eq!(FieldList::parse(&mut tokens), Ok(FieldList(vec![])));
}

#[test]
fn test_variant() {
    let mut tokens = tokens_of("A = 42 B C = -123 D = 1.5");

    assert_eq!(
        Variant::parse(&mut tokens),
        Ok(Variant {
            name: ident("A"),
            value: Some(42),
        })
    );
    assert_eq!(
        Variant::parse(&mut tokens),
        Ok(Variant {
            name: ident("B"),
            value: None,
        })
    );
    assert_eq!(
        Variant::parse(&mut tokens),
        Ok(Variant {
            name: ident("C"),
            value: Some(-123),
        })
    );

    assert_eq!(
        Variant::parse(&mut tokens),
        Err(invalid_token("Float(1.5)", "Invalid variant value"))
    );
    assert!(tokens.is_empty());
    assert_eq!(Variant::parse(&mut tokens), Err(ParseError::EndOfFile));
}

#[test]
fn test_enum() {
    let mut tokens = tokens_of(
        "
        enum A(VarInt) {
            A = 42
            B
            C = -123
            D = 1
        }
        enum B(u8) {
            A = 254
            B
            C
        }
        enum C(i32) {
            A = 42
            B = 40
            C
            D
        }
        enum D(u64) {
            A = 42.0
        }
        ",
    );

    assert_eq!(
        Enum::parse(&mut tokens),
        Ok(Enum {
            name: ident("A"),
            ty: IntegerType::VarInt,
            variants: vec![
                Variant {
                    name: ident("A"),
                    value: Some(42),
                },
                Variant {
                    name: ident("B"),
                    value: Some(43),
                },
                Variant {
                    name: ident("C"),
                    value: Some(-123),
                },
                Variant {
                    name: ident("D"),
                    value: Some(1),
                },
            ]
        })
    );

    assert_eq!(
        Enum::parse(&mut tokens),
        Err(invalid_token("256", "Enum has incompatible type"))
    );
    assert!(tokens.pop().unwrap() == "}");
    assert_eq!(
        Enum::parse(&mut tokens),
        Err(invalid_token("42", "Enum has duplicate value"))
    );
    assert!(tokens.pop().unwrap() == "}");
    assert_eq!(
        Enum::parse(&mut tokens),
        Err(invalid_token("Float(42.0)", "Invalid variant value"))
    );
    assert!(tokens.pop().unwrap() == "}");
    assert!(tokens.is_empty());
    assert_eq!(Enum::parse(&mut tokens), Err(ParseError::EndOfFile));
}

#[test]
fn test_direction() {
    let mut tokens = tokens_of("serverbound clientbound unknown");

    assert_eq!(Direction::parse(&mut tokens), Ok(Direction::Serverbound));
    assert_eq!(Direction::parse(&mut tokens), Ok(Direction::Clientbound));
    assert_eq!(
        Direction::parse(&mut tokens),
        Err(invalid_token("unknown", "Invalid direction"))
    );
    assert!(tokens.is_empty());
    assert_eq!(Direction::parse(&mut tokens), Err(ParseError::EndOfFile));
}

#[test]
fn test_packet() {
    let mut tokens = tokens_of(
        "
        packet TestPacket(serverbound, Play, 0x42) {
            i32 number
            String message
            bool flag
            if (flag) {
                i32 other
            }
            VarInt length = len(data)
            List[u8] data
        }
        packet MalformedPacket(serverbound, Play, 0x42) {
            i32 number
            String message
        ",
    );

    assert_eq!(
        Packet::parse(&mut tokens),
        Ok(Packet {
            name: ident("TestPacket"),
            direction: Direction::Serverbound,
            state: ident("Play"),
            id: 66,
            fields: FieldList(vec![
                field(int_type(IntegerType::I32), "number", None, vec![]),
                field(
                    Type::BaseType(BaseType::String { length: None }),
                    "message",
                    None,
                    vec![]
                ),
                field(Type::BaseType(BaseType::Bool), "flag", None, vec![]),
                field(int_type(IntegerType::I32), "other", None, vec!["flag"]),
                field(
                    int_type(IntegerType::VarInt),
                    "length",
                    Some(Value::Length(ident("data"))),
                    vec![]
                ),
                field(
                    Type::BaseType(BaseType::List {
                        ty: Box::new(int_type(IntegerType::U8)),
                        length: None
                    }),
                    "data",
                    None,
                    vec![]
                ),
            ])
        })
    );

    assert_eq!(Packet::parse(&mut tokens), Err(ParseError::EndOfFile));
    assert!(tokens.is_empty());
}

#[test]
fn test_type() {
    let mut tokens = tokens_of("bool i32 TestType");

    assert_eq!(Type::parse(&mut tokens), Ok(Type::BaseType(BaseType::Bool)));
    assert_eq!(Type::parse(&mut tokens), Ok(int_type(IntegerType::I32)));
    assert_eq!(Type::parse(&mut tokens), Ok(Type::CustomType(ident("TestType"))));

    assert!(tokens.is_empty());
    assert_eq!(Type::parse(&mut tokens), Err(ParseError::EndOfFile));
}

#[test]
fn test_custom_type() {
    let mut tokens = tokens_of(
        "
        type TestType {
            i32 a
            bool b
            if (b) {
                i32 c
            }
        }
        ",
    );

    assert_eq!(
        CustomType::parse(&mut tokens),
        Ok(CustomType {
            name: ident("TestType"),
            fields: FieldList(vec![
                field(int_type(IntegerType::I32), "a", None, vec![]),
                field(Type::BaseType(BaseType::Bool), "b", None, vec![]),
                field(int_type(IntegerType::I32), "c", None, vec!["b"]),
            ])
        })
    );

    assert!(tokens.is_empty());
    assert_eq!(CustomType::parse(&mut tokens), Err(ParseError::EndOfFile));
}

#[test]
fn protocol_collects_each_kind_and_uses_every_token() {
    let mut tokens = tokens_of(
        "
        enum TestEnum(i32) {}
        type TestType {
            String message
        }
        packet TestPacket(serverbound, Play, 0x42) {
            VarInt length = len(data)
            List[u8] data
            if (length > 0) {
                TestType message
            }
        }",
    );
    let protocol = Protocol::parse(&mut tokens).unwrap();
    assert!(tokens.is_empty());
    assert_eq!(
        protocol.enums,
        vec![Enum {
            name: ident("TestEnum"),
            ty: IntegerType::I32,
            variants: vec![],
        }]
    );
    assert_eq!(protocol.types.len(), 1);
    assert_eq!(protocol.types[0].name, ident("TestType"));
    assert_eq!(protocol.packets.len(), 1);
    let fields = &protocol.packets[0].fields.0;
    assert_eq!(fields.len(), 3);
    assert_eq!(fields[2].ty, Type::CustomType(ident("TestType")));
    assert_eq!(fields[2].conditions, vec!["length > 0".to_string()]);
}

#[test]
fn protocol_rejects_an_unknown_declaration() {
    let mut tokens = tokens_of("type A { } struct B { }");
    assert_eq!(
        Protocol::parse(&mut tokens),
        Err(invalid_token("struct", "Expected \"enum\", \"type\" or \"packet\""))
    );
}

#[test]
fn protocol_of_nothing_is_empty() {
    let mut tokens = tokens_of("  \n ");
    let protocol = Protocol::parse(&mut tokens).unwrap();
    assert!(protocol.enums.is_empty() && protocol.types.is_empty() && protocol.packets.is_empty());
}

#[test]
fn enum_counts_on_from_explicit_values() {
    let mut tokens = tokens_of("enum A(VarInt){ A=42 B C=-123 D }");
    let e = Enum::parse(&mut tokens).unwrap();
    let values: Vec<Option<isize>> = e.variants.iter().map(|v| v.value).collect();
    assert_eq!(values, vec![Some(42), Some(43), Some(-123), Some(-122)]);
}

#[test]
fn enum_rejects_a_repeated_implicit_value() {
    let mut tokens = tokens_of("enum E(u8) { A = 1 B = 0 C }");
    assert_eq!(
        Enum::parse(&mut tokens),
        Err(invalid_token("1", "Enum has duplicate value"))
    );
}

#[test]
fn enum_rejects_a_negative_value_for_unsigned() {
    let mut tokens = tokens_of("enum E(u16) { A = -1 }");
    assert_eq!(
        Enum::parse(&mut tokens),
        Err(invalid_token("-1", "Enum has incompatible type"))
    );
}

#[test]
fn enum_needs_its_opening_keyword() {
    let mut tokens = tokens_of("type E(u8) {}");
    assert_eq!(
        Enum::parse(&mut tokens),
        Err(invalid_token("type", "Expected enum"))
    );
}

#[test]
fn nested_blocks_carry_every_condition() {
    let mut tokens = tokens_of("if (a) { if (b == (c)) { i8 x } u8 y } bool z }");
    assert_eq!(
        FieldList::parse(&mut tokens),
        Ok(FieldList(vec![
            field(int_type(IntegerType::I8), "x", None, vec!["a", "b == c"]),
            field(int_type(IntegerType::U8), "y", None, vec!["a"]),
            field(Type::BaseType(BaseType::Bool), "z", None, vec![]),
        ]))
    );
    assert_eq!(tokens, vec!["}".to_string()]);
}

#[test]
fn field_list_fails_on_an_unclosed_block() {
    let mut tokens = tokens_of("if (a) { i32 x");
    assert_eq!(FieldList::parse(&mut tokens), Err(ParseError::EndOfFile));
    let mut tokens = tokens_of("if (a) { if (b) { i32 x } bool y");
    assert_eq!(FieldList::parse(&mut tokens), Err(ParseError::EndOfFile));
    let mut tokens = tokens_of("if (a) { i32 x } bool y");
    assert_eq!(
        FieldList::parse(&mut tokens),
        Ok(FieldList(vec![
            field(int_type(IntegerType::I32), "x", None, vec!["a"]),
            field(Type::BaseType(BaseType::Bool), "y", None, vec![]),
        ]))
    );
    assert!(tokens.is_empty());
}

#[test]
fn unclosed_block_runs_out_of_tokens() {
    let mut tokens = tokens_of("type T { if (a) { i8 x ");
    assert_eq!(CustomType::parse(&mut tokens), Err(ParseError::EndOfFile));
}

#[test]
fn packet_id_must_be_an_unsigned_integer() {
    let mut tokens = tokens_of("packet P(clientbound, Login, -1) {}");
    assert_eq!(
        Packet::parse(&mut tokens),
        Err(invalid_token("-1", "Invalid packet id"))
    );
    let mut tokens = tokens_of("packet P(clientbound, Login, 0x1_0000_0000) {}");
    assert_eq!(
        Packet::parse(&mut tokens),
        Err(invalid_token("0x1_0000_0000", "Invalid packet id"))
    );
    let mut tokens = tokens_of("packet P(clientbound, Login, 0b101) {}");
    assert_eq!(Packet::parse(&mut tokens).unwrap().id, 5);
}

#[test]
fn packet_rejects_an_unknown_direction() {
    let mut tokens = tokens_of("packet P(upward, Login, 1) {}");
    assert_eq!(
        Packet::parse(&mut tokens),
        Err(invalid_token("upward", "Invalid direction"))
    );
}

#[test]
fn list_length_must_be_an_unsigned_integer() {
    let mut tokens = tokens_of("List[u8; x]");
    assert_eq!(
        BaseType::parse(&mut tokens),
        Err(invalid_token("x", "Invalid list length"))
    );
    let mut tokens = tokens_of("String[1.5]");
    assert_eq!(
        BaseType::parse(&mut tokens),
        Err(invalid_token("Float(1.5)", "Invalid list length"))
    );
    let mut tokens = tokens_of("List[List[bool; 0o17]; 1_000]");
    assert_eq!(
        BaseType::parse(&mut tokens),
        Ok(BaseType::List {
            ty: Box::new(Type::BaseType(BaseType::List {
                ty: Box::new(Type::BaseType(BaseType::Bool)),
                length: Some(15),
            })),
            length: Some(1000),
        })
    );
}

#[test]
fn identifiers_are_checked() {
    let mut tokens = tokens_of("9lives");
    assert_eq!(
        Identifier::parse(&mut tokens),
        Err(invalid_token("9lives", "Identifiers must start with a letter"))
    );
    let mut tokens = tokens_of("bad-name");
    assert_eq!(
        Identifier::parse(&mut tokens),
        Err(invalid_token(
            "bad-name",
            "Identifiers can only contain letters, numbers, and underscores"
        ))
    );
    let mut tokens = vec![String::new()];
    assert_eq!(
        Identifier::parse(&mut tokens),
        Err(invalid_token("", "Empty identifier"))
    );
    let mut tokens = tokens_of("snake_Case_9");
    assert_eq!(Identifier::parse(&mut tokens), Ok(ident("snake_Case_9")));
}

#[test]
fn literals_read_integers_before_floats() {
    let mut tokens = tokens_of("-0x2A 1e3 inf 12 .5 nope 99999999999999999999");
    assert_eq!(Literal::parse(&mut tokens), Ok(Literal::Integer(-42)));
    assert_eq!(Literal::parse(&mut tokens), Ok(Literal::Float("1e3".to_string())));
    assert_eq!(Literal::parse(&mut tokens), Ok(Literal::Float("inf".to_string())));
    assert_eq!(Literal::parse(&mut tokens), Ok(Literal::Integer(12)));
    assert_eq!(Literal::parse(&mut tokens), Ok(Literal::Float(".5".to_string())));
    assert_eq!(
        Literal::parse(&mut tokens),
        Err(invalid_token("nope", "Invalid literal"))
    );
    assert_eq!(
        Literal::parse(&mut tokens),
        Ok(Literal::Float("99999999999999999999".to_string()))
    );
    assert_eq!(Literal::Integer(-7).describe(), "Integer(-7)");
}

#[test]
fn value_falls_back_to_a_name() {
    let mut tokens = tokens_of("other_field");
    assert_eq!(Value::parse(&mut tokens), Ok(Value::Identifier(ident("other_field"))));
    let mut tokens = tokens_of("-5");
    assert_eq!(Value::parse(&mut tokens), Ok(Value::Literal(Literal::Integer(-5))));
}

#[test]
fn packet_cut_anywhere_runs_out_of_tokens() {
    let toks = tokenize(
        "packet P(serverbound, Play, 0x42) {
            String[16] name = len(x)
            if (a == (b)) { List[u8; 4] data }
            i32 tail = 7
        }",
    );
    for k in 0..toks.len() {
        let mut tokens: Vec<String> = toks[..k].to_vec();
        tokens.reverse();
        assert_eq!(Packet::parse(&mut tokens), Err(ParseError::EndOfFile), "cut at {}", k);
    }
    let mut tokens: Vec<String> = toks.clone();
    tokens.reverse();
    assert!(Packet::parse(&mut tokens).is_ok());
}
