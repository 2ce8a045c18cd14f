use protogen::{parse, Object, ParseError, ProtoConfig, Protocol, Type};

fn sources(files: &[(&str, &str)]) -> Vec<(String, String)> {
    files.iter().map(|(n, t)| (n.to_string(), t.to_string())).collect()
}

fn parse_one(text: &str) -> Result<Protocol, ParseError> {
    parse("main.proto".to_string(), &sources(&[("main.proto", text)]))
}

fn field_names(t: &Type) -> Vec<String> {
    match t {
        Type::Aggregate(Object { fields }) => fields.iter().map(|f| f.0.clone()).collect(),
        _ => panic!("not an aggregate"),
    }
}

#[test]
fn config_block_overrides_some_fields() {
    let p = parse_one("config { message_id_bits: 16, category_bits: 8 }").unwrap();
    assert_eq!(
        p.config,
        ProtoConfig { message_id_bits: 16, category_bits: 8, method_bits: 8, array_length_bits: 16 }
    );
    assert_eq!(p.types.len(), 0);
    assert_eq!(p.categories.len(), 0);
}

#[test]
fn config_values_are_stored() {
    let p = parse_one("config { method_bits: 4 array_length_bits: 32, message_id_bits: 7 }").unwrap();
    assert_eq!(
        p.config,
        ProtoConfig { message_id_bits: 7, category_bits: 8, method_bits: 4, array_length_bits: 32 }
    );
}

#[test]
fn default_config_without_block() {
    let p = parse_one("").unwrap();
    assert_eq!(p.config, ProtoConfig::default());
    assert_eq!(p.config.message_id_bits, 16);
    assert_eq!(p.config.category_bits, 8);
    assert_eq!(p.config.method_bits, 8);
    assert_eq!(p.config.array_length_bits, 16);
}

#[test]
fn unknown_config_field_is_rejected() {
    match parse_one("config { colour_bits: 3 }") {
        Err(ParseError::Other(m)) => assert!(m.contains("colour_bits")),
        _ => panic!("expected an error"),
    }
}

#[test]
fn newtype_aggregate() {
    let p = parse_one("newtype Point = { x: i32, y: i32 };").unwrap();
    assert_eq!(
        p.types.get("Point"),
        Some(&Type::Aggregate(Object {
            fields: vec![("x".to_string(), Type::I32), ("y".to_string(), Type::I32)],
        }))
    );
    assert_eq!(p.types.len(), 1);
}

#[test]
fn aggregate_field_order_is_kept() {
    let p = parse_one("newtype R = { zeta: u8, alpha: u16, mid: Other, , last: f64, };").unwrap();
    assert_eq!(field_names(p.types.get("R").unwrap()), vec!["zeta", "alpha", "mid", "last"]);
}

#[test]
fn primitive_and_named_types() {
    let p = parse_one(
        "newtype A = i8; newtype B = u16; newtype C = f32; newtype D = u64; newtype E = Point;",
    )
    .unwrap();
    assert_eq!(p.types.get("A"), Some(&Type::I8));
    assert_eq!(p.types.get("B"), Some(&Type::U16));
    assert_eq!(p.types.get("C"), Some(&Type::F32));
    assert_eq!(p.types.get("D"), Some(&Type::U64));
    assert_eq!(p.types.get("E"), Some(&Type::NamedType("Point".to_string())));
}

#[test]
fn arrays_and_maps_nest() {
    let p = parse_one("newtype A = array<array<u8>>; newtype M = map<u8, array<map<i8, Name>>>;")
        .unwrap();
    assert_eq!(
        p.types.get("A"),
        Some(&Type::Array(Box::new(Type::Array(Box::new(Type::U8)))))
    );
    assert_eq!(
        p.types.get("M"),
        Some(&Type::Mapping(
            Box::new(Type::U8),
            Box::new(Type::Array(Box::new(Type::Mapping(
                Box::new(Type::I8),
                Box::new(Type::NamedType("Name".to_string())),
            )))),
        ))
    );
}

#[test]
fn category_with_method() {
    let p = parse_one("category Foo = 1 { method bar = 2 { admin } { } }").unwrap();
    let c = p.categories.get("Foo").unwrap();
    assert_eq!(c.id, 1);
    assert_eq!(c.methods.len(), 1);
    let m = c.methods.get("bar").unwrap();
    assert_eq!(m.id, 2);
    assert_eq!(m.attributes, vec!["admin".to_string()]);
    assert_eq!(m.properties.len(), 0);
    assert_eq!(m.comment, "");
}

#[test]
fn method_comments_and_properties() {
    let text = "category C = 3 {\n  method m = 4 { admin, auth } {\n    'Does a thing.\n    'Twice.\n    who = { { name: u8 } };\n    count = { u32 };\n  }\n}\n";
    let p = parse_one(text).unwrap();
    let m = p.categories.get("C").unwrap().methods.get("m").unwrap();
    assert_eq!(m.comment, "Does a thing.\nTwice.\n");
    assert_eq!(m.attributes, vec!["admin".to_string(), "auth".to_string()]);
    assert_eq!(
        m.properties.get("who"),
        Some(&Type::Aggregate(Object { fields: vec![("name".to_string(), Type::U8)] }))
    );
    assert_eq!(m.properties.get("count"), Some(&Type::U32));
}

#[test]
fn comment_after_property_is_rejected() {
    let text = "category C = 3 { method m = 4 { } { a = { u8 }; 'late\n } }";
    assert!(matches!(parse_one(text), Err(ParseError::UnexpectedToken(_))));
}

#[test]
fn include_merges_types() {
    let srcs = sources(&[
        ("main.proto", "include \"common.proto\";\nnewtype Own = u8;"),
        ("common.proto", "newtype Shared = u32;"),
    ]);
    let p = parse("main.proto".to_string(), &srcs).unwrap();
    assert_eq!(p.types.get("Shared"), Some(&Type::U32));
    assert_eq!(p.types.get("Own"), Some(&Type::U8));
}

#[test]
fn include_last_write_wins() {
    let srcs = sources(&[
        ("main.proto", "newtype T = u8; include \"b.proto\"; newtype U = u8;"),
        ("b.proto", "newtype T = i64; newtype U = i64;"),
    ]);
    let p = parse("main.proto".to_string(), &srcs).unwrap();
    assert_eq!(p.types.get("T"), Some(&Type::I64));
    assert_eq!(p.types.get("U"), Some(&Type::U8));
    assert_eq!(p.types.len(), 2);
}

#[test]
fn include_inside_category_adds_methods() {
    let srcs = sources(&[
        ("main.proto", "category C = 1 { method a = 1 { } { } include \"more.proto\"; }"),
        ("more.proto", "method b = 2 { } { }\nmethod a = 9 { } { }"),
    ]);
    let p = parse("main.proto".to_string(), &srcs).unwrap();
    let c = p.categories.get("C").unwrap();
    assert_eq!(c.methods.len(), 2);
    assert_eq!(c.methods.get("a").unwrap().id, 9);
    assert_eq!(c.methods.get("b").unwrap().id, 2);
}

#[test]
fn config_in_included_file_is_rejected() {
    let srcs = sources(&[
        ("main.proto", "include \"common.proto\";"),
        ("common.proto", "config { method_bits: 4 }\nnewtype Shared = u8;"),
    ]);
    match parse("main.proto".to_string(), &srcs) {
        Err(ParseError::Other(m)) => assert!(m.contains("config")),
        _ => panic!("expected a config error"),
    }
}

#[test]
fn config_later_in_included_file_is_rejected() {
    let srcs = sources(&[
        ("main.proto", "include \"common.proto\";"),
        ("common.proto", "newtype Shared = u8;\nconfig { method_bits: 4 }"),
    ]);
    assert!(matches!(
        parse("main.proto".to_string(), &srcs),
        Err(ParseError::UnexpectedToken(_))
    ));
}

#[test]
fn missing_closing_brace_is_unexpected_eof() {
    assert!(matches!(parse_one("newtype P = { x: i32"), Err(ParseError::UnexpectedEof(_))));
    assert!(matches!(
        parse_one("category Foo = 1 { method bar = 2 { admin } { }"),
        Err(ParseError::UnexpectedEof(_))
    ));
}

#[test]
fn unexpected_token_is_reported() {
    assert!(matches!(parse_one("newtype = u8;"), Err(ParseError::UnexpectedToken(_))));
    assert!(matches!(parse_one("method"), Err(ParseError::UnexpectedToken(_))));
}

#[test]
fn missing_file_is_named() {
    assert_eq!(
        parse("main.proto".to_string(), &Vec::new()).err(),
        Some(ParseError::MissingFile("main.proto".to_string()))
    );
    let srcs = sources(&[("main.proto", "include \"gone.proto\";")]);
    assert_eq!(
        parse("main.proto".to_string(), &srcs).err(),
        Some(ParseError::MissingFile("gone.proto".to_string()))
    );
}

#[test]
fn cyclic_include_is_rejected() {
    let srcs = sources(&[
        ("a.proto", "include \"b.proto\";"),
        ("b.proto", "include \"a.proto\";"),
    ]);
    match parse("a.proto".to_string(), &srcs) {
        Err(ParseError::Other(m)) => assert!(m.contains("a.proto")),
        _ => panic!("expected a cycle error"),
    }
}

#[test]
fn largest_literal_is_exact() {
    let p = parse_one("category Big = 18446744073709551615 { }").unwrap();
    assert_eq!(p.categories.get("Big").unwrap().id, u64::MAX);
    let p = parse_one("category Small = 007 { }").unwrap();
    assert_eq!(p.categories.get("Small").unwrap().id, 7);
}

#[test]
fn literal_overflow_fails() {
    assert!(matches!(
        parse_one("category Big = 18446744073709551616 { }"),
        Err(ParseError::Other(_))
    ));
}

#[test]
fn parsing_is_deterministic() {
    let text = "config { method_bits: 5 }\nnewtype P = { a: u8, b: array<i16> };\ncategory K = 2 { method m = 3 { x } { 'doc\n p = { P }; } }";
    let a = parse_one(text).unwrap();
    let b = parse_one(text).unwrap();
    assert_eq!(a.config, b.config);
    assert_eq!(a.types.get("P"), b.types.get("P"));
    let ma = a.categories.get("K").unwrap().methods.get("m").unwrap();
    let mb = b.categories.get("K").unwrap().methods.get("m").unwrap();
    assert_eq!(ma.comment, mb.comment);
    assert_eq!(ma.attributes, mb.attributes);
    assert_eq!(ma.properties.get("p"), mb.properties.get("p"));
}

#[test]
fn identifiers_take_digits_and_letters() {
    let p = parse_one("newtype T1_x = u8; newtype caf\u{e9} = u8;").unwrap();
    assert!(p.types.contains("T1_x"));
    assert!(p.types.contains("caf\u{e9}"));
}

#[test]
fn repeated_names_keep_the_last() {
    let p = parse_one("newtype T = u8; newtype T = i16; category C = 1 { method m = 1 { } { } method m = 2 { } { } }")
        .unwrap();
    assert_eq!(p.types.len(), 1);
    assert_eq!(p.types.get("T"), Some(&Type::I16));
    let c = p.categories.get("C").unwrap();
    assert_eq!(c.methods.len(), 1);
    assert_eq!(c.methods.get("m").unwrap().id, 2);
}

#[test]
fn included_category_replaces_and_is_replaced() {
    let srcs = sources(&[
        ("main.proto", "category C = 1 { } include \"b.proto\"; category D = 3 { }"),
        ("b.proto", "category C = 2 { method x = 1 { } { } } category D = 4 { }"),
    ]);
    let p = parse("main.proto".to_string(), &srcs).unwrap();
    let c = p.categories.get("C").unwrap();
    assert_eq!(c.id, 2);
    assert!(c.methods.contains("x"));
    assert_eq!(p.categories.get("D").unwrap().id, 3);
}

#[test]
fn config_after_declarations_is_rejected() {
    assert!(matches!(
        parse_one("newtype T = u8; config { method_bits: 1 }"),
        Err(ParseError::UnexpectedToken(_))
    ));
}
