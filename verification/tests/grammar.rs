use bloom::ast::{BloomField, BloomPrimitive, BloomStruct, BloomType};
use bloom::error::{ParseError, ParseErrorKind};
use bloom::parsing::{
    nomerr, p_close_brace, p_colon, p_comma, p_field, p_fields, p_ident, p_open_brace,
    p_primitive_type, p_struct, p_struct_tag, p_type, skip_whitespace,
};
use bloom::text::str_eq;

fn field_of(name: &str, t: BloomType) -> BloomField {
    BloomField { name: name.to_owned(), t }
}

fn primitive(p: BloomPrimitive) -> BloomType {
    BloomType::Primitive(p)
}

fn reference(name: &str) -> BloomType {
    BloomType::Identifier(name.to_owned())
}

fn definition_of(name: &str, fields: Vec<BloomField>) -> BloomStruct {
    BloomStruct { name: name.to_owned(), fields }
}

fn failure<'a, T>(input: &'a str, kind: ParseErrorKind) -> Result<T, ParseError<'a>> {
    Err(ParseError { input, kind })
}

#[test]
fn failure_carries_place_and_kind() {
    let r: Result<(&str, char), ParseError> = nomerr("rest of input", ParseErrorKind::Char);
    assert_eq!(
        r,
        Err(ParseError {
            input: "rest of input",
            kind: ParseErrorKind::Char
        })
    );
    let e = nomerr::<()>("", ParseErrorKind::Primitive).unwrap_err();
    assert_eq!(e.input, "");
    assert_eq!(e.kind, ParseErrorKind::Primitive);
    assert_ne!(
        nomerr::<()>("x", ParseErrorKind::Keyword),
        nomerr::<()>("x", ParseErrorKind::Identifier)
    );
    assert_ne!(
        nomerr::<()>("x", ParseErrorKind::Keyword),
        nomerr::<()>("y", ParseErrorKind::Keyword)
    );
}

#[test]
fn every_label_is_its_primitive() {
    let expected = [
        ("bool", BloomPrimitive::Bool),
        ("u8", BloomPrimitive::U8),
        ("u16", BloomPrimitive::U16),
        ("u32", BloomPrimitive::U32),
        ("u64", BloomPrimitive::U64),
        ("i8", BloomPrimitive::I8),
        ("i16", BloomPrimitive::I16),
        ("i32", BloomPrimitive::I32),
        ("i64", BloomPrimitive::I64),
        ("f32", BloomPrimitive::F32),
        ("f64", BloomPrimitive::F64),
    ];
    let all = BloomPrimitive::variants();
    assert_eq!(all.len(), expected.len());
    for (i, (label, p)) in expected.iter().enumerate() {
        assert_eq!(all[i], *p);
        assert_eq!(p.label(), *label);
        assert_eq!(BloomPrimitive::from_label(label), Some(*p));
        assert_eq!(p_type(label), Ok(("", BloomType::Primitive(*p))));
        assert_eq!(p_primitive_type(label), Ok(("", *p)));
    }
}

#[test]
fn labels_match_whole_and_case_sensitive() {
    assert_eq!(BloomPrimitive::from_label("Bool"), None);
    assert_eq!(BloomPrimitive::from_label("U32"), None);
    assert_eq!(BloomPrimitive::from_label("u128"), None);
    assert_eq!(BloomPrimitive::from_label("u3"), None);
    assert_eq!(BloomPrimitive::from_label("u32 "), None);
    assert_eq!(BloomPrimitive::from_label(""), None);
    assert_eq!(BloomPrimitive::from_label("f16"), None);
}

#[test]
fn other_identifiers_are_references() {
    for name in [
        "SomeIdent", "Bool", "U32", "u128", "boolean", "u8x", "u", "i", "f", "struct", "a_b_c",
        "x1_", "u32_", "Z",
    ] {
        assert_eq!(p_type(name), Ok(("", reference(name))));
        assert_eq!(
            p_primitive_type(name),
            failure(name, ParseErrorKind::Primitive)
        );
    }
}

#[test]
fn type_stops_where_the_identifier_stops() {
    assert_eq!(p_type("u32,"), Ok((",", primitive(BloomPrimitive::U32))));
    assert_eq!(p_type("u32x y"), Ok((" y", reference("u32x"))));
    assert_eq!(p_type("i8}"), Ok(("}", primitive(BloomPrimitive::I8))));
    assert_eq!(p_type("1st"), failure("1st", ParseErrorKind::Identifier));
    assert_eq!(p_type(""), failure("", ParseErrorKind::Identifier));
    assert_eq!(p_type("_x"), failure("_x", ParseErrorKind::Identifier));
    assert_eq!(
        p_primitive_type("1u8"),
        failure("1u8", ParseErrorKind::Identifier)
    );
}

#[test]
fn identifier_is_the_longest_match() {
    assert_eq!(p_ident("a"), Ok(("", "a")));
    assert_eq!(p_ident("a_"), Ok(("", "a_")));
    assert_eq!(p_ident("a__1__b rest"), Ok((" rest", "a__1__b")));
    assert_eq!(p_ident("abc-def"), Ok(("-def", "abc")));
    assert_eq!(p_ident("x9:"), Ok((":", "x9")));
    assert_eq!(p_ident("a1b2_c3{"), Ok(("{", "a1b2_c3")));
    assert_eq!(p_ident(""), failure("", ParseErrorKind::Identifier));
    assert_eq!(p_ident("_a"), failure("_a", ParseErrorKind::Identifier));
    assert_eq!(p_ident(" a"), failure(" a", ParseErrorKind::Identifier));
    assert_eq!(p_ident("9"), failure("9", ParseErrorKind::Identifier));
}

#[test]
fn identifier_is_ascii_only() {
    assert_eq!(p_ident("é"), failure("é", ParseErrorKind::Identifier));
    assert_eq!(p_ident("aé"), Ok(("é", "a")));
    assert_eq!(p_ident("naïve"), Ok(("ïve", "na")));
    assert_eq!(p_ident("a1٣"), Ok(("٣", "a1")));
    assert_eq!(p_ident("x_日本"), Ok(("日本", "x_")));
}

#[test]
fn whitespace_is_space_tab_and_line_ends() {
    assert_eq!(skip_whitespace(""), "");
    assert_eq!(skip_whitespace("x "), "x ");
    assert_eq!(skip_whitespace(" \t\r\n x y"), "x y");
    assert_eq!(skip_whitespace("\n\n"), "");
    assert_eq!(skip_whitespace("\u{a0}x"), "\u{a0}x");
    assert_eq!(skip_whitespace("\u{b}x"), "\u{b}x");
    assert_eq!(skip_whitespace(" \u{2003}x"), "\u{2003}x");
}

#[test]
fn tokens_at_the_end_of_input_are_mismatches() {
    assert_eq!(p_comma(""), failure("", ParseErrorKind::Char));
    assert_eq!(p_colon(""), failure("", ParseErrorKind::Char));
    assert_eq!(p_open_brace(""), failure("", ParseErrorKind::Char));
    assert_eq!(p_close_brace(""), failure("", ParseErrorKind::Char));
    assert_eq!(p_struct_tag(""), failure("", ParseErrorKind::Keyword));
    assert_eq!(p_struct_tag("str"), failure("str", ParseErrorKind::Keyword));
    assert_eq!(p_struct_tag("Struct"), failure("Struct", ParseErrorKind::Keyword));
}

#[test]
fn tokens_leave_what_follows() {
    assert_eq!(p_comma(",,"), Ok((",", ',')));
    assert_eq!(p_colon(": u8"), Ok((" u8", ':')));
    assert_eq!(p_open_brace("{}"), Ok(("}", '{')));
    assert_eq!(p_close_brace("} x"), Ok((" x", '}')));
    assert_eq!(p_struct_tag("struct S"), Ok((" S", "struct")));
    assert_eq!(p_struct_tag("structure"), Ok(("ure", "struct")));
    assert_eq!(p_comma(" ,"), failure(" ,", ParseErrorKind::Char));
    assert_eq!(p_colon(","), failure(",", ParseErrorKind::Char));
    assert_eq!(p_open_brace("}"), failure("}", ParseErrorKind::Char));
    assert_eq!(p_close_brace("{"), failure("{", ParseErrorKind::Char));
}

#[test]
fn field_reads_name_colon_type() {
    assert_eq!(
        p_field("a:u8"),
        Ok(("", field_of("a", primitive(BloomPrimitive::U8))))
    );
    assert_eq!(
        p_field("\n\tpos \t:\r\n Vec3 , next"),
        Ok((" , next", field_of("pos", reference("Vec3"))))
    );
    assert_eq!(
        p_field("struct: struct"),
        Ok(("", field_of("struct", reference("struct"))))
    );
    assert_eq!(
        p_field("u8: u8"),
        Ok(("", field_of("u8", primitive(BloomPrimitive::U8))))
    );
}

#[test]
fn field_failures_name_the_place() {
    assert_eq!(p_field(""), failure("", ParseErrorKind::Identifier));
    assert_eq!(p_field("   "), failure("", ParseErrorKind::Identifier));
    assert_eq!(p_field("  :u8"), failure(":u8", ParseErrorKind::Identifier));
    assert_eq!(p_field("a"), failure("", ParseErrorKind::Char));
    assert_eq!(p_field("a  ; u8"), failure("; u8", ParseErrorKind::Char));
    assert_eq!(p_field("a:"), failure("", ParseErrorKind::Identifier));
    assert_eq!(p_field("a:  }"), failure("}", ParseErrorKind::Identifier));
    assert_eq!(p_field("a-b: u8"), failure("-b: u8", ParseErrorKind::Char));
}

#[test]
fn missing_colon_is_reported_at_the_type() {
    let source = "some_flag bool";
    let e = p_field(source).unwrap_err();
    assert_eq!(e.kind, ParseErrorKind::Char);
    assert_eq!(e.input, "bool");
    assert_eq!(source.len() - e.input.len(), 10);
}

#[test]
fn bad_identifier_is_reported_at_position_zero() {
    let source = "1st";
    let e = p_ident(source).unwrap_err();
    assert_eq!(e.kind, ParseErrorKind::Identifier);
    assert_eq!(source.len() - e.input.len(), 0);
    let e = p_field(source).unwrap_err();
    assert_eq!(e.kind, ParseErrorKind::Identifier);
    assert_eq!(source.len() - e.input.len(), 0);
}

#[test]
fn field_list_stops_behind_its_last_field() {
    assert_eq!(p_fields("}"), Ok(("}", vec![])));
    assert_eq!(p_fields("  }"), Ok(("  }", vec![])));
    assert_eq!(p_fields("1st: u8"), Ok(("1st: u8", vec![])));
    assert_eq!(
        p_fields("a: u8 }"),
        Ok((" }", vec![field_of("a", primitive(BloomPrimitive::U8))]))
    );
    assert_eq!(
        p_fields("a: u8"),
        Ok(("", vec![field_of("a", primitive(BloomPrimitive::U8))]))
    );
    assert_eq!(
        p_fields("a: u8 , b : B\n,c:f64 tail"),
        Ok((
            " tail",
            vec![
                field_of("a", primitive(BloomPrimitive::U8)),
                field_of("b", reference("B")),
                field_of("c", primitive(BloomPrimitive::F64)),
            ]
        ))
    );
}

#[test]
fn field_list_ends_before_a_trailing_comma() {
    assert_eq!(
        p_fields("field: u8,}"),
        Ok((",}", vec![field_of("field", primitive(BloomPrimitive::U8))]))
    );
    assert_eq!(
        p_fields("a: u8 , }"),
        Ok((" , }", vec![field_of("a", primitive(BloomPrimitive::U8))]))
    );
    assert_eq!(
        p_fields("a: u8,"),
        Ok((",", vec![field_of("a", primitive(BloomPrimitive::U8))]))
    );
    assert_eq!(
        p_fields("a: u8, b: u8, 3"),
        Ok((
            ", 3",
            vec![
                field_of("a", primitive(BloomPrimitive::U8)),
                field_of("b", primitive(BloomPrimitive::U8)),
            ]
        ))
    );
    assert_eq!(
        p_fields("a: u8,, b: u8"),
        Ok((",, b: u8", vec![field_of("a", primitive(BloomPrimitive::U8))]))
    );
}

#[test]
fn field_that_has_begun_is_required_whole() {
    assert_eq!(p_fields("a u8"), failure("u8", ParseErrorKind::Char));
    assert_eq!(p_fields("  a"), failure("", ParseErrorKind::Char));
    assert_eq!(p_fields("a: }"), failure("}", ParseErrorKind::Identifier));
    assert_eq!(p_fields("a: 1"), failure("1", ParseErrorKind::Identifier));
    assert_eq!(p_fields("a: u8, b }"), failure("}", ParseErrorKind::Char));
    assert_eq!(
        p_fields("a: u8, b: }"),
        failure("}", ParseErrorKind::Identifier)
    );
    assert_eq!(
        p_fields("a: u8 , b : B , c d"),
        failure("d", ParseErrorKind::Char)
    );
}

#[test]
fn comma_before_any_field_is_left() {
    assert_eq!(p_fields(",}"), Ok((",}", vec![])));
    assert_eq!(p_fields(" , a: u8"), Ok((" , a: u8", vec![])));
}

#[test]
fn trailing_comma_is_rejected() {
    assert_eq!(
        p_struct("struct S {field: u8,}"),
        failure(",}", ParseErrorKind::Char)
    );
    assert_eq!(
        p_struct("struct S { a: u8, }"),
        failure(", }", ParseErrorKind::Char)
    );
    assert_eq!(
        p_struct("struct S { field: u8 , }"),
        failure(", }", ParseErrorKind::Char)
    );
    assert_eq!(
        p_struct("struct S { a: u8, b: u8, } rest"),
        failure(", } rest", ParseErrorKind::Char)
    );
    assert_eq!(p_struct("struct S {,}"), failure(",}", ParseErrorKind::Char));
    assert_eq!(p_struct("struct S { , }"), failure(", }", ParseErrorKind::Char));
    assert_eq!(
        p_struct("struct S { a: u8,, b: u8 }"),
        failure(",, b: u8 }", ParseErrorKind::Char)
    );
}

#[test]
fn broken_field_is_the_failure_of_the_definition() {
    assert_eq!(
        p_struct("struct T { a u8 }"),
        failure("u8 }", ParseErrorKind::Char)
    );
    assert_eq!(
        p_struct("struct T { a: }"),
        failure("}", ParseErrorKind::Identifier)
    );
    assert_eq!(
        p_struct("struct T { a: 8 }"),
        failure("8 }", ParseErrorKind::Identifier)
    );
    assert_eq!(p_struct("struct T { a"), failure("", ParseErrorKind::Char));
    assert_eq!(
        p_struct("struct T { a: u8, b u8 }"),
        failure("u8 }", ParseErrorKind::Char)
    );
    assert_eq!(
        p_struct("struct T { a: u8, b: , c: u8 }"),
        failure(", c: u8 }", ParseErrorKind::Identifier)
    );
    assert_eq!(
        p_struct("struct T { a: u8, b: u8 c }"),
        failure("c }", ParseErrorKind::Char)
    );
}

#[test]
fn field_order_is_kept() {
    assert_eq!(
        p_struct("struct S { a: u8, b: i8, c: f32 }"),
        Ok((
            "",
            definition_of(
                "S",
                vec![
                    field_of("a", primitive(BloomPrimitive::U8)),
                    field_of("b", primitive(BloomPrimitive::I8)),
                    field_of("c", primitive(BloomPrimitive::F32)),
                ]
            )
        ))
    );
    let (_, reversed) = p_struct("struct S { c: f32, b: i8, a: u8 }").unwrap();
    let names: Vec<&str> = reversed.fields.iter().map(|f| f.name.as_str()).collect();
    assert_eq!(names, vec!["c", "b", "a"]);
}

#[test]
fn duplicate_field_names_are_kept() {
    assert_eq!(
        p_struct("struct D { x: u8, x: Other }"),
        Ok((
            "",
            definition_of(
                "D",
                vec![
                    field_of("x", primitive(BloomPrimitive::U8)),
                    field_of("x", reference("Other")),
                ]
            )
        ))
    );
}

#[test]
fn whitespace_between_tokens_is_insignificant() {
    let dense = p_struct("struct Test{b:bool}");
    let loose = p_struct("struct   Test   {   b : bool   }");
    let expected = definition_of("Test", vec![field_of("b", primitive(BloomPrimitive::Bool))]);
    assert_eq!(dense, Ok(("", expected.clone())));
    assert_eq!(loose, Ok(("", expected.clone())));
    assert_eq!(dense, loose);
    assert_eq!(
        p_struct("\r\n\tstruct\nTest\n{\n\tb\n:\nbool\n}"),
        Ok(("", expected.clone()))
    );
    assert_eq!(p_struct("structTest{b:bool}"), Ok(("", expected)));
}

#[test]
fn names_are_not_reserved() {
    assert_eq!(
        p_struct("struct struct { bool: bool, u8: struct }"),
        Ok((
            "",
            definition_of(
                "struct",
                vec![
                    field_of("bool", primitive(BloomPrimitive::Bool)),
                    field_of("u8", reference("struct")),
                ]
            )
        ))
    );
}

#[test]
fn text_behind_the_definition_is_left() {
    assert_eq!(
        p_struct("struct A {} struct B {}"),
        Ok((" struct B {}", definition_of("A", vec![])))
    );
    assert_eq!(
        p_struct("struct A { x: B }\n"),
        Ok(("\n", definition_of("A", vec![field_of("x", reference("B"))])))
    );
}

#[test]
fn struct_failures_name_the_place_and_kind() {
    assert_eq!(p_struct(""), failure("", ParseErrorKind::Keyword));
    assert_eq!(
        p_struct("  enum E {}"),
        failure("enum E {}", ParseErrorKind::Keyword)
    );
    assert_eq!(
        p_struct("Struct E {}"),
        failure("Struct E {}", ParseErrorKind::Keyword)
    );
    assert_eq!(p_struct("struct"), failure("", ParseErrorKind::Identifier));
    assert_eq!(
        p_struct("struct 1st {}"),
        failure("1st {}", ParseErrorKind::Identifier)
    );
    assert_eq!(p_struct("struct {}"), failure("{}", ParseErrorKind::Identifier));
    assert_eq!(p_struct("struct A"), failure("", ParseErrorKind::Char));
    assert_eq!(p_struct("struct A ( )"), failure("( )", ParseErrorKind::Char));
    assert_eq!(p_struct("struct A {"), failure("", ParseErrorKind::Char));
    assert_eq!(
        p_struct("struct A { 1st: u8 }"),
        failure("1st: u8 }", ParseErrorKind::Char)
    );
    assert_eq!(
        p_struct("struct A { a u8 }"),
        failure("u8 }", ParseErrorKind::Char)
    );
    assert_eq!(
        p_struct("struct A { a: u8 b: u8 }"),
        failure("b: u8 }", ParseErrorKind::Char)
    );
    assert_eq!(
        p_struct("struct A { a: u8; }"),
        failure("; }", ParseErrorKind::Char)
    );
    assert_eq!(
        p_struct("struct A { a: u8, 1b: u8 }"),
        failure(", 1b: u8 }", ParseErrorKind::Char)
    );
    assert_eq!(
        p_struct("struct A { a: u8, b u8 }"),
        failure("u8 }", ParseErrorKind::Char)
    );
}

#[test]
fn render_gives_the_canonical_text() {
    assert_eq!(definition_of("Test", vec![]).render(), "struct Test {}");
    assert_eq!(
        definition_of("Test", vec![field_of("b", primitive(BloomPrimitive::Bool))]).render(),
        "struct Test { b: bool }"
    );
    assert_eq!(
        definition_of(
            "Test",
            vec![
                field_of("b", primitive(BloomPrimitive::Bool)),
                field_of("u", primitive(BloomPrimitive::U32)),
                field_of("next", reference("Node")),
            ]
        )
        .render(),
        "struct Test { b: bool, u: u32, next: Node }"
    );
    assert_eq!(primitive(BloomPrimitive::I64).text(), "i64");
    assert_eq!(reference("Node").text(), "Node");
}

#[test]
fn render_then_parse_gives_the_value_back() {
    for source in [
        "struct Test {}",
        "struct Test { b: bool, u: u32 }",
        "  struct\tPoint{x:f64 ,y :f64\n,\nowner : Player }",
        "structS{a:u8,b:i8,c:f32,d:D,e:u16,f:i16,g:u64,h:i32,i:i64,j:bool}",
    ] {
        let (_, parsed) = p_struct(source).unwrap();
        let text = parsed.render();
        assert_eq!(p_struct(&text), Ok(("", parsed.clone())));
        assert_eq!(p_struct(&text).unwrap().1.render(), text);
    }
}

#[test]
fn strings_are_compared_by_their_characters() {
    assert!(str_eq("", ""));
    assert!(str_eq("u32", "u32"));
    assert!(str_eq("naïve", "naïve"));
    assert!(!str_eq("u32", "u33"));
    assert!(!str_eq("u32", "u3"));
    assert!(!str_eq("u3", "u32"));
    assert!(!str_eq("U32", "u32"));
    assert!(!str_eq("é", "e"));
}

#[test]
fn parsed_slices_borrow_from_the_input() {
    let source = String::from("name: Type, more");
    let (rest, name) = p_ident(&source).unwrap();
    assert_eq!(name, "name");
    assert_eq!(rest, ": Type, more");
    assert_eq!(name.as_ptr(), source.as_ptr());
    assert_eq!(rest.as_ptr(), source[4..].as_ptr());
}
