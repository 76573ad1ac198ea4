use bloom::ast::{BloomField, BloomPrimitive, BloomStruct, BloomType};
use bloom::error::ParseErrorKind;
use bloom::parsing::{
    nomerr, p_close_brace, p_colon, p_comma, p_field, p_fields, p_ident, p_open_brace,
    p_primitive_type, p_struct, p_struct_tag, p_type,
};

#[test]
fn simple_tokens() {
    assert_eq!(p_comma(","), Ok(("", ',')));
    assert_eq!(p_comma("?"), nomerr("?", ParseErrorKind::Char));
    assert_eq!(p_colon(":"), Ok(("", ':')));
    assert_eq!(p_colon("?"), nomerr("?", ParseErrorKind::Char));
    assert_eq!(p_open_brace("{"), Ok(("", '{')));
    assert_eq!(p_open_brace("?"), nomerr("?", ParseErrorKind::Char));
    assert_eq!(p_close_brace("}"), Ok(("", '}')));
    assert_eq!(p_close_brace("?"), nomerr("?", ParseErrorKind::Char));

    assert_eq!(p_struct_tag("struct"), Ok(("", "struct")));
    assert_eq!(
        p_struct_tag("not a struct"),
        nomerr("not a struct", ParseErrorKind::Keyword)
    )
}

#[test]
fn identifiers() {
    assert_eq!(p_ident("identifier"), Ok(("", "identifier")));
    assert_eq!(
        p_ident("This_st1ll_an_1DENT"),
        Ok(("", "This_st1ll_an_1DENT"))
    );
    assert_eq!(
        p_ident("1this_is_not"),
        nomerr("1this_is_not", ParseErrorKind::Identifier)
    );
}

#[test]
fn primitive_types() {
    for primitive in BloomPrimitive::variants() {
        let string = primitive.label().to_lowercase();
        assert_eq!(p_primitive_type(&string), Ok(("", primitive)));
    }

    assert_eq!(
        p_primitive_type("not_a_primitive"),
        nomerr("not_a_primitive", ParseErrorKind::Primitive)
    );
}

#[test]
fn types() {
    assert_eq!(
        p_type("u32"),
        Ok(("", BloomType::Primitive(BloomPrimitive::U32)))
    );
    assert_eq!(
        p_type("SomeIdent"),
        Ok(("", BloomType::Identifier("SomeIdent".to_owned())))
    );
}

#[test]
fn field() {
    assert_eq!(
        p_field("    some_flag : bool"),
        Ok((
            "",
            BloomField {
                name: "some_flag".to_owned(),
                t: BloomType::Primitive(BloomPrimitive::Bool)
            }
        ))
    );
    assert_eq!(
        p_field("some_flag bool"),
        nomerr("bool", ParseErrorKind::Char)
    );
    assert_eq!(p_field("1st"), nomerr("1st", ParseErrorKind::Identifier));
    assert_eq!(
        p_field("field: 1st"),
        nomerr("1st", ParseErrorKind::Identifier)
    );
}

#[test]
fn fields() {
    assert_eq!(p_fields(""), Ok(("", vec![])));
    assert_eq!(
        p_fields("field: u8}"),
        Ok((
            "}",
            vec![BloomField {
                name: "field".to_owned(),
                t: BloomType::Primitive(BloomPrimitive::U8)
            }]
        ))
    );
}

#[test]
fn struct_parsing() {
    assert_eq!(
        p_struct("struct Test {}"),
        Ok((
            "",
            BloomStruct {
                name: "Test".to_owned(),
                fields: vec![]
            }
        ))
    );
    assert_eq!(
        p_struct("struct Test { b: bool, u: u32 }"),
        Ok((
            "",
            BloomStruct {
                name: "Test".to_owned(),
                fields: vec![
                    BloomField {
                        name: "b".to_owned(),
                        t: BloomType::Primitive(BloomPrimitive::Bool)
                    },
                    BloomField {
                        name: "u".to_owned(),
                        t: BloomType::Primitive(BloomPrimitive::U32)
                    },
                ]
            }
        ))
    );
}
