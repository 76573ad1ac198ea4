//! The parsers of the Bloom grammar, from the lexical tokens up to a whole
//! struct definition. Each takes the text at the current position and hands
//! back what it recognized together with the text behind it, or the place
//! where a required token was missing.

use crate::ast::{field_models, fields_wf, BloomField, BloomPrimitive, BloomStruct, BloomType};
use crate::chars::{
    all_in, ident_class, is_alpha, is_ident_char, is_identifier, lemma_span_unique, space_class,
    stops,
};
use crate::error::{Mismatch, ParseError, ParseErrorKind};
use crate::grammar::{
    lemma_field_within, lemma_ident_within, lemma_primitive_within, lemma_skip_space_is_tail,
    lemma_type_within, parse_char, parse_field, parse_field_behind_name, parse_fields,
    parse_ident, parse_keyword,
    parse_more_fields, parse_primitive, parse_struct, parse_type, skip_space, with_front, within,
};
use crate::laws::{
    lemma_fields_within, lemma_ident_is_longest, lemma_parsed_field_wf, lemma_parsed_fields_wf,
    lemma_parsed_struct_wf, lemma_parsed_type_wf, lemma_struct_within,
};
use crate::text::consumed;
use crate::tokens::{alpha1, alphanumeric1, multispace0, one_char, tag};
use vstd::prelude::*;

verus! {

/// Skips the insignificant whitespace at the front of `input`.
pub fn skip_whitespace<'a>(input: &'a str) -> (rest: &'a str)
    ensures
        rest@ == skip_space(input@),
{
    match multispace0(input) {
        Ok((rest, run)) => {
            proof {
                assert(input@.take(run@.len() as int) =~= run@);
                assert(input@.skip(run@.len() as int) =~= rest@);
                lemma_span_unique(input@, space_class(), run@.len() as int);
            }
            rest
        },
        Err(_) => input,
    }
}

/// The failure of a parser that missed a token of the given kind at the
/// front of `input`.
pub fn nomerr<'a, T>(input: &'a str, kind: ParseErrorKind) -> (r: Result<T, ParseError<'a>>)
    ensures
        r == Err::<T, ParseError<'a>>((ParseError { input, kind })),
{
    Err(ParseError { input, kind })
}

/// Recognizes the character `c` at the front of `input`.
fn p_char<'a>(c: char, input: &'a str) -> (r: Result<(&'a str, char), ParseError<'a>>)
    ensures
        parse_char(input@, c) == match r {
            Ok((rest, found)) => Ok((rest@, found)),
            Err(e) => Err(e@),
        },
{
    match one_char(c, input) {
        Ok((rest, found)) => Ok((rest, found)),
        Err(_) => nomerr(input, ParseErrorKind::Char),
    }
}

/// Recognizes a comma.
pub fn p_comma<'a>(input: &'a str) -> (r: Result<(&'a str, char), ParseError<'a>>)
    ensures
        parse_char(input@, ',') == match r {
            Ok((rest, found)) => Ok((rest@, found)),
            Err(e) => Err(e@),
        },
{
    p_char(',', input)
}

/// Recognizes a colon.
pub fn p_colon<'a>(input: &'a str) -> (r: Result<(&'a str, char), ParseError<'a>>)
    ensures
        parse_char(input@, ':') == match r {
            Ok((rest, found)) => Ok((rest@, found)),
            Err(e) => Err(e@),
        },
{
    p_char(':', input)
}

/// Recognizes an opening brace.
pub fn p_open_brace<'a>(input: &'a str) -> (r: Result<(&'a str, char), ParseError<'a>>)
    ensures
        parse_char(input@, '{') == match r {
            Ok((rest, found)) => Ok((rest@, found)),
            Err(e) => Err(e@),
        },
{
    p_char('{', input)
}

/// Recognizes a closing brace.
pub fn p_close_brace<'a>(input: &'a str) -> (r: Result<(&'a str, char), ParseError<'a>>)
    ensures
        parse_char(input@, '}') == match r {
            Ok((rest, found)) => Ok((rest@, found)),
            Err(e) => Err(e@),
        },
{
    p_char('}', input)
}

/// Recognizes the keyword `struct`.
pub fn p_struct_tag<'a>(input: &'a str) -> (r: Result<(&'a str, &'a str), ParseError<'a>>)
    ensures
        parse_keyword(input@) == match r {
            Ok((rest, found)) => Ok((rest@, found@)),
            Err(e) => Err(e@),
        },
{
    match tag("struct", input) {
        Ok((rest, found)) => {
            proof {
                assert(found@.is_prefix_of(input@));
                assert(rest@ =~= input@.skip(found@.len() as int));
            }
            Ok((rest, found))
        },
        Err(_) => nomerr(input, ParseErrorKind::Keyword),
    }
}

/// Recognizes the longest identifier at the front of `input`: a letter, then
/// letters, digits and underscores.
pub fn p_ident<'a>(input: &'a str) -> (r: Result<(&'a str, &'a str), ParseError<'a>>)
    ensures
        parse_ident(input@) == match r {
            Ok((rest, name)) => Ok((rest@, name@)),
            Err(e) => Err(e@),
        },
        r matches Ok((_, name)) ==> is_identifier(name@),
        within(parse_ident(input@), input@),
{
    proof {
        lemma_ident_is_longest(input@);
        lemma_ident_within(input@);
    }
    match alpha1(input) {
        Err(_) => nomerr(input, ParseErrorKind::Identifier),
        Ok((after_letters, letters)) => {
            let mut rest = after_letters;
            let ghost mut n: int = letters@.len() as int;
            proof {
                assert(input@.take(n) =~= letters@);
                assert(input@.skip(n) =~= rest@);
                assert(input@[0] == letters@[0]);
            }
            loop
                invariant
                    0 < n <= input@.len(),
                    is_alpha(input@[0]),
                    rest@ == input@.skip(n),
                    all_in(input@.take(n), ident_class()),
                ensures
                    stops(rest@, ident_class()),
                decreases rest@.len(),
            {
                let step = match alphanumeric1(rest) {
                    Ok(found) => Ok(found),
                    Err(_) => tag("_", rest),
                };
                match step {
                    Ok((after, run)) => {
                        proof {
                            reveal_strlit("_");
                            let m = n + run@.len();
                            assert(run@ + after@ == rest@);
                            assert(after@ =~= rest@.skip(run@.len() as int));
                            assert(after@ =~= input@.skip(m));
                            assert forall|i: int| 0 <= i < m implies is_ident_char(
                                #[trigger] input@.take(m)[i],
                            ) by {
                                if i < n {
                                    assert(input@.take(m)[i] == input@.take(n)[i]);
                                } else {
                                    assert(input@.take(m)[i] == rest@[i - n]);
                                    assert(rest@[i - n] == run@[i - n]);
                                }
                            }
                            n = m;
                        }
                        rest = after;
                    },
                    Err(_) => {
                        proof {
                            reveal_strlit("_");
                            if rest@.len() > 0 && rest@[0] == '_' {
                                assert("_"@ =~= rest@.take(1));
                            }
                        }
                        break ;
                    },
                }
            }
            proof {
                lemma_span_unique(input@, ident_class(), n);
            }
            let name = consumed(input, rest);
            Ok((rest, name))
        },
    }
}

/// Recognizes an identifier that is the label of a primitive type. Any
/// other identifier is a mismatch at the front of `input`.
pub fn p_primitive_type<'a>(input: &'a str) -> (r: Result<
    (&'a str, BloomPrimitive),
    ParseError<'a>,
>)
    ensures
        parse_primitive(input@) == match r {
            Ok((rest, primitive)) => Ok((rest@, primitive)),
            Err(e) => Err(e@),
        },
        within(parse_primitive(input@), input@),
{
    proof {
        lemma_primitive_within(input@);
    }
    match p_ident(input) {
        Err(e) => Err(e),
        Ok((rest, name)) => match BloomPrimitive::from_label(name) {
            Some(primitive) => Ok((rest, primitive)),
            None => nomerr(input, ParseErrorKind::Primitive),
        },
    }
}

/// Recognizes a type: a primitive where the identifier at the front of
/// `input` is a label, else a reference by that identifier.
pub fn p_type<'a>(input: &'a str) -> (r: Result<(&'a str, BloomType), ParseError<'a>>)
    ensures
        parse_type(input@) == match r {
            Ok((rest, t)) => Ok((rest@, t@)),
            Err(e) => Err(e@),
        },
        r matches Ok((_, t)) ==> t@.wf(),
        within(parse_type(input@), input@),
{
    proof {
        lemma_parsed_type_wf(input@);
        lemma_type_within(input@);
    }
    match p_primitive_type(input) {
        Ok((rest, primitive)) => Ok((rest, BloomType::Primitive(primitive))),
        Err(_) => match p_ident(input) {
            Ok((rest, name)) => Ok((rest, BloomType::Identifier(name.to_owned()))),
            Err(e) => Err(e),
        },
    }
}

/// Recognizes what follows the name of a field: a colon and a type, with
/// optional whitespace before each. With `name` they make the field.
fn p_field_behind_name<'a>(name: &str, input: &'a str) -> (r: Result<
    (&'a str, BloomField),
    ParseError<'a>,
>)
    ensures
        parse_field_behind_name(name@, input@) == match r {
            Ok((rest, field)) => Ok((rest@, field@)),
            Err(e) => Err(e@),
        },
{
    let tail = skip_whitespace(input);
    let (tail, _) = match p_colon(tail) {
        Ok(found) => found,
        Err(e) => return Err(e),
    };
    let tail = skip_whitespace(tail);
    let (tail, t) = match p_type(tail) {
        Ok(found) => found,
        Err(e) => return Err(e),
    };
    Ok((tail, BloomField { name: name.to_owned(), t }))
}

/// Recognizes a field: a name, a colon and a type, with optional whitespace
/// before each.
pub fn p_field<'a>(input: &'a str) -> (r: Result<(&'a str, BloomField), ParseError<'a>>)
    ensures
        parse_field(input@) == match r {
            Ok((rest, field)) => Ok((rest@, field@)),
            Err(e) => Err(e@),
        },
        r matches Ok((_, field)) ==> field@.wf(),
        within(parse_field(input@), input@),
{
    proof {
        lemma_parsed_field_wf(input@);
        lemma_field_within(input@);
    }
    let tail = skip_whitespace(input);
    match p_ident(tail) {
        Ok((tail, name)) => p_field_behind_name(name, tail),
        Err(e) => Err(e),
    }
}

/// Recognizes a field list: no field, or fields separated by commas.
///
/// A field begins with its name. Where no name stands at the front, the
/// list is empty and nothing is consumed; where none stands behind a comma,
/// the list ends before that comma and the whitespace before it, so the list
/// takes no trailing comma. A field that begins is required whole: a colon
/// or a type that is missing behind a name is the mismatch of the list.
pub fn p_fields<'a>(input: &'a str) -> (r: Result<(&'a str, Vec<BloomField>), ParseError<'a>>)
    ensures
        parse_fields(input@) == match r {
            Ok((rest, fields)) => Ok((rest@, field_models(fields@))),
            Err(e) => Err(e@),
        },
        r matches Ok((_, fields)) ==> fields_wf(field_models(fields@)),
        within(parse_fields(input@), input@),
{
    proof {
        lemma_parsed_fields_wf(input@);
        lemma_fields_within(input@);
    }
    let mut fields: Vec<BloomField> = Vec::new();
    let (after_name, name) = match p_ident(skip_whitespace(input)) {
        Ok(found) => found,
        Err(_) => {
            proof {
                assert(field_models(fields@) =~= Seq::empty());
            }
            return Ok((input, fields));
        },
    };
    let mut rest = match p_field_behind_name(name, after_name) {
        Ok((tail, field)) => {
            fields.push(field);
            tail
        },
        Err(e) => return Err(e),
    };
    proof {
        assert(field_models(fields@) =~= seq![fields@[0]@]);
    }
    loop
        invariant
            parse_fields(input@) == with_front(field_models(fields@), parse_more_fields(rest@)),
            within(parse_fields(input@), input@),
        ensures
            parse_fields(input@) == Ok::<_, Mismatch>((rest@, field_models(fields@))),
        decreases rest@.len(),
    {
        proof {
            assert(field_models(fields@) + Seq::empty() =~= field_models(fields@));
        }
        let after_comma = match p_comma(skip_whitespace(rest)) {
            Ok((tail, _)) => tail,
            Err(_) => break ,
        };
        let (after_name, name) = match p_ident(skip_whitespace(after_comma)) {
            Ok(found) => found,
            Err(_) => break ,
        };
        match p_field_behind_name(name, after_name) {
            Ok((tail, field)) => {
                proof {
                    lemma_skip_space_is_tail(rest@);
                    lemma_field_within(after_comma@);
                    assert(field_models(fields@.push(field)) =~= field_models(fields@).push(
                        field@,
                    ));
                    if let Ok((_, more)) = parse_more_fields(tail@) {
                        assert(field_models(fields@) + (seq![field@] + more) =~= field_models(
                            fields@,
                        ).push(field@) + more);
                    }
                }
                fields.push(field);
                rest = tail;
            },
            Err(e) => {
                return Err(e);
            },
        }
    }
    Ok((rest, fields))
}

/// Parses one struct definition: the keyword `struct`, a name, and a field
/// list in braces, with optional whitespace between the tokens.
pub fn p_struct<'a>(input: &'a str) -> (r: Result<(&'a str, BloomStruct), ParseError<'a>>)
    ensures
        parse_struct(input@) == match r {
            Ok((rest, definition)) => Ok((rest@, definition@)),
            Err(e) => Err(e@),
        },
        r matches Ok((_, definition)) ==> definition@.wf(),
        within(parse_struct(input@), input@),
{
    proof {
        lemma_parsed_struct_wf(input@);
        lemma_struct_within(input@);
    }
    let tail = skip_whitespace(input);
    let (tail, _) = match p_struct_tag(tail) {
        Ok(found) => found,
        Err(e) => return Err(e),
    };
    let tail = skip_whitespace(tail);
    let (tail, name) = match p_ident(tail) {
        Ok(found) => found,
        Err(e) => return Err(e),
    };
    let tail = skip_whitespace(tail);
    let (tail, _) = match p_open_brace(tail) {
        Ok(found) => found,
        Err(e) => return Err(e),
    };
    let (tail, fields) = match p_fields(tail) {
        Ok(found) => found,
        Err(e) => return Err(e),
    };
    let tail = skip_whitespace(tail);
    let (tail, _) = match p_close_brace(tail) {
        Ok(found) => found,
        Err(e) => return Err(e),
    };
    Ok((tail, BloomStruct { name: name.to_owned(), fields }))
}

} // verus!
