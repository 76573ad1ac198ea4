//! The Bloom grammar as functions on character sequences.
//!
//! ```text
//! struct_def := ws "struct" ws ident ws "{" field_list ws "}"
//! field_list := (field (ws "," field)*)?
//! field      := ws ident ws ":" ws type
//! type       := primitive | ident
//! ident      := alpha (alnum | "_")*
//! ws         := (" " | "\t" | "\n" | "\r")*
//! ```
//!
//! Each rule maps a text to the value it denotes and the text left behind
//! it, or to the place where a required token was missing. A rule that fails
//! consumes nothing.
//!
//! A field begins with its name. Where no name stands, a field list ends:
//! at its front it is empty, and a comma that no name follows is left in the
//! text. Where a name stands, the field is required whole, and what is
//! missing behind the name is the mismatch of the list and of the
//! definition.

use crate::ast::{primitive_of_label, BloomPrimitive, FieldModel, StructModel, TypeModel};
use crate::chars::{ident_class, is_alpha, lemma_span_splits, space_class, span};
use crate::error::{Mismatch, ParseErrorKind};
use vstd::prelude::*;

verus! {

/// `s` without the whitespace at its front.
pub open spec fn skip_space(s: Seq<char>) -> Seq<char> {
    s.skip(span(s, space_class()) as int)
}

/// The character `c` at the front of `s`.
pub open spec fn parse_char(s: Seq<char>, c: char) -> Result<(Seq<char>, char), Mismatch> {
    if s.len() > 0 && s[0] == c {
        Ok((s.skip(1), c))
    } else {
        Err(Mismatch { at: s, kind: ParseErrorKind::Char })
    }
}

/// The keyword `struct` at the front of `s`.
pub open spec fn parse_keyword(s: Seq<char>) -> Result<(Seq<char>, Seq<char>), Mismatch> {
    if "struct"@.is_prefix_of(s) {
        Ok((s.skip("struct"@.len() as int), "struct"@))
    } else {
        Err(Mismatch { at: s, kind: ParseErrorKind::Keyword })
    }
}

/// The longest identifier at the front of `s`.
pub open spec fn parse_ident(s: Seq<char>) -> Result<(Seq<char>, Seq<char>), Mismatch> {
    if s.len() > 0 && is_alpha(s[0]) {
        let n = span(s, ident_class()) as int;
        Ok((s.skip(n), s.take(n)))
    } else {
        Err(Mismatch { at: s, kind: ParseErrorKind::Identifier })
    }
}

/// An identifier at the front of `s` that is the label of a primitive.
pub open spec fn parse_primitive(s: Seq<char>) -> Result<(Seq<char>, BloomPrimitive), Mismatch> {
    match parse_ident(s) {
        Ok((rest, name)) => match primitive_of_label(name) {
            Some(p) => Ok((rest, p)),
            None => Err(Mismatch { at: s, kind: ParseErrorKind::Primitive }),
        },
        Err(e) => Err(e),
    }
}

/// A type at the front of `s`: a primitive where the identifier there is a
/// label, else a reference by that identifier.
pub open spec fn parse_type(s: Seq<char>) -> Result<(Seq<char>, TypeModel), Mismatch> {
    match parse_primitive(s) {
        Ok((rest, p)) => Ok((rest, TypeModel::Primitive(p))),
        Err(_) => match parse_ident(s) {
            Ok((rest, name)) => Ok((rest, TypeModel::Identifier(name))),
            Err(e) => Err(e),
        },
    }
}

/// What follows the name of a field at the front of `s`: a colon and a
/// type, with optional whitespace before each. With `name` they make the
/// field.
pub open spec fn parse_field_behind_name(name: Seq<char>, s: Seq<char>) -> Result<
    (Seq<char>, FieldModel),
    Mismatch,
> {
    match parse_char(skip_space(s), ':') {
        Err(e) => Err(e),
        Ok((after_colon, _)) => match parse_type(skip_space(after_colon)) {
            Err(e) => Err(e),
            Ok((rest, t)) => Ok((rest, FieldModel { name, t })),
        },
    }
}

/// A field at the front of `s`: a name, a colon and a type, with optional
/// whitespace before each.
pub open spec fn parse_field(s: Seq<char>) -> Result<(Seq<char>, FieldModel), Mismatch> {
    match parse_ident(skip_space(s)) {
        Err(e) => Err(e),
        Ok((after_name, name)) => parse_field_behind_name(name, after_name),
    }
}

/// A field begins at the front of `s`: behind optional whitespace stands a
/// name.
pub open spec fn field_begins(s: Seq<char>) -> bool {
    parse_ident(skip_space(s)) is Ok
}

/// The outcome of reading more fields, with the fields `front` that were
/// read before them put first.
pub open spec fn with_front(
    front: Seq<FieldModel>,
    outcome: Result<(Seq<char>, Seq<FieldModel>), Mismatch>,
) -> Result<(Seq<char>, Seq<FieldModel>), Mismatch> {
    match outcome {
        Ok((rest, more)) => Ok((rest, front + more)),
        Err(e) => Err(e),
    }
}

/// The fields behind the first one of a list, each led by a comma. Where no
/// comma stands, or no field begins behind it, the list ends before the
/// comma and the whitespace before it. A field that begins is required
/// whole: its mismatch is that of the list.
pub open spec fn parse_more_fields(s: Seq<char>) -> Result<(Seq<char>, Seq<FieldModel>), Mismatch>
    decreases s.len(),
    via parse_more_fields_decreases
{
    match parse_char(skip_space(s), ',') {
        Err(_) => Ok((s, Seq::empty())),
        Ok((after_comma, _)) => if !field_begins(after_comma) {
            Ok((s, Seq::empty()))
        } else {
            match parse_field(after_comma) {
                Err(e) => Err(e),
                Ok((after_field, field)) => with_front(
                    seq![field],
                    parse_more_fields(after_field),
                ),
            }
        },
    }
}

#[via_fn]
proof fn parse_more_fields_decreases(s: Seq<char>) {
    lemma_skip_space_is_tail(s);
    if let Ok((after_comma, _)) = parse_char(skip_space(s), ',') {
        lemma_field_within(after_comma);
    }
}

/// A field list at the front of `s`: no field, or fields separated by
/// commas. Where no field begins at the front, the list is empty and nothing
/// is consumed. A field that begins is required whole: its mismatch is that
/// of the list. The list takes no trailing comma: it ends before a comma
/// that no field follows.
pub open spec fn parse_fields(s: Seq<char>) -> Result<(Seq<char>, Seq<FieldModel>), Mismatch> {
    if !field_begins(s) {
        Ok((s, Seq::empty()))
    } else {
        match parse_field(s) {
            Err(e) => Err(e),
            Ok((after_field, field)) => with_front(seq![field], parse_more_fields(after_field)),
        }
    }
}

/// A struct definition at the front of `s`.
pub open spec fn parse_struct(s: Seq<char>) -> Result<(Seq<char>, StructModel), Mismatch> {
    match parse_keyword(skip_space(s)) {
        Err(e) => Err(e),
        Ok((after_keyword, _)) => match parse_ident(skip_space(after_keyword)) {
            Err(e) => Err(e),
            Ok((after_name, name)) => match parse_char(skip_space(after_name), '{') {
                Err(e) => Err(e),
                Ok((after_open, _)) => match parse_fields(after_open) {
                    Err(e) => Err(e),
                    Ok((after_fields, fields)) => match parse_char(
                        skip_space(after_fields),
                        '}',
                    ) {
                        Err(e) => Err(e),
                        Ok((rest, _)) => Ok((rest, StructModel { name, fields })),
                    },
                },
            },
        },
    }
}

/// `tail` is what is left of `s` behind some of its characters.
pub open spec fn is_tail_of(tail: Seq<char>, s: Seq<char>) -> bool {
    tail.len() <= s.len() && s.skip(s.len() - tail.len()) == tail
}

/// A tail of a tail is a tail.
pub proof fn lemma_tail_of_tail(a: Seq<char>, b: Seq<char>, c: Seq<char>)
    requires
        is_tail_of(a, b),
        is_tail_of(b, c),
    ensures
        is_tail_of(a, c),
{
    assert(c.skip(c.len() - a.len()) =~= c.skip(c.len() - b.len()).skip(b.len() - a.len()));
}

/// Skipping whitespace leaves a tail of the text.
pub proof fn lemma_skip_space_is_tail(s: Seq<char>)
    ensures
        is_tail_of(skip_space(s), s),
{
    lemma_span_splits(s, space_class());
}

/// The outcome of a rule points into `s`: what is left behind a success,
/// and the place of a mismatch, are tails of `s`.
pub open spec fn within<T>(outcome: Result<(Seq<char>, T), Mismatch>, s: Seq<char>) -> bool {
    match outcome {
        Ok((rest, _)) => is_tail_of(rest, s),
        Err(e) => is_tail_of(e.at, s),
    }
}

/// Where the outcome is a success, less is left behind it than `s` holds.
pub open spec fn consumes<T>(outcome: Result<(Seq<char>, T), Mismatch>, s: Seq<char>) -> bool {
    outcome matches Ok((rest, _)) ==> rest.len() < s.len()
}

/// An outcome that points into a tail of `s` points into `s`.
pub proof fn lemma_within_tail<T>(
    outcome: Result<(Seq<char>, T), Mismatch>,
    tail: Seq<char>,
    s: Seq<char>,
)
    requires
        within(outcome, tail),
        is_tail_of(tail, s),
    ensures
        within(outcome, s),
{
    match outcome {
        Ok((rest, _)) => lemma_tail_of_tail(rest, tail, s),
        Err(e) => lemma_tail_of_tail(e.at, tail, s),
    }
}

/// The outcome of `parse_char` points into the text, and a character that
/// is found is consumed.
pub proof fn lemma_char_within(s: Seq<char>, c: char)
    ensures
        within(parse_char(s, c), s),
        consumes(parse_char(s, c), s),
{
    assert(s.skip(0) =~= s);
}

/// The outcome of `parse_ident` points into the text, and an identifier
/// that is found is consumed and not empty.
pub proof fn lemma_ident_within(s: Seq<char>)
    ensures
        within(parse_ident(s), s),
        consumes(parse_ident(s), s),
{
    lemma_span_splits(s, ident_class());
    assert(s.skip(0) =~= s);
}

/// The outcome of `parse_primitive` points into the text, and a label that
/// is found is consumed.
pub proof fn lemma_primitive_within(s: Seq<char>)
    ensures
        within(parse_primitive(s), s),
        consumes(parse_primitive(s), s),
{
    lemma_ident_within(s);
    assert(s.skip(0) =~= s);
}

/// The outcome of `parse_type` points into the text, and a type that is
/// found is consumed.
pub proof fn lemma_type_within(s: Seq<char>)
    ensures
        within(parse_type(s), s),
        consumes(parse_type(s), s),
{
    lemma_ident_within(s);
}

/// The outcome of `parse_field` points into the text, and a field that is
/// found is consumed.
pub proof fn lemma_field_within(s: Seq<char>)
    ensures
        within(parse_field(s), s),
        consumes(parse_field(s), s),
{
    let at_name = skip_space(s);
    lemma_skip_space_is_tail(s);
    lemma_ident_within(at_name);
    lemma_within_tail(parse_ident(at_name), at_name, s);
    if let Ok((after_name, _)) = parse_ident(at_name) {
        let at_colon = skip_space(after_name);
        lemma_skip_space_is_tail(after_name);
        lemma_tail_of_tail(at_colon, after_name, s);
        lemma_char_within(at_colon, ':');
        lemma_within_tail(parse_char(at_colon, ':'), at_colon, s);
        if let Ok((after_colon, _)) = parse_char(at_colon, ':') {
            let at_type = skip_space(after_colon);
            lemma_skip_space_is_tail(after_colon);
            lemma_tail_of_tail(at_type, after_colon, s);
            lemma_type_within(at_type);
            lemma_within_tail(parse_type(at_type), at_type, s);
        }
    }
}

} // verus!
