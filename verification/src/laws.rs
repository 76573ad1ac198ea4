//! What holds of the grammar for every text and every definition.

use crate::ast::{
    fields_wf, lemma_label_is_found, lemma_label_is_identifier, primitive_of_label, BloomPrimitive,
    FieldModel, StructModel, TypeModel,
};
use crate::chars::{
    ident_class, is_alpha, is_identifier, is_space, lemma_span_splits, lemma_span_unique,
    space_class, stops,
};
use crate::error::{Mismatch, ParseErrorKind};
use crate::grammar::{
    consumes, lemma_char_within, lemma_field_within, lemma_ident_within,
    lemma_skip_space_is_tail, lemma_tail_of_tail, lemma_within_tail, parse_char, parse_field,
    field_begins, parse_fields, parse_ident, parse_keyword, parse_more_fields, parse_struct,
    parse_type, skip_space, with_front, within,
};
use crate::layout::{
    canonical_layout, field_body, field_text, field_texts, is_blank, open_text, struct_text,
    FieldLayout, Layout,
};
use crate::render::{render_each, render_field, render_struct, type_text};
use vstd::prelude::*;

verus! {

/// The identifier that `parse_ident` finds is the longest one at the front
/// of the text: it matches `[A-Za-z][A-Za-z0-9_]*`, and the text behind it
/// is empty or begins with a character that cannot extend it.
pub proof fn lemma_ident_is_longest(s: Seq<char>)
    ensures
        match parse_ident(s) {
            Ok((rest, name)) => name + rest == s && is_identifier(name) && stops(
                rest,
                ident_class(),
            ),
            Err(e) => e == (Mismatch { at: s, kind: ParseErrorKind::Identifier })
                && (s.len() == 0 || !is_alpha(s[0])),
        },
{
    lemma_span_splits(s, ident_class());
    if let Ok((rest, name)) = parse_ident(s) {
        assert(name + rest =~= s);
        assert(ident_class()(s[0]));
        assert(name[0] == s[0]);
    }
}

/// Whitespace before a text that does not begin with whitespace is skipped,
/// whole and alone.
pub proof fn lemma_skip_blank(blank: Seq<char>, s: Seq<char>)
    requires
        is_blank(blank),
        stops(s, space_class()),
    ensures
        skip_space(blank + s) == s,
        blank.len() > 0 ==> is_space((blank + s)[0]),
        blank.len() == 0 ==> blank + s == s,
{
    let whole = blank + s;
    assert(whole.take(blank.len() as int) =~= blank);
    assert(whole.skip(blank.len() as int) =~= s);
    lemma_span_unique(whole, space_class(), blank.len() as int);
    if blank.len() > 0 {
        assert(space_class()(blank[0]));
    } else {
        assert(whole =~= s);
    }
}

/// An identifier before a text that cannot extend it is found, whole and
/// alone.
pub proof fn lemma_ident_found(name: Seq<char>, s: Seq<char>)
    requires
        is_identifier(name),
        stops(s, ident_class()),
    ensures
        parse_ident(name + s) == Ok::<_, Mismatch>((s, name)),
{
    let whole = name + s;
    assert(whole.take(name.len() as int) =~= name);
    assert(whole.skip(name.len() as int) =~= s);
    lemma_span_unique(whole, ident_class(), name.len() as int);
}

/// The text of a type reference that a parse can produce, before a text that
/// cannot extend it, is read as that reference.
pub proof fn lemma_type_found(t: TypeModel, s: Seq<char>)
    requires
        t.wf(),
        stops(s, ident_class()),
    ensures
        parse_type(type_text(t) + s) == Ok::<_, Mismatch>((s, t)),
        is_identifier(type_text(t)),
{
    match t {
        TypeModel::Primitive(p) => {
            lemma_label_is_identifier(p);
            lemma_label_is_found(p);
            lemma_ident_found(p.spec_label(), s);
        },
        TypeModel::Identifier(name) => {
            lemma_ident_found(name, s);
        },
    }
}

/// Every label of a primitive, taken as a type, is read as that primitive,
/// and nothing of the label is left.
pub proof fn lemma_label_parses_as_primitive(p: BloomPrimitive)
    ensures
        parse_type(p.spec_label()) == Ok::<_, Mismatch>(
            (Seq::<char>::empty(), TypeModel::Primitive(p)),
        ),
{
    lemma_type_found(TypeModel::Primitive(p), Seq::empty());
    assert(p.spec_label() + Seq::<char>::empty() =~= p.spec_label());
}

/// Every identifier that is not the label of a primitive, taken as a type,
/// is read as a reference by exactly that name, and nothing of it is left.
pub proof fn lemma_identifier_parses_as_reference(name: Seq<char>)
    requires
        is_identifier(name),
        primitive_of_label(name) is None,
    ensures
        parse_type(name) == Ok::<_, Mismatch>((Seq::<char>::empty(), TypeModel::Identifier(name))),
{
    lemma_type_found(TypeModel::Identifier(name), Seq::empty());
    assert(name + Seq::<char>::empty() =~= name);
}

/// The text of a field that a parse can produce, in any layout and before a
/// text that cannot extend its type, is read as that field.
pub proof fn lemma_field_found(field: FieldModel, layout: FieldLayout, s: Seq<char>)
    requires
        field.wf(),
        layout.blank(),
        stops(s, ident_class()),
    ensures
        parse_field(field_body(field, layout) + s) == Ok::<_, Mismatch>((s, field)),
        stops(field_body(field, layout) + s, ident_class()) || is_alpha(
            (field_body(field, layout) + s)[0],
        ),
{
    let from_type = type_text(field.t) + s;
    let from_type_gap = layout.before_type + from_type;
    let from_colon = seq![':'] + from_type_gap;
    let from_colon_gap = layout.before_colon + from_colon;
    let from_name = field.name + from_colon_gap;
    let whole = layout.before_name + from_name;
    assert(whole =~= field_body(field, layout) + s);

    lemma_type_found(field.t, s);
    assert(from_type[0] == type_text(field.t)[0]);
    lemma_skip_blank(layout.before_type, from_type);
    assert(from_colon.skip(1) =~= from_type_gap);
    assert(from_colon[0] == ':');
    lemma_skip_blank(layout.before_colon, from_colon);
    lemma_ident_found(field.name, from_colon_gap);
    assert(from_name[0] == field.name[0]);
    lemma_skip_blank(layout.before_name, from_name);
}

/// The text of a field list from its place `k` on, before a text that
/// cannot extend an identifier, cannot extend one that stands before it.
proof fn lemma_fields_from_stop(
    fields: Seq<FieldModel>,
    layouts: Seq<FieldLayout>,
    k: int,
    closing: Seq<char>,
)
    requires
        fields.len() == layouts.len(),
        forall|i: int| 0 <= i < layouts.len() ==> (#[trigger] layouts[i]).blank(),
        stops(closing, ident_class()),
        1 <= k <= fields.len(),
    ensures
        stops(field_texts(fields, layouts).skip(k).flatten() + closing, ident_class()),
{
    let texts = field_texts(fields, layouts);
    if k == fields.len() {
        assert(texts.skip(k).flatten() =~= Seq::<char>::empty());
        assert(texts.skip(k).flatten() + closing =~= closing);
    } else {
        let layout = layouts[k];
        let led = seq![','] + field_body(fields[k], layout);
        assert(layout.blank());
        lemma_skip_blank(layout.before_comma, led);
        assert(texts.skip(k).first() =~= layout.before_comma + led);
        let whole = texts.skip(k).flatten() + closing;
        assert(whole[0] == (layout.before_comma + led)[0]);
    }
}

/// The fields of a list from its place `k` on, each led by its comma, are
/// read in their order, whatever text that cannot extend an identifier
/// stands behind them; the reading goes on in that text.
proof fn lemma_more_fields_found(
    fields: Seq<FieldModel>,
    layouts: Seq<FieldLayout>,
    k: int,
    closing: Seq<char>,
)
    requires
        fields.len() == layouts.len(),
        forall|i: int| 0 <= i < fields.len() ==> (#[trigger] fields[i]).wf(),
        forall|i: int| 0 <= i < layouts.len() ==> (#[trigger] layouts[i]).blank(),
        stops(closing, ident_class()),
        1 <= k <= fields.len(),
    ensures
        parse_more_fields(field_texts(fields, layouts).skip(k).flatten() + closing) == with_front(
            fields.skip(k),
            parse_more_fields(closing),
        ),
    decreases fields.len() - k,
{
    let texts = field_texts(fields, layouts);
    let whole = texts.skip(k).flatten() + closing;
    if k == fields.len() {
        assert(texts.skip(k).flatten() =~= Seq::<char>::empty());
        assert(whole =~= closing);
        assert(fields.skip(k) =~= Seq::<FieldModel>::empty());
        if let Ok((_, more)) = parse_more_fields(closing) {
            assert(fields.skip(k) + more =~= more);
        }
    } else {
        let layout = layouts[k];
        let field = fields[k];
        assert(layout.blank());
        assert(field.wf());
        let behind = texts.skip(k + 1).flatten() + closing;
        let from_field = field_body(field, layout) + behind;
        let from_comma = seq![','] + from_field;
        assert(texts.skip(k).drop_first() =~= texts.skip(k + 1));
        assert(whole =~= layout.before_comma + from_comma);
        lemma_skip_blank(layout.before_comma, from_comma);
        assert(from_comma.skip(1) =~= from_field);
        lemma_fields_from_stop(fields, layouts, k + 1, closing);
        lemma_field_found(field, layout, behind);
        lemma_more_fields_found(fields, layouts, k + 1, closing);
        if let Ok((_, more)) = parse_more_fields(closing) {
            assert(seq![field] + (fields.skip(k + 1) + more) =~= fields.skip(k) + more);
        }
    }
}

/// The outcome of reading a field list whose fields are `fields`, where its
/// text stands before `closing`: the fields in their order, and what the
/// reading finds in `closing`.
pub open spec fn fields_then(fields: Seq<FieldModel>, closing: Seq<char>) -> Result<
    (Seq<char>, Seq<FieldModel>),
    Mismatch,
> {
    if fields.len() == 0 {
        parse_fields(closing)
    } else {
        with_front(fields, parse_more_fields(closing))
    }
}

/// The text of a field list in any layout is read as its fields in their
/// order, and the reading goes on in the text behind it.
pub proof fn lemma_fields_found(
    fields: Seq<FieldModel>,
    layouts: Seq<FieldLayout>,
    closing: Seq<char>,
)
    requires
        fields.len() == layouts.len(),
        forall|i: int| 0 <= i < fields.len() ==> (#[trigger] fields[i]).wf(),
        forall|i: int| 0 <= i < layouts.len() ==> (#[trigger] layouts[i]).blank(),
        fields.len() > 0 ==> stops(closing, ident_class()),
    ensures
        parse_fields(field_texts(fields, layouts).flatten() + closing) == fields_then(
            fields,
            closing,
        ),
{
    let texts = field_texts(fields, layouts);
    let whole = texts.flatten() + closing;
    if fields.len() == 0 {
        assert(texts.flatten() =~= Seq::<char>::empty());
        assert(whole =~= closing);
    } else {
        let field = fields[0];
        let layout = layouts[0];
        assert(layout.blank());
        assert(field.wf());
        let behind = texts.skip(1).flatten() + closing;
        assert(texts.drop_first() =~= texts.skip(1));
        assert(whole =~= field_body(field, layout) + behind);
        lemma_fields_from_stop(fields, layouts, 1, closing);
        lemma_field_found(field, layout, behind);
        lemma_more_fields_found(fields, layouts, 1, closing);
        if let Ok((_, more)) = parse_more_fields(closing) {
            assert(seq![field] + (fields.skip(1) + more) =~= fields + more);
        }
    }
}

/// The outcome of reading a definition named `name` from the point where
/// its field list was read with the outcome `listed`: the closing brace is
/// what remains to be found.
pub open spec fn closed(
    name: Seq<char>,
    listed: Result<(Seq<char>, Seq<FieldModel>), Mismatch>,
) -> Result<(Seq<char>, StructModel), Mismatch> {
    match listed {
        Err(e) => Err(e),
        Ok((after_fields, fields)) => match parse_char(skip_space(after_fields), '}') {
            Err(e) => Err(e),
            Ok((rest, _)) => Ok((rest, StructModel { name, fields })),
        },
    }
}

/// The text of a definition up to the end of its fields, in any layout, is
/// read up to there: the outcome is that of reading on in the text behind
/// it.
pub proof fn lemma_open_text_parses(definition: StructModel, layout: Layout, closing: Seq<char>)
    requires
        definition.wf(),
        layout.blank_for(definition),
        definition.fields.len() > 0 ==> stops(closing, ident_class()),
    ensures
        parse_struct(open_text(definition, layout) + closing) == closed(
            definition.name,
            fields_then(definition.fields, closing),
        ),
{
    reveal_strlit("struct");
    let keyword = "struct"@;
    let from_fields = field_texts(definition.fields, layout.fields).flatten() + closing;
    let from_open = seq!['{'] + from_fields;
    let from_open_gap = layout.before_open + from_open;
    let from_name = definition.name + from_open_gap;
    let from_name_gap = layout.before_name + from_name;
    let from_keyword = keyword + from_name_gap;
    let whole = layout.before_keyword + from_keyword;
    assert(whole =~= open_text(definition, layout) + closing);

    assert(from_keyword[0] == 's');
    lemma_skip_blank(layout.before_keyword, from_keyword);
    assert(keyword.is_prefix_of(from_keyword));
    assert(from_keyword.skip(keyword.len() as int) =~= from_name_gap);
    assert(from_name[0] == definition.name[0]);
    lemma_skip_blank(layout.before_name, from_name);
    assert(from_open[0] == '{');
    lemma_skip_blank(layout.before_open, from_open);
    lemma_ident_found(definition.name, from_open_gap);
    assert(from_open.skip(1) =~= from_fields);
    lemma_fields_found(definition.fields, layout.fields, closing);
}

/// Whitespace is insignificant: the text of a definition that a parse can
/// produce, in any layout, is read as that definition, and what stands
/// behind its closing brace is left.
pub proof fn lemma_struct_text_parses(definition: StructModel, layout: Layout, tail: Seq<char>)
    requires
        definition.wf(),
        layout.blank_for(definition),
    ensures
        parse_struct(struct_text(definition, layout) + tail) == Ok::<_, Mismatch>(
            (tail, definition),
        ),
{
    let from_close = seq!['}'] + tail;
    let closing = layout.before_close + from_close;
    assert(open_text(definition, layout) + closing =~= struct_text(definition, layout) + tail);
    lemma_skip_blank(layout.before_close, from_close);
    assert(from_close.skip(1) =~= tail);
    lemma_open_text_parses(definition, layout, closing);
    assert(definition.fields + Seq::<FieldModel>::empty() =~= definition.fields);
}

/// A field list takes no trailing comma: where a comma that no field
/// follows stands behind the fields, the list ends before that comma and
/// the whitespace before it.
pub proof fn lemma_list_ends_before_trailing_comma(
    fields: Seq<FieldModel>,
    layouts: Seq<FieldLayout>,
    before_comma: Seq<char>,
    before_close: Seq<char>,
    tail: Seq<char>,
)
    requires
        fields.len() == layouts.len(),
        forall|i: int| 0 <= i < fields.len() ==> (#[trigger] fields[i]).wf(),
        forall|i: int| 0 <= i < layouts.len() ==> (#[trigger] layouts[i]).blank(),
        is_blank(before_comma),
        is_blank(before_close),
    ensures
        parse_fields(
            field_texts(fields, layouts).flatten() + before_comma + seq![','] + before_close
                + seq!['}'] + tail,
        ) == Ok::<_, Mismatch>(
            (before_comma + seq![','] + before_close + seq!['}'] + tail, fields),
        ),
{
    let from_close = seq!['}'] + tail;
    let from_gap = before_close + from_close;
    let from_comma = seq![','] + from_gap;
    let closing = before_comma + from_comma;
    let texts = field_texts(fields, layouts).flatten();
    assert(closing =~= before_comma + seq![','] + before_close + seq!['}'] + tail);
    assert(texts + closing =~= texts + before_comma + seq![','] + before_close + seq!['}'] + tail);
    lemma_skip_blank(before_close, from_close);
    lemma_skip_blank(before_comma, from_comma);
    assert(from_comma.skip(1) =~= from_gap);
    lemma_fields_found(fields, layouts, closing);
    assert(fields + Seq::<FieldModel>::empty() =~= fields);
}

/// No trailing comma: where a comma stands between the last field, or the
/// opening brace, and the closing brace, the definition is rejected: the
/// closing brace is missing at that comma.
pub proof fn lemma_trailing_comma_rejected(
    definition: StructModel,
    layout: Layout,
    before_comma: Seq<char>,
    tail: Seq<char>,
)
    requires
        definition.wf(),
        layout.blank_for(definition),
        is_blank(before_comma),
    ensures
        parse_struct(
            open_text(definition, layout) + before_comma + seq![','] + layout.before_close
                + seq!['}'] + tail,
        ) == Err::<(Seq<char>, StructModel), _>(
            Mismatch {
                at: seq![','] + layout.before_close + seq!['}'] + tail,
                kind: ParseErrorKind::Char,
            },
        ),
{
    let from_close = seq!['}'] + tail;
    let from_gap = layout.before_close + from_close;
    let from_comma = seq![','] + from_gap;
    let closing = before_comma + from_comma;
    assert(open_text(definition, layout) + closing =~= open_text(definition, layout)
        + before_comma + seq![','] + layout.before_close + seq!['}'] + tail);
    assert(from_comma =~= seq![','] + layout.before_close + seq!['}'] + tail);
    lemma_skip_blank(layout.before_close, from_close);
    lemma_skip_blank(before_comma, from_comma);
    assert(from_comma.skip(1) =~= from_gap);
    lemma_open_text_parses(definition, layout, closing);
}

/// What leads a further field of a list whose fields so far are `fields`:
/// nothing at the front of the list, and a comma behind whitespace
/// elsewhere.
pub open spec fn lead_text(fields: Seq<FieldModel>, before_comma: Seq<char>) -> Seq<char> {
    if fields.len() == 0 {
        Seq::empty()
    } else {
        before_comma + seq![',']
    }
}

/// A field that has begun is required whole. Where a name stands at the
/// place of a further field, at the front of the list or behind a comma,
/// and the colon or the type behind that name is missing, the mismatch of
/// that field is that of the list, unchanged.
pub proof fn lemma_broken_field_fails_list(
    fields: Seq<FieldModel>,
    layouts: Seq<FieldLayout>,
    before_comma: Seq<char>,
    broken: Seq<char>,
)
    requires
        fields.len() == layouts.len(),
        forall|i: int| 0 <= i < fields.len() ==> (#[trigger] fields[i]).wf(),
        forall|i: int| 0 <= i < layouts.len() ==> (#[trigger] layouts[i]).blank(),
        is_blank(before_comma),
        field_begins(broken),
        parse_field(broken) is Err,
    ensures
        parse_fields(
            field_texts(fields, layouts).flatten() + lead_text(fields, before_comma) + broken,
        ) == Err::<(Seq<char>, Seq<FieldModel>), _>(parse_field(broken)->Err_0),
{
    let texts = field_texts(fields, layouts).flatten();
    let closing = lead_text(fields, before_comma) + broken;
    assert(texts + closing =~= texts + lead_text(fields, before_comma) + broken);
    if fields.len() == 0 {
        assert(closing =~= broken);
    } else {
        let from_comma = seq![','] + broken;
        assert(closing =~= before_comma + from_comma);
        lemma_skip_blank(before_comma, from_comma);
        assert(from_comma.skip(1) =~= broken);
    }
    lemma_fields_found(fields, layouts, closing);
}

/// A field that has begun is required whole. Where a name stands at the
/// place of a further field of a definition and the colon or the type behind
/// that name is missing, the mismatch of that field is that of the
/// definition, unchanged.
pub proof fn lemma_broken_field_fails_struct(
    definition: StructModel,
    layout: Layout,
    before_comma: Seq<char>,
    broken: Seq<char>,
)
    requires
        definition.wf(),
        layout.blank_for(definition),
        is_blank(before_comma),
        field_begins(broken),
        parse_field(broken) is Err,
    ensures
        parse_struct(
            open_text(definition, layout) + lead_text(definition.fields, before_comma) + broken,
        ) == Err::<(Seq<char>, StructModel), _>(parse_field(broken)->Err_0),
{
    let head = open_text(definition, layout);
    let closing = lead_text(definition.fields, before_comma) + broken;
    assert(head + closing =~= head + lead_text(definition.fields, before_comma) + broken);
    if definition.fields.len() == 0 {
        assert(closing =~= broken);
    } else {
        let from_comma = seq![','] + broken;
        assert(closing =~= before_comma + from_comma);
        lemma_skip_blank(before_comma, from_comma);
        assert(from_comma.skip(1) =~= broken);
    }
    lemma_open_text_parses(definition, layout, closing);
}

/// The canonical text of a definition is its text in the canonical layout.
pub proof fn lemma_render_is_canonical(definition: StructModel)
    ensures
        render_struct(definition) == struct_text(
            definition,
            canonical_layout(definition.fields.len()),
        ),
        canonical_layout(definition.fields.len()).blank_for(definition),
{
    reveal_strlit("struct");
    reveal_strlit("struct ");
    reveal_strlit(" {");
    reveal_strlit("}");
    reveal_strlit(" }");
    reveal_strlit(" ");
    reveal_strlit(", ");
    reveal_strlit(": ");
    let fields = definition.fields;
    let layout = canonical_layout(fields.len());
    assert(render_each(fields) =~= field_texts(fields, layout.fields)) by {
        assert forall|i: int| 0 <= i < fields.len() implies render_field(i, fields[i])
            == field_text(i, fields[i], layout.fields[i]) by {
            assert(render_field(i, fields[i]) =~= field_text(i, fields[i], layout.fields[i]));
        }
    }
    assert(render_struct(definition) =~= struct_text(definition, layout));
    assert(space_class()(' '));
}

/// Rendering a definition that a parse can produce and parsing the text
/// gives the definition back, with nothing left.
pub proof fn lemma_render_parses(definition: StructModel)
    requires
        definition.wf(),
    ensures
        parse_struct(render_struct(definition)) == Ok::<_, Mismatch>(
            (Seq::<char>::empty(), definition),
        ),
{
    lemma_render_is_canonical(definition);
    let layout = canonical_layout(definition.fields.len());
    lemma_struct_text_parses(definition, layout, Seq::empty());
    assert(struct_text(definition, layout) + Seq::<char>::empty() =~= struct_text(
        definition,
        layout,
    ));
}

/// Two texts of one definition that differ in their whitespace only are
/// read as the same definition.
pub proof fn lemma_layouts_agree(definition: StructModel, one: Layout, other: Layout)
    requires
        definition.wf(),
        one.blank_for(definition),
        other.blank_for(definition),
    ensures
        parse_struct(struct_text(definition, one)) == parse_struct(
            struct_text(definition, other),
        ),
        parse_struct(struct_text(definition, one)) == Ok::<_, Mismatch>(
            (Seq::<char>::empty(), definition),
        ),
{
    lemma_struct_text_parses(definition, one, Seq::empty());
    lemma_struct_text_parses(definition, other, Seq::empty());
    assert(struct_text(definition, one) + Seq::<char>::empty() =~= struct_text(definition, one));
    assert(struct_text(definition, other) + Seq::<char>::empty() =~= struct_text(
        definition,
        other,
    ));
}

/// The outcome of `parse_more_fields` points into the text.
pub proof fn lemma_more_fields_within(s: Seq<char>)
    ensures
        within(parse_more_fields(s), s),
    decreases s.len(),
{
    assert(s.skip(0) =~= s);
    let at_comma = skip_space(s);
    lemma_skip_space_is_tail(s);
    lemma_char_within(at_comma, ',');
    if let Ok((after_comma, _)) = parse_char(at_comma, ',') {
        lemma_tail_of_tail(after_comma, at_comma, s);
        lemma_field_within(after_comma);
        lemma_within_tail(parse_field(after_comma), after_comma, s);
        if let Ok((after_field, _)) = parse_field(after_comma) {
            lemma_more_fields_within(after_field);
            lemma_within_tail(parse_more_fields(after_field), after_field, s);
        }
    }
}

/// The outcome of `parse_fields` points into the text.
pub proof fn lemma_fields_within(s: Seq<char>)
    ensures
        within(parse_fields(s), s),
{
    assert(s.skip(0) =~= s);
    lemma_field_within(s);
    if let Ok((after_field, _)) = parse_field(s) {
        lemma_more_fields_within(after_field);
        lemma_within_tail(parse_more_fields(after_field), after_field, s);
    }
}

/// A failure consumes nothing and is exact about its place: the mismatch
/// that `parse_struct` reports is at a tail of the text, and so is what is
/// left behind a definition that is read.
pub proof fn lemma_struct_within(s: Seq<char>)
    ensures
        within(parse_struct(s), s),
        consumes(parse_struct(s), s),
{
    reveal_strlit("struct");
    let at_keyword = skip_space(s);
    lemma_skip_space_is_tail(s);
    assert(at_keyword.skip(0) =~= at_keyword);
    if let Ok((after_keyword, _)) = parse_keyword(at_keyword) {
        lemma_tail_of_tail(after_keyword, at_keyword, s);
        let at_name = skip_space(after_keyword);
        lemma_skip_space_is_tail(after_keyword);
        lemma_tail_of_tail(at_name, after_keyword, s);
        lemma_ident_within(at_name);
        lemma_within_tail(parse_ident(at_name), at_name, s);
        if let Ok((after_name, _)) = parse_ident(at_name) {
            let at_open = skip_space(after_name);
            lemma_skip_space_is_tail(after_name);
            lemma_tail_of_tail(at_open, after_name, s);
            lemma_char_within(at_open, '{');
            lemma_within_tail(parse_char(at_open, '{'), at_open, s);
            if let Ok((after_open, _)) = parse_char(at_open, '{') {
                lemma_fields_within(after_open);
                lemma_within_tail(parse_fields(after_open), after_open, s);
                if let Ok((after_fields, _)) = parse_fields(after_open) {
                    let at_close = skip_space(after_fields);
                    lemma_skip_space_is_tail(after_fields);
                    lemma_tail_of_tail(at_close, after_fields, s);
                    lemma_char_within(at_close, '}');
                    lemma_within_tail(parse_char(at_close, '}'), at_close, s);
                }
            }
        }
    }
}

/// A type that is read is one that a parse can produce.
pub proof fn lemma_parsed_type_wf(s: Seq<char>)
    ensures
        parse_type(s) matches Ok((_, t)) ==> t.wf(),
{
    lemma_ident_is_longest(s);
}

/// A field that is read is one that a parse can produce.
pub proof fn lemma_parsed_field_wf(s: Seq<char>)
    ensures
        parse_field(s) matches Ok((_, field)) ==> field.wf(),
{
    lemma_ident_is_longest(skip_space(s));
    if let Ok((after_name, _)) = parse_ident(skip_space(s)) {
        if let Ok((after_colon, _)) = parse_char(skip_space(after_name), ':') {
            lemma_parsed_type_wf(skip_space(after_colon));
        }
    }
}

/// The fields that are read behind the first are ones that a parse can
/// produce.
pub proof fn lemma_parsed_more_fields_wf(s: Seq<char>)
    ensures
        parse_more_fields(s) matches Ok((_, fields)) ==> fields_wf(fields),
    decreases s.len(),
{
    if let Ok((after_comma, _)) = parse_char(skip_space(s), ',') {
        if let Ok((after_field, field)) = parse_field(after_comma) {
            lemma_skip_space_is_tail(s);
            lemma_field_within(after_comma);
            lemma_parsed_field_wf(after_comma);
            lemma_parsed_more_fields_wf(after_field);
        }
    }
}

/// The fields that are read are ones that a parse can produce.
pub proof fn lemma_parsed_fields_wf(s: Seq<char>)
    ensures
        parse_fields(s) matches Ok((_, fields)) ==> fields_wf(fields),
{
    lemma_parsed_field_wf(s);
    if let Ok((after_field, _)) = parse_field(s) {
        lemma_parsed_more_fields_wf(after_field);
    }
}

/// A struct definition that is read is one that a parse can produce.
pub proof fn lemma_parsed_struct_wf(s: Seq<char>)
    ensures
        parse_struct(s) matches Ok((_, definition)) ==> definition.wf(),
{
    if let Ok((after_keyword, _)) = parse_keyword(skip_space(s)) {
        lemma_ident_is_longest(skip_space(after_keyword));
        if let Ok((after_name, _)) = parse_ident(skip_space(after_keyword)) {
            if let Ok((after_open, _)) = parse_char(skip_space(after_name), '{') {
                lemma_parsed_fields_wf(after_open);
            }
        }
    }
}

/// Reading a definition, rendering it and reading the canonical text gives
/// the same definition again.
pub proof fn lemma_parse_render_parse(s: Seq<char>)
    ensures
        parse_struct(s) matches Ok((_, definition)) ==> parse_struct(render_struct(definition))
            == Ok::<_, Mismatch>((Seq::<char>::empty(), definition)),
{
    lemma_parsed_struct_wf(s);
    if let Ok((_, definition)) = parse_struct(s) {
        lemma_render_parses(definition);
    }
}

} // verus!
