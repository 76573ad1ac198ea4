//! The texts of a struct definition: its tokens in order, with any amount
//! of whitespace between them.

use crate::ast::{FieldModel, StructModel};
use crate::chars::{all_in, space_class};
use crate::render::type_text;
use vstd::prelude::*;

verus! {

/// `s` holds nothing but whitespace.
pub open spec fn is_blank(s: Seq<char>) -> bool {
    all_in(s, space_class())
}

/// The whitespace around the tokens of one field.
pub struct FieldLayout {
    /// Before the comma that parts the field from the one before it; the
    /// first field of a list has no such comma.
    pub before_comma: Seq<char>,
    pub before_name: Seq<char>,
    pub before_colon: Seq<char>,
    pub before_type: Seq<char>,
}

impl FieldLayout {
    pub open spec fn blank(self) -> bool {
        &&& is_blank(self.before_comma)
        &&& is_blank(self.before_name)
        &&& is_blank(self.before_colon)
        &&& is_blank(self.before_type)
    }
}

/// The whitespace around the tokens of a struct definition.
pub struct Layout {
    pub before_keyword: Seq<char>,
    pub before_name: Seq<char>,
    pub before_open: Seq<char>,
    pub fields: Seq<FieldLayout>,
    pub before_close: Seq<char>,
}

impl Layout {
    /// The layout holds whitespace only, and has a place for each field.
    pub open spec fn blank_for(self, definition: StructModel) -> bool {
        &&& is_blank(self.before_keyword)
        &&& is_blank(self.before_name)
        &&& is_blank(self.before_open)
        &&& is_blank(self.before_close)
        &&& self.fields.len() == definition.fields.len()
        &&& forall|i: int| 0 <= i < self.fields.len() ==> (#[trigger] self.fields[i]).blank()
    }
}

/// The name, colon and type of a field, each behind its whitespace.
pub open spec fn field_body(field: FieldModel, layout: FieldLayout) -> Seq<char> {
    layout.before_name + field.name + layout.before_colon + seq![':'] + layout.before_type
        + type_text(field.t)
}

/// The text of the field at place `i` of a list: behind the first field,
/// each is led by a comma.
pub open spec fn field_text(i: int, field: FieldModel, layout: FieldLayout) -> Seq<char> {
    if i == 0 {
        field_body(field, layout)
    } else {
        layout.before_comma + seq![','] + field_body(field, layout)
    }
}

/// The texts of the fields of a list, one for each.
pub open spec fn field_texts(fields: Seq<FieldModel>, layouts: Seq<FieldLayout>) -> Seq<
    Seq<char>,
> {
    Seq::new(fields.len(), |i: int| field_text(i, fields[i], layouts[i]))
}

/// The text of a struct definition in the given layout, up to the end of
/// its last field.
pub open spec fn open_text(definition: StructModel, layout: Layout) -> Seq<char> {
    layout.before_keyword + "struct"@ + layout.before_name + definition.name + layout.before_open
        + seq!['{'] + field_texts(definition.fields, layout.fields).flatten()
}

/// The text of a struct definition in the given layout.
pub open spec fn struct_text(definition: StructModel, layout: Layout) -> Seq<char> {
    open_text(definition, layout) + layout.before_close + seq!['}']
}

/// The layout of the canonical text: one space behind the keyword, the name,
/// the opening brace of a list that is not empty, each colon, each comma and
/// the last field.
pub open spec fn canonical_layout(fields: nat) -> Layout {
    Layout {
        before_keyword: Seq::empty(),
        before_name: seq![' '],
        before_open: seq![' '],
        fields: Seq::new(
            fields,
            |i: int|
                FieldLayout {
                    before_comma: Seq::empty(),
                    before_name: seq![' '],
                    before_colon: Seq::empty(),
                    before_type: seq![' '],
                },
        ),
        before_close: if fields == 0 {
            Seq::empty()
        } else {
            seq![' ']
        },
    }
}

} // verus!
