//! The canonical text of a struct definition, such as
//! `struct Test { b: bool, u: u32 }` or `struct Test {}`.

use crate::ast::{field_models, BloomStruct, BloomType, FieldModel, StructModel, TypeModel};
use vstd::prelude::*;
use vstd::string::StringExecFns;

verus! {

/// The text of a type reference: the label of a primitive, or the name.
pub open spec fn type_text(t: TypeModel) -> Seq<char> {
    match t {
        TypeModel::Primitive(p) => p.spec_label(),
        TypeModel::Identifier(name) => name,
    }
}

/// The canonical text of the field at place `i` of a list, with what
/// parts it from the text before it: a space for the first field, a comma
/// and a space for the others.
pub open spec fn render_field(i: int, field: FieldModel) -> Seq<char> {
    (if i == 0 {
        " "@
    } else {
        ", "@
    }) + field.name + ": "@ + type_text(field.t)
}

/// The canonical texts of the fields of a list, one for each.
pub open spec fn render_each(fields: Seq<FieldModel>) -> Seq<Seq<char>> {
    Seq::new(fields.len(), |i: int| render_field(i, fields[i]))
}

/// The canonical text of a field list.
pub open spec fn render_fields(fields: Seq<FieldModel>) -> Seq<char> {
    render_each(fields).flatten()
}

/// The canonical text of a struct definition.
pub open spec fn render_struct(definition: StructModel) -> Seq<char> {
    "struct "@ + definition.name + " {"@ + render_fields(definition.fields) + (if definition.fields.len()
        == 0 {
        "}"@
    } else {
        " }"@
    })
}

impl BloomType {
    /// The text of the type reference: the label of a primitive, or the
    /// name.
    pub fn text(&self) -> (text: &str)
        ensures
            text@ == type_text(self@),
    {
        match self {
            BloomType::Primitive(p) => p.label(),
            BloomType::Identifier(name) => name.as_str(),
        }
    }
}

impl BloomStruct {
    /// The canonical text of the definition.
    pub fn render(&self) -> (text: String)
        ensures
            text@ == render_struct(self@),
    {
        let mut text = String::from_str("struct ");
        text.append(self.name.as_str());
        text.append(" {");
        let ghost head = text@;
        let ghost models = field_models(self.fields@);
        let ghost each = render_each(models);
        let mut i: usize = 0;
        while i < self.fields.len()
            invariant
                i <= self.fields@.len(),
                models == field_models(self.fields@),
                each == render_each(models),
                text@ == head + each.take(i as int).flatten(),
            decreases self.fields@.len() - i,
        {
            let field = &self.fields[i];
            let ghost before = text@;
            if i == 0 {
                text.append(" ");
            } else {
                text.append(", ");
            }
            text.append(field.name.as_str());
            text.append(": ");
            text.append(field.t.text());
            proof {
                let item = each[i as int];
                assert(models[i as int] == field@);
                assert(text@ =~= before + item);
                assert(each.take(i + 1) =~= each.take(i as int).push(item));
                each.take(i as int).lemma_flatten_push(item);
                assert(text@ =~= head + each.take(i + 1).flatten());
            }
            i = i + 1;
        }
        proof {
            assert(each.take(i as int) =~= each);
        }
        if self.fields.len() == 0 {
            text.append("}");
        } else {
            text.append(" }");
        }
        text
    }
}

} // verus!
