//! The values that a parse produces: primitive types, type references,
//! fields and struct definitions, each with its mathematical model.

use crate::chars::is_identifier;
use crate::text::str_eq;
use vstd::prelude::*;

verus! {

/// One of the built-in fixed-width scalar kinds.
#[derive(Clone, Copy, Debug, PartialEq, Eq, Structural)]
pub enum BloomPrimitive {
    Bool,
    U8,
    U16,
    U32,
    U64,
    I8,
    I16,
    I32,
    I64,
    F32,
    F64,
}

impl BloomPrimitive {
    /// The canonical lowercase label of the primitive.
    pub open spec fn spec_label(self) -> Seq<char> {
        match self {
            BloomPrimitive::Bool => "bool"@,
            BloomPrimitive::U8 => "u8"@,
            BloomPrimitive::U16 => "u16"@,
            BloomPrimitive::U32 => "u32"@,
            BloomPrimitive::U64 => "u64"@,
            BloomPrimitive::I8 => "i8"@,
            BloomPrimitive::I16 => "i16"@,
            BloomPrimitive::I32 => "i32"@,
            BloomPrimitive::I64 => "i64"@,
            BloomPrimitive::F32 => "f32"@,
            BloomPrimitive::F64 => "f64"@,
        }
    }

    /// The canonical lowercase label of the primitive.
    pub fn label(&self) -> (s: &'static str)
        ensures
            s@ == self.spec_label(),
    {
        match self {
            BloomPrimitive::Bool => "bool",
            BloomPrimitive::U8 => "u8",
            BloomPrimitive::U16 => "u16",
            BloomPrimitive::U32 => "u32",
            BloomPrimitive::U64 => "u64",
            BloomPrimitive::I8 => "i8",
            BloomPrimitive::I16 => "i16",
            BloomPrimitive::I32 => "i32",
            BloomPrimitive::I64 => "i64",
            BloomPrimitive::F32 => "f32",
            BloomPrimitive::F64 => "f64",
        }
    }

    /// The primitive whose label is exactly `s`, if there is one. The match
    /// is case-sensitive and takes the whole of `s`.
    pub fn from_label(s: &str) -> (r: Option<BloomPrimitive>)
        ensures
            r == primitive_of_label(s@),
    {
        let found = if str_eq(s, "bool") {
            Some(BloomPrimitive::Bool)
        } else if str_eq(s, "u8") {
            Some(BloomPrimitive::U8)
        } else if str_eq(s, "u16") {
            Some(BloomPrimitive::U16)
        } else if str_eq(s, "u32") {
            Some(BloomPrimitive::U32)
        } else if str_eq(s, "u64") {
            Some(BloomPrimitive::U64)
        } else if str_eq(s, "i8") {
            Some(BloomPrimitive::I8)
        } else if str_eq(s, "i16") {
            Some(BloomPrimitive::I16)
        } else if str_eq(s, "i32") {
            Some(BloomPrimitive::I32)
        } else if str_eq(s, "i64") {
            Some(BloomPrimitive::I64)
        } else if str_eq(s, "f32") {
            Some(BloomPrimitive::F32)
        } else if str_eq(s, "f64") {
            Some(BloomPrimitive::F64)
        } else {
            None
        };
        proof {
            match found {
                Some(p) => {
                    assert(p.spec_label() == s@);
                    lemma_label_is_found(p);
                },
                None => {
                    assert forall|p: BloomPrimitive| p.spec_label() != s@ by {
                        match p {
                            BloomPrimitive::Bool => {},
                            BloomPrimitive::U8 => {},
                            BloomPrimitive::U16 => {},
                            BloomPrimitive::U32 => {},
                            BloomPrimitive::U64 => {},
                            BloomPrimitive::I8 => {},
                            BloomPrimitive::I16 => {},
                            BloomPrimitive::I32 => {},
                            BloomPrimitive::I64 => {},
                            BloomPrimitive::F32 => {},
                            BloomPrimitive::F64 => {},
                        }
                    }
                },
            }
        }
        found
    }

    /// Every primitive, once, in declaration order.
    pub fn variants() -> (all: Vec<BloomPrimitive>)
        ensures
            all@.len() == 11,
            all@.no_duplicates(),
            forall|p: BloomPrimitive| all@.contains(p),
            all@[0] == BloomPrimitive::Bool,
            all@[1] == BloomPrimitive::U8,
            all@[2] == BloomPrimitive::U16,
            all@[3] == BloomPrimitive::U32,
            all@[4] == BloomPrimitive::U64,
            all@[5] == BloomPrimitive::I8,
            all@[6] == BloomPrimitive::I16,
            all@[7] == BloomPrimitive::I32,
            all@[8] == BloomPrimitive::I64,
            all@[9] == BloomPrimitive::F32,
            all@[10] == BloomPrimitive::F64,
    {
        let all = vec![
            BloomPrimitive::Bool,
            BloomPrimitive::U8,
            BloomPrimitive::U16,
            BloomPrimitive::U32,
            BloomPrimitive::U64,
            BloomPrimitive::I8,
            BloomPrimitive::I16,
            BloomPrimitive::I32,
            BloomPrimitive::I64,
            BloomPrimitive::F32,
            BloomPrimitive::F64,
        ];
        proof {
            assert forall|p: BloomPrimitive| all@.contains(p) by {
                match p {
                    BloomPrimitive::Bool => assert(all@[0] == p),
                    BloomPrimitive::U8 => assert(all@[1] == p),
                    BloomPrimitive::U16 => assert(all@[2] == p),
                    BloomPrimitive::U32 => assert(all@[3] == p),
                    BloomPrimitive::U64 => assert(all@[4] == p),
                    BloomPrimitive::I8 => assert(all@[5] == p),
                    BloomPrimitive::I16 => assert(all@[6] == p),
                    BloomPrimitive::I32 => assert(all@[7] == p),
                    BloomPrimitive::I64 => assert(all@[8] == p),
                    BloomPrimitive::F32 => assert(all@[9] == p),
                    BloomPrimitive::F64 => assert(all@[10] == p),
                }
            }
        }
        all
    }
}

/// The primitive whose canonical label is `s`, if there is one.
pub open spec fn primitive_of_label(s: Seq<char>) -> Option<BloomPrimitive> {
    if exists|p: BloomPrimitive| p.spec_label() == s {
        Some(choose|p: BloomPrimitive| p.spec_label() == s)
    } else {
        None
    }
}

/// What the characters of the labels are.
pub proof fn lemma_label_text(p: BloomPrimitive)
    ensures
        p.spec_label() == match p {
            BloomPrimitive::Bool => seq!['b', 'o', 'o', 'l'],
            BloomPrimitive::U8 => seq!['u', '8'],
            BloomPrimitive::U16 => seq!['u', '1', '6'],
            BloomPrimitive::U32 => seq!['u', '3', '2'],
            BloomPrimitive::U64 => seq!['u', '6', '4'],
            BloomPrimitive::I8 => seq!['i', '8'],
            BloomPrimitive::I16 => seq!['i', '1', '6'],
            BloomPrimitive::I32 => seq!['i', '3', '2'],
            BloomPrimitive::I64 => seq!['i', '6', '4'],
            BloomPrimitive::F32 => seq!['f', '3', '2'],
            BloomPrimitive::F64 => seq!['f', '6', '4'],
        },
{
    reveal_strlit("bool");
    reveal_strlit("u8");
    reveal_strlit("u16");
    reveal_strlit("u32");
    reveal_strlit("u64");
    reveal_strlit("i8");
    reveal_strlit("i16");
    reveal_strlit("i32");
    reveal_strlit("i64");
    reveal_strlit("f32");
    reveal_strlit("f64");
    match p {
        BloomPrimitive::Bool => assert(p.spec_label() =~= seq!['b', 'o', 'o', 'l']),
        BloomPrimitive::U8 => assert(p.spec_label() =~= seq!['u', '8']),
        BloomPrimitive::U16 => assert(p.spec_label() =~= seq!['u', '1', '6']),
        BloomPrimitive::U32 => assert(p.spec_label() =~= seq!['u', '3', '2']),
        BloomPrimitive::U64 => assert(p.spec_label() =~= seq!['u', '6', '4']),
        BloomPrimitive::I8 => assert(p.spec_label() =~= seq!['i', '8']),
        BloomPrimitive::I16 => assert(p.spec_label() =~= seq!['i', '1', '6']),
        BloomPrimitive::I32 => assert(p.spec_label() =~= seq!['i', '3', '2']),
        BloomPrimitive::I64 => assert(p.spec_label() =~= seq!['i', '6', '4']),
        BloomPrimitive::F32 => assert(p.spec_label() =~= seq!['f', '3', '2']),
        BloomPrimitive::F64 => assert(p.spec_label() =~= seq!['f', '6', '4']),
    }
}

/// No two primitives share a label.
pub proof fn lemma_labels_distinct(p: BloomPrimitive, q: BloomPrimitive)
    requires
        p.spec_label() == q.spec_label(),
    ensures
        p == q,
{
    lemma_label_text(p);
    lemma_label_text(q);
    let a = p.spec_label();
    let b = q.spec_label();
    assert(a.len() == b.len());
    assert(a[0] == b[0]);
    assert(a[1] == b[1]);
    if a.len() > 2 {
        assert(a[2] == b[2]);
    }
}

/// A label leads back to its primitive, and to no other.
pub proof fn lemma_label_is_found(p: BloomPrimitive)
    ensures
        primitive_of_label(p.spec_label()) == Some(p),
{
    let q = choose|q: BloomPrimitive| q.spec_label() == p.spec_label();
    lemma_labels_distinct(q, p);
}

/// Every label is an identifier of the grammar.
pub proof fn lemma_label_is_identifier(p: BloomPrimitive)
    ensures
        is_identifier(p.spec_label()),
{
    lemma_label_text(p);
}

/// A reference to a type: a primitive, or the name of a struct that is
/// resolved elsewhere.
#[derive(Clone, Debug, PartialEq, Eq)]
pub enum BloomType {
    Primitive(BloomPrimitive),
    Identifier(String),
}

/// The model of a [`BloomType`].
pub enum TypeModel {
    Primitive(BloomPrimitive),
    Identifier(Seq<char>),
}

impl View for BloomType {
    type V = TypeModel;

    open spec fn view(&self) -> TypeModel {
        match self {
            BloomType::Primitive(p) => TypeModel::Primitive(*p),
            BloomType::Identifier(name) => TypeModel::Identifier(name@),
        }
    }
}

impl TypeModel {
    /// The reference is one that the grammar can produce: a name is an
    /// identifier, and is not the label of a primitive.
    pub open spec fn wf(self) -> bool {
        match self {
            TypeModel::Primitive(_) => true,
            TypeModel::Identifier(name) => is_identifier(name) && primitive_of_label(name)
                is None,
        }
    }
}

/// A named, typed member of a struct definition.
#[derive(Clone, Debug, PartialEq, Eq)]
pub struct BloomField {
    pub name: String,
    pub t: BloomType,
}

/// The model of a [`BloomField`].
pub struct FieldModel {
    pub name: Seq<char>,
    pub t: TypeModel,
}

impl View for BloomField {
    type V = FieldModel;

    open spec fn view(&self) -> FieldModel {
        FieldModel { name: self.name@, t: self.t@ }
    }
}

impl FieldModel {
    /// The field is one that the grammar can produce.
    pub open spec fn wf(self) -> bool {
        is_identifier(self.name) && self.t.wf()
    }
}

/// A struct definition: a name and its fields, in the order written.
#[derive(Clone, Debug, PartialEq, Eq)]
pub struct BloomStruct {
    pub name: String,
    pub fields: Vec<BloomField>,
}

/// The model of a [`BloomStruct`].
pub struct StructModel {
    pub name: Seq<char>,
    pub fields: Seq<FieldModel>,
}

/// The models of a sequence of fields, in the same order.
pub open spec fn field_models(fields: Seq<BloomField>) -> Seq<FieldModel> {
    fields.map_values(|f: BloomField| f@)
}

impl View for BloomStruct {
    type V = StructModel;

    open spec fn view(&self) -> StructModel {
        StructModel { name: self.name@, fields: field_models(self.fields@) }
    }
}

/// Every field of the sequence is one that the grammar can produce.
pub open spec fn fields_wf(fields: Seq<FieldModel>) -> bool {
    forall|i: int| 0 <= i < fields.len() ==> (#[trigger] fields[i]).wf()
}

impl StructModel {
    /// The definition is one that the grammar can produce.
    pub open spec fn wf(self) -> bool {
        is_identifier(self.name) && fields_wf(self.fields)
    }
}

} // verus!
