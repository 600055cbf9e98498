//! The property classifier: from a declared field — its name, its
//! declared type, and its modifiers — to a property descriptor, a
//! standalone relation descriptor, or a rejection.
//!
//! Classification is data-driven: a record type is described by a list of
//! `FieldDecl` values, one per field, with typed entries for "is the
//! identifier", "index kind", "optional", and the relation target.

use crate::consts;
use crate::merge::pair_text;
use crate::model::{ModelEntity, ModelProperty, ModelRelation};
use crate::text::u64_to_string;
use vstd::prelude::*;

verus! {

/// The declared type of a field, as the host language writes it.
#[derive(Debug, Clone, PartialEq, Eq)]
pub enum DeclaredType {
    Bool,
    I8,
    U8,
    I16,
    U16,
    I32,
    U32,
    I64,
    U64,
    F32,
    F64,
    Char,
    /// Text (`String`).
    Text,
    /// A vector of texts.
    TextVector,
    /// A vector of bytes.
    ByteVector,
    /// A millisecond-precision datetime.
    DateTime,
    /// A nanosecond-precision datetime.
    DateTimeNano,
    /// A single-target relation to the named entity.
    ToOne(String),
    /// A multi-target relation to the named entity.
    ToMany(String),
    /// A type the storage engine does not support, by its written name.
    Other(String),
}

/// The modifiers attached to a declared field.
#[derive(Debug, Clone)]
pub struct FieldModifiers {
    /// The field is the record's identifier.
    pub is_id: bool,
    /// The identifier may be assigned by the caller.
    pub id_assignable: bool,
    /// The field asks for an index.
    pub indexed: bool,
    /// The field's values are unique (implies an index).
    pub unique: bool,
    /// On a unique-constraint conflict the existing record is replaced.
    pub unique_replace: bool,
    /// Explicit index strategy: `"hash"`, `"hash64"` or `"value"`; any
    /// other token is a classification error.
    pub index_kind: Option<String>,
    /// Schema name override, when it differs from the field name.
    pub db_name: Option<String>,
    /// Merge hint: the schema name the field had before a rename.
    pub former_name: Option<String>,
    /// Explicit property sequence number, `0` when unassigned.
    pub id_num: u64,
    /// Explicit property uid, `0` when unassigned.
    pub uid: u64,
    /// Explicit index sequence number, `0` when unassigned.
    pub index_id_num: u64,
    /// Explicit index uid, `0` when unassigned.
    pub index_uid: u64,
    /// Explicit storage type override, `0` when none.
    pub explicit_type: u32,
    /// Extra flag bits to set.
    pub explicit_flags: u32,
}

impl Default for FieldModifiers {
    /// No modifiers at all.
    fn default() -> (r: Self)
        ensures
            !r.is_id,
            !r.id_assignable,
            !r.indexed,
            !r.unique,
            !r.unique_replace,
            r.index_kind is None,
            r.db_name is None,
            r.former_name is None,
            r.id_num == 0,
            r.uid == 0,
            r.index_id_num == 0,
            r.index_uid == 0,
            r.explicit_type == 0,
            r.explicit_flags == 0,
    {
        FieldModifiers {
            is_id: false,
            id_assignable: false,
            indexed: false,
            unique: false,
            unique_replace: false,
            index_kind: None,
            db_name: None,
            former_name: None,
            id_num: 0,
            uid: 0,
            index_id_num: 0,
            index_uid: 0,
            explicit_type: 0,
            explicit_flags: 0,
        }
    }
}

/// One declared field of a record type.
#[derive(Debug, Clone)]
pub struct FieldDecl {
    /// The field name in the host language.
    pub name: String,
    /// The declared type.
    pub ty: DeclaredType,
    /// The type is wrapped in a nullable wrapper: an absent value decodes
    /// to "no value", never to a type-specific zero.
    pub optional: bool,
    /// The attached modifiers.
    pub modifiers: FieldModifiers,
}

/// An identifier pair: the small sequence number and the never-reused
/// uid.
#[derive(Debug, Clone, Copy, PartialEq, Eq, Structural)]
pub struct IdUid {
    pub id: u64,
    pub uid: u64,
}

impl IdUid {
    /// The unassigned pair.
    pub fn zero() -> (r: Self)
        ensures
            r.id == 0,
            r.uid == 0,
    {
        IdUid { id: 0, uid: 0 }
    }

    /// The pair rendered as `"id:uid"` text.
    pub fn render(&self) -> (r: String)
        ensures
            r@ == pair_text(self.id as nat, self.uid as nat),
    {
        let mut s = u64_to_string(self.id);
        s.append(":");
        proof {
            reveal_strlit(":");
            assert(":"@ =~= seq![':']);
        }
        let u = u64_to_string(self.uid);
        s.append(u.as_str());
        proof {
            assert(s@ =~= pair_text(self.id as nat, self.uid as nat));
        }
        s
    }
}

/// A classified property.
#[derive(Debug, Clone)]
pub struct Property {
    /// The schema-visible name.
    pub name: String,
    /// Schema name override from the declaration, when present.
    pub db_name: Option<String>,
    /// Storage type code.
    pub field_type: consts::OBXPropertyType,
    /// Identifier pair.
    pub id: IdUid,
    /// Flag bits.
    pub flags: consts::OBXPropertyFlags,
    /// Index identifier pair as text, when the property is indexed.
    pub index_id: Option<String>,
    /// The host-language type, for code generation.
    pub rust_type: String,
    /// For single-target relation properties: the host field name.
    pub relation_field: Option<String>,
    /// For single-target relation properties: the target entity name.
    pub relation_target: Option<String>,
    /// Merge hint carried from the declaration.
    pub former_name: Option<String>,
}

/// A classified standalone multi-target relation.
#[derive(Debug, Clone)]
pub struct Relation {
    /// The field name in the record.
    pub name: String,
    /// Identifier pair.
    pub id: IdUid,
    /// The target entity name.
    pub target_name: String,
    /// The host-language type, for code generation.
    pub rust_type: String,
}

impl Relation {
    /// A fresh relation for a field of the given name and target.
    pub fn new(name: String, target_name: String) -> (r: Self)
        ensures
            r.name@ == name@,
            r.id.id == 0,
            r.id.uid == 0,
            r.target_name@ == target_name@,
            r.rust_type@ == "ToMany<"@ + target_name@ + ">"@,
    {
        let mut rust_type = to_many_prefix().to_owned();
        rust_type.append(target_name.as_str());
        rust_type.append(">");
        proof {
            assert(rust_type@ =~= "ToMany<"@ + target_name@ + ">"@);
        }
        Relation { name, id: IdUid::zero(), target_name, rust_type }
    }
}

/// The text prefix of a multi-target relation type.
fn to_many_prefix() -> (r: &'static str)
    ensures
        r@ == "ToMany<"@,
{
    "ToMany<"
}

/// A classified field: a property — a single-target relation also
/// becomes one — or a standalone relation.
#[derive(Debug)]
pub enum ParsedField {
    /// A property of the record.
    Property(Property),
    /// A standalone multi-target relation.
    Relation(Relation),
}

/// A rejection: classification or generation cannot proceed; always
/// fatal to the generation pass, surfaced with the entity and field name.
#[derive(Debug, Clone, PartialEq, Eq)]
pub enum SchemaError {
    /// The declared type maps to no supported storage type.
    UnsupportedFieldType { entity: String, field: String },
    /// Two fields map to the same schema name.
    DuplicateSchemaName { entity: String, name: String },
    /// An index-strategy token other than `hash`, `hash64` or `value`.
    MalformedIndexStrategy { field: String, token: String },
    /// A relation names a target entity the model does not hold.
    MissingRelationTarget { field: String, target: String },
    /// A record with no classifiable field at all.
    EmptyEntity { entity: String },
}

impl SchemaError {
    /// A description of the fault, qualified with the entity or field it
    /// concerns.
    pub fn message(&self) -> (r: String)
        ensures
            match self {
                SchemaError::UnsupportedFieldType { entity, field } => r@ ==
                "unsupported field type: "@ + entity@ + "."@ + field@,
                SchemaError::DuplicateSchemaName { entity, name } => r@ ==
                "duplicate schema name: "@ + entity@ + "."@ + name@,
                SchemaError::MalformedIndexStrategy { field, token } => r@ ==
                "unknown index type on "@ + field@ + ": "@ + token@
                    + " (use hash, hash64 or value)"@,
                SchemaError::MissingRelationTarget { field, target } => r@ ==
                "missing relation target for "@ + field@ + ": "@ + target@,
                SchemaError::EmptyEntity { entity } => r@ == "entity "@ + entity@
                    + " has no classifiable fields"@,
            },
    {
        match self {
            SchemaError::UnsupportedFieldType { entity, field } => {
                let mut s = ("unsupported field type: ").to_owned();
                s.append(entity.as_str());
                s.append(".");
                s.append(field.as_str());
                s
            },
            SchemaError::DuplicateSchemaName { entity, name } => {
                let mut s = ("duplicate schema name: ").to_owned();
                s.append(entity.as_str());
                s.append(".");
                s.append(name.as_str());
                s
            },
            SchemaError::MalformedIndexStrategy { field, token } => {
                let mut s = ("unknown index type on ").to_owned();
                s.append(field.as_str());
                s.append(": ");
                s.append(token.as_str());
                s.append(" (use hash, hash64 or value)");
                s
            },
            SchemaError::MissingRelationTarget { field, target } => {
                let mut s = ("missing relation target for ").to_owned();
                s.append(field.as_str());
                s.append(": ");
                s.append(target.as_str());
                s
            },
            SchemaError::EmptyEntity { entity } => {
                let mut s = ("entity ").to_owned();
                s.append(entity.as_str());
                s.append(" has no classifiable fields");
                s
            },
        }
    }
}

/// The storage type a declared type maps to; `0` where none does.
pub open spec fn spec_type_of(ty: DeclaredType) -> u32 {
    match ty {
        DeclaredType::Bool => consts::OBXPropertyType_Bool,
        DeclaredType::I8 => consts::OBXPropertyType_Byte,
        DeclaredType::U8 => consts::OBXPropertyType_Byte,
        DeclaredType::I16 => consts::OBXPropertyType_Short,
        DeclaredType::U16 => consts::OBXPropertyType_Short,
        DeclaredType::I32 => consts::OBXPropertyType_Int,
        DeclaredType::U32 => consts::OBXPropertyType_Int,
        DeclaredType::I64 => consts::OBXPropertyType_Long,
        DeclaredType::U64 => consts::OBXPropertyType_Long,
        DeclaredType::F32 => consts::OBXPropertyType_Float,
        DeclaredType::F64 => consts::OBXPropertyType_Double,
        DeclaredType::Char => consts::OBXPropertyType_Char,
        DeclaredType::Text => consts::OBXPropertyType_String,
        DeclaredType::TextVector => consts::OBXPropertyType_StringVector,
        DeclaredType::ByteVector => consts::OBXPropertyType_ByteVector,
        DeclaredType::DateTime => consts::OBXPropertyType_Date,
        DeclaredType::DateTimeNano => consts::OBXPropertyType_DateNano,
        DeclaredType::ToOne(_) => consts::OBXPropertyType_Relation,
        DeclaredType::ToMany(_) => 0,
        DeclaredType::Other(_) => 0,
    }
}

/// The unsigned flag for unsigned integer widths, `0` otherwise.
pub open spec fn spec_unsigned_of(ty: DeclaredType) -> u32 {
    match ty {
        DeclaredType::U8 => consts::OBXPropertyFlags_UNSIGNED,
        DeclaredType::U16 => consts::OBXPropertyFlags_UNSIGNED,
        DeclaredType::U32 => consts::OBXPropertyFlags_UNSIGNED,
        DeclaredType::U64 => consts::OBXPropertyFlags_UNSIGNED,
        _ => 0,
    }
}

/// Whether the field asks for an index, by either modifier.
pub open spec fn spec_index_requested(f: FieldDecl) -> bool {
    f.modifiers.indexed || f.modifiers.unique
}

/// Whether the explicit index-strategy token is unrecognized.
pub open spec fn spec_bad_index_kind(f: FieldDecl) -> bool {
    match f.modifiers.index_kind {
        Some(s) => !(s@ == "hash"@ || s@ == "hash64"@ || s@ == "value"@),
        None => false,
    }
}

/// The index strategy flag: the explicit token decides; without one a
/// text field defaults to the hashed index and every other field to the
/// value index.
pub open spec fn spec_index_flag(f: FieldDecl) -> u32 {
    match f.modifiers.index_kind {
        Some(s) => if s@ == "hash"@ {
            consts::OBXPropertyFlags_INDEX_HASH
        } else if s@ == "hash64"@ {
            consts::OBXPropertyFlags_INDEX_HASH64
        } else {
            consts::OBXPropertyFlags_INDEXED
        },
        None => if f.ty == DeclaredType::Text {
            consts::OBXPropertyFlags_INDEX_HASH
        } else {
            consts::OBXPropertyFlags_INDEXED
        },
    }
}

/// The flag bits before the type-derived additions: explicit flags, the
/// identifier bits, the uniqueness bits, and the index strategy.
pub open spec fn spec_base_flags(f: FieldDecl) -> u32 {
    f.modifiers.explicit_flags | (if f.modifiers.is_id {
        consts::OBXPropertyFlags_ID | (if f.modifiers.id_assignable {
            consts::OBXPropertyFlags_ID_SELF_ASSIGNABLE
        } else {
            0
        })
    } else {
        0
    }) | (if f.modifiers.unique {
        consts::OBXPropertyFlags_UNIQUE | (if f.modifiers.unique_replace {
            consts::OBXPropertyFlags_UNIQUE_ON_CONFLICT_REPLACE
        } else {
            0
        })
    } else {
        0
    }) | (if spec_index_requested(f) {
        spec_index_flag(f)
    } else {
        0
    })
}

/// The classification has a storage type forced by a modifier: the
/// identifier modifier forces the 64-bit integer type, and an explicit
/// type token forces its own.
pub open spec fn spec_forced_type(f: FieldDecl) -> u32 {
    if f.modifiers.explicit_type != 0 {
        f.modifiers.explicit_type
    } else if f.modifiers.is_id {
        consts::OBXPropertyType_Long
    } else {
        0
    }
}

/// How a classified property relates to its declaration.
pub open spec fn classified_prop(f: FieldDecl, p: Property) -> bool {
    &&& p.id == (IdUid { id: f.modifiers.id_num, uid: f.modifiers.uid })
    &&& p.db_name == f.modifiers.db_name
    &&& p.former_name == f.modifiers.former_name
    &&& if spec_forced_type(f) != 0 {
        &&& p.name@ == f.name@
        &&& p.field_type == spec_forced_type(f)
        &&& p.flags == spec_base_flags(f)
        &&& (p.index_id is Some <==> spec_index_requested(f))
        &&& p.relation_field is None
        &&& p.relation_target is None
        &&& (f.modifiers.is_id && f.modifiers.explicit_type == 0 ==> p.rust_type@ == "u64"@)
    } else {
        match f.ty {
            DeclaredType::ToOne(target) => {
                &&& p.name@ == f.name@ + "Id"@
                &&& p.field_type == consts::OBXPropertyType_Relation
                &&& p.flags == spec_base_flags(f) | consts::OBXPropertyFlags_INDEXED
                    | consts::OBXPropertyFlags_INDEX_PARTIAL_SKIP_ZERO
                &&& p.index_id is Some
                &&& p.relation_field == Some(f.name)
                &&& p.relation_target == Some(target)
                &&& p.rust_type@ == "ToOne<"@ + target@ + ">"@
            },
            DeclaredType::ToMany(_) => false,
            DeclaredType::Other(_) => false,
            _ => {
                &&& p.name@ == f.name@
                &&& p.field_type == spec_type_of(f.ty)
                &&& p.flags == spec_base_flags(f) | spec_unsigned_of(f.ty)
                &&& (p.index_id is Some <==> spec_index_requested(f))
                &&& p.relation_field is None
                &&& p.relation_target is None
                &&& (f.optional ==> p.rust_type@ == "Option<"@ + spec_base_type_name(f.ty)
                    + ">"@)
                &&& (!f.optional ==> p.rust_type@ == spec_base_type_name(f.ty))
            },
        }
    }
    &&& (match p.index_id {
        Some(s) => s@ == pair_text(
            f.modifiers.index_id_num as nat,
            f.modifiers.index_uid as nat,
        ),
        None => true,
    })
}

/// The written name of a supported non-relation declared type.
pub open spec fn spec_base_type_name(ty: DeclaredType) -> Seq<char> {
    match ty {
        DeclaredType::Bool => "bool"@,
        DeclaredType::I8 => "i8"@,
        DeclaredType::U8 => "u8"@,
        DeclaredType::I16 => "i16"@,
        DeclaredType::U16 => "u16"@,
        DeclaredType::I32 => "i32"@,
        DeclaredType::U32 => "u32"@,
        DeclaredType::I64 => "i64"@,
        DeclaredType::U64 => "u64"@,
        DeclaredType::F32 => "f32"@,
        DeclaredType::F64 => "f64"@,
        DeclaredType::Char => "char"@,
        DeclaredType::Text => "String"@,
        DeclaredType::TextVector => "VecString"@,
        DeclaredType::ByteVector => "Vecu8"@,
        DeclaredType::DateTime => "DateTime"@,
        DeclaredType::DateTimeNano => "DateTimeNano"@,
        _ => Seq::empty(),
    }
}

/// How a classified standalone relation relates to its declaration.
pub open spec fn classified_rel(f: FieldDecl, r: Relation) -> bool {
    match f.ty {
        DeclaredType::ToMany(target) => {
            &&& r.name@ == f.name@
            &&& r.id == (IdUid { id: 0u64, uid: 0u64 })
            &&& r.target_name@ == target@
            &&& r.rust_type@ == "ToMany<"@ + target@ + ">"@
        },
        _ => false,
    }
}

/// The kind a declaration classifies to.
pub open spec fn spec_classify_kind(f: FieldDecl) -> int {
    if spec_index_requested(f) && spec_bad_index_kind(f) {
        -1  // malformed index strategy
    } else if spec_forced_type(f) != 0 {
        1  // property
    } else {
        match f.ty {
            DeclaredType::ToMany(_) => 2,  // standalone relation
            DeclaredType::Other(_) => -2,  // unsupported type
            _ => 1,
        }
    }
}

/// The written name of a supported non-relation declared type.
fn base_type_name(ty: &DeclaredType) -> (r: &'static str)
    ensures
        r@ == spec_base_type_name(*ty),
{
    match ty {
        DeclaredType::Bool => "bool",
        DeclaredType::I8 => "i8",
        DeclaredType::U8 => "u8",
        DeclaredType::I16 => "i16",
        DeclaredType::U16 => "u16",
        DeclaredType::I32 => "i32",
        DeclaredType::U32 => "u32",
        DeclaredType::I64 => "i64",
        DeclaredType::U64 => "u64",
        DeclaredType::F32 => "f32",
        DeclaredType::F64 => "f64",
        DeclaredType::Char => "char",
        DeclaredType::Text => "String",
        DeclaredType::TextVector => "VecString",
        DeclaredType::ByteVector => "Vecu8",
        DeclaredType::DateTime => "DateTime",
        DeclaredType::DateTimeNano => "DateTimeNano",
        _ => {
            proof {
                reveal_strlit("");
                assert(""@ =~= Seq::<char>::empty());
            }
            ""
        },
    }
}

/// The storage type a declared type maps to.
fn type_of(ty: &DeclaredType) -> (r: u32)
    ensures
        r == spec_type_of(*ty),
{
    match ty {
        DeclaredType::Bool => consts::OBXPropertyType_Bool,
        DeclaredType::I8 => consts::OBXPropertyType_Byte,
        DeclaredType::U8 => consts::OBXPropertyType_Byte,
        DeclaredType::I16 => consts::OBXPropertyType_Short,
        DeclaredType::U16 => consts::OBXPropertyType_Short,
        DeclaredType::I32 => consts::OBXPropertyType_Int,
        DeclaredType::U32 => consts::OBXPropertyType_Int,
        DeclaredType::I64 => consts::OBXPropertyType_Long,
        DeclaredType::U64 => consts::OBXPropertyType_Long,
        DeclaredType::F32 => consts::OBXPropertyType_Float,
        DeclaredType::F64 => consts::OBXPropertyType_Double,
        DeclaredType::Char => consts::OBXPropertyType_Char,
        DeclaredType::Text => consts::OBXPropertyType_String,
        DeclaredType::TextVector => consts::OBXPropertyType_StringVector,
        DeclaredType::ByteVector => consts::OBXPropertyType_ByteVector,
        DeclaredType::DateTime => consts::OBXPropertyType_Date,
        DeclaredType::DateTimeNano => consts::OBXPropertyType_DateNano,
        DeclaredType::ToOne(_) => consts::OBXPropertyType_Relation,
        DeclaredType::ToMany(_) => 0,
        DeclaredType::Other(_) => 0,
    }
}

/// Classify one declared field: a property, a standalone relation, or a
/// rejection. An unrecognized index-strategy token and a declared type
/// that maps to no storage type are rejections — never skipped silently.
pub fn classify_field(field: FieldDecl) -> (r: Result<ParsedField, SchemaError>)
    ensures
        spec_classify_kind(field) == -1 <==> (r matches Err(
            SchemaError::MalformedIndexStrategy { .. },
        )),
        spec_classify_kind(field) == -2 <==> (r matches Err(
            SchemaError::UnsupportedFieldType { .. },
        )),
        spec_classify_kind(field) == 1 <==> (r matches Ok(ParsedField::Property(_))),
        spec_classify_kind(field) == 2 <==> (r matches Ok(ParsedField::Relation(_))),
        match r {
            Ok(ParsedField::Property(p)) => classified_prop(field, p),
            Ok(ParsedField::Relation(rel)) => classified_rel(field, rel),
            Err(SchemaError::UnsupportedFieldType { entity, field: ef }) => entity@.len() == 0
                && ef@ == field.name@,
            Err(SchemaError::MalformedIndexStrategy { field: ef, token }) => ef@ == field.name@
                && (match field.modifiers.index_kind {
                Some(t) => token@ == t@,
                None => false,
            }),
            Err(_) => false,
        },
{
    let FieldDecl { name, ty, optional, modifiers } = field;
    let ghost gfield = FieldDecl {
        name: name,
        ty: ty,
        optional: optional,
        modifiers: modifiers,
    };
    let index_requested = modifiers.indexed || modifiers.unique;
    let mut index_flag: u32 = 0;
    if index_requested {
        match &modifiers.index_kind {
            Some(token) => {
                if token.eq(&("hash").to_owned()) {
                    index_flag = consts::OBXPropertyFlags_INDEX_HASH;
                } else if token.eq(&("hash64").to_owned()) {
                    index_flag = consts::OBXPropertyFlags_INDEX_HASH64;
                } else if token.eq(&("value").to_owned()) {
                    index_flag = consts::OBXPropertyFlags_INDEXED;
                } else {
                    return Err(
                        SchemaError::MalformedIndexStrategy {
                            field: name,
                            token: token.clone(),
                        },
                    );
                }
            },
            None => {
                if matches!(ty, DeclaredType::Text) {
                    index_flag = consts::OBXPropertyFlags_INDEX_HASH;
                } else {
                    index_flag = consts::OBXPropertyFlags_INDEXED;
                }
            },
        }
        proof {
            assert(index_flag == spec_index_flag(gfield));
        }
    }
    let id_part: u32 = if modifiers.is_id {
        consts::OBXPropertyFlags_ID | (if modifiers.id_assignable {
            consts::OBXPropertyFlags_ID_SELF_ASSIGNABLE
        } else {
            0
        })
    } else {
        0
    };
    let unique_part: u32 = if modifiers.unique {
        consts::OBXPropertyFlags_UNIQUE | (if modifiers.unique_replace {
            consts::OBXPropertyFlags_UNIQUE_ON_CONFLICT_REPLACE
        } else {
            0
        })
    } else {
        0
    };
    let index_part: u32 = if index_requested {
        index_flag
    } else {
        0
    };
    let flags: u32 = modifiers.explicit_flags | id_part | unique_part | index_part;
    proof {
        assert(flags == spec_base_flags(gfield));
    }
    let index_id: Option<String> = if index_requested {
        let pair = IdUid { id: modifiers.index_id_num, uid: modifiers.index_uid };
        Some(pair.render())
    } else {
        None
    };
    let id = IdUid { id: modifiers.id_num, uid: modifiers.uid };
    let forced: u32 = if modifiers.explicit_type != 0 {
        modifiers.explicit_type
    } else if modifiers.is_id {
        consts::OBXPropertyType_Long
    } else {
        0
    };
    if forced != 0 {
        let rust_type: String = if modifiers.is_id && modifiers.explicit_type == 0 {
            ("u64").to_owned()
        } else {
            String::new()
        };
        return Ok(
            ParsedField::Property(
                Property {
                    name,
                    db_name: modifiers.db_name,
                    field_type: forced,
                    id,
                    flags,
                    index_id,
                    rust_type,
                    relation_field: None,
                    relation_target: None,
                    former_name: modifiers.former_name,
                },
            ),
        );
    }
    match ty {
        DeclaredType::ToOne(target) => {
            let mut prop_name = name.clone();
            prop_name.append("Id");
            let mut rust_type = ("ToOne<").to_owned();
            rust_type.append(target.as_str());
            rust_type.append(">");
            let rel_flags = flags | consts::OBXPropertyFlags_INDEXED
                | consts::OBXPropertyFlags_INDEX_PARTIAL_SKIP_ZERO;
            let rel_index_id: Option<String> = match index_id {
                Some(s) => Some(s),
                None => {
                    let pair = IdUid { id: modifiers.index_id_num, uid: modifiers.index_uid };
                    Some(pair.render())
                },
            };
            proof {
                assert(rust_type@ =~= "ToOne<"@ + target@ + ">"@);
            }
            Ok(
                ParsedField::Property(
                    Property {
                        name: prop_name,
                        db_name: modifiers.db_name,
                        field_type: consts::OBXPropertyType_Relation,
                        id,
                        flags: rel_flags,
                        index_id: rel_index_id,
                        rust_type,
                        relation_field: Some(name),
                        relation_target: Some(target),
                        former_name: modifiers.former_name,
                    },
                ),
            )
        },
        DeclaredType::ToMany(target) => {
            Ok(ParsedField::Relation(Relation::new(name, target)))
        },
        DeclaredType::Other(_) => {
            Err(SchemaError::UnsupportedFieldType { entity: String::new(), field: name })
        },
        _ => {
            let base = base_type_name(&ty);
            let rust_type: String = if optional {
                let mut s = ("Option<").to_owned();
                s.append(base);
                s.append(">");
                proof {
                    assert(s@ =~= "Option<"@ + spec_base_type_name(gfield.ty) + ">"@);
                }
                s
            } else {
                base.to_owned()
            };
            let t = type_of(&ty);
            let unsigned: u32 = match ty {
                DeclaredType::U8 => consts::OBXPropertyFlags_UNSIGNED,
                DeclaredType::U16 => consts::OBXPropertyFlags_UNSIGNED,
                DeclaredType::U32 => consts::OBXPropertyFlags_UNSIGNED,
                DeclaredType::U64 => consts::OBXPropertyFlags_UNSIGNED,
                _ => 0,
            };
            Ok(
                ParsedField::Property(
                    Property {
                        name,
                        db_name: modifiers.db_name,
                        field_type: t,
                        id,
                        flags: flags | unsigned,
                        index_id,
                        rust_type,
                        relation_field: None,
                        relation_target: None,
                        former_name: modifiers.former_name,
                    },
                ),
            )
        },
    }
}

/// A text field marked unique (or indexed) without an explicit strategy
/// receives the hashed index strategy; any other field so marked
/// receives the value index strategy.
pub proof fn lemma_default_index_strategy(f: FieldDecl)
    requires
        spec_index_requested(f),
        f.modifiers.index_kind is None,
    ensures
        f.ty == DeclaredType::Text ==> spec_index_flag(f) == consts::OBXPropertyFlags_INDEX_HASH,
        f.ty != DeclaredType::Text ==> spec_index_flag(f) == consts::OBXPropertyFlags_INDEXED,
{
}


/// The positions of the declarations that classify to properties.
pub open spec fn prop_indexes(ds: Seq<FieldDecl>) -> Seq<int>
    decreases ds.len(),
{
    if ds.len() == 0 {
        Seq::empty()
    } else if spec_classify_kind(ds.last()) == 1 {
        prop_indexes(ds.drop_last()).push(ds.len() - 1)
    } else {
        prop_indexes(ds.drop_last())
    }
}

/// The positions of the declarations that classify to standalone
/// relations.
pub open spec fn rel_indexes(ds: Seq<FieldDecl>) -> Seq<int>
    decreases ds.len(),
{
    if ds.len() == 0 {
        Seq::empty()
    } else if spec_classify_kind(ds.last()) == 2 {
        rel_indexes(ds.drop_last()).push(ds.len() - 1)
    } else {
        rel_indexes(ds.drop_last())
    }
}

/// The schema-visible name of a classified property: the declared
/// override where one was given, the field name otherwise.
pub open spec fn schema_name_of(p: Property) -> Seq<char> {
    match p.db_name {
        Some(d) => d@,
        None => p.name@,
    }
}

/// Two classified properties map to the same schema name.
pub open spec fn has_duplicate_schema_name(ps: Seq<Property>) -> bool {
    exists|i: int, j: int|
        0 <= i < j < ps.len() && schema_name_of(#[trigger] ps[i]) == schema_name_of(
            #[trigger] ps[j],
        )
}

/// The schema-visible name a declaration will map to: the declared
/// override where one was given; otherwise the field name, with `Id`
/// appended for a single-target relation field.
pub open spec fn decl_schema_name(f: FieldDecl) -> Seq<char> {
    match f.modifiers.db_name {
        Some(d) => d@,
        None => if spec_forced_type(f) != 0 {
            f.name@
        } else {
            match f.ty {
                DeclaredType::ToOne(_) => f.name@ + "Id"@,
                _ => f.name@,
            }
        },
    }
}

/// Two property declarations map to the same schema name.
pub open spec fn dup_decl_schema_names(ds: Seq<FieldDecl>) -> bool {
    exists|i: int, j: int|
        0 <= i < j < ds.len() && spec_classify_kind(ds[i]) == 1 && spec_classify_kind(ds[j]) == 1
            && #[trigger] decl_schema_name(ds[i]) == #[trigger] decl_schema_name(ds[j])
}

/// The position of the first declaration that fails to classify, or `-1`
/// when every declaration classifies.
pub open spec fn first_unclassifiable(ds: Seq<FieldDecl>) -> int
    decreases ds.len(),
{
    if ds.len() == 0 {
        -1
    } else if spec_classify_kind(ds[0]) < 0 {
        0
    } else {
        let r = first_unclassifiable(ds.drop_first());
        if r == -1 {
            -1
        } else {
            r + 1
        }
    }
}

/// `first_unclassifiable` points at a failing declaration whose
/// predecessors all classify, or is `-1` when every declaration does.
pub proof fn lemma_first_unclassifiable_ensures(ds: Seq<FieldDecl>)
    ensures
        first_unclassifiable(ds) >= -1,
        first_unclassifiable(ds) == -1 ==> forall|k: int|
            0 <= k < ds.len() ==> spec_classify_kind(#[trigger] ds[k]) >= 1,
        first_unclassifiable(ds) >= 0 ==> first_unclassifiable(ds) < ds.len()
            && spec_classify_kind(ds[first_unclassifiable(ds)]) < 0 && forall|k: int|
            0 <= k < first_unclassifiable(ds) ==> spec_classify_kind(#[trigger] ds[k]) >= 1,
    decreases ds.len(),
{
    if ds.len() > 0 && spec_classify_kind(ds[0]) >= 1 {
        lemma_first_unclassifiable_ensures(ds.drop_first());
        let r0 = first_unclassifiable(ds.drop_first());
        let r = first_unclassifiable(ds);
        assert(r == if r0 == -1 {
            -1int
        } else {
            r0 + 1
        });
        if r == -1 {
            assert forall|k: int| 0 <= k < ds.len() implies spec_classify_kind(
                #[trigger] ds[k],
            ) >= 1 by {
                if k >= 1 {
                    assert(ds[k] == ds.drop_first()[k - 1]);
                }
            }
        } else {
            assert(r0 == r - 1);
            assert(0 <= r0 < ds.drop_first().len());
            assert(ds[r] == ds.drop_first()[r - 1]);
            assert forall|k: int| 0 <= k < r implies spec_classify_kind(#[trigger] ds[k]) >= 1 by {
                if k >= 1 {
                    assert(ds[k] == ds.drop_first()[k - 1]);
                }
            }
        }
    }
}

/// A failing declaration whose predecessors all classify is where
/// `first_unclassifiable` points.
pub proof fn lemma_first_unclassifiable_at(ds: Seq<FieldDecl>, r: int)
    requires
        0 <= r < ds.len(),
        spec_classify_kind(ds[r]) < 0,
        forall|k: int| 0 <= k < r ==> spec_classify_kind(#[trigger] ds[k]) >= 1,
    ensures
        first_unclassifiable(ds) == r,
    decreases ds.len(),
{
    if r > 0 {
        assert(spec_classify_kind(ds[0]) >= 1);
        assert(ds.drop_first()[r - 1] == ds[r]);
        assert(forall|k: int| 0 <= k < r - 1 ==> ds.drop_first()[k] == ds[k + 1]);
        lemma_first_unclassifiable_at(ds.drop_first(), r - 1);
    }
}

/// A classified property's schema name is its declaration's.
pub proof fn lemma_classified_schema_name(f: FieldDecl, p: Property)
    requires
        classified_prop(f, p),
    ensures
        schema_name_of(p) == decl_schema_name(f),
{
}

/// The property positions are in range, classify to properties, rise
/// strictly, and cover every property-classifying declaration.
pub proof fn lemma_prop_indexes_props(ds: Seq<FieldDecl>)
    ensures
        forall|j: int| 0 <= j < prop_indexes(ds).len() ==> 0 <= #[trigger] prop_indexes(ds)[j]
            < ds.len() && spec_classify_kind(ds[prop_indexes(ds)[j]]) == 1,
        forall|j1: int, j2: int| 0 <= j1 < j2 < prop_indexes(ds).len() ==> #[trigger] prop_indexes(
            ds,
        )[j1] < #[trigger] prop_indexes(ds)[j2],
        forall|k: int| 0 <= k < ds.len() && spec_classify_kind(#[trigger] ds[k]) == 1 ==> exists|
            j: int,
        | 0 <= j < prop_indexes(ds).len() && #[trigger] prop_indexes(ds)[j] == k,
    decreases ds.len(),
{
    if ds.len() > 0 {
        lemma_prop_indexes_props(ds.drop_last());
        let pi0 = prop_indexes(ds.drop_last());
        let pi = prop_indexes(ds);
        assert(forall|x: int| 0 <= x < ds.len() - 1 ==> #[trigger] ds.drop_last()[x] == ds[x]);
        if spec_classify_kind(ds.last()) == 1 {
            assert(pi == pi0.push(ds.len() - 1));
            assert(ds.last() == ds[ds.len() - 1]);
            assert forall|k: int|
                0 <= k < ds.len() && spec_classify_kind(#[trigger] ds[k]) == 1 implies exists|
                j: int,
            | 0 <= j < pi.len() && #[trigger] pi[j] == k by {
                if k < ds.len() - 1 {
                    assert(ds.drop_last()[k] == ds[k]);
                    let j = choose|j: int| 0 <= j < pi0.len() && #[trigger] pi0[j] == k;
                    assert(pi[j] == k);
                } else {
                    assert(pi[pi.len() - 1] == k);
                }
            }
        } else {
            assert(pi == pi0);
            assert forall|k: int|
                0 <= k < ds.len() && spec_classify_kind(#[trigger] ds[k]) == 1 implies exists|
                j: int,
            | 0 <= j < pi.len() && #[trigger] pi[j] == k by {
                if k < ds.len() - 1 {
                    assert(ds.drop_last()[k] == ds[k]);
                    let j = choose|j: int| 0 <= j < pi0.len() && #[trigger] pi0[j] == k;
                    assert(pi[j] == k);
                } else {
                    assert(ds.last() == ds[ds.len() - 1]);
                    assert(false);
                }
            }
        }
    }
}

/// A classified record type: its name, identifier pair, properties and
/// standalone relations.
#[derive(Debug)]
pub struct Entity {
    /// The record type's name.
    pub name: String,
    /// Identifier pair from the declaration, unassigned when fresh.
    pub id: IdUid,
    /// The classified properties, in declaration order.
    pub fields: Vec<Property>,
    /// The classified standalone relations, in declaration order.
    pub relations: Vec<Relation>,
}

/// The schema name two properties share, when any two do.
fn find_duplicate_schema_name(ps: &Vec<Property>) -> (r: Option<String>)
    ensures
        match r {
            Some(dup) => exists|i: int, j: int|
                0 <= i < j < ps@.len() && #[trigger] schema_name_of(ps@[i]) == dup@
                    && #[trigger] schema_name_of(ps@[j]) == dup@,
            None => !has_duplicate_schema_name(ps@),
        },
{
    let n = ps.len();
    let mut i: usize = 0;
    while i < n
        invariant
            n == ps@.len(),
            i <= n,
            forall|a: int, b: int|
                0 <= a < b < n && a < i ==> schema_name_of(#[trigger] ps@[a]) != schema_name_of(
                    #[trigger] ps@[b],
                ),
        decreases n - i,
    {
        let name_i: &String = match &ps[i].db_name {
            Some(d) => d,
            None => &ps[i].name,
        };
        proof {
            assert(name_i@ == schema_name_of(ps@[i as int]));
        }
        let mut j: usize = i + 1;
        while j < n
            invariant
                n == ps@.len(),
                i < j,
                i < n,
                j <= n,
                name_i@ == schema_name_of(ps@[i as int]),
                forall|b: int|
                    i < b < j ==> schema_name_of(ps@[i as int]) != schema_name_of(
                        #[trigger] ps@[b],
                    ),
            decreases n - j,
        {
            let name_j: &String = match &ps[j].db_name {
                Some(d) => d,
                None => &ps[j].name,
            };
            proof {
                assert(name_j@ == schema_name_of(ps@[j as int]));
            }
            if name_i.eq(name_j) {
                let dup = name_i.clone();
                proof {
                    assert(schema_name_of(ps@[i as int]) == dup@);
                    assert(schema_name_of(ps@[j as int]) == dup@);
                }
                return Some(dup);
            }
            j += 1;
        }
        i += 1;
    }
    proof {
        if has_duplicate_schema_name(ps@) {
            let (a, b) = choose|a: int, b: int|
                0 <= a < b < ps@.len() && schema_name_of(#[trigger] ps@[a]) == schema_name_of(
                    #[trigger] ps@[b],
                );
            assert(false);
        }
    }
    None
}

impl Entity {
    /// Classify a record type from its declared fields. Every field must
    /// classify; a record with no property at all is an error — silent
    /// skipping is forbidden. Success is owed: when every declaration
    /// classifies, at least one is a property, and no two declarations
    /// map to the same schema name, the result is the classified entity;
    /// each rejection names the entity or field it concerns.
    pub fn from_fields(name: String, id: IdUid, decls: Vec<FieldDecl>) -> (r: Result<
        Entity,
        SchemaError,
    >)
        ensures
            match r {
                Ok(e) => {
                    &&& e.name@ == name@
                    &&& e.id == id
                    &&& first_unclassifiable(decls@) == -1
                    &&& !dup_decl_schema_names(decls@)
                    &&& !has_duplicate_schema_name(e.fields@)
                    &&& (forall|k: int| 0 <= k < decls@.len() ==> spec_classify_kind(
                        #[trigger] decls@[k],
                    ) >= 1)
                    &&& e.fields@.len() == prop_indexes(decls@).len()
                    &&& e.fields@.len() >= 1
                    &&& (forall|j: int| 0 <= j < e.fields@.len() ==> classified_prop(
                        decls@[prop_indexes(decls@)[j]],
                        #[trigger] e.fields@[j],
                    ))
                    &&& e.relations@.len() == rel_indexes(decls@).len()
                    &&& (forall|j: int| 0 <= j < e.relations@.len() ==> classified_rel(
                        decls@[rel_indexes(decls@)[j]],
                        #[trigger] e.relations@[j],
                    ))
                },
                Err(SchemaError::MalformedIndexStrategy { field: ef, token }) => {
                    let fb = first_unclassifiable(decls@);
                    &&& 0 <= fb < decls@.len()
                    &&& spec_classify_kind(decls@[fb]) == -1
                    &&& ef@ == decls@[fb].name@
                    &&& (match decls@[fb].modifiers.index_kind {
                        Some(t) => token@ == t@,
                        None => false,
                    })
                },
                Err(SchemaError::UnsupportedFieldType { entity, field: ef }) => {
                    let fb = first_unclassifiable(decls@);
                    &&& entity@ == name@
                    &&& 0 <= fb < decls@.len()
                    &&& spec_classify_kind(decls@[fb]) == -2
                    &&& ef@ == decls@[fb].name@
                },
                Err(SchemaError::EmptyEntity { entity }) => {
                    &&& entity@ == name@
                    &&& first_unclassifiable(decls@) == -1
                    &&& prop_indexes(decls@).len() == 0
                },
                Err(SchemaError::DuplicateSchemaName { entity, name: dup }) => {
                    &&& entity@ == name@
                    &&& first_unclassifiable(decls@) == -1
                    &&& prop_indexes(decls@).len() >= 1
                    &&& exists|i: int, j: int|
                        0 <= i < j < decls@.len() && spec_classify_kind(decls@[i]) == 1
                            && spec_classify_kind(decls@[j]) == 1 && #[trigger] decl_schema_name(
                            decls@[i],
                        ) == dup@ && #[trigger] decl_schema_name(decls@[j]) == dup@
                },
                Err(_) => false,
            },
    {
        let ghost ds = decls@;
        let mut rest = decls;
        let mut fields: Vec<Property> = Vec::new();
        let mut relations: Vec<Relation> = Vec::new();
        proof {
            assert(prop_indexes(ds.take(0)) =~= Seq::<int>::empty());
            assert(rel_indexes(ds.take(0)) =~= Seq::<int>::empty());
        }
        while rest.len() > 0
            invariant
                ds == decls@,
                rest@.len() <= ds.len(),
                rest@ == ds.skip(ds.len() - rest@.len()),
                fields@.len() == prop_indexes(ds.take(ds.len() - rest@.len())).len(),
                relations@.len() == rel_indexes(ds.take(ds.len() - rest@.len())).len(),
                forall|k: int| 0 <= k < ds.len() - rest@.len() ==> spec_classify_kind(
                    #[trigger] ds[k],
                ) >= 1,
                forall|j: int| 0 <= j < fields@.len() ==> classified_prop(
                    ds[prop_indexes(ds.take(ds.len() - rest@.len()))[j]],
                    #[trigger] fields@[j],
                ),
                forall|j: int| 0 <= j < relations@.len() ==> classified_rel(
                    ds[rel_indexes(ds.take(ds.len() - rest@.len()))[j]],
                    #[trigger] relations@[j],
                ),
            decreases rest@.len(),
        {
            let ghost done = ds.len() - rest@.len();
            let d = rest.remove(0);
            proof {
                assert(ds.skip(done as int).remove(0) =~= ds.skip(done as int + 1));
                assert(d == ds[done as int]);
                assert(ds.take(done as int + 1).drop_last() =~= ds.take(done as int));
                assert(ds.take(done as int + 1).last() == ds[done as int]);
            }
            match classify_field(d) {
                Ok(ParsedField::Property(p)) => {
                    fields.push(p);
                },
                Ok(ParsedField::Relation(rel)) => {
                    relations.push(rel);
                },
                Err(e) => {
                    match e {
                        SchemaError::UnsupportedFieldType { entity: _, field } => {
                            proof {
                                assert(spec_classify_kind(ds[done as int]) == -2);
                                lemma_first_unclassifiable_at(ds, done as int);
                            }
                            return Err(
                                SchemaError::UnsupportedFieldType { entity: name, field },
                            );
                        },
                        SchemaError::MalformedIndexStrategy { field, token } => {
                            proof {
                                assert(spec_classify_kind(ds[done as int]) == -1);
                                lemma_first_unclassifiable_at(ds, done as int);
                            }
                            return Err(
                                SchemaError::MalformedIndexStrategy { field, token },
                            );
                        },
                        other => {
                            proof {
                                assert(false);
                            }
                            return Err(other);
                        },
                    }
                },
            }
        }
        proof {
            assert(ds.take(ds.len() as int) =~= ds);
            lemma_first_unclassifiable_ensures(ds);
            if first_unclassifiable(ds) >= 0 {
                assert(false);
            }
            lemma_prop_indexes_props(ds);
        }
        if fields.len() == 0 {
            return Err(SchemaError::EmptyEntity { entity: name });
        }
        match find_duplicate_schema_name(&fields) {
            Some(dup) => {
                proof {
                    let (i, j) = choose|i: int, j: int|
                        0 <= i < j < fields@.len() && #[trigger] schema_name_of(fields@[i])
                            == dup@ && #[trigger] schema_name_of(fields@[j]) == dup@;
                    let a = prop_indexes(ds)[i];
                    let b = prop_indexes(ds)[j];
                    assert(a < b);
                    lemma_classified_schema_name(ds[a], fields@[i]);
                    lemma_classified_schema_name(ds[b], fields@[j]);
                    assert(decl_schema_name(ds[a]) == dup@);
                    assert(decl_schema_name(ds[b]) == dup@);
                }
                return Err(SchemaError::DuplicateSchemaName { entity: name, name: dup });
            },
            None => {},
        }
        proof {
            if dup_decl_schema_names(ds) {
                let (a, b) = choose|a: int, b: int|
                    0 <= a < b < ds.len() && spec_classify_kind(ds[a]) == 1 && spec_classify_kind(
                        ds[b],
                    ) == 1 && #[trigger] decl_schema_name(ds[a]) == #[trigger] decl_schema_name(
                        ds[b],
                    );
                let i = choose|i: int|
                    0 <= i < prop_indexes(ds).len() && #[trigger] prop_indexes(ds)[i] == a;
                let j = choose|j: int|
                    0 <= j < prop_indexes(ds).len() && #[trigger] prop_indexes(ds)[j] == b;
                if i > j {
                    assert(prop_indexes(ds)[j] < prop_indexes(ds)[i]);
                }
                assert(i < j);
                lemma_classified_schema_name(ds[a], fields@[i]);
                lemma_classified_schema_name(ds[b], fields@[j]);
                assert(schema_name_of(fields@[i]) == schema_name_of(fields@[j]));
                assert(has_duplicate_schema_name(fields@));
                assert(false);
            }
        }
        Ok(Entity { name, id, fields, relations })
    }

    /// The identifier pair of the last property, the unassigned pair when
    /// there is none.
    pub fn get_last_property_id(&self) -> (r: IdUid)
        ensures
            self.fields@.len() > 0 ==> r == self.fields@.last().id,
            self.fields@.len() == 0 ==> r == (IdUid { id: 0u64, uid: 0u64 }),
    {
        if self.fields.len() > 0 {
            self.fields[self.fields.len() - 1].id
        } else {
            IdUid::zero()
        }
    }

    /// The properties as schema model descriptors: the schema name is the
    /// declared override where one was given, with the host field name
    /// tracked separately when they diverge.
    pub fn get_properties(&self) -> (r: Vec<ModelProperty>)
        ensures
            r@.len() == self.fields@.len(),
            forall|j: int| 0 <= j < r@.len() ==> model_prop_matches(
                self.fields@[j],
                (#[trigger] r@[j])@,
            ),
    {
        let mut v: Vec<ModelProperty> = Vec::new();
        let n = self.fields.len();
        let mut i: usize = 0;
        while i < n
            invariant
                n == self.fields@.len(),
                i <= n,
                v@.len() == i,
                forall|j: int| 0 <= j < i ==> model_prop_matches(
                    self.fields@[j],
                    (#[trigger] v@[j])@,
                ),
            decreases n - i,
        {
            let f = &self.fields[i];
            let (schema_name, rust_name): (String, String) = match &f.db_name {
                Some(d) => (d.clone(), f.name.clone()),
                None => (f.name.clone(), String::new()),
            };
            let flags: Option<u32> = if f.flags == 0 {
                None
            } else {
                Some(f.flags)
            };
            let p = ModelProperty {
                id: f.id.render(),
                name: schema_name,
                type_field: f.field_type,
                flags,
                index_id: match &f.index_id {
                    Some(s) => Some(s.clone()),
                    None => None,
                },
                rust_type: f.rust_type.clone(),
                rust_name,
                relation_field: match &f.relation_field {
                    Some(s) => Some(s.clone()),
                    None => None,
                },
                relation_target: match &f.relation_target {
                    Some(s) => Some(s.clone()),
                    None => None,
                },
                former_name: match &f.former_name {
                    Some(s) => s.clone(),
                    None => String::new(),
                },
            };
            v.push(p);
            i += 1;
        }
        v
    }

    /// The standalone relations as schema model descriptors.
    pub fn get_relations(&self) -> (r: Vec<ModelRelation>)
        ensures
            r@.len() == self.relations@.len(),
            forall|j: int| 0 <= j < r@.len() ==> model_rel_matches(
                self.relations@[j],
                (#[trigger] r@[j])@,
            ),
    {
        let mut v: Vec<ModelRelation> = Vec::new();
        let n = self.relations.len();
        let mut i: usize = 0;
        while i < n
            invariant
                n == self.relations@.len(),
                i <= n,
                v@.len() == i,
                forall|j: int| 0 <= j < i ==> model_rel_matches(
                    self.relations@[j],
                    (#[trigger] v@[j])@,
                ),
            decreases n - i,
        {
            let rel = &self.relations[i];
            let m = ModelRelation {
                id: rel.id.render(),
                name: rel.name.clone(),
                target_id: None,
                target_name: rel.target_name.clone(),
                rust_type: rel.rust_type.clone(),
            };
            v.push(m);
            i += 1;
        }
        v
    }

    /// The whole entity as a schema model descriptor: its pair rendered,
    /// the last property's pair as the property counter, and every
    /// property and relation mapped.
    pub fn serialize(&self) -> (r: ModelEntity)
        ensures
            r@.id == pair_text(self.id.id as nat, self.id.uid as nat),
            self.fields@.len() > 0 ==> r@.last_property_id == pair_text(
                self.fields@.last().id.id as nat,
                self.fields@.last().id.uid as nat,
            ),
            r@.name == self.name@,
            r@.properties.len() == self.fields@.len(),
            forall|j: int| 0 <= j < r@.properties.len() ==> model_prop_matches(
                self.fields@[j],
                #[trigger] r@.properties[j],
            ),
            r@.relations.len() == self.relations@.len(),
            forall|j: int| 0 <= j < r@.relations.len() ==> model_rel_matches(
                self.relations@[j],
                #[trigger] r@.relations[j],
            ),
    {
        let properties = self.get_properties();
        let relations = self.get_relations();
        let r = ModelEntity {
            id: self.id.render(),
            last_property_id: self.get_last_property_id().render(),
            name: self.name.clone(),
            properties,
            relations,
        };
        proof {
            assert(forall|j: int| 0 <= j < r@.properties.len() ==> #[trigger] r@.properties[j]
                == r.properties@[j]@);
            assert(forall|j: int| 0 <= j < r@.relations.len() ==> #[trigger] r@.relations[j]
                == r.relations@[j]@);
        }
        r
    }
}

/// How a schema model property descriptor reflects a classified
/// property.
pub open spec fn model_prop_matches(f: Property, m: crate::model::PropView) -> bool {
    &&& m.id == pair_text(f.id.id as nat, f.id.uid as nat)
    &&& (match f.db_name {
        Some(d) => m.name == d@ && m.rust_name == f.name@,
        None => m.name == f.name@ && m.rust_name.len() == 0,
    })
    &&& m.type_field == f.field_type
    &&& m.flags == (if f.flags == 0 {
        Option::<u32>::None
    } else {
        Option::<u32>::Some(f.flags)
    })
    &&& (match (f.index_id, m.index_id) {
        (Some(a), Some(b)) => a@ == b,
        (None, None) => true,
        _ => false,
    })
    &&& m.rust_type == f.rust_type@
    &&& (match (f.relation_field, m.relation_field) {
        (Some(a), Some(b)) => a@ == b,
        (None, None) => true,
        _ => false,
    })
    &&& (match (f.relation_target, m.relation_target) {
        (Some(a), Some(b)) => a@ == b,
        (None, None) => true,
        _ => false,
    })
    &&& (match f.former_name {
        Some(a) => m.former_name == a@,
        None => m.former_name.len() == 0,
    })
}

/// How a schema model relation descriptor reflects a classified
/// relation.
pub open spec fn model_rel_matches(rel: Relation, m: crate::model::RelationView) -> bool {
    &&& m.id == pair_text(rel.id.id as nat, rel.id.uid as nat)
    &&& m.name == rel.name@
    &&& m.target_id is None
    &&& m.target_name == rel.target_name@
    &&& m.rust_type == rel.rust_type@
}

} // verus!
