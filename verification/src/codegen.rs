//! Code generation from finalized schema descriptors: schema-builder
//! invocation sequences, default-value constructors, table decode steps,
//! field layout ordering, and condition-factory descriptors — each as
//! text with an exact contract.

use crate::consts;
use crate::model::{id_part, uid_part, ModelProperty, ModelRelation, PropView};
use crate::text::{dec_rep, spec_ends_with, spec_starts_with, str_ends_with, str_starts_with};
use vstd::prelude::*;

verus! {

/// The property's host-language field name: the tracked host name when
/// it diverges from the schema name, the schema name otherwise.
pub open spec fn spec_rust_field_name(p: PropView) -> Seq<char> {
    if p.rust_name.len() == 0 {
        p.name
    } else {
        p.rust_name
    }
}

/// The record-struct field name: for a single-target relation property
/// the declared relation field (or the schema name with its `Id` suffix
/// stripped), the host field name otherwise.
pub open spec fn spec_struct_field_name(p: PropView) -> Seq<char> {
    if p.type_field == consts::OBXPropertyType_Relation {
        match p.relation_field {
            Some(f) => f,
            None => {
                let base = spec_rust_field_name(p);
                if spec_ends_with(base, "Id"@) {
                    base.take(base.len() - 2)
                } else {
                    base
                }
            },
        }
    } else {
        spec_rust_field_name(p)
    }
}

/// The target entity name of a single-target relation property: the
/// recorded target, or the inner name of a `ToOne<..>` host type.
pub open spec fn spec_relation_target(p: PropView) -> Seq<char> {
    match p.relation_target {
        Some(t) => t,
        None => if spec_starts_with(p.rust_type, "ToOne<"@) && spec_ends_with(p.rust_type, ">"@) {
            p.rust_type.subrange(6, p.rust_type.len() - 1)
        } else {
            "Unknown"@
        },
    }
}

/// The flag bits, `0` when none are recorded.
pub open spec fn spec_flags_or_zero(p: PropView) -> u32 {
    match p.flags {
        Some(f) => f,
        None => 0u32,
    }
}

/// The schema-builder call declaring the property: its name, identifier
/// pair, storage type, and flags.
pub open spec fn spec_builder_base(p: PropView) -> Seq<char> {
    ".property( \""@ + p.name + "\", "@ + id_part(p.id) + ", "@ + uid_part(p.id) + ", "@
        + dec_rep(p.type_field as nat) + ", "@ + dec_rep(spec_flags_or_zero(p) as nat) + " )"@
}

/// The schema-builder sub-call the property's index or relation target
/// adds after the base call.
pub open spec fn spec_builder_suffix(p: PropView) -> Seq<char> {
    match p.index_id {
        Some(ii) => if p.type_field == consts::OBXPropertyType_Relation {
            ".property_relation(\""@ + spec_relation_target(p) + "\", "@ + id_part(ii) + ", "@
                + uid_part(ii) + ")"@
        } else {
            ".property_index("@ + id_part(ii) + ", "@ + uid_part(ii) + ")"@
        },
        None => Seq::empty(),
    }
}

/// Append to `out` the two segments of an `"id:uid"` pair separated by
/// `", "`.
fn push_pair_args(out: &mut String, pair: &str)
    ensures
        final(out)@ == old(out)@ + id_part(pair@) + ", "@ + uid_part(pair@),
{
    let n = pair.unicode_len();
    let i = crate::model::find_colon(pair, 0);
    proof {
        crate::model::lemma_first_colon_at(pair@, i as int);
    }
    let first = pair.substring_char(0, i);
    proof {
        assert(first@ =~= id_part(pair@));
    }
    out.append(first);
    out.append(", ");
    if i == n {
        proof {
            assert(uid_part(pair@) =~= Seq::<char>::empty());
        }
        return ;
    }
    let j = crate::model::find_colon(pair, i + 1);
    let second = pair.substring_char(i + 1, j);
    proof {
        let rest = pair@.skip(i + 1);
        assert(forall|k: int| 0 <= k < j - i - 1 ==> rest[k] != ':');
        assert(j - (i + 1) < rest.len() ==> rest[j - i - 1] == ':');
        crate::model::lemma_first_colon_at(rest, j - i - 1);
        assert(second@ =~= uid_part(pair@));
    }
    out.append(second);
}

impl ModelProperty {
    /// Whether the host type is a nullable wrapper, so that an absent
    /// value decodes to "no value" rather than a type default.
    pub fn is_optional(&self) -> (r: bool)
        ensures
            r == spec_starts_with(self.rust_type@, "Option<"@),
    {
        str_starts_with(self.rust_type.as_str(), "Option<")
    }

    /// Whether the property stores a single-target relation.
    pub fn is_relation(&self) -> (r: bool)
        ensures
            r == (self.type_field == consts::OBXPropertyType_Relation),
    {
        self.type_field == consts::OBXPropertyType_Relation
    }

    /// Whether the host type is a single-target relation wrapper.
    pub fn is_to_one(&self) -> (r: bool)
        ensures
            r == spec_starts_with(self.rust_type@, "ToOne<"@),
    {
        str_starts_with(self.rust_type.as_str(), "ToOne<")
    }

    /// The target entity name recorded for a single-target relation.
    pub fn get_relation_target(&self) -> (r: Option<&str>)
        ensures
            match r {
                Some(s) => self@.relation_target == Some(s@),
                None => self@.relation_target is None,
            },
    {
        match &self.relation_target {
            Some(s) => Some(s.as_str()),
            None => None,
        }
    }

    /// The declared host field name recorded for a single-target
    /// relation.
    pub fn get_relation_field(&self) -> (r: Option<&str>)
        ensures
            match r {
                Some(s) => self@.relation_field == Some(s@),
                None => self@.relation_field is None,
            },
    {
        match &self.relation_field {
            Some(s) => Some(s.as_str()),
            None => None,
        }
    }

    /// The host-language field name.
    pub fn rust_field_name(&self) -> (r: &str)
        ensures
            r@ == spec_rust_field_name(self@),
    {
        if self.rust_name.as_str().is_empty() {
            self.name.as_str()
        } else {
            self.rust_name.as_str()
        }
    }

    /// The record-struct field name; for a single-target relation the
    /// `Id` suffix of the schema name is stripped.
    pub fn struct_field_name(&self) -> (r: String)
        ensures
            r@ == spec_struct_field_name(self@),
    {
        if self.type_field == consts::OBXPropertyType_Relation {
            match &self.relation_field {
                Some(f) => {
                    return f.clone();
                },
                None => {
                    let base = self.rust_field_name();
                    let n = base.unicode_len();
                    if str_ends_with(base, "Id") {
                        proof {
                            reveal_strlit("Id");
                        }
                        let r = base.substring_char(0, n - 2).to_owned();
                        return r;
                    }
                    return base.to_owned();
                },
            }
        }
        self.rust_field_name().to_owned()
    }

    /// The schema-builder invocation declaring this property, with its
    /// index or relation-target sub-call attached.
    pub fn as_fluent_builder_invocation(&self) -> (r: String)
        ensures
            r@ == spec_builder_base(self@) + spec_builder_suffix(self@),
    {
        let mut out = (".property( \"").to_owned();
        out.append(self.name.as_str());
        out.append("\", ");
        push_pair_args(&mut out, self.id.as_str());
        out.append(", ");
        let t = crate::text::u64_to_string(self.type_field as u64);
        out.append(t.as_str());
        out.append(", ");
        let fl: u32 = match &self.flags {
            Some(f) => *f,
            None => 0,
        };
        let fs = crate::text::u64_to_string(fl as u64);
        out.append(fs.as_str());
        out.append(" )");
        proof {
            assert(out@ =~= spec_builder_base(self@));
        }
        match &self.index_id {
            Some(ii) => {
                if self.type_field == consts::OBXPropertyType_Relation {
                    out.append(".property_relation(\"");
                    let target: String = match &self.relation_target {
                        Some(tn) => tn.clone(),
                        None => {
                            let rt = self.rust_type.as_str();
                            let n = rt.unicode_len();
                            if str_starts_with(rt, "ToOne<") && str_ends_with(rt, ">") {
                                proof {
                                    reveal_strlit("ToOne<");
                                    reveal_strlit(">");
                                    assert(rt@.take(6) == "ToOne<"@);
                                    assert(rt@[5] == rt@.take(6)[5]);
                                    assert("ToOne<"@[5] == '<');
                                    assert(rt@.skip(n - 1) == ">"@);
                                    assert(rt@[n - 1] == rt@.skip(n - 1)[0]);
                                    assert(">"@[0] == '>');
                                    assert(n >= 7);
                                }
                                rt.substring_char(6, n - 1).to_owned()
                            } else {
                                ("Unknown").to_owned()
                            }
                        },
                    };
                    out.append(target.as_str());
                    out.append("\", ");
                    push_pair_args(&mut out, ii.as_str());
                    out.append(")");
                    proof {
                        assert(target@ == spec_relation_target(self@));
                        assert(out@ =~= spec_builder_base(self@) + spec_builder_suffix(self@));
                    }
                } else {
                    out.append(".property_index(");
                    push_pair_args(&mut out, ii.as_str());
                    out.append(")");
                    proof {
                        assert(out@ =~= spec_builder_base(self@) + spec_builder_suffix(self@));
                    }
                }
            },
            None => {
                proof {
                    assert(out@ =~= spec_builder_base(self@) + spec_builder_suffix(self@));
                }
            },
        }
        out
    }

    /// The field's layout sorting priority: 8-byte scalars first, then
    /// variable-length vectors and text, then narrower scalars. The
    /// ordering depends only on the storage type, never on declaration
    /// order.
    pub fn to_sorting_priority(&self) -> (r: usize)
        ensures
            r == spec_sorting_priority(self.type_field),
    {
        if self.type_field == consts::OBXPropertyType_Double || self.type_field
            == consts::OBXPropertyType_Long {
            1
        } else if self.type_field == consts::OBXPropertyType_StringVector {
            2
        } else if self.type_field == consts::OBXPropertyType_ByteVector {
            3
        } else if self.type_field == consts::OBXPropertyType_String {
            4
        } else if self.type_field == consts::OBXPropertyType_Float || self.type_field
            == consts::OBXPropertyType_Int || self.type_field == consts::OBXPropertyType_Char {
            5
        } else if self.type_field == consts::OBXPropertyType_Short {
            6
        } else if self.type_field == consts::OBXPropertyType_Bool || self.type_field
            == consts::OBXPropertyType_Byte {
            7
        } else {
            8
        }
    }
}

/// The layout sorting priority of a storage type: lower sorts earlier.
pub open spec fn spec_sorting_priority(t: u32) -> int {
    if t == consts::OBXPropertyType_Double || t == consts::OBXPropertyType_Long {
        1
    } else if t == consts::OBXPropertyType_StringVector {
        2
    } else if t == consts::OBXPropertyType_ByteVector {
        3
    } else if t == consts::OBXPropertyType_String {
        4
    } else if t == consts::OBXPropertyType_Float || t == consts::OBXPropertyType_Int || t
        == consts::OBXPropertyType_Char {
        5
    } else if t == consts::OBXPropertyType_Short {
        6
    } else if t == consts::OBXPropertyType_Bool || t == consts::OBXPropertyType_Byte {
        7
    } else {
        8
    }
}

/// In the field layout, a 64-bit scalar sorts before text, and text
/// before an 8-bit scalar, whatever the declaration order was.
pub proof fn lemma_layout_order()
    ensures
        spec_sorting_priority(consts::OBXPropertyType_Long) < spec_sorting_priority(
            consts::OBXPropertyType_String,
        ),
        spec_sorting_priority(consts::OBXPropertyType_String) < spec_sorting_priority(
            consts::OBXPropertyType_Byte,
        ),
        spec_sorting_priority(consts::OBXPropertyType_Double) < spec_sorting_priority(
            consts::OBXPropertyType_String,
        ),
        spec_sorting_priority(consts::OBXPropertyType_String) < spec_sorting_priority(
            consts::OBXPropertyType_Bool,
        ),
{
}

impl ModelRelation {
    /// A relation descriptor for a field of the given name and target,
    /// with its identifier pair already rendered.
    pub fn new(id: String, name: String, target_name: String) -> (r: Self)
        ensures
            r@.id == id@,
            r@.name == name@,
            r@.target_id is None,
            r@.target_name == target_name@,
            r@.rust_type == "ToMany<"@ + target_name@ + ">"@,
    {
        let mut rust_type = ("ToMany<").to_owned();
        rust_type.append(target_name.as_str());
        rust_type.append(">");
        proof {
            assert(rust_type@ =~= "ToMany<"@ + target_name@ + ">"@);
        }
        ModelRelation { id, name, target_id: None, target_name, rust_type }
    }

    /// The record-struct field name of this relation.
    pub fn struct_field_name(&self) -> (r: &str)
        ensures
            r@ == self.name@,
    {
        self.name.as_str()
    }

    /// The schema-builder invocation declaring this standalone relation:
    /// its identifier pair and the target entity's.
    pub fn as_fluent_builder_invocation(&self, target_entity_id: &str) -> (r: String)
        ensures
            r@ == ".relation("@ + id_part(self.id@) + ", "@ + uid_part(self.id@) + ", "@
                + id_part(target_entity_id@) + ", "@ + uid_part(target_entity_id@) + ")"@,
    {
        let mut out = (".relation(").to_owned();
        push_pair_args(&mut out, self.id.as_str());
        out.append(", ");
        push_pair_args(&mut out, target_entity_id);
        out.append(")");
        proof {
            assert(out@ =~= ".relation("@ + id_part(self.id@) + ", "@ + uid_part(self.id@)
                + ", "@ + id_part(target_entity_id@) + ", "@ + uid_part(target_entity_id@)
                + ")"@);
        }
        out
    }

    /// The default value of this relation field: a fresh empty
    /// multi-target relation.
    pub fn as_struct_field_default(&self) -> (r: String)
        ensures
            r@ == self.name@ + ": ToMany::new()"@,
    {
        let mut out = self.name.clone();
        out.append(": ToMany::new()");
        out
    }
}


/// The default value text of a property: the zero or empty value of its
/// storage type, "no value" for an optional field, and a fresh empty
/// relation for a single-target relation field.
pub open spec fn spec_struct_default(p: PropView) -> Seq<char> {
    if p.type_field == consts::OBXPropertyType_Relation {
        spec_struct_field_name(p) + ": ToOne::new()"@
    } else {
        let name = spec_rust_field_name(p);
        if spec_starts_with(p.rust_type, "Option<"@) {
            name + ": None"@
        } else if p.type_field == consts::OBXPropertyType_StringVector {
            name + ": Vec::<String>::new()"@
        } else if p.type_field == consts::OBXPropertyType_ByteVector {
            name + ": Vec::<u8>::new()"@
        } else if p.type_field == consts::OBXPropertyType_String {
            name + ": String::from(\"\")"@
        } else if p.type_field == consts::OBXPropertyType_Char {
            name + ": char::from(0)"@
        } else if p.type_field == consts::OBXPropertyType_Bool {
            name + ": false"@
        } else if p.type_field == consts::OBXPropertyType_Float || p.type_field
            == consts::OBXPropertyType_Double {
            name + ": 0.0"@
        } else {
            name + ": 0"@
        }
    }
}

/// The sign letter of an integer read: `u` for unsigned, `i` for signed.
pub open spec fn spec_sign_text(unsigned: bool) -> Seq<char> {
    if unsigned {
        "u"@
    } else {
        "i"@
    }
}

/// The bit width an integer storage type reads with; 64-bit types and
/// the two date types read 64 bits.
pub open spec fn spec_bits_text(t: u32) -> Seq<char> {
    if t == consts::OBXPropertyType_Byte {
        "8"@
    } else if t == consts::OBXPropertyType_Short {
        "16"@
    } else if t == consts::OBXPropertyType_Int {
        "32"@
    } else {
        "64"@
    }
}

/// The decode step of a property at a table offset, as code text. The
/// identifier reads an unsigned 64-bit value with a zero fallback; a
/// single-target relation reads a signed 64-bit target id and seeds a
/// lazy relation; an optional property decodes an absent slot to "no
/// value", never to a type default; a required property substitutes the
/// type default only where the slot is absent.
pub open spec fn spec_decode_text(p: PropView, off: nat) -> Seq<char> {
    let f = spec_rust_field_name(p);
    let o = dec_rep(off);
    if spec_flags_or_zero(p) & consts::OBXPropertyFlags_ID != 0 {
        "*"@ + f + " = table.get::<u64>("@ + o + ", Some(0)).unwrap();"@
    } else if p.type_field == consts::OBXPropertyType_Relation {
        "let target_id = table.get::<i64>("@ + o + ", Some(0)).unwrap() as u64; *"@
            + spec_struct_field_name(p) + " = ToOne::with_id(target_id);"@
    } else if spec_starts_with(p.rust_type, "Option<"@) {
        if p.type_field == consts::OBXPropertyType_StringVector {
            "*"@ + f + " = table.get::<ForwardsUOffset<Vector<ForwardsUOffset<&str>>>>("@ + o
                + ", None).map(|sv| sv.iter().map(|s| s.to_string()).collect());"@
        } else if p.type_field == consts::OBXPropertyType_ByteVector {
            "*"@ + f + " = table.get::<ForwardsUOffset<Vector<u8>>>("@ + o
                + ", None).map(|bv| bv.bytes().to_vec());"@
        } else if p.type_field == consts::OBXPropertyType_String {
            "*"@ + f + " = table.get::<ForwardsUOffset<&str>>("@ + o
                + ", None).map(|s| s.to_string());"@
        } else if p.type_field == consts::OBXPropertyType_Char {
            "*"@ + f + " = table.get::<u32>("@ + o + ", None).and_then(|u| std::char::from_u32(u));"@
        } else if p.type_field == consts::OBXPropertyType_Bool {
            "*"@ + f + " = table.get::<bool>("@ + o + ", None);"@
        } else if p.type_field == consts::OBXPropertyType_Float {
            "*"@ + f + " = table.get::<f32>("@ + o + ", None);"@
        } else if p.type_field == consts::OBXPropertyType_Double {
            "*"@ + f + " = table.get::<f64>("@ + o + ", None);"@
        } else {
            "*"@ + f + " = table.get::<"@ + spec_sign_text(
                spec_flags_or_zero(p) & consts::OBXPropertyFlags_UNSIGNED != 0,
            ) + spec_bits_text(p.type_field) + ">("@ + o + ", None);"@
        }
    } else {
        if p.type_field == consts::OBXPropertyType_StringVector {
            "if let Some(sv) = table.get::<ForwardsUOffset<Vector<ForwardsUOffset<&str>>>>("@ + o
                + ", None) { *"@ + f + " = sv.iter().map(|s| s.to_string()).collect(); }"@
        } else if p.type_field == consts::OBXPropertyType_ByteVector {
            "if let Some(bv) = table.get::<ForwardsUOffset<Vector<u8>>>("@ + o + ", None) { *"@
                + f + " = bv.bytes().to_vec(); }"@
        } else if p.type_field == consts::OBXPropertyType_String {
            "if let Some(s) = table.get::<ForwardsUOffset<&str>>("@ + o + ", None) { *"@ + f
                + " = s.to_string(); }"@
        } else if p.type_field == consts::OBXPropertyType_Char {
            "if let Some(c) = std::char::from_u32(table.get::<u32>("@ + o
                + ", Some(0)).unwrap()) { *"@ + f + " = c; }"@
        } else if p.type_field == consts::OBXPropertyType_Bool {
            "*"@ + f + " = table.get::<bool>("@ + o + ", Some(false)).unwrap();"@
        } else if p.type_field == consts::OBXPropertyType_Float {
            "*"@ + f + " = table.get::<f32>("@ + o + ", Some(0.0)).unwrap();"@
        } else if p.type_field == consts::OBXPropertyType_Double {
            "*"@ + f + " = table.get::<f64>("@ + o + ", Some(0.0)).unwrap();"@
        } else {
            "*"@ + f + " = table.get::<"@ + spec_sign_text(
                spec_flags_or_zero(p) & consts::OBXPropertyFlags_UNSIGNED != 0,
            ) + spec_bits_text(p.type_field) + ">("@ + o + ", Some(0)).unwrap();"@
        }
    }
}

/// The name of the typed condition-builder capability for a storage
/// type; empty where the type supports no comparison conditions.
pub open spec fn spec_blanket_name(t: u32) -> Seq<char> {
    if t == consts::OBXPropertyType_Double {
        "F64Blanket"@
    } else if t == consts::OBXPropertyType_Long {
        "I64Blanket"@
    } else if t == consts::OBXPropertyType_ByteVector {
        "VecU8Blanket"@
    } else if t == consts::OBXPropertyType_String {
        "StringBlanket"@
    } else if t == consts::OBXPropertyType_Float {
        "F32Blanket"@
    } else if t == consts::OBXPropertyType_Int {
        "I32Blanket"@
    } else if t == consts::OBXPropertyType_Char {
        "CharBlanket"@
    } else if t == consts::OBXPropertyType_Short {
        "I16Blanket"@
    } else if t == consts::OBXPropertyType_Bool {
        "BoolBlanket"@
    } else if t == consts::OBXPropertyType_Byte {
        "I8Blanket"@
    } else {
        Seq::empty()
    }
}

/// The name of the typed condition-builder capability for a storage
/// type.
fn blanket_name(t: u32) -> (r: &'static str)
    ensures
        r@ == spec_blanket_name(t),
{
    if t == consts::OBXPropertyType_Double {
        "F64Blanket"
    } else if t == consts::OBXPropertyType_Long {
        "I64Blanket"
    } else if t == consts::OBXPropertyType_ByteVector {
        "VecU8Blanket"
    } else if t == consts::OBXPropertyType_String {
        "StringBlanket"
    } else if t == consts::OBXPropertyType_Float {
        "F32Blanket"
    } else if t == consts::OBXPropertyType_Int {
        "I32Blanket"
    } else if t == consts::OBXPropertyType_Char {
        "CharBlanket"
    } else if t == consts::OBXPropertyType_Short {
        "I16Blanket"
    } else if t == consts::OBXPropertyType_Bool {
        "BoolBlanket"
    } else if t == consts::OBXPropertyType_Byte {
        "I8Blanket"
    } else {
        proof {
            reveal_strlit("");
            assert(""@ =~= Seq::<char>::empty());
        }
        ""
    }
}

impl ModelProperty {
    /// The default value of this property as record-constructor text.
    pub fn as_struct_property_default(&self) -> (r: String)
        ensures
            r@ == spec_struct_default(self@),
    {
        if self.type_field == consts::OBXPropertyType_Relation {
            let mut out = self.struct_field_name();
            out.append(": ToOne::new()");
            return out;
        }
        let mut out = self.rust_field_name().to_owned();
        if self.is_optional() {
            out.append(": None");
        } else if self.type_field == consts::OBXPropertyType_StringVector {
            out.append(": Vec::<String>::new()");
        } else if self.type_field == consts::OBXPropertyType_ByteVector {
            out.append(": Vec::<u8>::new()");
        } else if self.type_field == consts::OBXPropertyType_String {
            out.append(": String::from(\"\")");
        } else if self.type_field == consts::OBXPropertyType_Char {
            out.append(": char::from(0)");
        } else if self.type_field == consts::OBXPropertyType_Bool {
            out.append(": false");
        } else if self.type_field == consts::OBXPropertyType_Float || self.type_field
            == consts::OBXPropertyType_Double {
            out.append(": 0.0");
        } else {
            out.append(": 0");
        }
        out
    }

    /// The decode step of this property at a table offset, as code text.
    pub fn as_assigned_property(&self, offset: usize) -> (r: String)
        ensures
            r@ == spec_decode_text(self@, offset as nat),
    {
        let is_id = match &self.flags {
            Some(f) => *f & consts::OBXPropertyFlags_ID != 0,
            None => false,
        };
        proof {
            assert(0u32 & 1u32 == 0u32) by (bit_vector);
        }
        let off = crate::text::u64_to_string(offset as u64);
        if is_id {
            let mut out = ("*").to_owned();
            out.append(self.rust_field_name());
            out.append(" = table.get::<u64>(");
            out.append(off.as_str());
            out.append(", Some(0)).unwrap();");
            return out;
        }
        if self.type_field == consts::OBXPropertyType_Relation {
            let mut out = ("let target_id = table.get::<i64>(").to_owned();
            out.append(off.as_str());
            out.append(", Some(0)).unwrap() as u64; *");
            let sf = self.struct_field_name();
            out.append(sf.as_str());
            out.append(" = ToOne::with_id(target_id);");
            return out;
        }
        let unsigned = match &self.flags {
            Some(f) => *f & consts::OBXPropertyFlags_UNSIGNED != 0,
            None => false,
        };
        proof {
            assert(0u32 & 8192u32 == 0u32) by (bit_vector);
        }
        let sign: &'static str = if unsigned {
            "u"
        } else {
            "i"
        };
        let bits: &'static str = if self.type_field == consts::OBXPropertyType_Byte {
            "8"
        } else if self.type_field == consts::OBXPropertyType_Short {
            "16"
        } else if self.type_field == consts::OBXPropertyType_Int {
            "32"
        } else {
            "64"
        };
        if self.is_optional() {
            let mut out = ("*").to_owned();
            out.append(self.rust_field_name());
            if self.type_field == consts::OBXPropertyType_StringVector {
                out.append(" = table.get::<ForwardsUOffset<Vector<ForwardsUOffset<&str>>>>(");
                out.append(off.as_str());
                out.append(", None).map(|sv| sv.iter().map(|s| s.to_string()).collect());");
            } else if self.type_field == consts::OBXPropertyType_ByteVector {
                out.append(" = table.get::<ForwardsUOffset<Vector<u8>>>(");
                out.append(off.as_str());
                out.append(", None).map(|bv| bv.bytes().to_vec());");
            } else if self.type_field == consts::OBXPropertyType_String {
                out.append(" = table.get::<ForwardsUOffset<&str>>(");
                out.append(off.as_str());
                out.append(", None).map(|s| s.to_string());");
            } else if self.type_field == consts::OBXPropertyType_Char {
                out.append(" = table.get::<u32>(");
                out.append(off.as_str());
                out.append(", None).and_then(|u| std::char::from_u32(u));");
            } else if self.type_field == consts::OBXPropertyType_Bool {
                out.append(" = table.get::<bool>(");
                out.append(off.as_str());
                out.append(", None);");
            } else if self.type_field == consts::OBXPropertyType_Float {
                out.append(" = table.get::<f32>(");
                out.append(off.as_str());
                out.append(", None);");
            } else if self.type_field == consts::OBXPropertyType_Double {
                out.append(" = table.get::<f64>(");
                out.append(off.as_str());
                out.append(", None);");
            } else {
                out.append(" = table.get::<");
                out.append(sign);
                out.append(bits);
                out.append(">(");
                out.append(off.as_str());
                out.append(", None);");
            }
            return out;
        }
        if self.type_field == consts::OBXPropertyType_StringVector {
            let mut out = (
            "if let Some(sv) = table.get::<ForwardsUOffset<Vector<ForwardsUOffset<&str>>>>(").to_owned();
            out.append(off.as_str());
            out.append(", None) { *");
            out.append(self.rust_field_name());
            out.append(" = sv.iter().map(|s| s.to_string()).collect(); }");
            out
        } else if self.type_field == consts::OBXPropertyType_ByteVector {
            let mut out = ("if let Some(bv) = table.get::<ForwardsUOffset<Vector<u8>>>(").to_owned();
            out.append(off.as_str());
            out.append(", None) { *");
            out.append(self.rust_field_name());
            out.append(" = bv.bytes().to_vec(); }");
            out
        } else if self.type_field == consts::OBXPropertyType_String {
            let mut out = ("if let Some(s) = table.get::<ForwardsUOffset<&str>>(").to_owned();
            out.append(off.as_str());
            out.append(", None) { *");
            out.append(self.rust_field_name());
            out.append(" = s.to_string(); }");
            out
        } else if self.type_field == consts::OBXPropertyType_Char {
            let mut out = ("if let Some(c) = std::char::from_u32(table.get::<u32>(").to_owned();
            out.append(off.as_str());
            out.append(", Some(0)).unwrap()) { *");
            out.append(self.rust_field_name());
            out.append(" = c; }");
            out
        } else if self.type_field == consts::OBXPropertyType_Bool {
            let mut out = ("*").to_owned();
            out.append(self.rust_field_name());
            out.append(" = table.get::<bool>(");
            out.append(off.as_str());
            out.append(", Some(false)).unwrap();");
            out
        } else if self.type_field == consts::OBXPropertyType_Float {
            let mut out = ("*").to_owned();
            out.append(self.rust_field_name());
            out.append(" = table.get::<f32>(");
            out.append(off.as_str());
            out.append(", Some(0.0)).unwrap();");
            out
        } else if self.type_field == consts::OBXPropertyType_Double {
            let mut out = ("*").to_owned();
            out.append(self.rust_field_name());
            out.append(" = table.get::<f64>(");
            out.append(off.as_str());
            out.append(", Some(0.0)).unwrap();");
            out
        } else {
            let mut out = ("*").to_owned();
            out.append(self.rust_field_name());
            out.append(" = table.get::<");
            out.append(sign);
            out.append(bits);
            out.append(">(");
            out.append(off.as_str());
            out.append(", Some(0)).unwrap();");
            out
        }
    }

    /// The condition-factory struct entry for this property: a typed
    /// comparator field, scoped to the owning entity; empty where the
    /// storage type supports no comparison.
    pub fn to_condition_factory_struct_key_value(&self, entity_name: &str) -> (r: String)
        ensures
            spec_blanket_name(self.type_field).len() > 0 ==> r@ == "pub "@ + spec_rust_field_name(
                self@,
            ) + ": Box<dyn qtraits::"@ + spec_blanket_name(self.type_field) + "<"@ + entity_name@
                + ">>,"@,
            spec_blanket_name(self.type_field).len() == 0 ==> r@ == Seq::<char>::empty(),
    {
        let b = blanket_name(self.type_field);
        if b.unicode_len() == 0 {
            return String::new();
        }
        let mut out = ("pub ").to_owned();
        out.append(self.rust_field_name());
        out.append(": Box<dyn qtraits::");
        out.append(b);
        out.append("<");
        out.append(entity_name);
        out.append(">>,");
        out
    }

    /// The condition-factory initializer for this property: a typed
    /// condition builder bound to the entity, its identifier type, this
    /// property's sequence number and its storage type; empty where the
    /// storage type supports no comparison.
    pub fn to_condition_factory_init_dyn(&self, entity_name: &str, entity_id: &str) -> (r: String)
        ensures
            spec_blanket_name(self.type_field).len() > 0 ==> r@ == spec_rust_field_name(self@)
                + ": Box::new(qtraits::create_condition_builder::<"@ + entity_name@ + ", "@
                + entity_id@ + ", "@ + id_part(self.id@) + ", "@ + dec_rep(self.type_field as nat)
                + ">()),"@,
            spec_blanket_name(self.type_field).len() == 0 ==> r@ == Seq::<char>::empty(),
    {
        let b = blanket_name(self.type_field);
        if b.unicode_len() == 0 {
            return String::new();
        }
        let mut out = self.rust_field_name().to_owned();
        out.append(": Box::new(qtraits::create_condition_builder::<");
        out.append(entity_name);
        out.append(", ");
        out.append(entity_id);
        out.append(", ");
        let i = crate::model::find_colon(self.id.as_str(), 0);
        proof {
            crate::model::lemma_first_colon_at(self.id@, i as int);
        }
        let first = self.id.as_str().substring_char(0, i);
        proof {
            assert(first@ =~= id_part(self.id@));
        }
        out.append(first);
        out.append(", ");
        let t = crate::text::u64_to_string(self.type_field as u64);
        out.append(t.as_str());
        out.append(">()),");
        out
    }
}

/// The blanket capability implementation a storage type needs on the
/// entity's condition builder; empty where the type supports no
/// comparison.
pub fn prop_type_to_impl_blanket(type_field: u32, entity_name: &str) -> (r: String)
    ensures
        spec_blanket_name(type_field).len() > 0 ==> r@ == "impl qtraits::"@ + spec_blanket_name(
            type_field,
        ) + "<"@ + entity_name@ + "> for qtraits::ConditionBuilder<"@ + entity_name@ + "> {}"@,
        spec_blanket_name(type_field).len() == 0 ==> r@ == Seq::<char>::empty(),
{
    let b = blanket_name(type_field);
    if b.unicode_len() == 0 {
        return String::new();
    }
    let mut out = ("impl qtraits::").to_owned();
    out.append(b);
    out.append("<");
    out.append(entity_name);
    out.append("> for qtraits::ConditionBuilder<");
    out.append(entity_name);
    out.append("> {}");
    out
}

/// An optional text property decodes an absent value to "no value": its
/// decode step maps the absent slot through, substituting nothing — in
/// particular never an empty text, which stays a present, empty value,
/// distinguishable from absence.
pub proof fn lemma_optional_text_decodes_absent_to_none(p: PropView, off: nat)
    requires
        p.type_field == consts::OBXPropertyType_String,
        spec_starts_with(p.rust_type, "Option<"@),
        spec_flags_or_zero(p) & consts::OBXPropertyFlags_ID == 0,
    ensures
        spec_decode_text(p, off) == "*"@ + spec_rust_field_name(p)
            + " = table.get::<ForwardsUOffset<&str>>("@ + dec_rep(off)
            + ", None).map(|s| s.to_string());"@,
{
}


/// The pair names the target entity of the relation: the entity found
/// under the relation's target name carries exactly this identifier
/// pair.
pub open spec fn target_pair_ok(
    es: Seq<crate::model::EntityView>,
    rel: crate::model::RelationView,
    pair: Seq<char>,
) -> bool {
    let t = crate::merge::find_by_name(es, rel.target_name);
    &&& 0 <= t < es.len()
    &&& pair == es[t].id
}

/// For every standalone relation, the identifier pair of its target
/// entity, looked up by name in the model — the pairs for the
/// schema-builder's relation calls, in entity and relation order. A
/// relation whose target entity the model does not hold is a fault that
/// aborts generation.
pub fn relation_target_pairs(model: &crate::model::ModelInfo) -> (r: Result<
    Vec<Vec<String>>,
    crate::classify::SchemaError,
>)
    ensures
        match r {
            Ok(v) => {
                &&& v@.len() == model@.entities.len()
                &&& forall|k: int| 0 <= k < v@.len() ==> (#[trigger] v@[k])@.len()
                    == model@.entities[k].relations.len()
                &&& forall|k: int, l: int|
                    0 <= k < v@.len() && 0 <= l < v@[k]@.len() ==> target_pair_ok(
                        model@.entities,
                        model@.entities[k].relations[l],
                        (#[trigger] v@[k]@[l])@,
                    )
            },
            Err(crate::classify::SchemaError::MissingRelationTarget { .. }) => exists|
                k: int,
                l: int,
            |
                0 <= k < model@.entities.len() && 0 <= l < model@.entities[k].relations.len()
                    && crate::merge::find_by_name(
                    model@.entities,
                    (#[trigger] model@.entities[k].relations[l]).target_name,
                ) == -1,
            Err(_) => false,
        },
{
    let ghost views = crate::model::entity_views(model.entities@);
    let mut out: Vec<Vec<String>> = Vec::new();
    let n = model.entities.len();
    let mut k: usize = 0;
    while k < n
        invariant
            n == model.entities@.len(),
            k <= n,
            views == crate::model::entity_views(model.entities@),
            views == model@.entities,
            out@.len() == k,
            forall|k2: int| 0 <= k2 < k ==> (#[trigger] out@[k2])@.len()
                == views[k2].relations.len(),
            forall|k2: int, l: int|
                0 <= k2 < k && 0 <= l < out@[k2]@.len() ==> target_pair_ok(
                    views,
                    views[k2].relations[l],
                    (#[trigger] out@[k2]@[l])@,
                ),
        decreases n - k,
    {
        proof {
            assert(views[k as int] == model.entities@[k as int]@);
        }
        let rels = &model.entities[k].relations;
        let m = rels.len();
        let mut pairs: Vec<String> = Vec::new();
        let mut l: usize = 0;
        while l < m
            invariant
                n == model.entities@.len(),
                k < n,
                m == model.entities@[k as int].relations@.len(),
                l <= m,
                views == crate::model::entity_views(model.entities@),
                views == model@.entities,
                views[k as int] == model.entities@[k as int]@,
                rels == model.entities@[k as int].relations,
                pairs@.len() == l,
                forall|l2: int| 0 <= l2 < l ==> target_pair_ok(
                    views,
                    views[k as int].relations[l2],
                    (#[trigger] pairs@[l2])@,
                ),
            decreases m - l,
        {
            proof {
                assert(views[k as int].relations[l as int] == rels@[l as int]@);
            }
            match crate::merge::entity_index_by_name(&model.entities, &rels[l].target_name) {
                Some(t) => {
                    proof {
                        assert(views[t as int] == model.entities@[t as int]@);
                    }
                    let ghost pairs0 = pairs@;
                    pairs.push(model.entities[t].id.clone());
                    proof {
                        assert(crate::merge::find_by_name(
                            views,
                            views[k as int].relations[l as int].target_name,
                        ) == t as int);
                        assert(target_pair_ok(
                            views,
                            views[k as int].relations[l as int],
                            pairs@[l as int]@,
                        ));
                        assert(forall|l2: int| 0 <= l2 < l ==> #[trigger] pairs@[l2]
                            == pairs0[l2]);
                    }
                },
                None => {
                    proof {
                        assert(crate::merge::find_by_name(
                            views,
                            views[k as int].relations[l as int].target_name,
                        ) == -1);
                    }
                    return Err(
                        crate::classify::SchemaError::MissingRelationTarget {
                            field: rels[l].name.clone(),
                            target: rels[l].target_name.clone(),
                        },
                    );
                },
            }
            l += 1;
        }
        let ghost out0 = out@;
        out.push(pairs);
        proof {
            assert(out@[k as int] == pairs);
            assert(forall|k2: int| 0 <= k2 < k ==> #[trigger] out@[k2] == out0[k2]);
        }
        k += 1;
    }
    Ok(out)
}

} // verus!
