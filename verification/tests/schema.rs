use objectbox::classify::DeclaredType;
use objectbox::classify::Entity;
use objectbox::classify::FieldDecl;
use objectbox::classify::FieldModifiers;
use objectbox::classify::IdUid;
use objectbox::classify::ParsedField;
use objectbox::classify::SchemaError;
use objectbox::classify::classify_field;
use objectbox::codegen::prop_type_to_impl_blanket;
use objectbox::merge::MergeError;
use objectbox::merge::merge;
use objectbox::model::ModelEntity;
use objectbox::model::ModelInfo;
use objectbox::model::ModelProperty;
use objectbox::model::id_num;
use objectbox::model::split_id;
use objectbox::model::uid_num;
use objectbox::text::str_to_u64;
use objectbox::text::u64_to_string;

fn plain_field(name: &str, ty: DeclaredType) -> FieldDecl {
    FieldDecl { name: name.to_string(), ty, optional: false, modifiers: FieldModifiers::default() }
}

fn id_field(name: &str) -> FieldDecl {
    let mut f = plain_field(name, DeclaredType::U64);
    f.modifiers.is_id = true;
    f
}

fn empty_model() -> ModelInfo {
    ModelInfo {
        note1: String::new(),
        note2: String::new(),
        note3: String::new(),
        entities: Vec::new(),
        last_entity_id: String::new(),
        last_index_id: String::new(),
        last_relation_id: String::new(),
        last_sequence_id: String::new(),
        model_version: 5,
        model_version_parser_minimum: 5,
        retired_entity_uids: Vec::new(),
        retired_index_uids: Vec::new(),
        retired_property_uids: Vec::new(),
        retired_relation_uids: Vec::new(),
        version: 1,
    }
}

fn customer_decls() -> Vec<FieldDecl> {
    let mut email = plain_field("email", DeclaredType::Text);
    email.modifiers.unique = true;
    vec![id_field("id"), plain_field("name", DeclaredType::Text), email]
}

fn serialize_entity(name: &str, decls: Vec<FieldDecl>) -> ModelEntity {
    Entity::from_fields(name.to_string(), IdUid::zero(), decls)
        .expect("classifies")
        .serialize()
}

#[test]
fn test_unique_text_gets_hashed_index_by_default() {
    let mut f = plain_field("email", DeclaredType::Text);
    f.modifiers.unique = true;
    match classify_field(f).expect("classifies") {
        ParsedField::Property(p) => {
            assert_eq!(p.field_type, 9); // text storage
            assert!(p.flags & 32 != 0); // unique
            assert!(p.flags & 2048 != 0); // hashed index strategy
            assert!(p.flags & 8 == 0); // not the value strategy
            assert!(p.index_id.is_some());
        }
        _ => panic!("expected a property"),
    }
}

#[test]
fn test_unique_numeric_gets_value_index_by_default() {
    let mut f = plain_field("age", DeclaredType::I32);
    f.modifiers.unique = true;
    match classify_field(f).expect("classifies") {
        ParsedField::Property(p) => {
            assert_eq!(p.field_type, 5);
            assert!(p.flags & 32 != 0);
            assert!(p.flags & 8 != 0); // value index strategy
            assert!(p.flags & 2048 == 0);
        }
        _ => panic!("expected a property"),
    }
}

#[test]
fn test_unknown_index_strategy_is_an_error() {
    let mut f = plain_field("email", DeclaredType::Text);
    f.modifiers.indexed = true;
    f.modifiers.index_kind = Some("btree".to_string());
    match classify_field(f) {
        Err(SchemaError::MalformedIndexStrategy { field, token }) => {
            assert_eq!(field, "email");
            assert_eq!(token, "btree");
        }
        _ => panic!("expected a malformed index strategy error"),
    }
}

#[test]
fn test_unsupported_type_is_an_error() {
    let decls = vec![id_field("id"), plain_field("blob", DeclaredType::Other("Mutex".to_string()))];
    match Entity::from_fields("Holder".to_string(), IdUid::zero(), decls) {
        Err(SchemaError::UnsupportedFieldType { entity, field }) => {
            assert_eq!(entity, "Holder");
            assert_eq!(field, "blob");
        }
        _ => panic!("expected an unsupported field type error"),
    }
}

#[test]
fn test_entity_without_properties_is_an_error() {
    let decls = vec![plain_field("teachers", DeclaredType::ToMany("Teacher".to_string()))];
    match Entity::from_fields("Student".to_string(), IdUid::zero(), decls) {
        Err(SchemaError::EmptyEntity { entity }) => {
            assert_eq!(entity, "Student");
        }
        _ => panic!("expected an empty entity error"),
    }
}

#[test]
fn test_to_one_field_becomes_relation_property() {
    let f = plain_field("customer", DeclaredType::ToOne("Customer".to_string()));
    match classify_field(f).expect("classifies") {
        ParsedField::Property(p) => {
            assert_eq!(p.name, "customerId");
            assert_eq!(p.field_type, 11);
            assert!(p.flags & 8 != 0); // indexed automatically
            assert!(p.flags & 512 != 0); // identifier zero left out of the index
            assert_eq!(p.relation_field.as_deref(), Some("customer"));
            assert_eq!(p.relation_target.as_deref(), Some("Customer"));
            assert_eq!(p.rust_type, "ToOne<Customer>");
            assert!(p.index_id.is_some());
        }
        _ => panic!("expected a property"),
    }
}

#[test]
fn test_to_many_field_becomes_standalone_relation() {
    let f = plain_field("teachers", DeclaredType::ToMany("Teacher".to_string()));
    match classify_field(f).expect("classifies") {
        ParsedField::Relation(r) => {
            assert_eq!(r.name, "teachers");
            assert_eq!(r.target_name, "Teacher");
            assert_eq!(r.rust_type, "ToMany<Teacher>");
        }
        _ => panic!("expected a standalone relation"),
    }
}

#[test]
fn test_optional_scalar_keeps_inner_type() {
    let mut f = plain_field("score", DeclaredType::I32);
    f.optional = true;
    match classify_field(f).expect("classifies") {
        ParsedField::Property(p) => {
            assert_eq!(p.field_type, 5);
            assert_eq!(p.rust_type, "Option<i32>");
        }
        _ => panic!("expected a property"),
    }
}

#[test]
fn model_property_fluent_builder_test() {
    let mp = ModelProperty {
        id: "1:2".to_string(),
        name: "name".to_string(),
        type_field: 3,
        flags: Some(0),
        index_id: Some("2:3".to_string()),
        rust_type: "i16".to_string(),
        rust_name: String::new(),
        relation_field: None,
        relation_target: None,
        former_name: String::new(),
    };
    let s = mp.as_fluent_builder_invocation();
    assert_eq!(s, ".property( \"name\", 1, 2, 3, 0 ).property_index(2, 3)");
}

#[test]
fn test_fluent_builder_relation_property() {
    let mp = ModelProperty {
        id: "4:44".to_string(),
        name: "customerId".to_string(),
        type_field: 11,
        flags: Some(520),
        index_id: Some("7:77".to_string()),
        rust_type: "ToOne<Customer>".to_string(),
        rust_name: String::new(),
        relation_field: Some("customer".to_string()),
        relation_target: Some("Customer".to_string()),
        former_name: String::new(),
    };
    let s = mp.as_fluent_builder_invocation();
    assert_eq!(
        s,
        ".property( \"customerId\", 4, 44, 11, 520 ).property_relation(\"Customer\", 7, 77)"
    );
}

#[test]
fn test_struct_property_defaults() {
    let mut mp = ModelProperty {
        id: "1:1".to_string(),
        name: "label".to_string(),
        type_field: 9,
        flags: None,
        index_id: None,
        rust_type: "String".to_string(),
        rust_name: String::new(),
        relation_field: None,
        relation_target: None,
        former_name: String::new(),
    };
    assert_eq!(mp.as_struct_property_default(), "label: String::from(\"\")");
    mp.rust_type = "Option<String>".to_string();
    assert_eq!(mp.as_struct_property_default(), "label: None");
    mp.rust_type = "bool".to_string();
    mp.type_field = 1;
    assert_eq!(mp.as_struct_property_default(), "label: false");
}

#[test]
fn test_decode_optional_text_yields_no_value_for_absent() {
    // A nullable text field decodes an absent value as "no value" — the
    // emitted step maps the absent slot through instead of substituting
    // an empty string; the required form substitutes only when absent.
    let mut mp = ModelProperty {
        id: "2:2".to_string(),
        name: "nickname".to_string(),
        type_field: 9,
        flags: None,
        index_id: None,
        rust_type: "Option<String>".to_string(),
        rust_name: String::new(),
        relation_field: None,
        relation_target: None,
        former_name: String::new(),
    };
    let optional = mp.as_assigned_property(6);
    assert_eq!(
        optional,
        "*nickname = table.get::<ForwardsUOffset<&str>>(6, None).map(|s| s.to_string());"
    );
    mp.rust_type = "String".to_string();
    let required = mp.as_assigned_property(6);
    assert_eq!(
        required,
        "if let Some(s) = table.get::<ForwardsUOffset<&str>>(6, None) { *nickname = s.to_string(); }"
    );
    assert_ne!(optional, required);
}

#[test]
fn test_decode_id_and_relation_and_unsigned() {
    let idp = ModelProperty {
        id: "1:1".to_string(),
        name: "id".to_string(),
        type_field: 6,
        flags: Some(1),
        index_id: None,
        rust_type: "u64".to_string(),
        rust_name: String::new(),
        relation_field: None,
        relation_target: None,
        former_name: String::new(),
    };
    assert_eq!(idp.as_assigned_property(4), "*id = table.get::<u64>(4, Some(0)).unwrap();");
    let rel = ModelProperty {
        id: "2:2".to_string(),
        name: "customerId".to_string(),
        type_field: 11,
        flags: Some(520),
        index_id: Some("1:9".to_string()),
        rust_type: "ToOne<Customer>".to_string(),
        rust_name: String::new(),
        relation_field: Some("customer".to_string()),
        relation_target: Some("Customer".to_string()),
        former_name: String::new(),
    };
    assert_eq!(
        rel.as_assigned_property(8),
        "let target_id = table.get::<i64>(8, Some(0)).unwrap() as u64; *customer = ToOne::with_id(target_id);"
    );
    let unsigned = ModelProperty {
        id: "3:3".to_string(),
        name: "count".to_string(),
        type_field: 3,
        flags: Some(8192),
        index_id: None,
        rust_type: "u16".to_string(),
        rust_name: String::new(),
        relation_field: None,
        relation_target: None,
        former_name: String::new(),
    };
    assert_eq!(
        unsigned.as_assigned_property(10),
        "*count = table.get::<u16>(10, Some(0)).unwrap();"
    );
}

#[test]
fn test_sorting_priority_layout_order() {
    // 64-bit scalar before text, text before 8-bit scalar, whatever the
    // declaration order.
    let mk = |t: u32| ModelProperty {
        id: "1:1".to_string(),
        name: "x".to_string(),
        type_field: t,
        flags: None,
        index_id: None,
        rust_type: String::new(),
        rust_name: String::new(),
        relation_field: None,
        relation_target: None,
        former_name: String::new(),
    };
    let long = mk(6).to_sorting_priority();
    let text = mk(9).to_sorting_priority();
    let byte = mk(2).to_sorting_priority();
    assert!(long < text);
    assert!(text < byte);
    assert_eq!(long, 1);
    assert_eq!(text, 4);
    assert_eq!(byte, 7);
}

#[test]
fn test_condition_factory_descriptors() {
    let mp = ModelProperty {
        id: "1:2".to_string(),
        name: "name".to_string(),
        type_field: 3,
        flags: Some(0),
        index_id: None,
        rust_type: "i16".to_string(),
        rust_name: String::new(),
        relation_field: None,
        relation_target: None,
        former_name: String::new(),
    };
    assert_eq!(
        mp.to_condition_factory_struct_key_value("SomeEntity"),
        "pub name: Box<dyn qtraits::I16Blanket<SomeEntity>>,"
    );
    assert_eq!(
        mp.to_condition_factory_init_dyn("SomeEntity", "1"),
        "name: Box::new(qtraits::create_condition_builder::<SomeEntity, 1, 1, 3>()),"
    );
    assert_eq!(
        prop_type_to_impl_blanket(3, "SomeEntity"),
        "impl qtraits::I16Blanket<SomeEntity> for qtraits::ConditionBuilder<SomeEntity> {}"
    );
    // A storage type without comparison support yields nothing.
    assert_eq!(prop_type_to_impl_blanket(30, "SomeEntity"), "");
}

#[test]
fn test_text_number_round_trip() {
    assert_eq!(u64_to_string(0), "0");
    assert_eq!(u64_to_string(1706745600000), "1706745600000");
    assert_eq!(u64_to_string(u64::MAX), "18446744073709551615");
    assert_eq!(str_to_u64("18446744073709551615"), Some(u64::MAX));
    assert_eq!(str_to_u64("18446744073709551616"), None); // one past the range
    assert_eq!(str_to_u64(""), None);
    assert_eq!(str_to_u64("12a"), None);
    assert_eq!(str_to_u64("345"), Some(345));
}

#[test]
fn test_split_id_and_parts() {
    let (a, b) = split_id("10:345");
    assert_eq!(a, "10");
    assert_eq!(b, "345");
    assert_eq!(id_num("10:345"), 10);
    assert_eq!(uid_num("10:345"), 345);
    assert_eq!(id_num("7"), 7);
    assert_eq!(uid_num("7"), 0);
}

#[test]
fn test_id_uid_render() {
    assert_eq!(IdUid::zero().render(), "0:0");
    let pair = IdUid { id: 12, uid: 9876543210 };
    assert_eq!(pair.render(), "12:9876543210");
}

#[test]
fn test_from_entities_sorts_and_tracks_last_ids() {
    let b = ModelEntity {
        id: "2:222".to_string(),
        last_property_id: "1:21".to_string(),
        name: "Beta".to_string(),
        properties: vec![ModelProperty {
            id: "1:21".to_string(),
            name: "id".to_string(),
            type_field: 6,
            flags: Some(1),
            index_id: None,
            rust_type: "u64".to_string(),
            rust_name: String::new(),
            relation_field: None,
            relation_target: None,
            former_name: String::new(),
        }],
        relations: Vec::new(),
    };
    let a = ModelEntity {
        id: "1:111".to_string(),
        last_property_id: "2:12".to_string(),
        name: "Alpha".to_string(),
        properties: vec![
            ModelProperty {
                id: "1:11".to_string(),
                name: "id".to_string(),
                type_field: 6,
                flags: Some(1),
                index_id: None,
                rust_type: "u64".to_string(),
                rust_name: String::new(),
                relation_field: None,
                relation_target: None,
                former_name: String::new(),
            },
            ModelProperty {
                id: "2:12".to_string(),
                name: "email".to_string(),
                type_field: 9,
                flags: Some(2080),
                index_id: Some("3:31".to_string()),
                rust_type: "String".to_string(),
                rust_name: String::new(),
                relation_field: None,
                relation_target: None,
                former_name: String::new(),
            },
        ],
        relations: Vec::new(),
    };
    let info = ModelInfo::from_entities(vec![b, a]);
    assert_eq!(info.entities[0].name, "Alpha");
    assert_eq!(info.entities[1].name, "Beta");
    assert_eq!(info.last_entity_id, "2:222");
    assert_eq!(info.last_index_id, "3:31");
    assert_eq!(info.last_relation_id, "");
    assert_eq!(info.model_version, 5);
}

#[test]
fn test_merge_mints_fresh_pairs_on_first_pass() {
    let prev = empty_model();
    let fresh = vec![serialize_entity("Customer", customer_decls())];
    let merged = merge(&prev, fresh).expect("merges");
    assert_eq!(merged.entities.len(), 1);
    let e = &merged.entities[0];
    assert_eq!(e.name, "Customer");
    assert_ne!(uid_num(&e.id), 0);
    for p in &e.properties {
        assert_ne!(uid_num(&p.id), 0);
    }
    // Sequential property ids, starting at one.
    assert_eq!(id_num(&e.properties[0].id), 1);
    assert_eq!(id_num(&e.properties[1].id), 2);
    assert_eq!(id_num(&e.properties[2].id), 3);
}

#[test]
fn test_regeneration_is_idempotent() {
    // Regenerating from the same declarations yields byte-identical
    // identifier assignments.
    let prev = empty_model();
    let first = merge(&prev, vec![serialize_entity("Customer", customer_decls())])
        .expect("merges");
    let again = merge(&first, vec![serialize_entity("Customer", customer_decls())])
        .expect("merges");
    assert_eq!(again.entities.len(), first.entities.len());
    for (e1, e2) in first.entities.iter().zip(again.entities.iter()) {
        assert_eq!(e1.id, e2.id);
        assert_eq!(e1.last_property_id, e2.last_property_id);
        for (p1, p2) in e1.properties.iter().zip(e2.properties.iter()) {
            assert_eq!(p1.id, p2.id);
            assert_eq!(p1.index_id, p2.index_id);
        }
    }
    assert_eq!(first.last_entity_id, again.last_entity_id);
    assert_eq!(first.last_index_id, again.last_index_id);
    assert_eq!(first.last_relation_id, again.last_relation_id);
    assert!(again.retired_property_uids.is_empty());
    assert!(again.retired_entity_uids.is_empty());
}

#[test]
fn test_rename_with_hint_preserves_uid() {
    let prev = empty_model();
    let first = merge(&prev, vec![serialize_entity("Customer", customer_decls())])
        .expect("merges");
    let old_uid = uid_num(&first.entities[0].properties[1].id); // "name"

    let mut renamed = customer_decls();
    renamed[1].name = "fullName".to_string();
    renamed[1].modifiers.former_name = Some("name".to_string());
    let second = merge(&first, vec![serialize_entity("Customer", renamed)]).expect("merges");
    let p = &second.entities[0].properties[1];
    assert_eq!(p.name, "fullName");
    assert_eq!(uid_num(&p.id), old_uid);
    assert!(second.retired_property_uids.is_empty());
}

#[test]
fn test_rename_without_hint_mints_and_retires() {
    let prev = empty_model();
    let first = merge(&prev, vec![serialize_entity("Customer", customer_decls())])
        .expect("merges");
    let old_uid = uid_num(&first.entities[0].properties[1].id); // "name"

    let mut renamed = customer_decls();
    renamed[1].name = "fullName".to_string();
    let second = merge(&first, vec![serialize_entity("Customer", renamed)]).expect("merges");
    let p = &second.entities[0].properties[1];
    assert_eq!(p.name, "fullName");
    assert_ne!(uid_num(&p.id), old_uid);
    assert!(second.retired_property_uids.contains(&old_uid));
}

#[test]
fn test_absent_entity_is_retired_not_erased() {
    let prev = empty_model();
    let first = merge(
        &prev,
        vec![
            serialize_entity("Customer", customer_decls()),
            serialize_entity("Order", vec![id_field("id")]),
        ],
    )
    .expect("merges");
    let order_uid = uid_num(&first.entities[1].id);
    let second = merge(&first, vec![serialize_entity("Customer", customer_decls())])
        .expect("merges");
    assert_eq!(second.entities.len(), 1);
    assert!(second.retired_entity_uids.contains(&order_uid));
}

#[test]
fn test_uid_collision_is_fatal() {
    let mut prev = empty_model();
    let mk = |name: &str| ModelEntity {
        id: "1:77".to_string(),
        last_property_id: "1:1".to_string(),
        name: name.to_string(),
        properties: Vec::new(),
        relations: Vec::new(),
    };
    prev.entities = vec![mk("A"), mk("B")];
    match merge(&prev, Vec::new()) {
        Err(MergeError::UidCollision) => {}
        _ => panic!("expected a uid collision"),
    }
}

#[test]
fn test_standalone_relation_merge_keeps_pair() {
    let prev = empty_model();
    let decls = vec![
        id_field("id"),
        plain_field("teachers", DeclaredType::ToMany("Teacher".to_string())),
    ];
    let first = merge(&prev, vec![serialize_entity("Student", decls.clone())]).expect("merges");
    assert_eq!(first.entities[0].relations.len(), 1);
    let rel_pair = first.entities[0].relations[0].id.clone();
    assert_ne!(uid_num(&rel_pair), 0);
    let second = merge(&first, vec![serialize_entity("Student", decls)]).expect("merges");
    assert_eq!(second.entities[0].relations[0].id, rel_pair);
}

#[test]
fn test_error_messages_are_qualified() {
    let e = SchemaError::UnsupportedFieldType { entity: "Order".to_string(), field: "blob".to_string() };
    assert_eq!(e.message(), "unsupported field type: Order.blob");
    let e = SchemaError::MalformedIndexStrategy { field: "email".to_string(), token: "btree".to_string() };
    assert_eq!(e.message(), "unknown index type on email: btree (use hash, hash64 or value)");
    let e = SchemaError::EmptyEntity { entity: "Ghost".to_string() };
    assert_eq!(e.message(), "entity Ghost has no classifiable fields");
}

#[test]
fn test_declaration_pinned_pairs_survive_merge() {
    // A declaration that pins its own pair, as migrated records do, keeps
    // it through a first merge.
    let mut decls = customer_decls();
    decls[0].modifiers.id_num = 1;
    decls[0].modifiers.uid = 15234086132445654169;
    let e = Entity::from_fields("Pinned".to_string(), IdUid { id: 4, uid: 12469918787009386704 }, decls)
        .expect("classifies")
        .serialize();
    assert_eq!(e.id, "4:12469918787009386704");
    let merged = merge(&empty_model(), vec![e]).expect("merges");
    assert_eq!(merged.entities[0].id, "4:12469918787009386704");
    assert_eq!(merged.entities[0].properties[0].id, "1:15234086132445654169");
}

#[test]
fn test_renamed_schema_name_tracks_host_name() {
    // A schema-name override keeps the host field name tracked beside it.
    let mut f = plain_field("item_name", DeclaredType::Text);
    f.modifiers.db_name = Some("itemName".to_string());
    let e = Entity::from_fields("Renamed".to_string(), IdUid::zero(), vec![id_field("id"), f])
        .expect("classifies")
        .serialize();
    let p = &e.properties[1];
    assert_eq!(p.name, "itemName");
    assert_eq!(p.rust_name, "item_name");
    assert_eq!(p.rust_field_name(), "item_name");
}

#[test]
fn test_relation_builder_invocation() {
    let r = objectbox::model::ModelRelation::new(
        "2:21".to_string(),
        "teachers".to_string(),
        "Teacher".to_string(),
    );
    assert_eq!(r.rust_type, "ToMany<Teacher>");
    assert_eq!(r.struct_field_name(), "teachers");
    assert_eq!(r.as_fluent_builder_invocation("5:55"), ".relation(2, 21, 5, 55)");
    assert_eq!(r.as_struct_field_default(), "teachers: ToMany::new()");
}

#[test]
fn test_duplicate_schema_name_is_an_error() {
    let mut a = plain_field("item_name", DeclaredType::Text);
    a.modifiers.db_name = Some("itemName".to_string());
    let b = plain_field("itemName", DeclaredType::Text);
    match Entity::from_fields("Dup".to_string(), IdUid::zero(), vec![id_field("id"), a, b]) {
        Err(SchemaError::DuplicateSchemaName { entity, name }) => {
            assert_eq!(entity, "Dup");
            assert_eq!(name, "itemName");
        }
        _ => panic!("expected a duplicate schema name error"),
    }
}

#[test]
fn test_relation_target_resolution() {
    let prev = empty_model();
    let teacher = serialize_entity("Teacher", vec![id_field("id")]);
    let student = serialize_entity(
        "Student",
        vec![id_field("id"), plain_field("teachers", DeclaredType::ToMany("Teacher".to_string()))],
    );
    let merged = merge(&prev, vec![teacher, student]).expect("merges");
    let pairs = objectbox::codegen::relation_target_pairs(&merged).expect("resolves");
    assert_eq!(pairs.len(), 2);
    assert!(pairs[0].is_empty());
    assert_eq!(pairs[1].len(), 1);
    assert_eq!(pairs[1][0], merged.entities[0].id);
}

#[test]
fn test_missing_relation_target_is_an_error() {
    let prev = empty_model();
    let student = serialize_entity(
        "Student",
        vec![id_field("id"), plain_field("ghosts", DeclaredType::ToMany("Ghost".to_string()))],
    );
    let merged = merge(&prev, vec![student]).expect("merges");
    match objectbox::codegen::relation_target_pairs(&merged) {
        Err(SchemaError::MissingRelationTarget { field, target }) => {
            assert_eq!(field, "ghosts");
            assert_eq!(target, "Ghost");
        }
        _ => panic!("expected a missing relation target error"),
    }
}

#[test]
fn test_relation_schema_name_can_collide_with_plain_field() {
    // A single-target relation field "customer" maps to the schema name
    // "customerId"; a plain field declared under that name collides.
    let decls = vec![
        id_field("id"),
        plain_field("customer", DeclaredType::ToOne("Customer".to_string())),
        plain_field("customerId", DeclaredType::Text),
    ];
    match Entity::from_fields("Order".to_string(), IdUid::zero(), decls) {
        Err(SchemaError::DuplicateSchemaName { entity, name }) => {
            assert_eq!(entity, "Order");
            assert_eq!(name, "customerId");
        }
        _ => panic!("expected a duplicate schema name error"),
    }
}
