//! The schema model: a versioned description of entities, properties and
//! standalone relations, each carrying a stable `"id:uid"` identifier
//! pair. The `id` is a small sequence number; the `uid` is a 64-bit value
//! assigned once and never reused, so that an element keeps its identity
//! across regenerations even when its name or sequence number changes.

use crate::consts;
use crate::text::{
    dec_value, first_colon, is_dec_digits, lemma_lex_le_total, lex_le, str_lex_le, str_to_u64,
};
use vstd::prelude::*;
use vstd::seq_lib::lemma_multiset_commutative;

verus! {

/// The abstract value of a property descriptor: every field as plain
/// text or numbers.
pub struct PropView {
    pub id: Seq<char>,
    pub name: Seq<char>,
    pub type_field: u32,
    pub flags: Option<u32>,
    pub index_id: Option<Seq<char>>,
    pub rust_type: Seq<char>,
    pub rust_name: Seq<char>,
    pub relation_field: Option<Seq<char>>,
    pub relation_target: Option<Seq<char>>,
    pub former_name: Seq<char>,
}

/// The abstract value of a standalone relation descriptor.
pub struct RelationView {
    pub id: Seq<char>,
    pub name: Seq<char>,
    pub target_id: Option<Seq<char>>,
    pub target_name: Seq<char>,
    pub rust_type: Seq<char>,
}

/// The abstract value of an entity descriptor.
pub struct EntityView {
    pub id: Seq<char>,
    pub last_property_id: Seq<char>,
    pub name: Seq<char>,
    pub properties: Seq<PropView>,
    pub relations: Seq<RelationView>,
}

/// The abstract value of a whole schema model.
pub struct ModelView {
    pub entities: Seq<EntityView>,
    pub last_entity_id: Seq<char>,
    pub last_index_id: Seq<char>,
    pub last_relation_id: Seq<char>,
    pub retired_entity_uids: Seq<u64>,
    pub retired_index_uids: Seq<u64>,
    pub retired_property_uids: Seq<u64>,
    pub retired_relation_uids: Seq<u64>,
}

/// One property of an entity: its stable identifier pair, its
/// schema-visible name, storage type, flags, optional index identifier,
/// and — for single-target relation properties — the linkage to the
/// target entity.
pub struct ModelProperty {
    /// Identifier pair in `"id:uid"` form.
    pub id: String,
    /// Property name in the schema; may differ from the host field name.
    pub name: String,
    /// Storage type code.
    pub type_field: consts::OBXPropertyType,
    /// Flag bits, if any are set.
    pub flags: Option<consts::OBXPropertyFlags>,
    /// Identifier pair of the index backing this property, when indexed.
    pub index_id: Option<String>,
    /// Host-language type of the field, for code generation.
    pub rust_type: String,
    /// Host field name when it differs from `name`; empty when equal.
    pub rust_name: String,
    /// For single-target relation properties: the host field name.
    pub relation_field: Option<String>,
    /// For single-target relation properties: the target entity name.
    pub relation_target: Option<String>,
    /// Merge hint: the schema name this property had in the previous
    /// model, when the name changed; empty when it did not.
    pub former_name: String,
}

/// A standalone multi-target relation between entities, stored as its own
/// identified schema element.
pub struct ModelRelation {
    /// Identifier pair in `"id:uid"` form.
    pub id: String,
    /// Name of the relation field in the source entity.
    pub name: String,
    /// Identifier pair of the target entity, once resolved.
    pub target_id: Option<String>,
    /// Target entity name, used during code generation.
    pub target_name: String,
    /// Host-language type of the field, for code generation.
    pub rust_type: String,
}

/// One entity of the schema: its identifier pair, its properties in
/// declaration order, and its standalone relations.
pub struct ModelEntity {
    /// Identifier pair in `"id:uid"` form.
    pub id: String,
    /// Identifier pair of the highest property id ever assigned in this
    /// entity.
    pub last_property_id: String,
    /// Entity name, unique within the model.
    pub name: String,
    /// Properties, in order.
    pub properties: Vec<ModelProperty>,
    /// Standalone relations, in order.
    pub relations: Vec<ModelRelation>,
}

/// The whole schema model: the entities plus the last-assigned identifier
/// pairs and the retired uids, which keep removed elements from ever
/// being reassigned.
pub struct ModelInfo {
    pub note1: String,
    pub note2: String,
    pub note3: String,
    pub entities: Vec<ModelEntity>,
    pub last_entity_id: String,
    pub last_index_id: String,
    pub last_relation_id: String,
    pub last_sequence_id: String,
    pub model_version: u64,
    pub model_version_parser_minimum: u64,
    pub retired_entity_uids: Vec<u64>,
    pub retired_index_uids: Vec<u64>,
    pub retired_property_uids: Vec<u64>,
    pub retired_relation_uids: Vec<u64>,
    pub version: u64,
}

impl View for ModelProperty {
    type V = PropView;

    open spec fn view(&self) -> PropView {
        PropView {
            id: self.id@,
            name: self.name@,
            type_field: self.type_field,
            flags: self.flags,
            index_id: match self.index_id {
                Some(s) => Some(s@),
                None => None,
            },
            rust_type: self.rust_type@,
            rust_name: self.rust_name@,
            relation_field: match self.relation_field {
                Some(s) => Some(s@),
                None => None,
            },
            relation_target: match self.relation_target {
                Some(s) => Some(s@),
                None => None,
            },
            former_name: self.former_name@,
        }
    }
}

impl View for ModelRelation {
    type V = RelationView;

    open spec fn view(&self) -> RelationView {
        RelationView {
            id: self.id@,
            name: self.name@,
            target_id: match self.target_id {
                Some(s) => Some(s@),
                None => None,
            },
            target_name: self.target_name@,
            rust_type: self.rust_type@,
        }
    }
}

impl View for ModelEntity {
    type V = EntityView;

    open spec fn view(&self) -> EntityView {
        EntityView {
            id: self.id@,
            last_property_id: self.last_property_id@,
            name: self.name@,
            properties: Seq::new(
                self.properties@.len(),
                |i: int| self.properties@[i]@,
            ),
            relations: Seq::new(self.relations@.len(), |i: int| self.relations@[i]@),
        }
    }
}

/// The abstract values of a sequence of entities, element-wise.
pub open spec fn entity_views(v: Seq<ModelEntity>) -> Seq<EntityView> {
    Seq::new(v.len(), |i: int| v[i]@)
}

impl View for ModelInfo {
    type V = ModelView;

    open spec fn view(&self) -> ModelView {
        ModelView {
            entities: entity_views(self.entities@),
            last_entity_id: self.last_entity_id@,
            last_index_id: self.last_index_id@,
            last_relation_id: self.last_relation_id@,
            retired_entity_uids: self.retired_entity_uids@,
            retired_index_uids: self.retired_index_uids@,
            retired_property_uids: self.retired_property_uids@,
            retired_relation_uids: self.retired_relation_uids@,
        }
    }
}

/// The text before the first `:` of an identifier pair.
pub open spec fn id_part(s: Seq<char>) -> Seq<char> {
    s.take(first_colon(s))
}

/// The text between the first `:` and the following `:` or the end;
/// empty when there is no `:`.
pub open spec fn uid_part(s: Seq<char>) -> Seq<char> {
    if first_colon(s) == s.len() {
        Seq::empty()
    } else {
        let rest = s.skip(first_colon(s) + 1);
        rest.take(first_colon(rest))
    }
}

/// Whether the text holds a `:` at all.
pub open spec fn has_colon(s: Seq<char>) -> bool {
    exists|j: int| 0 <= j < s.len() && s[j] == ':'
}

/// The number the text before the first `:` denotes, `0` when it denotes
/// none in the 64-bit range.
pub open spec fn spec_id_num(s: Seq<char>) -> int {
    let seg = id_part(s);
    if is_dec_digits(seg) && dec_value(seg) <= u64::MAX {
        dec_value(seg)
    } else {
        0
    }
}

/// The number the uid part denotes, `0` when it denotes none in the
/// 64-bit range.
pub open spec fn spec_uid_num(s: Seq<char>) -> int {
    let seg = uid_part(s);
    if is_dec_digits(seg) && dec_value(seg) <= u64::MAX {
        dec_value(seg)
    } else {
        0
    }
}

/// The index of the first `:` at or after `from`, or the length when
/// there is none.
pub fn find_colon(s: &str, from: usize) -> (r: usize)
    requires
        from <= s@.len(),
    ensures
        from <= r <= s@.len(),
        forall|j: int| from <= j < r ==> s@[j] != ':',
        r < s@.len() ==> s@[r as int] == ':',
{
    let n = s.unicode_len();
    let mut i: usize = from;
    while i < n
        invariant
            n == s@.len(),
            from <= i <= n,
            forall|j: int| from <= j < i ==> s@[j] != ':',
        decreases n - i,
    {
        if s.get_char(i) == ':' {
            return i;
        }
        i += 1;
    }
    n
}

/// A position whose prefix holds no `:` and which holds one itself (or is
/// the end) is where `first_colon` points.
pub proof fn lemma_first_colon_at(s: Seq<char>, r: int)
    requires
        0 <= r <= s.len(),
        forall|j: int| 0 <= j < r ==> s[j] != ':',
        r < s.len() ==> s[r] == ':',
    ensures
        first_colon(s) == r,
    decreases s.len(),
{
    if s.len() > 0 && r > 0 {
        assert(s[0] != ':');
        assert(forall|j: int| 0 <= j < r - 1 ==> s.drop_first()[j] != ':');
        assert(r - 1 < s.drop_first().len() ==> s.drop_first()[r - 1] == ':');
        lemma_first_colon_at(s.drop_first(), r - 1);
    }
}

/// Split an `"id:uid"` pair into its two segments: the text before the
/// first `:`, and the text from there to the next `:` or the end.
pub fn split_id(input: &str) -> (r: (&str, &str))
    requires
        has_colon(input@),
    ensures
        r.0@ == id_part(input@),
        r.1@ == uid_part(input@),
{
    let n = input.unicode_len();
    let i = find_colon(input, 0);
    proof {
        lemma_first_colon_at(input@, i as int);
        if i == input@.len() {
            let j = choose|j: int| 0 <= j < input@.len() && input@[j] == ':';
            assert(false);
        }
        assert(i < n);
    }
    let j = find_colon(input, i + 1);
    let first = input.substring_char(0, i);
    let second = input.substring_char(i + 1, j);
    proof {
        assert(first@ =~= id_part(input@));
        let rest = input@.skip(i + 1);
        assert(forall|k: int| 0 <= k < j - i - 1 ==> rest[k] != ':');
        assert(j - (i + 1) < rest.len() ==> rest[j - i - 1] == ':');
        lemma_first_colon_at(rest, j - i - 1);
        assert(second@ =~= rest.take(first_colon(rest)));
    }
    (first, second)
}

/// The entities stand in name order.
pub open spec fn entities_sorted(es: Seq<EntityView>) -> bool {
    forall|i: int, j: int| 0 <= i < j < es.len() ==> lex_le(es[i].name, es[j].name)
}

/// The index identifiers the properties carry, in property order.
pub open spec fn entity_index_ids(props: Seq<PropView>) -> Seq<Seq<char>>
    decreases props.len(),
{
    if props.len() == 0 {
        Seq::empty()
    } else {
        entity_index_ids(props.drop_last()) + (match props.last().index_id {
            Some(s) => seq![s],
            None => Seq::empty(),
        })
    }
}

/// The index identifiers all entities' properties carry, in entity and
/// property order.
pub open spec fn model_index_ids(es: Seq<EntityView>) -> Seq<Seq<char>>
    decreases es.len(),
{
    if es.len() == 0 {
        Seq::empty()
    } else {
        model_index_ids(es.drop_last()) + entity_index_ids(es.last().properties)
    }
}

/// Among the index identifiers, the one whose numeric id part is
/// greatest; of equals, the one seen last.
pub open spec fn best_index_id(ids: Seq<Seq<char>>) -> Seq<char>
    decreases ids.len(),
{
    if ids.len() == 0 {
        Seq::empty()
    } else if ids.len() == 1 {
        ids[0]
    } else {
        let b = best_index_id(ids.drop_last());
        if spec_id_num(ids.last()) >= spec_id_num(b) {
            ids.last()
        } else {
            b
        }
    }
}

/// The identifier pair of the first property carrying the identifier
/// flag; empty text when none does.
pub open spec fn id_flag_prop_id(props: Seq<PropView>) -> Seq<char>
    decreases props.len(),
{
    if props.len() == 0 {
        Seq::empty()
    } else if (match props[0].flags {
        Some(f) => f & consts::OBXPropertyFlags_ID != 0,
        None => false,
    }) {
        props[0].id
    } else {
        id_flag_prop_id(props.drop_first())
    }
}

/// The identifier pair of the last standalone relation any entity holds,
/// in entity order; empty text when none does.
pub open spec fn last_relation_id_of(es: Seq<EntityView>) -> Seq<char>
    decreases es.len(),
{
    if es.len() == 0 {
        Seq::empty()
    } else if es.last().relations.len() > 0 {
        es.last().relations.last().id
    } else {
        last_relation_id_of(es.drop_last())
    }
}

/// Inserting an element anywhere adds exactly it to the sequence's
/// multiset.
proof fn lemma_insert_to_multiset<A>(s: Seq<A>, k: int, e: A)
    requires
        0 <= k <= s.len(),
    ensures
        s.insert(k, e).to_multiset() == s.to_multiset().insert(e),
{
    broadcast use vstd::seq_lib::group_to_multiset_ensures;

    let s1 = s.subrange(0, k);
    let s2 = s.subrange(k, s.len() as int);
    assert(s.insert(k, e) =~= s1.push(e) + s2);
    lemma_multiset_commutative(s1.push(e), s2);
    lemma_multiset_commutative(s1, s2);
    assert(s1 + s2 =~= s);
    assert(s1.push(e).to_multiset() =~= s1.to_multiset().insert(e));
    assert(s.insert(k, e).to_multiset() =~= s.to_multiset().insert(e));
}

/// Sort entities by name, in the lexicographic order of the host
/// language: the result is a name-ordered permutation of the input.
fn sort_entities_by_name(entities: Vec<ModelEntity>) -> (r: Vec<ModelEntity>)
    ensures
        r@.len() == entities@.len(),
        entities_sorted(entity_views(r@)),
        entity_views(r@).to_multiset() == entity_views(entities@).to_multiset(),
{
    broadcast use vstd::seq_lib::group_to_multiset_ensures;
    broadcast use vstd::multiset::group_multiset_axioms;

    let ghost orig = entity_views(entities@);
    let mut rest = entities;
    let mut sorted: Vec<ModelEntity> = Vec::new();
    proof {
        assert(entity_views(sorted@) =~= Seq::<EntityView>::empty());
        assert(entity_views(sorted@).to_multiset().add(entity_views(rest@).to_multiset())
            =~= orig.to_multiset());
    }
    while rest.len() > 0
        invariant
            sorted@.len() + rest@.len() == orig.len(),
            entities_sorted(entity_views(sorted@)),
            entity_views(sorted@).to_multiset().add(entity_views(rest@).to_multiset())
                == orig.to_multiset(),
        decreases rest@.len(),
    {
        let ghost sorted0 = entity_views(sorted@);
        let ghost rest0 = entity_views(rest@);
        let e = rest.remove(0);
        proof {
            rest0.to_multiset_ensures();
            assert(entity_views(rest@) =~= rest0.drop_first());
            assert(rest0.drop_first() =~= rest0.remove(0));
            assert(rest0.remove(0).to_multiset() =~= rest0.to_multiset().remove(rest0[0]));
            assert(e@ == rest0[0]);
            assert(rest0.contains(rest0[0]));
            assert(rest0.to_multiset().count(rest0[0]) > 0);
        }
        let n = sorted.len();
        let mut k: usize = 0;
        while k < n && str_lex_le(&sorted[k].name, &e.name)
            invariant
                n == sorted@.len(),
                k <= n,
                forall|j: int| 0 <= j < k ==> lex_le(entity_views(sorted@)[j].name, e@.name),
                entity_views(sorted@) == sorted0,
            decreases n - k,
        {
            proof {
                assert(entity_views(sorted@)[k as int].name == sorted@[k as int].name@);
            }
            k += 1;
        }
        proof {
            if k < n {
                assert(!lex_le(sorted0[k as int].name, e@.name));
                lemma_lex_le_total(sorted0[k as int].name, e@.name);
                assert(lex_le(e@.name, sorted0[k as int].name));
            }
        }
        sorted.insert(k, e);
        proof {
            let s2 = entity_views(sorted@);
            assert(s2 =~= sorted0.insert(k as int, e@));
            sorted0.insert_ensures(k as int, e@);
            assert forall|i: int, j: int| 0 <= i < j < s2.len() implies lex_le(
                s2[i].name,
                s2[j].name,
            ) by {
                if i < k && j < k {
                } else if i < k && j == k {
                } else if i == k && j > k {
                    assert(s2[j] == sorted0[j - 1]);
                    if k < n {
                        assert(lex_le(e@.name, sorted0[k as int].name));
                        if j - 1 > k {
                            crate::text::lemma_lex_le_trans(
                                e@.name,
                                sorted0[k as int].name,
                                sorted0[j - 1].name,
                            );
                        }
                    }
                } else if i < k && j > k {
                    assert(s2[i] == sorted0[i]);
                    assert(s2[j] == sorted0[j - 1]);
                } else if i > k && j > k {
                    assert(s2[i] == sorted0[i - 1]);
                    assert(s2[j] == sorted0[j - 1]);
                }
            }
            lemma_insert_to_multiset(sorted0, k as int, e@);
            assert(entity_views(sorted@).to_multiset().add(entity_views(rest@).to_multiset())
                =~= orig.to_multiset());
        }
    }
    sorted
}

/// Among all index identifiers the entities carry, the one with the
/// greatest numeric id part (the last of equals), or nothing when no
/// property is indexed.
fn compute_best_index_id(sorted: &Vec<ModelEntity>) -> (r: Option<String>)
    ensures
        match r {
            Some(b) => model_index_ids(entity_views(sorted@)).len() > 0 && b@ == best_index_id(
                model_index_ids(entity_views(sorted@)),
            ),
            None => model_index_ids(entity_views(sorted@)).len() == 0,
        },
{
    let ghost views = entity_views(sorted@);
    let mut best: Option<String> = None;
    let n = sorted.len();
    let mut i: usize = 0;
    proof {
        assert(views.take(0) =~= Seq::<EntityView>::empty());
    }
    while i < n
        invariant
            n == sorted@.len(),
            i <= n,
            views == entity_views(sorted@),
            match best {
                Some(b) => model_index_ids(views.take(i as int)).len() > 0 && b@ == best_index_id(
                    model_index_ids(views.take(i as int)),
                ),
                None => model_index_ids(views.take(i as int)).len() == 0,
            },
        decreases n - i,
    {
        let ghost acc0 = model_index_ids(views.take(i as int));
        let props = &sorted[i].properties;
        proof {
            assert(views[i as int] == sorted@[i as int]@);
            assert(views[i as int].properties.len() == props@.len());
            assert(entity_index_ids(views[i as int].properties.take(0)) =~= Seq::<
                Seq<char>,
            >::empty());
            assert(acc0 + entity_index_ids(views[i as int].properties.take(0)) =~= acc0);
        }
        let m = props.len();
        let mut j: usize = 0;
        while j < m
            invariant
                n == sorted@.len(),
                i < n,
                m == sorted@[i as int].properties@.len(),
                j <= m,
                views == entity_views(sorted@),
                views[i as int] == sorted@[i as int]@,
                acc0 == model_index_ids(views.take(i as int)),
                match best {
                    Some(b) => (acc0 + entity_index_ids(
                        views[i as int].properties.take(j as int),
                    )).len() > 0 && b@ == best_index_id(
                        acc0 + entity_index_ids(views[i as int].properties.take(j as int)),
                    ),
                    None => (acc0 + entity_index_ids(
                        views[i as int].properties.take(j as int),
                    )).len() == 0,
                },
            decreases m - j,
        {
            let ghost pview = views[i as int].properties[j as int];
            let ghost ids0 = acc0 + entity_index_ids(views[i as int].properties.take(j as int));
            proof {
                assert(views[i as int].properties[j as int] == sorted@[i as int].properties@[j as int]@);
                assert(views[i as int].properties.take(j + 1).drop_last() =~= views[i as int].properties.take(
                    j as int,
                ));
                assert(views[i as int].properties.take(j + 1).last() == pview);
            }
            match &sorted[i].properties[j].index_id {
                Some(s) => {
                    proof {
                        assert(pview.index_id == Some(s@));
                        assert(acc0 + entity_index_ids(views[i as int].properties.take(j + 1))
                            =~= ids0.push(s@));
                        assert(ids0.push(s@).drop_last() =~= ids0);
                        assert(ids0.push(s@).last() == s@);
                    }
                    let sn = id_num(s);
                    let take_new = match &best {
                        Some(b) => sn >= id_num(b),
                        None => true,
                    };
                    if take_new {
                        best = Some(s.clone());
                    }
                },
                None => {
                    proof {
                        assert(pview.index_id is None);
                        assert(acc0 + entity_index_ids(views[i as int].properties.take(j + 1))
                            =~= ids0);
                    }
                },
            }
            j += 1;
        }
        proof {
            assert(views[i as int].properties.take(m as int) =~= views[i as int].properties);
            assert(views.take(i + 1).drop_last() =~= views.take(i as int));
            assert(views.take(i + 1).last() == views[i as int]);
            assert(model_index_ids(views.take(i + 1)) =~= acc0 + entity_index_ids(
                views[i as int].properties,
            ));
        }
        i += 1;
    }
    proof {
        assert(views.take(n as int) =~= views);
    }
    best
}

/// The identifier pair of the first property of `e` carrying the
/// identifier flag; empty text when none does.
fn fallback_id_prop(e: &ModelEntity) -> (r: String)
    ensures
        r@ == id_flag_prop_id(e@.properties),
{
    let ghost pviews = e@.properties;
    let n = e.properties.len();
    let mut i: usize = 0;
    proof {
        assert(pviews.skip(0) =~= pviews);
    }
    while i < n
        invariant
            n == e.properties@.len(),
            i <= n,
            pviews == e@.properties,
            pviews.len() == n,
            id_flag_prop_id(pviews) == id_flag_prop_id(pviews.skip(i as int)),
        decreases n - i,
    {
        let ghost pview = pviews[i as int];
        proof {
            assert(pview == e.properties@[i as int]@);
            assert(pviews.skip(i as int)[0] == pview);
            assert(pviews.skip(i as int).drop_first() =~= pviews.skip(i + 1));
        }
        let is_id = match &e.properties[i].flags {
            Some(f) => *f & consts::OBXPropertyFlags_ID != 0,
            None => false,
        };
        if is_id {
            return e.properties[i].id.clone();
        }
        i += 1;
    }
    proof {
        assert(pviews.skip(n as int).len() == 0);
    }
    String::new()
}

/// The identifier pair of the last standalone relation any entity holds;
/// empty text when none does.
fn compute_last_relation_id(sorted: &Vec<ModelEntity>) -> (r: String)
    ensures
        r@ == last_relation_id_of(entity_views(sorted@)),
{
    let ghost views = entity_views(sorted@);
    let mut cur = String::new();
    let n = sorted.len();
    let mut i: usize = 0;
    proof {
        assert(views.take(0) =~= Seq::<EntityView>::empty());
    }
    while i < n
        invariant
            n == sorted@.len(),
            i <= n,
            views == entity_views(sorted@),
            cur@ == last_relation_id_of(views.take(i as int)),
        decreases n - i,
    {
        proof {
            assert(views[i as int] == sorted@[i as int]@);
            assert(views.take(i + 1).drop_last() =~= views.take(i as int));
            assert(views.take(i + 1).last() == views[i as int]);
        }
        let rels = &sorted[i].relations;
        if rels.len() > 0 {
            proof {
                assert(views[i as int].relations[rels@.len() - 1] == rels@[rels@.len() - 1]@);
            }
            cur = rels[rels.len() - 1].id.clone();
        }
        i += 1;
    }
    proof {
        assert(views.take(n as int) =~= views);
    }
    cur
}

impl ModelInfo {
    /// Build a model from freshly described entities: the entities are
    /// sorted by name, and the model's last-assigned identifier pairs are
    /// computed — the last entity's pair, the greatest index pair across
    /// all properties (falling back to the last entity's identifier
    /// property when nothing is indexed), and the last standalone
    /// relation's pair. The retired-uid lists start empty.
    pub fn from_entities(entities: Vec<ModelEntity>) -> (r: ModelInfo)
        requires
            entities@.len() > 0,
        ensures
            r@.entities.len() == entities@.len(),
            entities_sorted(r@.entities),
            r@.entities.to_multiset() == entity_views(entities@).to_multiset(),
            r@.last_entity_id == r@.entities.last().id,
            model_index_ids(r@.entities).len() > 0 ==> r@.last_index_id == best_index_id(
                model_index_ids(r@.entities),
            ),
            model_index_ids(r@.entities).len() == 0 ==> r@.last_index_id == id_flag_prop_id(
                r@.entities.last().properties,
            ),
            r@.last_relation_id == last_relation_id_of(r@.entities),
            r@.retired_entity_uids == Seq::<u64>::empty(),
            r@.retired_index_uids == Seq::<u64>::empty(),
            r@.retired_property_uids == Seq::<u64>::empty(),
            r@.retired_relation_uids == Seq::<u64>::empty(),
            r.model_version == 5,
            r.model_version_parser_minimum == 5,
            r.version == 1,
    {
        broadcast use vstd::seq_lib::group_to_multiset_ensures;

        let sorted = sort_entities_by_name(entities);
        proof {
            entity_views(sorted@).to_multiset_ensures();
            assert(entity_views(sorted@).to_multiset().len() == entity_views(sorted@).len());
            assert(entity_views(sorted@).len() > 0);
        }
        let last_entity_id = sorted[sorted.len() - 1].id.clone();
        let last_index_id = match compute_best_index_id(&sorted) {
            Some(b) => b,
            None => fallback_id_prop(&sorted[sorted.len() - 1]),
        };
        let last_relation_id = compute_last_relation_id(&sorted);
        proof {
            assert(entity_views(sorted@).last() == sorted@[sorted@.len() - 1]@);
        }
        ModelInfo {
            note1: "KEEP THIS FILE! Check it into a version control system (VCS) like git."
                .to_owned(),
            note2: "ObjectBox manages crucial IDs for your object model. See docs for details."
                .to_owned(),
            note3:
                "If you have VCS merge conflicts, you must resolve them according to ObjectBox docs."
                .to_owned(),
            entities: sorted,
            last_entity_id,
            last_index_id,
            last_relation_id,
            last_sequence_id: String::new(),
            model_version: 5,
            model_version_parser_minimum: 5,
            retired_entity_uids: Vec::new(),
            retired_index_uids: Vec::new(),
            retired_property_uids: Vec::new(),
            retired_relation_uids: Vec::new(),
            version: 1,
        }
    }
}

/// Name-sorted entity sequences holding the same entities — no name
/// twice, as a valid model has them — are the same sequence. With the
/// contract of `from_entities`, which pins its result as the name-sorted
/// permutation of its input with every last-assigned pair computed from
/// that sequence, a regeneration pass that hands the builder the same
/// entity descriptors, in any order, is handed back the same model.
pub proof fn lemma_sorted_entities_determined(a: Seq<EntityView>, b: Seq<EntityView>)
    requires
        entities_sorted(a),
        entities_sorted(b),
        crate::merge::entity_names_unique(a),
        a.to_multiset() == b.to_multiset(),
    ensures
        a == b,
    decreases a.len(),
{
    broadcast use vstd::seq_lib::group_to_multiset_ensures;
    broadcast use vstd::multiset::group_multiset_axioms;

    assert(a.len() == a.to_multiset().len());
    assert(b.len() == b.to_multiset().len());
    if a.len() == 0 {
        assert(a =~= b);
    } else {
        assert(a.contains(a[0]));
        assert(a.to_multiset().count(a[0]) > 0);
        assert(b.to_multiset().count(a[0]) > 0);
        assert(b.contains(a[0]));
        let ja = choose|j: int| 0 <= j < b.len() && b[j] == a[0];
        assert(b.contains(b[0]));
        assert(b.to_multiset().count(b[0]) > 0);
        assert(a.to_multiset().count(b[0]) > 0);
        assert(a.contains(b[0]));
        let ia = choose|i: int| 0 <= i < a.len() && a[i] == b[0];
        assert(lex_le(b[0].name, a[0].name)) by {
            if ja > 0 {
                assert(lex_le(b[0].name, b[ja].name));
            } else {
                lemma_lex_le_total(b[0].name, a[0].name);
            }
        }
        assert(lex_le(a[0].name, b[0].name)) by {
            if ia > 0 {
                assert(lex_le(a[0].name, a[ia].name));
            } else {
                lemma_lex_le_total(a[0].name, b[0].name);
            }
        }
        crate::text::lemma_lex_le_antisym(a[0].name, b[0].name);
        assert(a[0].name == b[0].name);
        assert(a[0] == b[0]) by {
            if ia != 0 {
                assert(a[0].name != a[ia].name);
                assert(false);
            }
        }
        assert(a.drop_first() =~= a.remove(0));
        assert(b.drop_first() =~= b.remove(0));
        assert(a.remove(0).to_multiset() =~= a.to_multiset().remove(a[0]));
        assert(b.remove(0).to_multiset() =~= b.to_multiset().remove(b[0]));
        assert(a.drop_first().to_multiset() == b.drop_first().to_multiset());
        assert(entities_sorted(a.drop_first())) by {
            assert(forall|i: int, j: int|
                0 <= i < j < a.drop_first().len() ==> a.drop_first()[i] == a[i + 1]
                    && a.drop_first()[j] == a[j + 1]);
        }
        assert(entities_sorted(b.drop_first())) by {
            assert(forall|i: int, j: int|
                0 <= i < j < b.drop_first().len() ==> b.drop_first()[i] == b[i + 1]
                    && b.drop_first()[j] == b[j + 1]);
        }
        assert(crate::merge::entity_names_unique(a.drop_first())) by {
            assert(forall|i: int, j: int|
                0 <= i < j < a.drop_first().len() ==> a.drop_first()[i] == a[i + 1]
                    && a.drop_first()[j] == a[j + 1]);
        }
        lemma_sorted_entities_determined(a.drop_first(), b.drop_first());
        assert(a.len() == b.len());
        assert forall|i: int| 0 <= i < a.len() implies a[i] == b[i] by {
            if i >= 1 {
                assert(a[i] == a.drop_first()[i - 1]);
                assert(b[i] == b.drop_first()[i - 1]);
            }
        }
        assert(a =~= b);
    }
}

/// The number the text before the first `:` denotes; `0` when it denotes
/// none (no digits, or out of the 64-bit range).
pub fn id_num(s: &str) -> (r: u64)
    ensures
        r as int == spec_id_num(s@),
{
    let i = find_colon(s, 0);
    proof {
        lemma_first_colon_at(s@, i as int);
    }
    let seg = s.substring_char(0, i);
    proof {
        assert(seg@ =~= id_part(s@));
    }
    match str_to_u64(seg) {
        Some(v) => v,
        None => 0,
    }
}

/// The number the uid part denotes; `0` when it denotes none.
pub fn uid_num(s: &str) -> (r: u64)
    ensures
        r as int == spec_uid_num(s@),
{
    let n = s.unicode_len();
    let i = find_colon(s, 0);
    proof {
        lemma_first_colon_at(s@, i as int);
    }
    if i == n {
        proof {
            assert(uid_part(s@) =~= Seq::<char>::empty());
        }
        return 0;
    }
    let j = find_colon(s, i + 1);
    let seg = s.substring_char(i + 1, j);
    proof {
        let rest = s@.skip(i + 1);
        assert(forall|k: int| 0 <= k < j - i - 1 ==> rest[k] != ':');
        assert(j - (i + 1) < rest.len() ==> rest[j - i - 1] == ':');
        lemma_first_colon_at(rest, j - i - 1);
        assert(seg@ =~= uid_part(s@));
    }
    match str_to_u64(seg) {
        Some(v) => v,
        None => 0,
    }
}

} // verus!
