//! The schema merger: reconcile a freshly classified entity set against
//! the previously persisted model, so that every element keeps its stable
//! identity.
//!
//! Entities are matched by name. Within a matched entity a property is
//! matched first by schema name, then — when the name changed — by the
//! previous schema name the declaration supplies as a hint. A matched
//! element carries its `"id:uid"` pair over verbatim. Unmatched fresh
//! elements receive new sequential ids and freshly minted uids,
//! continuing from the previous model's last-assigned counters; ids and
//! uids are never reused, even after an element is removed. Elements of
//! the previous model that the fresh set no longer contains are not
//! erased silently: their uids move to the model's retired-uid lists.

use crate::model::{
    entity_views, id_num, id_part, spec_id_num, spec_uid_num, uid_part, EntityView, ModelEntity,
    ModelInfo, ModelProperty, ModelRelation, ModelView, PropView, RelationView,
};
use crate::text::{dec_rep, lemma_dec_rep_props};
use vstd::prelude::*;

verus! {

/// A fault that stops a merge; never resolved silently.
#[derive(Debug)]
pub enum MergeError {
    /// Two differently named entities of the previous model share a uid.
    UidCollision,
}

impl MergeError {
    /// A short description of the fault.
    pub fn message(&self) -> (r: &'static str)
        ensures
            r@ == "uid collision between differently named entities"@,
    {
        "uid collision between differently named entities"
    }
}

/// The text of an `"id:uid"` pair.
pub open spec fn pair_text(id: nat, uid: nat) -> Seq<char> {
    dec_rep(id) + seq![':'] + dec_rep(uid)
}

/// The first entity with the given name, or `-1`.
pub open spec fn find_by_name(es: Seq<EntityView>, name: Seq<char>) -> int
    decreases es.len(),
{
    if es.len() == 0 {
        -1
    } else if es[0].name == name {
        0
    } else {
        let r = find_by_name(es.drop_first(), name);
        if r == -1 {
            -1
        } else {
            r + 1
        }
    }
}

/// The first property with the given schema name, or `-1`.
pub open spec fn find_prop_by_name(ps: Seq<PropView>, name: Seq<char>) -> int
    decreases ps.len(),
{
    if ps.len() == 0 {
        -1
    } else if ps[0].name == name {
        0
    } else {
        let r = find_prop_by_name(ps.drop_first(), name);
        if r == -1 {
            -1
        } else {
            r + 1
        }
    }
}

/// Where a fresh property matches among the previous ones: first by its
/// schema name, then — when that fails and the declaration names the
/// schema name it had before — by that previous name; `-1` when neither
/// matches.
pub open spec fn find_prop_match(ps: Seq<PropView>, p: PropView) -> int {
    let by_name = find_prop_by_name(ps, p.name);
    if by_name >= 0 {
        by_name
    } else if p.former_name.len() > 0 {
        find_prop_by_name(ps, p.former_name)
    } else {
        -1
    }
}

/// `find_by_name` returns a position with that name whose predecessors
/// all have other names, or `-1` when no entity has it.
pub proof fn lemma_find_by_name_ensures(es: Seq<EntityView>, name: Seq<char>)
    ensures
        find_by_name(es, name) >= -1,
        find_by_name(es, name) == -1 ==> forall|j: int| 0 <= j < es.len() ==> es[j].name != name,
        find_by_name(es, name) >= 0 ==> find_by_name(es, name) < es.len() && es[find_by_name(
            es,
            name,
        )].name == name && forall|j: int| 0 <= j < find_by_name(es, name) ==> es[j].name != name,
    decreases es.len(),
{
    if es.len() > 0 && es[0].name != name {
        lemma_find_by_name_ensures(es.drop_first(), name);
        let r0 = find_by_name(es.drop_first(), name);
        let r = find_by_name(es, name);
        assert(r == if r0 == -1 {
            -1int
        } else {
            r0 + 1
        });
        if r == -1 {
            assert forall|j: int| 0 <= j < es.len() implies es[j].name != name by {
                if j >= 1 {
                    assert(es[j] == es.drop_first()[j - 1]);
                }
            }
        } else {
            assert(r0 == r - 1);
            assert(0 <= r0 < es.drop_first().len());
            assert(es[r] == es.drop_first()[r - 1]);
            assert forall|j: int| 0 <= j < r implies es[j].name != name by {
                if j >= 1 {
                    assert(es[j] == es.drop_first()[j - 1]);
                }
            }
        }
    }
}

/// `find_prop_by_name` returns a position with that name whose
/// predecessors all have other names, or `-1` when no property has it.
pub proof fn lemma_find_prop_by_name_ensures(ps: Seq<PropView>, name: Seq<char>)
    ensures
        find_prop_by_name(ps, name) >= -1,
        find_prop_by_name(ps, name) == -1 ==> forall|j: int|
            0 <= j < ps.len() ==> ps[j].name != name,
        find_prop_by_name(ps, name) >= 0 ==> find_prop_by_name(ps, name) < ps.len()
            && ps[find_prop_by_name(ps, name)].name == name && forall|j: int|
            0 <= j < find_prop_by_name(ps, name) ==> ps[j].name != name,
    decreases ps.len(),
{
    if ps.len() > 0 && ps[0].name != name {
        lemma_find_prop_by_name_ensures(ps.drop_first(), name);
        let r0 = find_prop_by_name(ps.drop_first(), name);
        let r = find_prop_by_name(ps, name);
        assert(r == if r0 == -1 {
            -1int
        } else {
            r0 + 1
        });
        if r == -1 {
            assert forall|j: int| 0 <= j < ps.len() implies ps[j].name != name by {
                if j >= 1 {
                    assert(ps[j] == ps.drop_first()[j - 1]);
                }
            }
        } else {
            assert(r0 == r - 1);
            assert(0 <= r0 < ps.drop_first().len());
            assert(ps[r] == ps.drop_first()[r - 1]);
            assert forall|j: int| 0 <= j < r implies ps[j].name != name by {
                if j >= 1 {
                    assert(ps[j] == ps.drop_first()[j - 1]);
                }
            }
        }
    }
}

/// Find the first entity with the given name.
pub(crate) fn entity_index_by_name(es: &Vec<ModelEntity>, name: &String) -> (r: Option<usize>)
    ensures
        match r {
            Some(i) => i < es@.len() && find_by_name(entity_views(es@), name@) == i as int,
            None => find_by_name(entity_views(es@), name@) == -1,
        },
{
    let ghost views = entity_views(es@);
    let n = es.len();
    let mut i: usize = 0;
    while i < n
        invariant
            n == es@.len(),
            i <= n,
            views == entity_views(es@),
            forall|j: int| 0 <= j < i ==> views[j].name != name@,
        decreases n - i,
    {
        proof {
            assert(views[i as int] == es@[i as int]@);
        }
        if es[i].name.eq(name) {
            proof {
                lemma_find_by_name_ensures(views, name@);
                if find_by_name(views, name@) == -1 {
                    assert(false);
                }
                assert(find_by_name(views, name@) >= i);
                assert(find_by_name(views, name@) <= i);
            }
            return Some(i);
        }
        i += 1;
    }
    proof {
        lemma_find_by_name_ensures(views, name@);
        if find_by_name(views, name@) >= 0 {
            assert(false);
        }
    }
    None
}

/// The abstract values of a sequence of properties, element-wise.
pub open spec fn prop_views(v: Seq<ModelProperty>) -> Seq<PropView> {
    Seq::new(v.len(), |i: int| v[i]@)
}

/// Find the first property with the given schema name.
fn prop_index_by_name(ps: &Vec<ModelProperty>, name: &String) -> (r: Option<usize>)
    ensures
        match r {
            Some(i) => i < ps@.len() && find_prop_by_name(prop_views(ps@), name@) == i as int,
            None => find_prop_by_name(prop_views(ps@), name@) == -1,
        },
{
    let ghost views = prop_views(ps@);
    let n = ps.len();
    let mut i: usize = 0;
    while i < n
        invariant
            n == ps@.len(),
            i <= n,
            views == prop_views(ps@),
            forall|j: int| 0 <= j < i ==> views[j].name != name@,
        decreases n - i,
    {
        proof {
            assert(views[i as int] == ps@[i as int]@);
        }
        if ps[i].name.eq(name) {
            proof {
                lemma_find_prop_by_name_ensures(views, name@);
                if find_prop_by_name(views, name@) == -1 {
                    assert(false);
                }
                assert(find_prop_by_name(views, name@) >= i);
                assert(find_prop_by_name(views, name@) <= i);
            }
            return Some(i);
        }
        i += 1;
    }
    proof {
        lemma_find_prop_by_name_ensures(views, name@);
        if find_prop_by_name(views, name@) >= 0 {
            assert(false);
        }
    }
    None
}

/// A rendered pair parses back into the numbers it was rendered from.
pub proof fn lemma_pair_text_parse(id: u64, uid: u64)
    ensures
        spec_id_num(pair_text(id as nat, uid as nat)) == id as int,
        spec_uid_num(pair_text(id as nat, uid as nat)) == uid as int,
{
    lemma_dec_rep_props(id as nat);
    lemma_dec_rep_props(uid as nat);
    let s = pair_text(id as nat, uid as nat);
    let a = dec_rep(id as nat);
    let b = dec_rep(uid as nat);
    assert(s.len() == a.len() + 1 + b.len());
    assert(forall|i: int| 0 <= i < a.len() ==> s[i] == a[i]);
    assert(s[a.len() as int] == ':');
    crate::model::lemma_first_colon_at(s, a.len() as int);
    assert(id_part(s) =~= a);
    let rest = s.skip(a.len() as int + 1);
    assert(rest =~= b);
    crate::model::lemma_first_colon_at(rest, b.len() as int);
    assert(uid_part(s) =~= b);
}

/// The uid part of an optional identifier pair, `0` when absent.
pub open spec fn opt_uid(o: Option<Seq<char>>) -> int {
    match o {
        Some(s) => spec_uid_num(s),
        None => 0,
    }
}

/// A fresh property whose pair must be minted: it matches no previous
/// property and its declaration pins no pair of its own.
pub open spec fn prop_minted(ps: Seq<PropView>, fp: PropView) -> bool {
    find_prop_match(ps, fp) == -1 && spec_id_num(fp.id) == 0
}

/// How the merged property `mp` relates to the fresh declaration `fp`
/// against the previous properties `ps`: everything but the identifiers
/// comes from the declaration (the merge hint is consumed); a matched
/// property keeps the previous pair — by schema name or by the hint, so a
/// rename that supplies its previous schema name keeps its uid; an
/// unmatched one keeps its declaration's explicit pair or receives a
/// minted one whose uid is at or above `uid_floor`; an index identifier
/// is carried from the matched previous property, kept when the
/// declaration pins one, and minted fresh otherwise.
pub open spec fn prop_merged_ok(
    ps: Seq<PropView>,
    fp: PropView,
    mp: PropView,
    uid_floor: int,
) -> bool {
    let m = find_prop_match(ps, fp);
    &&& mp.name == fp.name
    &&& mp.type_field == fp.type_field
    &&& mp.flags == fp.flags
    &&& mp.rust_type == fp.rust_type
    &&& mp.rust_name == fp.rust_name
    &&& mp.relation_field == fp.relation_field
    &&& mp.relation_target == fp.relation_target
    &&& mp.former_name.len() == 0
    &&& (mp.index_id is Some <==> fp.index_id is Some)
    &&& (m >= 0 ==> mp.id == ps[m].id)
    &&& (m >= 0 ==> match (fp.index_id, ps[m].index_id) {
        (Some(fs), Some(pi)) => mp.index_id == Some(pi),
        (Some(fs), None) => if spec_id_num(fs) != 0 {
            mp.index_id == Some(fs)
        } else {
            opt_uid(mp.index_id) >= uid_floor
        },
        (None, _) => true,
    })
    &&& (m == -1 ==> {
        &&& (spec_id_num(fp.id) != 0 ==> mp.id == fp.id)
        &&& (spec_id_num(fp.id) == 0 ==> spec_uid_num(mp.id) >= uid_floor)
        &&& (match fp.index_id {
            Some(fs) => if spec_id_num(fs) != 0 {
                mp.index_id == Some(fs)
            } else {
                opt_uid(mp.index_id) >= uid_floor
            },
            None => true,
        })
    })
}

/// Whether merging the fresh property `fp` against `ps` must mint a new
/// index identifier pair: it asks for an index, pins none itself, and no
/// matched previous property supplies one.
pub open spec fn needs_index_mint(ps: Seq<PropView>, fp: PropView) -> bool {
    let m = find_prop_match(ps, fp);
    match fp.index_id {
        Some(fs) => spec_id_num(fs) == 0 && (m == -1 || ps[m].index_id is None),
        None => false,
    }
}

/// Merge the fresh property declarations of one entity against its
/// previous properties. `next_prop_id` is the entity's last assigned
/// property sequence number; minted properties continue from it. The uid
/// and index-id counters move forward only; minted uids are distinct and
/// start at the uid counter's old value. The returned pair, when present,
/// is the identifier pair of the last minted property, for the entity's
/// `last_property_id`.
fn merge_props(
    prev_ps: &Vec<ModelProperty>,
    fresh_ps: Vec<ModelProperty>,
    next_prop_id: u64,
    next_uid: &mut u64,
    next_index_id: &mut u64,
    minted_index: &mut Option<String>,
) -> (r: (Vec<ModelProperty>, Option<String>))
    requires
        fresh_ps@.len() < 0x8000,
        next_prop_id < 0xFFFF_FFFE_0000_0000,
        *old(next_uid) < 0xFFFF_FFFF_0000_0000,
        *old(next_index_id) < 0xFFFF_FFFF_0000_0000,
    ensures
        (forall|l: int| 0 <= l < fresh_ps@.len() ==> !needs_index_mint(
            prop_views(prev_ps@),
            #[trigger] prop_views(fresh_ps@)[l],
        )) ==> *final(next_index_id) == *old(next_index_id) && *final(minted_index) == *old(
            minted_index,
        ),
        (*final(next_index_id) == *old(next_index_id) && *final(minted_index) == *old(
            minted_index,
        )) || (match *final(minted_index) {
            Some(p) => spec_id_num(p@) == *final(next_index_id) && *final(next_index_id) > *old(
                next_index_id,
            ) && *old(next_uid) <= spec_uid_num(p@) < *final(next_uid),
            None => false,
        }),
        r.0@.len() == fresh_ps@.len(),
        forall|l: int| 0 <= l < r.0@.len() ==> prop_merged_ok(
            prop_views(prev_ps@),
            prop_views(fresh_ps@)[l],
            #[trigger] prop_views(r.0@)[l],
            *old(next_uid) as int,
        ),
        forall|l: int| 0 <= l < r.0@.len() && prop_minted(
            prop_views(prev_ps@),
            prop_views(fresh_ps@)[l],
        ) ==> spec_uid_num(#[trigger] prop_views(r.0@)[l].id) < *final(next_uid),
        forall|l: int, l2: int|
            0 <= l < l2 < r.0@.len() && prop_minted(prop_views(prev_ps@), prop_views(fresh_ps@)[l])
                && prop_minted(prop_views(prev_ps@), prop_views(fresh_ps@)[l2]) ==> spec_uid_num(
                (#[trigger] prop_views(r.0@)[l]).id,
            ) != spec_uid_num((#[trigger] prop_views(r.0@)[l2]).id),
        *final(next_uid) >= *old(next_uid),
        *final(next_uid) <= *old(next_uid) + 2 * fresh_ps@.len(),
        *final(next_index_id) >= *old(next_index_id),
        *final(next_index_id) <= *old(next_index_id) + fresh_ps@.len(),
        match r.1 {
            Some(s) => exists|l: int|
                0 <= l < r.0@.len() && prop_minted(
                    prop_views(prev_ps@),
                    prop_views(fresh_ps@)[l],
                ) && #[trigger] prop_views(r.0@)[l].id == s@,
            None => forall|l: int| 0 <= l < r.0@.len() ==> !prop_minted(
                prop_views(prev_ps@),
                #[trigger] prop_views(fresh_ps@)[l],
            ),
        },
{
    let ghost pviews = prop_views(prev_ps@);
    let ghost fviews = prop_views(fresh_ps@);
    let ghost uid_floor = *old(next_uid) as int;
    let mut fresh = fresh_ps;
    let mut merged: Vec<ModelProperty> = Vec::new();
    let mut last_minted: Option<String> = None;
    let mut prop_counter: u64 = next_prop_id;
    while fresh.len() > 0
        invariant
            pviews == prop_views(prev_ps@),
            fviews.len() < 0x8000,
            merged@.len() + fresh@.len() == fviews.len(),
            fresh@ == fresh_ps@.skip(merged@.len() as int),
            fviews == prop_views(fresh_ps@),
            uid_floor == *old(next_uid) as int,
            next_prop_id < 0xFFFF_FFFE_0000_0000,
            *old(next_uid) < 0xFFFF_FFFF_0000_0000,
            *old(next_index_id) < 0xFFFF_FFFF_0000_0000,
            *next_uid >= *old(next_uid),
            *next_uid as int <= *old(next_uid) + 2 * merged@.len(),
            *next_index_id >= *old(next_index_id),
            *next_index_id as int <= *old(next_index_id) + merged@.len(),
            next_prop_id <= prop_counter,
            prop_counter as int <= next_prop_id + merged@.len(),
            forall|l: int| 0 <= l < merged@.len() ==> prop_merged_ok(
                pviews,
                fviews[l],
                #[trigger] prop_views(merged@)[l],
                uid_floor,
            ),
            forall|l: int| 0 <= l < merged@.len() && prop_minted(pviews, fviews[l])
                ==> spec_uid_num(#[trigger] prop_views(merged@)[l].id) < *next_uid,
            forall|l: int, l2: int|
                0 <= l < l2 < merged@.len() && prop_minted(pviews, fviews[l]) && prop_minted(
                    pviews,
                    fviews[l2],
                ) ==> spec_uid_num((#[trigger] prop_views(merged@)[l]).id) != spec_uid_num(
                    (#[trigger] prop_views(merged@)[l2]).id,
                ),
            (forall|l: int| 0 <= l < merged@.len() ==> !needs_index_mint(
                pviews,
                #[trigger] fviews[l],
            )) ==> *next_index_id == *old(next_index_id) && *minted_index == *old(minted_index),
            (*next_index_id == *old(next_index_id) && *minted_index == *old(minted_index)) || (
            match *minted_index {
                Some(p) => spec_id_num(p@) == *next_index_id && *next_index_id > *old(
                    next_index_id,
                ) && *old(next_uid) <= spec_uid_num(p@) < *next_uid,
                None => false,
            }),
            match last_minted {
                Some(s) => exists|l: int|
                    0 <= l < merged@.len() && prop_minted(pviews, fviews[l])
                        && #[trigger] prop_views(merged@)[l].id == s@,
                None => forall|l: int| 0 <= l < merged@.len() ==> !prop_minted(
                    pviews,
                    #[trigger] fviews[l],
                ),
            },
        decreases fresh@.len(),
    {
        let ghost done = merged@.len() as int;
        let fp = fresh.remove(0);
        proof {
            assert(fresh_ps@.skip(done).remove(0) =~= fresh_ps@.skip(done + 1));
            assert(fp == fresh_ps@[done]);
            assert(fviews[done] == fp@);
        }
        let ghost fpv = fp@;
        let by_name = prop_index_by_name(prev_ps, &fp.name);
        let matched: Option<usize> = match by_name {
            Some(i) => Some(i),
            None => {
                if fp.former_name.as_str().is_empty() {
                    None
                } else {
                    prop_index_by_name(prev_ps, &fp.former_name)
                }
            },
        };
        proof {
            match matched {
                Some(i) => {
                    assert(find_prop_match(pviews, fpv) == i as int);
                },
                None => {
                    assert(find_prop_match(pviews, fpv) == -1);
                },
            }
        }
        let mp = match matched {
            Some(i) => {
                let prev_p = &prev_ps[i];
                proof {
                    assert(pviews[i as int] == prev_ps@[i as int]@);
                }
                let index_id: Option<String> = match (&fp.index_id, &prev_p.index_id) {
                    (Some(_), Some(pi)) => Some(pi.clone()),
                    (Some(fs), None) => {
                        if id_num(fs) != 0 {
                            Some(fs.clone())
                        } else {
                            Some(mint_index_pair(next_index_id, next_uid, minted_index))
                        }
                    },
                    (None, _) => None,
                };
                ModelProperty {
                    id: prev_p.id.clone(),
                    name: fp.name,
                    type_field: fp.type_field,
                    flags: fp.flags,
                    index_id,
                    rust_type: fp.rust_type,
                    rust_name: fp.rust_name,
                    relation_field: fp.relation_field,
                    relation_target: fp.relation_target,
                    former_name: String::new(),
                }
            },
            None => {
                let id: String = if id_num(&fp.id) != 0 {
                    fp.id.clone()
                } else {
                    prop_counter = prop_counter + 1;
                    let uid = *next_uid;
                    *next_uid = *next_uid + 1;
                    let pair = make_pair(prop_counter, uid);
                    proof {
                        lemma_pair_text_parse(prop_counter, uid);
                    }
                    last_minted = Some(pair.clone());
                    pair
                };
                let index_id: Option<String> = match &fp.index_id {
                    Some(fs) => {
                        if id_num(fs) != 0 {
                            Some(fs.clone())
                        } else {
                            Some(mint_index_pair(next_index_id, next_uid, minted_index))
                        }
                    },
                    None => None,
                };
                ModelProperty {
                    id,
                    name: fp.name,
                    type_field: fp.type_field,
                    flags: fp.flags,
                    index_id,
                    rust_type: fp.rust_type,
                    rust_name: fp.rust_name,
                    relation_field: fp.relation_field,
                    relation_target: fp.relation_target,
                    former_name: String::new(),
                }
            },
        };
        let ghost merged0 = merged@;
        merged.push(mp);
        proof {
            assert(prop_views(merged@) =~= prop_views(merged0).push(merged@.last()@));
            assert(forall|l: int| 0 <= l < done ==> prop_views(merged@)[l] == prop_views(
                merged0,
            )[l]);
            assert(prop_views(merged@)[done] == merged@.last()@);
            assert(prop_merged_ok(pviews, fviews[done], prop_views(merged@)[done], uid_floor)) by {
                match matched {
                    Some(i) => {
                        assert(find_prop_match(pviews, fpv) == i as int);
                    },
                    None => {
                        assert(find_prop_match(pviews, fpv) == -1);
                    },
                }
            }
        }
    }
    proof {
        assert(fresh@.len() == 0);
        assert(merged@.len() == fviews.len());
    }
    (merged, last_minted)
}

/// Mint a fresh index identifier pair from the index and uid counters,
/// remembering it as the last index pair minted.
fn mint_index_pair(next_index_id: &mut u64, next_uid: &mut u64, minted_index: &mut Option<String>) -> (r: String)
    requires
        *old(next_index_id) < u64::MAX,
        *old(next_uid) < u64::MAX,
    ensures
        *final(next_index_id) == *old(next_index_id) + 1,
        *final(next_uid) == *old(next_uid) + 1,
        r@ == pair_text((*old(next_index_id) + 1) as nat, *old(next_uid) as nat),
        spec_uid_num(r@) == *old(next_uid) as int,
        spec_id_num(r@) == *old(next_index_id) + 1,
        match *final(minted_index) {
            Some(s) => s@ == r@,
            None => false,
        },
{
    *next_index_id = *next_index_id + 1;
    let uid = *next_uid;
    *next_uid = *next_uid + 1;
    let pair = make_pair(*next_index_id, uid);
    proof {
        lemma_pair_text_parse(*next_index_id, uid);
    }
    *minted_index = Some(pair.clone());
    pair
}

/// Every uid the entity carries — its own, its property counter's, its
/// properties' and their indexes', and its relations' — is below `b`.
pub open spec fn entity_uids_lt(e: EntityView, b: int) -> bool {
    &&& spec_uid_num(e.id) < b
    &&& spec_uid_num(e.last_property_id) < b
    &&& forall|l: int| 0 <= l < e.properties.len() ==> spec_uid_num(
        (#[trigger] e.properties[l]).id,
    ) < b && opt_uid(e.properties[l].index_id) < b
    &&& forall|l: int| 0 <= l < e.relations.len() ==> spec_uid_num((#[trigger] e.relations[l]).id)
        < b
}

/// Every uid the model carries — in entities, retired lists, and the
/// last-assigned pairs — is below `b`.
pub open spec fn uid_lt_bound(m: ModelView, b: int) -> bool {
    &&& forall|k: int| 0 <= k < m.entities.len() ==> entity_uids_lt(#[trigger] m.entities[k], b)
    &&& forall|k: int| 0 <= k < m.retired_entity_uids.len() ==> #[trigger] m.retired_entity_uids[k]
        < b
    &&& forall|k: int| 0 <= k < m.retired_index_uids.len() ==> #[trigger] m.retired_index_uids[k]
        < b
    &&& forall|k: int|
        0 <= k < m.retired_property_uids.len() ==> #[trigger] m.retired_property_uids[k] < b
    &&& forall|k: int|
        0 <= k < m.retired_relation_uids.len() ==> #[trigger] m.retired_relation_uids[k] < b
    &&& spec_uid_num(m.last_entity_id) < b
    &&& spec_uid_num(m.last_index_id) < b
    &&& spec_uid_num(m.last_relation_id) < b
}

/// A bound below which everything fits stays a bound when raised.
proof fn lemma_entity_uids_lt_mono(e: EntityView, b1: int, b2: int)
    requires
        entity_uids_lt(e, b1),
        b1 <= b2,
    ensures
        entity_uids_lt(e, b2),
{
}

/// The larger of two numbers.
fn max_u64(a: u64, b: u64) -> (r: u64)
    ensures
        r == if a >= b {
            a
        } else {
            b
        },
{
    if a >= b {
        a
    } else {
        b
    }
}

/// The largest uid the entity carries.
fn entity_max_uid(e: &ModelEntity) -> (r: u64)
    requires
        entity_uids_lt(e@, 0xFFFF_FFFE_0000_0000),
    ensures
        entity_uids_lt(e@, r as int + 1),
        r < 0xFFFF_FFFE_0000_0000,
{
    let mut cur = crate::model::uid_num(&e.id);
    cur = max_u64(cur, crate::model::uid_num(&e.last_property_id));
    let n = e.properties.len();
    let mut l: usize = 0;
    while l < n
        invariant
            n == e.properties@.len(),
            l <= n,
            entity_uids_lt(e@, 0xFFFF_FFFE_0000_0000),
            cur < 0xFFFF_FFFE_0000_0000,
            cur as int >= spec_uid_num(e@.id),
            cur as int >= spec_uid_num(e@.last_property_id),
            forall|j: int| 0 <= j < l ==> spec_uid_num((#[trigger] e@.properties[j]).id)
                <= cur as int && opt_uid(e@.properties[j].index_id) <= cur as int,
        decreases n - l,
    {
        proof {
            assert(e@.properties[l as int] == e.properties@[l as int]@);
        }
        cur = max_u64(cur, crate::model::uid_num(&e.properties[l].id));
        match &e.properties[l].index_id {
            Some(s) => {
                cur = max_u64(cur, crate::model::uid_num(s));
            },
            None => {},
        }
        l += 1;
    }
    let m = e.relations.len();
    let mut k: usize = 0;
    while k < m
        invariant
            m == e.relations@.len(),
            n == e.properties@.len(),
            k <= m,
            entity_uids_lt(e@, 0xFFFF_FFFE_0000_0000),
            cur < 0xFFFF_FFFE_0000_0000,
            cur as int >= spec_uid_num(e@.id),
            cur as int >= spec_uid_num(e@.last_property_id),
            forall|j: int| 0 <= j < n ==> spec_uid_num((#[trigger] e@.properties[j]).id)
                <= cur as int && opt_uid(e@.properties[j].index_id) <= cur as int,
            forall|j: int| 0 <= j < k ==> spec_uid_num((#[trigger] e@.relations[j]).id)
                <= cur as int,
        decreases m - k,
    {
        proof {
            assert(e@.relations[k as int] == e.relations@[k as int]@);
        }
        cur = max_u64(cur, crate::model::uid_num(&e.relations[k].id));
        k += 1;
    }
    cur
}

/// The largest uid in a list of retired uids, all below the headroom
/// bound.
fn seq_max_uid(v: &Vec<u64>) -> (r: u64)
    requires
        forall|j: int| 0 <= j < v@.len() ==> #[trigger] v@[j] < 0xFFFF_FFFE_0000_0000,
    ensures
        forall|j: int| 0 <= j < v@.len() ==> #[trigger] v@[j] <= r,
        r < 0xFFFF_FFFE_0000_0000,
{
    let mut cur: u64 = 0;
    let n = v.len();
    let mut i: usize = 0;
    while i < n
        invariant
            n == v@.len(),
            i <= n,
            forall|j: int| 0 <= j < v@.len() ==> #[trigger] v@[j] < 0xFFFF_FFFE_0000_0000,
            cur < 0xFFFF_FFFE_0000_0000,
            forall|j: int| 0 <= j < i ==> #[trigger] v@[j] <= cur,
        decreases n - i,
    {
        cur = max_u64(cur, v[i]);
        i += 1;
    }
    cur
}

/// The first uid above everything the model carries: its result bounds
/// the model from above, and no smaller bound of one or more does.
fn compute_uid_floor(prev: &ModelInfo) -> (r: u64)
    requires
        uid_lt_bound(prev@, 0xFFFF_FFFE_0000_0000),
    ensures
        r >= 1,
        r <= 0xFFFF_FFFE_0000_0000,
        uid_lt_bound(prev@, r as int),
{
    let mut cur: u64 = 0;
    let n = prev.entities.len();
    let mut i: usize = 0;
    while i < n
        invariant
            n == prev.entities@.len(),
            i <= n,
            uid_lt_bound(prev@, 0xFFFF_FFFE_0000_0000),
            cur < 0xFFFF_FFFE_0000_0000,
            forall|k: int| 0 <= k < i ==> entity_uids_lt(#[trigger] prev@.entities[k], cur as int
                + 1),
        decreases n - i,
    {
        let ghost cur0 = cur;
        proof {
            assert(prev@.entities[i as int] == prev.entities@[i as int]@);
            assert(entity_uids_lt(prev@.entities[i as int], 0xFFFF_FFFE_0000_0000));
        }
        let em = entity_max_uid(&prev.entities[i]);
        cur = max_u64(cur, em);
        proof {
            assert forall|k: int| 0 <= k < i + 1 implies entity_uids_lt(
                #[trigger] prev@.entities[k],
                cur as int + 1,
            ) by {
                if k < i {
                    lemma_entity_uids_lt_mono(prev@.entities[k], cur0 as int + 1, cur as int + 1);
                } else {
                    lemma_entity_uids_lt_mono(prev@.entities[k], em as int + 1, cur as int + 1);
                }
            }
        }
        i += 1;
    }
    let ghost cur_ent = cur;
    proof {
        assert forall|j: int|
            0 <= j < prev.retired_entity_uids@.len() implies #[trigger] prev.retired_entity_uids@[j]
            < 0xFFFF_FFFE_0000_0000 by {
            assert(prev@.retired_entity_uids[j] == prev.retired_entity_uids@[j]);
        }
        assert forall|j: int|
            0 <= j < prev.retired_index_uids@.len() implies #[trigger] prev.retired_index_uids@[j]
            < 0xFFFF_FFFE_0000_0000 by {
            assert(prev@.retired_index_uids[j] == prev.retired_index_uids@[j]);
        }
        assert forall|j: int|
            0 <= j < prev.retired_property_uids@.len() implies #[trigger] prev.retired_property_uids@[j]
            < 0xFFFF_FFFE_0000_0000 by {
            assert(prev@.retired_property_uids[j] == prev.retired_property_uids@[j]);
        }
        assert forall|j: int|
            0 <= j < prev.retired_relation_uids@.len() implies #[trigger] prev.retired_relation_uids@[j]
            < 0xFFFF_FFFE_0000_0000 by {
            assert(prev@.retired_relation_uids[j] == prev.retired_relation_uids@[j]);
        }
    }
    let m1 = seq_max_uid(&prev.retired_entity_uids);
    cur = max_u64(cur, m1);
    let m2 = seq_max_uid(&prev.retired_index_uids);
    cur = max_u64(cur, m2);
    let m3 = seq_max_uid(&prev.retired_property_uids);
    cur = max_u64(cur, m3);
    let m4 = seq_max_uid(&prev.retired_relation_uids);
    cur = max_u64(cur, m4);
    cur = max_u64(cur, crate::model::uid_num(&prev.last_entity_id));
    cur = max_u64(cur, crate::model::uid_num(&prev.last_index_id));
    cur = max_u64(cur, crate::model::uid_num(&prev.last_relation_id));
    proof {
        assert forall|k: int| 0 <= k < prev@.entities.len() implies entity_uids_lt(
            #[trigger] prev@.entities[k],
            cur as int + 1,
        ) by {
            lemma_entity_uids_lt_mono(prev@.entities[k], cur_ent as int + 1, cur as int + 1);
        }
    }
    cur + 1
}


/// The first relation with the given name, or `-1`.
pub open spec fn find_rel_by_name(rs: Seq<RelationView>, name: Seq<char>) -> int
    decreases rs.len(),
{
    if rs.len() == 0 {
        -1
    } else if rs[0].name == name {
        0
    } else {
        let r = find_rel_by_name(rs.drop_first(), name);
        if r == -1 {
            -1
        } else {
            r + 1
        }
    }
}

/// `find_rel_by_name` returns a position with that name whose
/// predecessors all have other names, or `-1` when no relation has it.
pub proof fn lemma_find_rel_by_name_ensures(rs: Seq<RelationView>, name: Seq<char>)
    ensures
        find_rel_by_name(rs, name) >= -1,
        find_rel_by_name(rs, name) == -1 ==> forall|j: int|
            0 <= j < rs.len() ==> rs[j].name != name,
        find_rel_by_name(rs, name) >= 0 ==> find_rel_by_name(rs, name) < rs.len()
            && rs[find_rel_by_name(rs, name)].name == name && forall|j: int|
            0 <= j < find_rel_by_name(rs, name) ==> rs[j].name != name,
    decreases rs.len(),
{
    if rs.len() > 0 && rs[0].name != name {
        lemma_find_rel_by_name_ensures(rs.drop_first(), name);
        let r0 = find_rel_by_name(rs.drop_first(), name);
        let r = find_rel_by_name(rs, name);
        assert(r == if r0 == -1 {
            -1int
        } else {
            r0 + 1
        });
        if r == -1 {
            assert forall|j: int| 0 <= j < rs.len() implies rs[j].name != name by {
                if j >= 1 {
                    assert(rs[j] == rs.drop_first()[j - 1]);
                }
            }
        } else {
            assert(r0 == r - 1);
            assert(0 <= r0 < rs.drop_first().len());
            assert(rs[r] == rs.drop_first()[r - 1]);
            assert forall|j: int| 0 <= j < r implies rs[j].name != name by {
                if j >= 1 {
                    assert(rs[j] == rs.drop_first()[j - 1]);
                }
            }
        }
    }
}

/// The abstract values of a sequence of relations, element-wise.
pub open spec fn rel_views(v: Seq<ModelRelation>) -> Seq<RelationView> {
    Seq::new(v.len(), |i: int| v[i]@)
}

/// Find the first relation with the given name.
fn rel_index_by_name(rs: &Vec<ModelRelation>, name: &String) -> (r: Option<usize>)
    ensures
        match r {
            Some(i) => i < rs@.len() && find_rel_by_name(rel_views(rs@), name@) == i as int,
            None => find_rel_by_name(rel_views(rs@), name@) == -1,
        },
{
    let ghost views = rel_views(rs@);
    let n = rs.len();
    let mut i: usize = 0;
    while i < n
        invariant
            n == rs@.len(),
            i <= n,
            views == rel_views(rs@),
            forall|j: int| 0 <= j < i ==> views[j].name != name@,
        decreases n - i,
    {
        proof {
            assert(views[i as int] == rs@[i as int]@);
        }
        if rs[i].name.eq(name) {
            proof {
                lemma_find_rel_by_name_ensures(views, name@);
                if find_rel_by_name(views, name@) == -1 {
                    assert(false);
                }
                assert(find_rel_by_name(views, name@) >= i);
                assert(find_rel_by_name(views, name@) <= i);
            }
            return Some(i);
        }
        i += 1;
    }
    proof {
        lemma_find_rel_by_name_ensures(views, name@);
        if find_rel_by_name(views, name@) >= 0 {
            assert(false);
        }
    }
    None
}

/// How the merged relation `mr` relates to the fresh declaration `fr`
/// against the previous relations `rs`: matched by name, it keeps the
/// previous pair and resolved target; unmatched, it keeps its
/// declaration's explicit pair or receives a minted one whose uid is at
/// or above `uid_floor`.
pub open spec fn rel_merged_ok(
    rs: Seq<RelationView>,
    fr: RelationView,
    mr: RelationView,
    uid_floor: int,
) -> bool {
    let m = find_rel_by_name(rs, fr.name);
    &&& mr.name == fr.name
    &&& mr.target_name == fr.target_name
    &&& mr.rust_type == fr.rust_type
    &&& (m >= 0 ==> mr.id == rs[m].id && mr.target_id == rs[m].target_id)
    &&& (m == -1 ==> {
        &&& mr.target_id == fr.target_id
        &&& (spec_id_num(fr.id) != 0 ==> mr.id == fr.id)
        &&& (spec_id_num(fr.id) == 0 ==> spec_uid_num(mr.id) >= uid_floor)
    })
}

/// A fresh relation whose pair must be minted.
pub open spec fn rel_minted(rs: Seq<RelationView>, fr: RelationView) -> bool {
    find_rel_by_name(rs, fr.name) == -1 && spec_id_num(fr.id) == 0
}

/// Merge the fresh standalone relations of one entity against its
/// previous ones.
fn merge_rels(
    prev_rs: &Vec<ModelRelation>,
    fresh_rs: Vec<ModelRelation>,
    next_rel_id: &mut u64,
    next_uid: &mut u64,
    minted_rel: &mut Option<String>,
) -> (r: Vec<ModelRelation>)
    requires
        fresh_rs@.len() < 0x8000,
        *old(next_rel_id) < 0xFFFF_FFFF_0000_0000,
        *old(next_uid) < 0xFFFF_FFFF_0000_0000,
    ensures
        r@.len() == fresh_rs@.len(),
        forall|l: int| 0 <= l < r@.len() ==> rel_merged_ok(
            rel_views(prev_rs@),
            rel_views(fresh_rs@)[l],
            #[trigger] rel_views(r@)[l],
            *old(next_uid) as int,
        ),
        *final(next_uid) >= *old(next_uid),
        *final(next_uid) <= *old(next_uid) + fresh_rs@.len(),
        *final(next_rel_id) >= *old(next_rel_id),
        *final(next_rel_id) <= *old(next_rel_id) + fresh_rs@.len(),
        (forall|l: int| 0 <= l < fresh_rs@.len() ==> !rel_minted(
            rel_views(prev_rs@),
            #[trigger] rel_views(fresh_rs@)[l],
        )) ==> *final(next_rel_id) == *old(next_rel_id) && *final(minted_rel) == *old(minted_rel),
        (*final(next_rel_id) == *old(next_rel_id) && *final(minted_rel) == *old(minted_rel)) || (
        match *final(minted_rel) {
            Some(p) => spec_id_num(p@) == *final(next_rel_id) && *final(next_rel_id) > *old(
                next_rel_id,
            ) && *old(next_uid) <= spec_uid_num(p@) < *final(next_uid),
            None => false,
        }),
{
    let ghost pviews = rel_views(prev_rs@);
    let ghost fviews = rel_views(fresh_rs@);
    let ghost uid_floor = *old(next_uid) as int;
    let mut fresh = fresh_rs;
    let mut merged: Vec<ModelRelation> = Vec::new();
    while fresh.len() > 0
        invariant
            pviews == rel_views(prev_rs@),
            fviews.len() < 0x8000,
            merged@.len() + fresh@.len() == fviews.len(),
            fresh@ == fresh_rs@.skip(merged@.len() as int),
            fviews == rel_views(fresh_rs@),
            uid_floor == *old(next_uid) as int,
            *old(next_uid) < 0xFFFF_FFFF_0000_0000,
            *old(next_rel_id) < 0xFFFF_FFFF_0000_0000,
            *next_uid >= *old(next_uid),
            *next_uid as int <= *old(next_uid) + merged@.len(),
            *next_rel_id >= *old(next_rel_id),
            *next_rel_id as int <= *old(next_rel_id) + merged@.len(),
            forall|l: int| 0 <= l < merged@.len() ==> rel_merged_ok(
                pviews,
                fviews[l],
                #[trigger] rel_views(merged@)[l],
                uid_floor,
            ),
            (forall|l: int| 0 <= l < merged@.len() ==> !rel_minted(
                pviews,
                #[trigger] fviews[l],
            )) ==> *next_rel_id == *old(next_rel_id) && *minted_rel == *old(minted_rel),
            (*next_rel_id == *old(next_rel_id) && *minted_rel == *old(minted_rel)) || (
            match *minted_rel {
                Some(p) => spec_id_num(p@) == *next_rel_id && *next_rel_id > *old(next_rel_id)
                    && *old(next_uid) <= spec_uid_num(p@) < *next_uid,
                None => false,
            }),
        decreases fresh@.len(),
    {
        let ghost done = merged@.len() as int;
        let fr = fresh.remove(0);
        proof {
            assert(fresh_rs@.skip(done).remove(0) =~= fresh_rs@.skip(done + 1));
            assert(fr == fresh_rs@[done]);
            assert(fviews[done] == fr@);
        }
        let ghost frv = fr@;
        let matched = rel_index_by_name(prev_rs, &fr.name);
        let mr = match matched {
            Some(i) => {
                proof {
                    assert(pviews[i as int] == prev_rs@[i as int]@);
                }
                let prev_r = &prev_rs[i];
                ModelRelation {
                    id: prev_r.id.clone(),
                    name: fr.name,
                    target_id: match &prev_r.target_id {
                        Some(t) => Some(t.clone()),
                        None => None,
                    },
                    target_name: fr.target_name,
                    rust_type: fr.rust_type,
                }
            },
            None => {
                let id: String = if id_num(&fr.id) != 0 {
                    fr.id.clone()
                } else {
                    *next_rel_id = *next_rel_id + 1;
                    let uid = *next_uid;
                    *next_uid = *next_uid + 1;
                    let pair = make_pair(*next_rel_id, uid);
                    proof {
                        lemma_pair_text_parse(*next_rel_id, uid);
                    }
                    *minted_rel = Some(pair.clone());
                    pair
                };
                ModelRelation {
                    id,
                    name: fr.name,
                    target_id: fr.target_id,
                    target_name: fr.target_name,
                    rust_type: fr.rust_type,
                }
            },
        };
        let ghost merged0 = merged@;
        merged.push(mr);
        proof {
            assert(rel_views(merged@) =~= rel_views(merged0).push(merged@.last()@));
            assert(forall|l: int| 0 <= l < done ==> rel_views(merged@)[l] == rel_views(
                merged0,
            )[l]);
            assert(rel_views(merged@)[done] == merged@.last()@);
            assert(rel_merged_ok(pviews, fviews[done], rel_views(merged@)[done], uid_floor)) by {
                match matched {
                    Some(i) => {
                        assert(find_rel_by_name(pviews, frv.name) == i as int);
                    },
                    None => {
                        assert(find_rel_by_name(pviews, frv.name) == -1);
                    },
                }
            }
        }
    }
    proof {
        assert(merged@.len() == fviews.len());
    }
    merged
}

/// Two differently named entities of the model share a nonzero uid.
pub open spec fn has_uid_collision(es: Seq<EntityView>) -> bool {
    exists|i: int, j: int|
        0 <= i < j < es.len() && es[i].name != es[j].name && spec_uid_num(es[i].id) != 0
            && spec_uid_num(es[i].id) == spec_uid_num(es[j].id)
}

/// Whether two differently named entities of the previous model share a
/// nonzero uid.
fn check_uid_collision(es: &Vec<ModelEntity>) -> (r: bool)
    ensures
        r == has_uid_collision(entity_views(es@)),
{
    let ghost views = entity_views(es@);
    let n = es.len();
    let mut i: usize = 0;
    while i < n
        invariant
            n == es@.len(),
            views == entity_views(es@),
            i <= n,
            forall|a: int, b: int|
                0 <= a < b < n && a < i ==> !(views[a].name != views[b].name && spec_uid_num(
                    views[a].id,
                ) != 0 && spec_uid_num(views[a].id) == spec_uid_num(views[b].id)),
        decreases n - i,
    {
        let ui = crate::model::uid_num(&es[i].id);
        proof {
            assert(views[i as int] == es@[i as int]@);
        }
        let mut j: usize = i + 1;
        while j < n
            invariant
                n == es@.len(),
                views == entity_views(es@),
                i < n,
                i < j,
                j <= n,
                ui as int == spec_uid_num(views[i as int].id),
                forall|b: int|
                    i < b < j ==> !(views[i as int].name != views[b].name && spec_uid_num(
                        views[i as int].id,
                    ) != 0 && spec_uid_num(views[i as int].id) == spec_uid_num(views[b].id)),
            decreases n - j,
        {
            proof {
                assert(views[j as int] == es@[j as int]@);
            }
            let uj = crate::model::uid_num(&es[j].id);
            if ui != 0 && ui == uj && !es[i].name.eq(&es[j].name) {
                proof {
                    assert(views[i as int].name != views[j as int].name);
                    assert(has_uid_collision(views));
                }
                return true;
            }
            j += 1;
        }
        i += 1;
    }
    proof {
        if has_uid_collision(views) {
            let (a, b) = choose|a: int, b: int|
                0 <= a < b < views.len() && views[a].name != views[b].name && spec_uid_num(
                    views[a].id,
                ) != 0 && spec_uid_num(views[a].id) == spec_uid_num(views[b].id);
            assert(false);
        }
    }
    false
}


/// Some fresh property matches the previous property at `m`.
pub open spec fn prop_matched_by_any(ps: Seq<PropView>, fs: Seq<PropView>, m: int) -> bool {
    exists|l: int| 0 <= l < fs.len() && find_prop_match(ps, #[trigger] fs[l]) == m
}

/// Some fresh relation matches the previous relation at `m`.
pub open spec fn rel_matched_by_any(rs: Seq<RelationView>, fs: Seq<RelationView>, m: int) -> bool {
    exists|l: int| 0 <= l < fs.len() && find_rel_by_name(rs, (#[trigger] fs[l]).name) == m
}

/// Retire the previous properties that no fresh declaration matches:
/// their uids — and their indexes' — are appended to the retired lists,
/// never reassigned. Nothing is appended for a property some fresh
/// declaration still matches.
fn retire_unmatched_props(
    prev_ps: &Vec<ModelProperty>,
    fresh_ps: &Vec<ModelProperty>,
    retired_prop: &mut Vec<u64>,
    retired_index: &mut Vec<u64>,
)
    ensures
        old(retired_prop)@.is_prefix_of(final(retired_prop)@),
        old(retired_index)@.is_prefix_of(final(retired_index)@),
        (forall|m: int| 0 <= m < prev_ps@.len() ==> prop_matched_by_any(
            prop_views(prev_ps@),
            prop_views(fresh_ps@),
            m,
        )) ==> final(retired_prop)@ == old(retired_prop)@ && final(retired_index)@ == old(
            retired_index,
        )@,
        forall|m: int|
            0 <= m < prev_ps@.len() && !prop_matched_by_any(
                prop_views(prev_ps@),
                prop_views(fresh_ps@),
                m,
            ) ==> final(retired_prop)@.contains(
                spec_uid_num((#[trigger] prop_views(prev_ps@)[m]).id) as u64,
            ),
{
    let ghost pviews = prop_views(prev_ps@);
    let ghost fviews = prop_views(fresh_ps@);
    let n = prev_ps.len();
    let nf = fresh_ps.len();
    let mut m: usize = 0;
    while m < n
        invariant
            pviews == prop_views(prev_ps@),
            fviews == prop_views(fresh_ps@),
            n == prev_ps@.len(),
            nf == fresh_ps@.len(),
            m <= n,
            old(retired_prop)@.is_prefix_of(retired_prop@),
            old(retired_index)@.is_prefix_of(retired_index@),
            (forall|m2: int| 0 <= m2 < m ==> prop_matched_by_any(pviews, fviews, m2))
                ==> retired_prop@ == old(retired_prop)@ && retired_index@ == old(retired_index)@,
            forall|m2: int|
                0 <= m2 < m && !prop_matched_by_any(pviews, fviews, m2) ==> retired_prop@.contains(
                    spec_uid_num((#[trigger] pviews[m2]).id) as u64,
                ),
        decreases n - m,
    {
        let ghost rp_start = retired_prop@;
        proof {
            assert(pviews[m as int] == prev_ps@[m as int]@);
        }
        let mut matched = false;
        let mut l: usize = 0;
        while l < nf
            invariant
                pviews == prop_views(prev_ps@),
                fviews == prop_views(fresh_ps@),
                nf == fresh_ps@.len(),
                m < n,
                n == prev_ps@.len(),
                l <= nf,
                matched ==> prop_matched_by_any(pviews, fviews, m as int),
                !matched ==> forall|l2: int|
                    0 <= l2 < l ==> find_prop_match(pviews, #[trigger] fviews[l2]) != m as int,
            decreases nf - l,
        {
            proof {
                assert(fviews[l as int] == fresh_ps@[l as int]@);
            }
            let fp = &fresh_ps[l];
            let by_name = prop_index_by_name(prev_ps, &fp.name);
            let this_match: Option<usize> = match by_name {
                Some(i) => Some(i),
                None => {
                    if fp.former_name.as_str().is_empty() {
                        None
                    } else {
                        prop_index_by_name(prev_ps, &fp.former_name)
                    }
                },
            };
            proof {
                match this_match {
                    Some(i) => {
                        assert(find_prop_match(pviews, fviews[l as int]) == i as int);
                    },
                    None => {
                        assert(find_prop_match(pviews, fviews[l as int]) == -1);
                    },
                }
            }
            match this_match {
                Some(i) => {
                    if i == m {
                        matched = true;
                    }
                },
                None => {},
            }
            l += 1;
        }
        if !matched {
            let ghost rp0 = retired_prop@;
            retired_prop.push(crate::model::uid_num(&prev_ps[m].id));
            proof {
                assert(retired_prop@.last() == spec_uid_num(pviews[m as int].id) as u64);
                assert(old(retired_prop)@.is_prefix_of(retired_prop@));
            }
            match &prev_ps[m].index_id {
                Some(s) => {
                    retired_index.push(crate::model::uid_num(s));
                    proof {
                        assert(old(retired_index)@.is_prefix_of(retired_index@));
                    }
                },
                None => {},
            }
        }
        proof {
            if forall|m2: int| 0 <= m2 < m + 1 ==> prop_matched_by_any(pviews, fviews, m2) {
                assert(prop_matched_by_any(pviews, fviews, m as int));
            }
            assert(rp_start.is_prefix_of(retired_prop@));
            assert forall|m2: int|
                0 <= m2 < m + 1 && !prop_matched_by_any(pviews, fviews, m2) implies retired_prop@.contains(
                spec_uid_num((#[trigger] pviews[m2]).id) as u64,
            ) by {
                let u = spec_uid_num(pviews[m2].id) as u64;
                if m2 < m {
                    assert(rp_start.contains(u));
                    let j = choose|j: int| 0 <= j < rp_start.len() && rp_start[j] == u;
                    assert(retired_prop@[j] == u);
                } else {
                    assert(!matched);
                    assert(retired_prop@.contains(u));
                }
            }
        }
        m += 1;
    }
}

/// Retire the previous relations no fresh declaration matches.
fn retire_unmatched_rels(
    prev_rs: &Vec<ModelRelation>,
    fresh_rs: &Vec<ModelRelation>,
    retired_relation: &mut Vec<u64>,
)
    ensures
        old(retired_relation)@.is_prefix_of(final(retired_relation)@),
        (forall|m: int| 0 <= m < prev_rs@.len() ==> rel_matched_by_any(
            rel_views(prev_rs@),
            rel_views(fresh_rs@),
            m,
        )) ==> final(retired_relation)@ == old(retired_relation)@,
{
    let ghost pviews = rel_views(prev_rs@);
    let ghost fviews = rel_views(fresh_rs@);
    let n = prev_rs.len();
    let nf = fresh_rs.len();
    let mut m: usize = 0;
    while m < n
        invariant
            pviews == rel_views(prev_rs@),
            fviews == rel_views(fresh_rs@),
            n == prev_rs@.len(),
            nf == fresh_rs@.len(),
            m <= n,
            old(retired_relation)@.is_prefix_of(retired_relation@),
            (forall|m2: int| 0 <= m2 < m ==> rel_matched_by_any(pviews, fviews, m2))
                ==> retired_relation@ == old(retired_relation)@,
        decreases n - m,
    {
        proof {
            assert(pviews[m as int] == prev_rs@[m as int]@);
        }
        let mut matched = false;
        let mut l: usize = 0;
        while l < nf
            invariant
                pviews == rel_views(prev_rs@),
                fviews == rel_views(fresh_rs@),
                nf == fresh_rs@.len(),
                m < n,
                n == prev_rs@.len(),
                l <= nf,
                matched ==> rel_matched_by_any(pviews, fviews, m as int),
                !matched ==> forall|l2: int|
                    0 <= l2 < l ==> find_rel_by_name(pviews, (#[trigger] fviews[l2]).name) != m as int,
            decreases nf - l,
        {
            proof {
                assert(fviews[l as int] == fresh_rs@[l as int]@);
            }
            match rel_index_by_name(prev_rs, &fresh_rs[l].name) {
                Some(i) => {
                    if i == m {
                        matched = true;
                    }
                },
                None => {},
            }
            l += 1;
        }
        if !matched {
            retired_relation.push(crate::model::uid_num(&prev_rs[m].id));
            proof {
                assert(old(retired_relation)@.is_prefix_of(retired_relation@));
            }
        }
        proof {
            if forall|m2: int| 0 <= m2 < m + 1 ==> rel_matched_by_any(pviews, fviews, m2) {
                assert(rel_matched_by_any(pviews, fviews, m as int));
            }
        }
        m += 1;
    }
}


/// No two entities share a name.
pub open spec fn entity_names_unique(es: Seq<EntityView>) -> bool {
    forall|i: int, j: int| 0 <= i < j < es.len() ==> es[i].name != es[j].name
}

/// No two properties share a schema name.
pub open spec fn prop_names_unique(ps: Seq<PropView>) -> bool {
    forall|i: int, j: int| 0 <= i < j < ps.len() ==> ps[i].name != ps[j].name
}

/// No two relations share a name.
pub open spec fn rel_names_unique(rs: Seq<RelationView>) -> bool {
    forall|i: int, j: int| 0 <= i < j < rs.len() ==> rs[i].name != rs[j].name
}

/// With unique names, searching for the name of the entity at `k` finds
/// exactly `k`.
pub proof fn lemma_find_entity_at(es: Seq<EntityView>, k: int)
    requires
        entity_names_unique(es),
        0 <= k < es.len(),
    ensures
        find_by_name(es, es[k].name) == k,
    decreases k,
{
    if k > 0 {
        assert(es[0].name != es[k].name);
        assert(entity_names_unique(es.drop_first()));
        assert(es.drop_first()[k - 1] == es[k]);
        lemma_find_entity_at(es.drop_first(), k - 1);
    }
}

/// With unique names, searching for the name of the property at `k`
/// finds exactly `k`.
pub proof fn lemma_find_prop_at(ps: Seq<PropView>, k: int)
    requires
        prop_names_unique(ps),
        0 <= k < ps.len(),
    ensures
        find_prop_by_name(ps, ps[k].name) == k,
    decreases k,
{
    if k > 0 {
        assert(ps[0].name != ps[k].name);
        assert(prop_names_unique(ps.drop_first()));
        assert(ps.drop_first()[k - 1] == ps[k]);
        lemma_find_prop_at(ps.drop_first(), k - 1);
    }
}

/// With unique names, searching for the name of the relation at `k`
/// finds exactly `k`.
pub proof fn lemma_find_rel_at(rs: Seq<RelationView>, k: int)
    requires
        rel_names_unique(rs),
        0 <= k < rs.len(),
    ensures
        find_rel_by_name(rs, rs[k].name) == k,
    decreases k,
{
    if k > 0 {
        assert(rs[0].name != rs[k].name);
        assert(rel_names_unique(rs.drop_first()));
        assert(rs.drop_first()[k - 1] == rs[k]);
        lemma_find_rel_at(rs.drop_first(), k - 1);
    }
}

/// How a merged entity relates to its fresh declaration against the
/// previous entities: matched by name, it keeps the previous pair, merges
/// each property and relation against the previous ones, and keeps the
/// previous property counter when nothing was minted; unmatched, it keeps
/// its declaration's explicit pair or receives a minted one, and its
/// properties and relations merge against nothing.
pub open spec fn entity_merged_ok(
    pes: Seq<EntityView>,
    fe: EntityView,
    me: EntityView,
    floor: int,
) -> bool {
    let m = find_by_name(pes, fe.name);
    &&& me.name == fe.name
    &&& me.properties.len() == fe.properties.len()
    &&& me.relations.len() == fe.relations.len()
    &&& (m >= 0 ==> {
        &&& me.id == pes[m].id
        &&& (forall|l: int| 0 <= l < me.properties.len() ==> prop_merged_ok(
            pes[m].properties,
            fe.properties[l],
            #[trigger] me.properties[l],
            floor,
        ))
        &&& (forall|l: int| 0 <= l < me.relations.len() ==> rel_merged_ok(
            pes[m].relations,
            fe.relations[l],
            #[trigger] me.relations[l],
            floor,
        ))
        &&& ((forall|l: int| 0 <= l < fe.properties.len() ==> !prop_minted(
            pes[m].properties,
            #[trigger] fe.properties[l],
        )) ==> me.last_property_id == pes[m].last_property_id)
    })
    &&& (m == -1 ==> {
        &&& (spec_id_num(fe.id) != 0 ==> me.id == fe.id)
        &&& (spec_id_num(fe.id) == 0 ==> spec_uid_num(me.id) >= floor)
        &&& (forall|l: int| 0 <= l < me.properties.len() ==> prop_merged_ok(
            Seq::empty(),
            fe.properties[l],
            #[trigger] me.properties[l],
            floor,
        ))
        &&& (forall|l: int| 0 <= l < me.relations.len() ==> rel_merged_ok(
            Seq::empty(),
            fe.relations[l],
            #[trigger] me.relations[l],
            floor,
        ))
    })
}

/// Every merged entity relates to its fresh declaration as
/// `entity_merged_ok` says.
pub open spec fn merged_against(
    pes: Seq<EntityView>,
    fs: Seq<EntityView>,
    ms: Seq<EntityView>,
    floor: int,
) -> bool {
    &&& ms.len() == fs.len()
    &&& forall|k: int| 0 <= k < ms.len() ==> entity_merged_ok(pes, fs[k], #[trigger] ms[k], floor)
}

/// The fresh declarations describe the previous model unchanged: same
/// entity names in the same order (unique, as a valid model has them),
/// and within each entity the same property and relation names in the
/// same order, with an index asked for exactly where the previous model
/// has one.
pub open spec fn regenerated_entity(pe: EntityView, fe: EntityView) -> bool {
    &&& fe.name == pe.name
    &&& prop_names_unique(pe.properties)
    &&& rel_names_unique(pe.relations)
    &&& fe.properties.len() == pe.properties.len()
    &&& (forall|l: int| 0 <= l < fe.properties.len() ==> (#[trigger] fe.properties[l]).name
        == pe.properties[l].name)
    &&& (forall|l: int| 0 <= l < fe.properties.len() ==> ((#[trigger] fe.properties[l]).index_id
        is Some <==> pe.properties[l].index_id is Some))
    &&& fe.relations.len() == pe.relations.len()
    &&& (forall|l: int| 0 <= l < fe.relations.len() ==> (#[trigger] fe.relations[l]).name
        == pe.relations[l].name)
}

/// The fresh set regenerates the previous model without changes.
pub open spec fn regenerated(prev: ModelView, fs: Seq<EntityView>) -> bool {
    &&& entity_names_unique(prev.entities)
    &&& fs.len() == prev.entities.len()
    &&& forall|k: int| 0 <= k < fs.len() ==> regenerated_entity(
        prev.entities[k],
        #[trigger] fs[k],
    )
}

/// Every identifier assignment of the previous model stands unchanged in
/// the merged one: entity, property, index and relation pairs, the
/// last-assigned counters, and the retired lists.
pub open spec fn ids_preserved(prev: ModelView, m: ModelView) -> bool {
    &&& m.entities.len() == prev.entities.len()
    &&& (forall|k: int| 0 <= k < m.entities.len() ==> (#[trigger] m.entities[k]).id
        == prev.entities[k].id && m.entities[k].last_property_id
        == prev.entities[k].last_property_id && m.entities[k].properties.len()
        == prev.entities[k].properties.len() && m.entities[k].relations.len()
        == prev.entities[k].relations.len())
    &&& (forall|k: int, l: int|
        0 <= k < m.entities.len() && 0 <= l < m.entities[k].properties.len() ==> (
        #[trigger] m.entities[k].properties[l]).id == prev.entities[k].properties[l].id
            && m.entities[k].properties[l].index_id == prev.entities[k].properties[l].index_id)
    &&& (forall|k: int, l: int|
        0 <= k < m.entities.len() && 0 <= l < m.entities[k].relations.len() ==> (
        #[trigger] m.entities[k].relations[l]).id == prev.entities[k].relations[l].id)
    &&& m.last_entity_id == prev.last_entity_id
    &&& m.last_index_id == prev.last_index_id
    &&& m.last_relation_id == prev.last_relation_id
    &&& m.retired_entity_uids == prev.retired_entity_uids
    &&& m.retired_index_uids == prev.retired_index_uids
    &&& m.retired_property_uids == prev.retired_property_uids
    &&& m.retired_relation_uids == prev.retired_relation_uids
}

/// Under a regeneration, a merged entity keeps every identifier of its
/// previous self, nothing in it is minted, and every previous property
/// and relation stays matched.
proof fn lemma_regenerated_entity_preserved(
    pes: Seq<EntityView>,
    k: int,
    fe: EntityView,
    me: EntityView,
    floor: int,
)
    requires
        entity_names_unique(pes),
        0 <= k < pes.len(),
        regenerated_entity(pes[k], fe),
        entity_merged_ok(pes, fe, me, floor),
    ensures
        me.id == pes[k].id,
        me.last_property_id == pes[k].last_property_id,
        me.properties.len() == pes[k].properties.len(),
        me.relations.len() == pes[k].relations.len(),
        forall|l: int| 0 <= l < me.properties.len() ==> (#[trigger] me.properties[l]).id
            == pes[k].properties[l].id && me.properties[l].index_id
            == pes[k].properties[l].index_id,
        forall|l: int| 0 <= l < me.relations.len() ==> (#[trigger] me.relations[l]).id
            == pes[k].relations[l].id,
        forall|l: int| 0 <= l < fe.properties.len() ==> !prop_minted(
            pes[k].properties,
            #[trigger] fe.properties[l],
        ),
        forall|l: int| 0 <= l < fe.properties.len() ==> !needs_index_mint(
            pes[k].properties,
            #[trigger] fe.properties[l],
        ),
        forall|l: int| 0 <= l < fe.relations.len() ==> !rel_minted(
            pes[k].relations,
            #[trigger] fe.relations[l],
        ),
        forall|m2: int| 0 <= m2 < pes[k].properties.len() ==> prop_matched_by_any(
            pes[k].properties,
            fe.properties,
            m2,
        ),
        forall|m2: int| 0 <= m2 < pes[k].relations.len() ==> rel_matched_by_any(
            pes[k].relations,
            fe.relations,
            m2,
        ),
{
    lemma_find_entity_at(pes, k);
    assert(find_by_name(pes, fe.name) == k);
    let ps = pes[k].properties;
    let rs = pes[k].relations;
    assert forall|l: int| 0 <= l < fe.properties.len() implies find_prop_match(
        ps,
        #[trigger] fe.properties[l],
    ) == l by {
        lemma_find_prop_at(ps, l);
        assert(fe.properties[l].name == ps[l].name);
    }
    assert forall|l: int| 0 <= l < fe.relations.len() implies find_rel_by_name(
        rs,
        (#[trigger] fe.relations[l]).name,
    ) == l by {
        lemma_find_rel_at(rs, l);
    }
    assert forall|l: int| 0 <= l < me.properties.len() implies (#[trigger] me.properties[l]).id
        == ps[l].id && me.properties[l].index_id == ps[l].index_id by {
        assert(prop_merged_ok(ps, fe.properties[l], me.properties[l], floor));
        assert(find_prop_match(ps, fe.properties[l]) == l);
        match (fe.properties[l].index_id, ps[l].index_id) {
            (Some(fs2), Some(pi)) => {
                assert(me.properties[l].index_id == Some(pi));
            },
            (None, None) => {
                assert(me.properties[l].index_id is None);
            },
            (Some(fs2), None) => {
                assert(false);
            },
            (None, Some(pi)) => {
                assert(false);
            },
        }
    }
    assert forall|l: int| 0 <= l < me.relations.len() implies (#[trigger] me.relations[l]).id
        == rs[l].id by {
        assert(rel_merged_ok(rs, fe.relations[l], me.relations[l], floor));
    }
    assert forall|m2: int| 0 <= m2 < ps.len() implies prop_matched_by_any(
        ps,
        fe.properties,
        m2,
    ) by {
        assert(find_prop_match(ps, fe.properties[m2]) == m2);
    }
    assert forall|m2: int| 0 <= m2 < rs.len() implies rel_matched_by_any(
        rs,
        fe.relations,
        m2,
    ) by {
        assert(find_rel_by_name(rs, fe.relations[m2].name) == m2);
    }
}

/// Copy a list of retired uids.
fn copy_u64_vec(v: &Vec<u64>) -> (r: Vec<u64>)
    ensures
        r@ == v@,
{
    let mut out: Vec<u64> = Vec::new();
    let n = v.len();
    let mut i: usize = 0;
    while i < n
        invariant
            n == v@.len(),
            i <= n,
            out@ == v@.take(i as int),
        decreases n - i,
    {
        out.push(v[i]);
        proof {
            assert(v@.take(i + 1) =~= v@.take(i as int).push(v@[i as int]));
        }
        i += 1;
    }
    proof {
        assert(v@.take(n as int) =~= v@);
    }
    out
}

/// Render an `"id:uid"` pair.
fn make_pair(id: u64, uid: u64) -> (r: String)
    ensures
        r@ == pair_text(id as nat, uid as nat),
{
    let mut s = crate::text::u64_to_string(id);
    s.append(":");
    proof {
        reveal_strlit(":");
        assert(":"@ =~= seq![':']);
    }
    let u = crate::text::u64_to_string(uid);
    s.append(u.as_str());
    proof {
        assert(s@ =~= pair_text(id as nat, uid as nat));
    }
    s
}



/// A fresh entity whose pair must be minted: it matches no previous
/// entity by name and its declaration pins no pair of its own.
pub open spec fn entity_pair_minted(pes: Seq<EntityView>, fe: EntityView) -> bool {
    find_by_name(pes, fe.name) == -1 && spec_id_num(fe.id) == 0
}

/// Every previous property of `pe` that no fresh declaration of `fe`
/// matches has its uid in the retired list.
pub open spec fn unmatched_prev_props_retired(
    pe: EntityView,
    fe: EntityView,
    retired: Seq<u64>,
) -> bool {
    forall|m2: int|
        0 <= m2 < pe.properties.len() && !prop_matched_by_any(pe.properties, fe.properties, m2)
            ==> retired.contains(spec_uid_num((#[trigger] pe.properties[m2]).id) as u64)
}

/// What a prefix contains, the whole contains.
proof fn lemma_prefix_contains(a: Seq<u64>, b: Seq<u64>, x: u64)
    requires
        a.is_prefix_of(b),
        a.contains(x),
    ensures
        b.contains(x),
{
    let j = choose|j: int| 0 <= j < a.len() && a[j] == x;
    assert(b[j] == x);
}

/// Reconcile the freshly classified entities against the previously
/// persisted model. Entities are matched by name; matched elements keep
/// their identifier pairs (a property also by the previous-name hint its
/// declaration may supply); unmatched elements keep a declaration-pinned
/// pair or receive minted ones whose uids lie above every uid of the
/// previous model; elements of the previous model that are gone move to
/// the retired lists, never erased silently. A regeneration with no
/// changes yields a model whose identifier assignments equal the
/// previous one's exactly. Two differently named previous entities
/// sharing a uid are a fault that stops the merge. The numeric
/// preconditions only keep the mint counters clear of the top of the
/// 64-bit range.
#[verifier::rlimit(100)]
pub fn merge(prev: &ModelInfo, fresh: Vec<ModelEntity>) -> (r: Result<ModelInfo, MergeError>)
    requires
        uid_lt_bound(prev@, 0xFFFF_FFFE_0000_0000),
        spec_id_num(prev@.last_entity_id) < 0xFFFF_FFFE_0000_0000,
        spec_id_num(prev@.last_index_id) < 0xFFFF_FFFE_0000_0000,
        spec_id_num(prev@.last_relation_id) < 0xFFFF_FFFE_0000_0000,
        forall|k: int| 0 <= k < prev@.entities.len() ==> spec_id_num(
            (#[trigger] prev@.entities[k]).last_property_id,
        ) < 0xFFFF_FFFE_0000_0000,
        fresh@.len() < 0x8000,
        forall|k: int| 0 <= k < fresh@.len() ==> (#[trigger] entity_views(fresh@)[k]).properties.len()
            < 0x8000 && entity_views(fresh@)[k].relations.len() < 0x8000,
    ensures
        match r {
            Ok(m) => {
                &&& !has_uid_collision(prev@.entities)
                &&& m@.entities.len() == fresh@.len()
                &&& exists|floor: int|
                    {
                        &&& uid_lt_bound(prev@, floor)
                        &&& #[trigger] merged_against(
                            prev@.entities,
                            entity_views(fresh@),
                            m@.entities,
                            floor,
                        )
                        &&& ((exists|k: int|
                            0 <= k < entity_views(fresh@).len() && entity_pair_minted(
                                prev@.entities,
                                #[trigger] entity_views(fresh@)[k],
                            )) ==> spec_id_num(m@.last_entity_id) > spec_id_num(
                            prev@.last_entity_id,
                        ) && spec_uid_num(m@.last_entity_id) >= floor)
                        &&& (m@.last_index_id == prev@.last_index_id || (spec_id_num(
                            m@.last_index_id,
                        ) > spec_id_num(prev@.last_index_id) && spec_uid_num(m@.last_index_id)
                            >= floor))
                        &&& (m@.last_relation_id == prev@.last_relation_id || (spec_id_num(
                            m@.last_relation_id,
                        ) > spec_id_num(prev@.last_relation_id) && spec_uid_num(
                            m@.last_relation_id,
                        ) >= floor))
                    }
                &&& ((forall|k: int|
                    0 <= k < entity_views(fresh@).len() ==> !entity_pair_minted(
                        prev@.entities,
                        #[trigger] entity_views(fresh@)[k],
                    )) ==> m@.last_entity_id == prev@.last_entity_id)
                &&& (forall|k: int|
                    0 <= k < entity_views(fresh@).len() && find_by_name(
                        prev@.entities,
                        (#[trigger] entity_views(fresh@)[k]).name,
                    ) >= 0 ==> unmatched_prev_props_retired(
                        prev@.entities[find_by_name(
                            prev@.entities,
                            entity_views(fresh@)[k].name,
                        )],
                        entity_views(fresh@)[k],
                        m@.retired_property_uids,
                    ))
                &&& (forall|k: int|
                    0 <= k < prev@.entities.len() && find_by_name(
                        m@.entities,
                        (#[trigger] prev@.entities[k]).name,
                    ) == -1 ==> m@.retired_entity_uids.contains(
                        spec_uid_num(prev@.entities[k].id) as u64,
                    ))
                &&& prev@.retired_entity_uids.is_prefix_of(m@.retired_entity_uids)
                &&& prev@.retired_index_uids.is_prefix_of(m@.retired_index_uids)
                &&& prev@.retired_property_uids.is_prefix_of(m@.retired_property_uids)
                &&& prev@.retired_relation_uids.is_prefix_of(m@.retired_relation_uids)
                &&& (regenerated(prev@, entity_views(fresh@)) ==> ids_preserved(prev@, m@))
            },
            Err(_) => has_uid_collision(prev@.entities),
        },
{
    let ghost pviews = prev@.entities;
    let ghost fviews = entity_views(fresh@);
    if check_uid_collision(&prev.entities) {
        return Err(MergeError::UidCollision);
    }
    let mut next_uid: u64 = compute_uid_floor(prev);
    let ghost floor = next_uid as int;
    let mut next_entity_id: u64 = id_num(&prev.last_entity_id);
    let mut next_index_id: u64 = id_num(&prev.last_index_id);
    let mut next_rel_id: u64 = id_num(&prev.last_relation_id);
    let ghost id_num_init_entity = next_entity_id;
    let ghost id_num_init_index = next_index_id;
    let ghost id_num_init_rel = next_rel_id;
    let mut minted_entity: Option<String> = None;
    let mut minted_index: Option<String> = None;
    let mut minted_rel: Option<String> = None;
    let mut retired_entity = copy_u64_vec(&prev.retired_entity_uids);
    let mut retired_index = copy_u64_vec(&prev.retired_index_uids);
    let mut retired_prop = copy_u64_vec(&prev.retired_property_uids);
    let mut retired_relation = copy_u64_vec(&prev.retired_relation_uids);
    let empty_props: Vec<ModelProperty> = Vec::new();
    let empty_rels: Vec<ModelRelation> = Vec::new();
    let mut merged: Vec<ModelEntity> = Vec::new();
    let mut rest = fresh;
    while rest.len() > 0
        invariant
            pviews == prev@.entities,
            fviews.len() < 0x8000,
            merged@.len() + rest@.len() == fviews.len(),
            rest@ == fresh@.skip(merged@.len() as int),
            fviews == entity_views(fresh@),
            uid_lt_bound(prev@, floor),
            floor <= next_uid,
            floor <= 0xFFFF_FFFE_0000_0000,
            spec_id_num(prev@.last_entity_id) < 0xFFFF_FFFE_0000_0000,
            spec_id_num(prev@.last_index_id) < 0xFFFF_FFFE_0000_0000,
            spec_id_num(prev@.last_relation_id) < 0xFFFF_FFFE_0000_0000,
            forall|k: int| 0 <= k < prev@.entities.len() ==> spec_id_num(
                (#[trigger] prev@.entities[k]).last_property_id,
            ) < 0xFFFF_FFFE_0000_0000,
            forall|k: int| 0 <= k < fviews.len() ==> (#[trigger] fviews[k]).properties.len()
                < 0x8000 && fviews[k].relations.len() < 0x8000,
            next_uid as int <= floor + 0x20000 * merged@.len(),
            next_entity_id as int <= spec_id_num(prev@.last_entity_id) + merged@.len(),
            next_entity_id >= id_num_init_entity,
            next_index_id >= id_num_init_index,
            next_rel_id >= id_num_init_rel,
            match minted_entity {
                Some(p) => spec_id_num(p@) == next_entity_id && next_entity_id
                    > id_num_init_entity && floor <= spec_uid_num(p@) < next_uid && exists|k: int|
                    0 <= k < merged@.len() && entity_pair_minted(pviews, #[trigger] fviews[k]),
                None => next_entity_id == id_num_init_entity && forall|k: int|
                    0 <= k < merged@.len() ==> !entity_pair_minted(pviews, #[trigger] fviews[k]),
            },
            match minted_index {
                Some(p) => spec_id_num(p@) == next_index_id && next_index_id > id_num_init_index
                    && floor <= spec_uid_num(p@) < next_uid,
                None => true,
            },
            match minted_rel {
                Some(p) => spec_id_num(p@) == next_rel_id && next_rel_id > id_num_init_rel
                    && floor <= spec_uid_num(p@) < next_uid,
                None => true,
            },
            next_index_id as int <= spec_id_num(prev@.last_index_id) + 0x8000 * merged@.len(),
            next_rel_id as int <= spec_id_num(prev@.last_relation_id) + 0x8000 * merged@.len(),
            entity_views(merged@).len() == merged@.len(),
            forall|k: int| 0 <= k < merged@.len() ==> entity_merged_ok(
                pviews,
                fviews[k],
                #[trigger] entity_views(merged@)[k],
                floor,
            ),
            prev@.retired_entity_uids.is_prefix_of(retired_entity@),
            prev@.retired_index_uids.is_prefix_of(retired_index@),
            prev@.retired_property_uids.is_prefix_of(retired_prop@),
            prev@.retired_relation_uids.is_prefix_of(retired_relation@),
            forall|k: int|
                0 <= k < merged@.len() && find_by_name(pviews, (#[trigger] fviews[k]).name) >= 0
                    ==> unmatched_prev_props_retired(
                    pviews[find_by_name(pviews, fviews[k].name)],
                    fviews[k],
                    retired_prop@,
                ),
            empty_props@.len() == 0,
            empty_rels@.len() == 0,
            regenerated(prev@, fviews) ==> {
                &&& minted_entity is None
                &&& minted_index is None
                &&& minted_rel is None
                &&& retired_entity@ == prev@.retired_entity_uids
                &&& retired_index@ == prev@.retired_index_uids
                &&& retired_prop@ == prev@.retired_property_uids
                &&& retired_relation@ == prev@.retired_relation_uids
                &&& (forall|k: int| 0 <= k < merged@.len() ==> {
                    let me = #[trigger] entity_views(merged@)[k];
                    &&& me.id == pviews[k].id
                    &&& me.last_property_id == pviews[k].last_property_id
                    &&& me.properties.len() == pviews[k].properties.len()
                    &&& me.relations.len() == pviews[k].relations.len()
                    &&& (forall|l: int| 0 <= l < me.properties.len() ==> (
                        #[trigger] me.properties[l]).id == pviews[k].properties[l].id
                        && me.properties[l].index_id == pviews[k].properties[l].index_id)
                    &&& (forall|l: int| 0 <= l < me.relations.len() ==> (
                        #[trigger] me.relations[l]).id == pviews[k].relations[l].id)
                })
            },
        decreases rest@.len(),
    {
        let ghost done = merged@.len() as int;
        let fe = rest.remove(0);
        proof {
            assert(fresh@.skip(done).remove(0) =~= fresh@.skip(done + 1));
            assert(fe == fresh@[done]);
            assert(fviews[done] == fe@);
        }
        let ghost fev = fe@;
        let ghost pre_minted_index = minted_index;
        let ghost pre_minted_rel = minted_rel;
        let ghost pre_retired_prop = retired_prop@;
        let ghost pre_retired_index = retired_index@;
        let ghost pre_retired_relation = retired_relation@;
        let matched = entity_index_by_name(&prev.entities, &fe.name);
        let me = match matched {
            Some(i) => {
                proof {
                    assert(pviews[i as int] == prev.entities@[i as int]@);
                }
                let prev_e = &prev.entities[i];
                retire_unmatched_props(
                    &prev_e.properties,
                    &fe.properties,
                    &mut retired_prop,
                    &mut retired_index,
                );
                retire_unmatched_rels(&prev_e.relations, &fe.relations, &mut retired_relation);
                let lp = id_num(&prev_e.last_property_id);
                proof {
                    assert(prop_views(fe.properties@) =~= fev.properties);
                    assert(prop_views(prev_e.properties@) =~= pviews[i as int].properties);
                    assert(rel_views(fe.relations@) =~= fev.relations);
                    assert(rel_views(prev_e.relations@) =~= pviews[i as int].relations);
                    assert(find_by_name(pviews, fev.name) == i as int);
                    assert(unmatched_prev_props_retired(pviews[i as int], fev, retired_prop@));
                }
                let (mprops, last_minted) = merge_props(
                    &prev_e.properties,
                    fe.properties,
                    lp,
                    &mut next_uid,
                    &mut next_index_id,
                    &mut minted_index,
                );
                let mrels = merge_rels(
                    &prev_e.relations,
                    fe.relations,
                    &mut next_rel_id,
                    &mut next_uid,
                    &mut minted_rel,
                );
                let last_property_id = match last_minted {
                    Some(p) => p,
                    None => prev_e.last_property_id.clone(),
                };
                ModelEntity {
                    id: prev_e.id.clone(),
                    last_property_id,
                    name: fe.name,
                    properties: mprops,
                    relations: mrels,
                }
            },
            None => {
                proof {
                    assert(prop_views(fe.properties@) =~= fev.properties);
                    assert(rel_views(fe.relations@) =~= fev.relations);
                    assert(prop_views(empty_props@) =~= Seq::<PropView>::empty());
                    assert(rel_views(empty_rels@) =~= Seq::<RelationView>::empty());
                }
                let id: String = if id_num(&fe.id) != 0 {
                    fe.id.clone()
                } else {
                    next_entity_id = next_entity_id + 1;
                    let uid = next_uid;
                    next_uid = next_uid + 1;
                    let pair = make_pair(next_entity_id, uid);
                    proof {
                        lemma_pair_text_parse(next_entity_id, uid);
                        assert(entity_pair_minted(pviews, fviews[done]));
                    }
                    minted_entity = Some(pair.clone());
                    pair
                };
                let (mprops, last_minted) = merge_props(
                    &empty_props,
                    fe.properties,
                    0,
                    &mut next_uid,
                    &mut next_index_id,
                    &mut minted_index,
                );
                let mrels = merge_rels(
                    &empty_rels,
                    fe.relations,
                    &mut next_rel_id,
                    &mut next_uid,
                    &mut minted_rel,
                );
                let last_property_id = match last_minted {
                    Some(p) => p,
                    None => fe.last_property_id.clone(),
                };
                ModelEntity {
                    id,
                    last_property_id,
                    name: fe.name,
                    properties: mprops,
                    relations: mrels,
                }
            },
        };
        let ghost merged0 = merged@;
        merged.push(me);
        proof {
            assert(entity_views(merged@) =~= entity_views(merged0).push(merged@.last()@));
            assert(forall|k: int| 0 <= k < done ==> entity_views(merged@)[k] == entity_views(
                merged0,
            )[k]);
            assert(entity_views(merged@)[done] == merged@.last()@);
            let mev = entity_views(merged@)[done];
            assert(mev.properties =~= prop_views(merged@.last().properties@));
            assert(mev.relations =~= rel_views(merged@.last().relations@));
            assert(entity_merged_ok(pviews, fviews[done], mev, floor)) by {
                match matched {
                    Some(i) => {
                        assert(find_by_name(pviews, fev.name) == i as int);
                    },
                    None => {
                        assert(find_by_name(pviews, fev.name) == -1);
                    },
                }
            }
            assert(pre_retired_prop.is_prefix_of(retired_prop@));
            assert forall|k2: int|
                0 <= k2 < done + 1 && find_by_name(pviews, (#[trigger] fviews[k2]).name) >= 0
                    implies unmatched_prev_props_retired(
                pviews[find_by_name(pviews, fviews[k2].name)],
                fviews[k2],
                retired_prop@,
            ) by {
                let pi = find_by_name(pviews, fviews[k2].name);
                if k2 < done {
                    assert(unmatched_prev_props_retired(
                        pviews[pi],
                        fviews[k2],
                        pre_retired_prop,
                    ));
                    assert forall|m2: int|
                        0 <= m2 < pviews[pi].properties.len() && !prop_matched_by_any(
                            pviews[pi].properties,
                            fviews[k2].properties,
                            m2,
                        ) implies retired_prop@.contains(
                        spec_uid_num((#[trigger] pviews[pi].properties[m2]).id) as u64,
                    ) by {
                        lemma_prefix_contains(
                            pre_retired_prop,
                            retired_prop@,
                            spec_uid_num(pviews[pi].properties[m2].id) as u64,
                        );
                    }
                } else {
                    match matched {
                        Some(i) => {
                            assert(pi == i as int);
                        },
                        None => {
                            assert(false);
                        },
                    }
                }
            }
            if regenerated(prev@, fviews) {
                assert(regenerated_entity(pviews[done], fev));
                match matched {
                    Some(i) => {
                        lemma_find_entity_at(pviews, done);
                        assert(i as int == done);
                        lemma_regenerated_entity_preserved(pviews, done, fev, mev, floor);
                    },
                    None => {
                        lemma_find_entity_at(pviews, done);
                        assert(false);
                    },
                }
            }
        }
    }
    let ghost mviews = entity_views(merged@);
    proof {
        assert(merged@.len() == fviews.len());
    }
    let np = prev.entities.len();
    let mut k: usize = 0;
    let ghost re0 = retired_entity@;
    let ghost ri0 = retired_index@;
    let ghost rp0 = retired_prop@;
    let ghost rr0 = retired_relation@;
    while k < np
        invariant
            np == prev.entities@.len(),
            k <= np,
            pviews == prev@.entities,
            mviews == entity_views(merged@),
            re0.is_prefix_of(retired_entity@),
            ri0.is_prefix_of(retired_index@),
            rp0.is_prefix_of(retired_prop@),
            rr0.is_prefix_of(retired_relation@),
            (forall|k2: int| 0 <= k2 < k ==> find_by_name(
                mviews,
                (#[trigger] pviews[k2]).name,
            ) >= 0) ==> retired_entity@ == re0 && retired_index@ == ri0 && retired_prop@ == rp0
                && retired_relation@ == rr0,
            forall|k2: int|
                0 <= k2 < k && find_by_name(mviews, (#[trigger] pviews[k2]).name) == -1
                    ==> retired_entity@.contains(spec_uid_num(pviews[k2].id) as u64),
        decreases np - k,
    {
        let ghost re_start = retired_entity@;
        proof {
            assert(pviews[k as int] == prev.entities@[k as int]@);
        }
        match entity_index_by_name(&merged, &prev.entities[k].name) {
            Some(_) => {},
            None => {
                let prev_e = &prev.entities[k];
                retired_entity.push(crate::model::uid_num(&prev_e.id));
                proof {
                    assert(retired_entity@.last() == spec_uid_num(pviews[k as int].id) as u64);
                }
                let npr = prev_e.properties.len();
                let mut l: usize = 0;
                while l < npr
                    invariant
                        npr == prev_e.properties@.len(),
                        l <= npr,
                        re0.is_prefix_of(retired_entity@),
                        ri0.is_prefix_of(retired_index@),
                        rp0.is_prefix_of(retired_prop@),
                        rr0.is_prefix_of(retired_relation@),
                    decreases npr - l,
                {
                    retired_prop.push(crate::model::uid_num(&prev_e.properties[l].id));
                    match &prev_e.properties[l].index_id {
                        Some(s2) => {
                            retired_index.push(crate::model::uid_num(s2));
                        },
                        None => {},
                    }
                    l += 1;
                }
                let nrr = prev_e.relations.len();
                let mut l2: usize = 0;
                while l2 < nrr
                    invariant
                        nrr == prev_e.relations@.len(),
                        l2 <= nrr,
                        re0.is_prefix_of(retired_entity@),
                        ri0.is_prefix_of(retired_index@),
                        rp0.is_prefix_of(retired_prop@),
                        rr0.is_prefix_of(retired_relation@),
                    decreases nrr - l2,
                {
                    retired_relation.push(crate::model::uid_num(&prev_e.relations[l2].id));
                    l2 += 1;
                }
            },
        }
        proof {
            assert(re_start.is_prefix_of(retired_entity@));
            assert forall|k2: int|
                0 <= k2 < k + 1 && find_by_name(mviews, (#[trigger] pviews[k2]).name) == -1
                    implies retired_entity@.contains(spec_uid_num(pviews[k2].id) as u64) by {
                if k2 < k {
                    lemma_prefix_contains(
                        re_start,
                        retired_entity@,
                        spec_uid_num(pviews[k2].id) as u64,
                    );
                }
            }
        }
        k += 1;
    }
    let ghost g_minted_entity = minted_entity;
    let ghost g_minted_index = minted_index;
    let ghost g_minted_rel = minted_rel;
    let last_entity_id = match minted_entity {
        Some(p) => p,
        None => prev.last_entity_id.clone(),
    };
    let last_index_id = match minted_index {
        Some(p) => p,
        None => prev.last_index_id.clone(),
    };
    let last_relation_id = match minted_rel {
        Some(p) => p,
        None => prev.last_relation_id.clone(),
    };
    let result = ModelInfo {
        note1: prev.note1.clone(),
        note2: prev.note2.clone(),
        note3: prev.note3.clone(),
        entities: merged,
        last_entity_id,
        last_index_id,
        last_relation_id,
        last_sequence_id: prev.last_sequence_id.clone(),
        model_version: prev.model_version,
        model_version_parser_minimum: prev.model_version_parser_minimum,
        retired_entity_uids: retired_entity,
        retired_index_uids: retired_index,
        retired_property_uids: retired_prop,
        retired_relation_uids: retired_relation,
        version: prev.version,
    };
    proof {
        assert(result@.entities == mviews);
        assert(merged_against(pviews, fviews, result@.entities, floor));
        match g_minted_entity {
            Some(p) => {
                assert(result@.last_entity_id == p@);
                assert(spec_id_num(p@) > spec_id_num(prev@.last_entity_id));
                assert(spec_uid_num(p@) >= floor);
            },
            None => {
                assert(result@.last_entity_id == prev@.last_entity_id);
            },
        }
        match g_minted_index {
            Some(p) => {
                assert(result@.last_index_id == p@);
                assert(spec_id_num(p@) > spec_id_num(prev@.last_index_id));
                assert(spec_uid_num(p@) >= floor);
            },
            None => {
                assert(result@.last_index_id == prev@.last_index_id);
            },
        }
        match g_minted_rel {
            Some(p) => {
                assert(result@.last_relation_id == p@);
                assert(spec_id_num(p@) > spec_id_num(prev@.last_relation_id));
                assert(spec_uid_num(p@) >= floor);
            },
            None => {
                assert(result@.last_relation_id == prev@.last_relation_id);
            },
        }
        if exists|k: int|
            0 <= k < fviews.len() && entity_pair_minted(pviews, #[trigger] fviews[k]) {
            if g_minted_entity is None {
                let k = choose|k: int|
                    0 <= k < fviews.len() && entity_pair_minted(pviews, #[trigger] fviews[k]);
                assert(!entity_pair_minted(pviews, fviews[k]));
                assert(false);
            }
        }
        if regenerated(prev@, fviews) {
            assert forall|k2: int| 0 <= k2 < np implies find_by_name(
                mviews,
                (#[trigger] pviews[k2]).name,
            ) >= 0 by {
                assert(mviews[k2].name == fviews[k2].name);
                assert(fviews[k2].name == pviews[k2].name);
                lemma_find_by_name_ensures(mviews, pviews[k2].name);
                if find_by_name(mviews, pviews[k2].name) == -1 {
                    assert(mviews[k2].name != pviews[k2].name);
                    assert(false);
                }
            }
            assert(ids_preserved(prev@, result@));
        }
    }
    Ok(result)
}


/// Renaming a property while supplying its previous schema name as the
/// hint preserves its identifier pair, and with it its uid: the merge
/// matches it through the hint and carries the previous pair over.
pub proof fn lemma_rename_with_hint_keeps_uid(
    ps: Seq<PropView>,
    fp: PropView,
    mp: PropView,
    floor: int,
    j: int,
)
    requires
        prop_names_unique(ps),
        0 <= j < ps.len(),
        prop_merged_ok(ps, fp, mp, floor),
        find_prop_by_name(ps, fp.name) == -1,
        fp.former_name == ps[j].name,
        fp.former_name.len() > 0,
    ensures
        mp.id == ps[j].id,
        spec_uid_num(mp.id) == spec_uid_num(ps[j].id),
{
    lemma_find_prop_at(ps, j);
    assert(find_prop_by_name(ps, fp.former_name) == j);
    assert(find_prop_match(ps, fp) == j);
}

/// Renaming a property without the hint mints a new uid: the merged
/// property's uid lies at or above the floor, above every uid the
/// previous properties carry, so the old uid is never reused — the
/// retirement scan moves it to the retired list instead.
pub proof fn lemma_rename_without_hint_mints(
    ps: Seq<PropView>,
    fp: PropView,
    mp: PropView,
    floor: int,
)
    requires
        prop_merged_ok(ps, fp, mp, floor),
        find_prop_by_name(ps, fp.name) == -1,
        fp.former_name.len() == 0,
        spec_id_num(fp.id) == 0,
        forall|j: int| 0 <= j < ps.len() ==> spec_uid_num((#[trigger] ps[j]).id) < floor,
    ensures
        spec_uid_num(mp.id) >= floor,
        forall|j: int| 0 <= j < ps.len() ==> spec_uid_num(mp.id) != spec_uid_num(
            (#[trigger] ps[j]).id,
        ),
{
    assert(find_prop_match(ps, fp) == -1);
}

} // verus!
