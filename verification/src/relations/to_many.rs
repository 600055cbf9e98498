//! Multi-target relation: a reference from one record to many records of
//! a target type, with a change log.
//!
//! Items live in two lists: the loaded list, filled lazily by the store
//! collaborator, and a buffer of items added before that load happened.
//! Each item is held together with the identity it reported when it
//! entered. A change log maps each target identity to its net signed
//! change count: positive means net added, negative net removed, zero no
//! pending change.

use crate::relations::info::RelInfo;
use crate::relations::IdExt;
use vstd::prelude::*;

verus! {

/// The net change count recorded for `id`: the count of the entry whose
/// key is `id`, or `0` when no entry carries that key.
pub open spec fn change_count(ch: Seq<(u64, i64)>, id: u64) -> int
    decreases ch.len(),
{
    if ch.len() == 0 {
        0
    } else if ch[0].0 == id {
        ch[0].1 as int
    } else {
        change_count(ch.drop_first(), id)
    }
}

/// Every key occurs at most once in the change log.
pub open spec fn keys_unique(ch: Seq<(u64, i64)>) -> bool {
    forall|i: int, j: int| 0 <= i < j < ch.len() ==> ch[i].0 != ch[j].0
}

/// How many held items carry the identity `id`.
pub open spec fn count_matching<T>(s: Seq<(u64, T)>, id: u64) -> int
    decreases s.len(),
{
    if s.len() == 0 {
        0
    } else {
        (if s[0].0 == id {
            1int
        } else {
            0int
        }) + count_matching(s.drop_first(), id)
    }
}

/// The held items with the identity `id` removed at its first occurrence;
/// the sequence itself when no item carries that identity.
pub open spec fn remove_first_matching<T>(s: Seq<(u64, T)>, id: u64) -> Seq<(u64, T)>
    decreases s.len(),
{
    if s.len() == 0 {
        s
    } else if s[0].0 == id {
        s.drop_first()
    } else {
        seq![s[0]] + remove_first_matching(s.drop_first(), id)
    }
}

/// The identities of the held items that have one (nonzero), in order.
pub open spec fn nonzero_ids<T>(s: Seq<(u64, T)>) -> Seq<u64>
    decreases s.len(),
{
    if s.len() == 0 {
        Seq::empty()
    } else if s[0].0 != 0 {
        seq![s[0].0] + nonzero_ids(s.drop_first())
    } else {
        nonzero_ids(s.drop_first())
    }
}

/// The items whose identity is `0`, in order, without their identities.
pub open spec fn zero_items<T>(s: Seq<(u64, T)>) -> Seq<T>
    decreases s.len(),
{
    if s.len() == 0 {
        Seq::empty()
    } else if s[0].0 == 0 {
        seq![s[0].1] + zero_items(s.drop_first())
    } else {
        zero_items(s.drop_first())
    }
}

/// A net change count moved by one: up or down, stopping at the bounds of
/// the 64-bit range.
pub open spec fn bump(c: int, increment: bool) -> int {
    if increment {
        if c >= i64::MAX {
            c
        } else {
            c + 1
        }
    } else {
        if c <= i64::MIN {
            c
        } else {
            c - 1
        }
    }
}

/// A net change count moved down `m` times: `c - m`, stopping at the
/// bottom of the 64-bit range.
pub open spec fn bump_down_n(c: int, m: int) -> int {
    if c - m >= i64::MIN {
        c - m
    } else {
        i64::MIN as int
    }
}

/// Every identity outside `ids` has the same net change count in `post`
/// as in `pre`.
pub open spec fn preserves_nets_outside<T>(pre: ToMany<T>, post: ToMany<T>, ids: Seq<u64>) -> bool {
    forall|k: u64| !(#[trigger] ids.contains(k)) ==> post.net(k) == pre.net(k)
}

/// A reference from one record to many records of the target type `T`.
#[derive(Debug)]
pub struct ToMany<T> {
    /// Relation info, set when the owning record is bound to a store.
    rel_info: Option<RelInfo>,
    /// Loaded items, each with the identity it reported; `None` until the
    /// store collaborator loads them.
    loaded: Option<Vec<(u64, T)>>,
    /// Items added before loading completed, each with its identity.
    pre: Vec<(u64, T)>,
    /// Change log: identity to net signed change count; each key at most
    /// once.
    changes: Vec<(u64, i64)>,
}

impl<T> ToMany<T> {
    /// Whether the loaded list has been populated.
    pub closed spec fn is_loaded(&self) -> bool {
        self.loaded is Some
    }

    /// The loaded items, empty when not yet loaded.
    pub closed spec fn loaded_seq(&self) -> Seq<(u64, T)> {
        match self.loaded {
            Some(v) => v@,
            None => Seq::empty(),
        }
    }

    /// The items added before loading completed.
    pub closed spec fn pre_seq(&self) -> Seq<(u64, T)> {
        self.pre@
    }

    /// All held items, loaded items first, in order.
    pub open spec fn all_seq(&self) -> Seq<(u64, T)> {
        self.loaded_seq() + self.pre_seq()
    }

    /// The change log entries, in insertion order.
    pub closed spec fn changes_seq(&self) -> Seq<(u64, i64)> {
        self.changes@
    }

    /// The net change count pending for `id`.
    pub open spec fn net(&self, id: u64) -> int {
        change_count(self.changes_seq(), id)
    }

    /// The relation info, if set.
    pub closed spec fn spec_rel_info(&self) -> Option<RelInfo> {
        self.rel_info
    }

    /// Validity: change log keys are unique, and once the loaded list is
    /// populated the pre-load buffer is empty.
    pub open spec fn wf(&self) -> bool {
        &&& keys_unique(self.changes_seq())
        &&& (self.is_loaded() ==> self.pre_seq().len() == 0)
    }

    /// Create a new empty relation: nothing loaded, nothing pending.
    pub fn new() -> (r: Self)
        ensures
            !r.is_loaded(),
            r.all_seq() == Seq::<(u64, T)>::empty(),
            r.changes_seq() == Seq::<(u64, i64)>::empty(),
            r.spec_rel_info() is None,
            r.wf(),
    {
        let r = ToMany { rel_info: None, loaded: None, pre: Vec::new(), changes: Vec::new() };
        proof {
            assert(r.all_seq() =~= Seq::<(u64, T)>::empty());
        }
        r
    }

    /// Record a change of one for `id` in the change log: an existing
    /// entry is bumped, otherwise a new entry is appended. Identity `0`
    /// stands for an unsaved record and is never tracked.
    fn track(&mut self, id: u64, increment: bool)
        requires
            old(self).wf(),
        ensures
            final(self).wf(),
            final(self).is_loaded() == old(self).is_loaded(),
            final(self).all_seq() == old(self).all_seq(),
            final(self).spec_rel_info() == old(self).spec_rel_info(),
            id == 0 ==> final(self).changes_seq() == old(self).changes_seq(),
            id != 0 ==> final(self).net(id) == bump(old(self).net(id), increment),
            forall|k: u64| k != id ==> final(self).net(k) == old(self).net(k),
    {
        proof {
            lemma_change_count_in_range(self.changes@);
        }
        if id == 0 {
            return ;
        }
        let n = self.changes.len();
        let mut i: usize = 0;
        while i < n
            invariant
                *self == *old(self),
                old(self).wf(),
                id != 0,
                n == self.changes@.len(),
                i <= n,
                forall|j: int| 0 <= j < i ==> self.changes@[j].0 != id,
            decreases n - i,
        {
            if self.changes[i].0 == id {
                let c = self.changes[i].1;
                let nc = if increment {
                    if c == i64::MAX {
                        c
                    } else {
                        c + 1
                    }
                } else {
                    if c == i64::MIN {
                        c
                    } else {
                        c - 1
                    }
                };
                self.changes[i].1 = nc;
                proof {
                    lemma_change_count_update(old(self).changes@, self.changes@, i as int, id, nc);
                }
                return ;
            }
            i += 1;
        }
        let delta: i64 = if increment {
            1
        } else {
            -1
        };
        self.changes.push((id, delta));
        proof {
            lemma_change_count_append(old(self).changes@, id, delta);
            assert(change_count(old(self).changes@, id) == 0) by {
                lemma_change_count_absent(old(self).changes@, id);
            }
        }
    }

    /// True exactly when some identity has a nonzero net change count.
    pub fn has_pending_changes(&self) -> (r: bool)
        requires
            self.wf(),
        ensures
            r == exists|id: u64| #[trigger] self.net(id) != 0,
    {
        let n = self.changes.len();
        let mut i: usize = 0;
        while i < n
            invariant
                self.wf(),
                n == self.changes@.len(),
                i <= n,
                forall|j: int| 0 <= j < i ==> self.changes@[j].1 == 0,
            decreases n - i,
        {
            if self.changes[i].1 != 0 {
                proof {
                    lemma_change_count_entry(self.changes@, i as int);
                    assert(self.net(self.changes@[i as int].0) != 0);
                }
                return true;
            }
            i += 1;
        }
        proof {
            assert forall|id: u64| #[trigger] self.net(id) == 0 by {
                lemma_change_count_lookup(self.changes@, id);
            }
        }
        false
    }

    /// The pending changes: the identities whose net change count is
    /// positive (net added) and those whose net change count is negative
    /// (net removed). An identity whose additions and removals cancel out
    /// appears in neither list; no identity appears twice.
    pub fn get_pending_changes(&self) -> (r: (Vec<u64>, Vec<u64>))
        requires
            self.wf(),
        ensures
            forall|id: u64| r.0@.contains(id) <==> #[trigger] self.net(id) > 0,
            forall|id: u64| r.1@.contains(id) <==> #[trigger] self.net(id) < 0,
            forall|i: int, j: int| 0 <= i < j < r.0@.len() ==> r.0@[i] != r.0@[j],
            forall|i: int, j: int| 0 <= i < j < r.1@.len() ==> r.1@[i] != r.1@[j],
    {
        let mut added: Vec<u64> = Vec::new();
        let mut removed: Vec<u64> = Vec::new();
        let n = self.changes.len();
        let mut i: usize = 0;
        while i < n
            invariant
                self.wf(),
                n == self.changes@.len(),
                i <= n,
                forall|id: u64| added@.contains(id) <==> exists|j: int|
                    0 <= j < i && self.changes@[j].0 == id && self.changes@[j].1 > 0,
                forall|id: u64| removed@.contains(id) <==> exists|j: int|
                    0 <= j < i && self.changes@[j].0 == id && self.changes@[j].1 < 0,
                forall|i2: int, j2: int| 0 <= i2 < j2 < added@.len() ==> added@[i2] != added@[j2],
                forall|i2: int, j2: int| 0 <= i2 < j2 < removed@.len() ==> removed@[i2]
                    != removed@[j2],
            decreases n - i,
        {
            let ghost added0 = added@;
            let ghost removed0 = removed@;
            let entry = self.changes[i];
            if entry.1 > 0 {
                proof {
                    if added0.contains(entry.0) {
                        let j = choose|j: int|
                            0 <= j < i && self.changes@[j].0 == entry.0 && self.changes@[j].1 > 0;
                        assert(self.changes@[j].0 == self.changes@[i as int].0);
                        assert(false);
                    }
                }
                added.push(entry.0);
            } else if entry.1 < 0 {
                proof {
                    if removed0.contains(entry.0) {
                        let j = choose|j: int|
                            0 <= j < i && self.changes@[j].0 == entry.0 && self.changes@[j].1 < 0;
                        assert(self.changes@[j].0 == self.changes@[i as int].0);
                        assert(false);
                    }
                }
                removed.push(entry.0);
            }
            proof {
                assert forall|id: u64| added@.contains(id) <==> exists|j: int|
                    0 <= j < i + 1 && self.changes@[j].0 == id && self.changes@[j].1 > 0 by {
                    if added@.contains(id) {
                        let k = choose|k: int| 0 <= k < added@.len() && added@[k] == id;
                        if k < added0.len() {
                            assert(added0[k] == id);
                            assert(added0.contains(id));
                        } else {
                            assert(id == self.changes@[i as int].0);
                            assert(self.changes@[i as int].1 > 0);
                        }
                    }
                    if exists|j: int|
                        0 <= j < i + 1 && self.changes@[j].0 == id && self.changes@[j].1 > 0 {
                        let j = choose|j: int|
                            0 <= j < i + 1 && self.changes@[j].0 == id && self.changes@[j].1 > 0;
                        if j < i {
                            assert(added0.contains(id));
                            let k = choose|k: int| 0 <= k < added0.len() && added0[k] == id;
                            assert(added@[k] == id);
                        } else {
                            assert(self.changes@[i as int].1 > 0);
                            assert(added@[added@.len() - 1] == id);
                        }
                    }
                }
                assert forall|id: u64| removed@.contains(id) <==> exists|j: int|
                    0 <= j < i + 1 && self.changes@[j].0 == id && self.changes@[j].1 < 0 by {
                    if removed@.contains(id) {
                        let k = choose|k: int| 0 <= k < removed@.len() && removed@[k] == id;
                        if k < removed0.len() {
                            assert(removed0[k] == id);
                            assert(removed0.contains(id));
                        } else {
                            assert(id == self.changes@[i as int].0);
                            assert(self.changes@[i as int].1 < 0);
                        }
                    }
                    if exists|j: int|
                        0 <= j < i + 1 && self.changes@[j].0 == id && self.changes@[j].1 < 0 {
                        let j = choose|j: int|
                            0 <= j < i + 1 && self.changes@[j].0 == id && self.changes@[j].1 < 0;
                        if j < i {
                            assert(removed0.contains(id));
                            let k = choose|k: int| 0 <= k < removed0.len() && removed0[k] == id;
                            assert(removed@[k] == id);
                        } else {
                            assert(self.changes@[i as int].1 < 0);
                            assert(removed@[removed@.len() - 1] == id);
                        }
                    }
                }
            }
            i += 1;
        }
        proof {
            assert forall|id: u64| added@.contains(id) <==> #[trigger] self.net(id) > 0 by {
                lemma_change_count_lookup(self.changes@, id);
            }
            assert forall|id: u64| removed@.contains(id) <==> #[trigger] self.net(id) < 0 by {
                lemma_change_count_lookup(self.changes@, id);
            }
        }
        (added, removed)
    }

    /// Forget all pending changes and discard the pre-load buffer; called
    /// by the owning record's persistence step once the changes have been
    /// applied.
    pub fn clear_pending_changes(&mut self)
        ensures
            final(self).wf(),
            final(self).changes_seq() == Seq::<(u64, i64)>::empty(),
            final(self).pre_seq() == Seq::<(u64, T)>::empty(),
            final(self).loaded_seq() == old(self).loaded_seq(),
            final(self).is_loaded() == old(self).is_loaded(),
            final(self).spec_rel_info() == old(self).spec_rel_info(),
    {
        self.changes.clear();
        self.pre.clear();
    }

    /// Attach relation info; called when the owning record is bound to a
    /// store.
    pub fn set_rel_info(&mut self, info: RelInfo)
        ensures
            final(self).spec_rel_info() == Some(info),
            final(self).loaded_seq() == old(self).loaded_seq(),
            final(self).is_loaded() == old(self).is_loaded(),
            final(self).pre_seq() == old(self).pre_seq(),
            final(self).changes_seq() == old(self).changes_seq(),
            old(self).wf() ==> final(self).wf(),
    {
        self.rel_info = Some(info);
    }

    /// The relation info, if it has been attached.
    pub fn get_rel_info(&self) -> (r: Option<RelInfo>)
        ensures
            r == self.spec_rel_info(),
    {
        self.rel_info
    }

    /// Append an item under the identity it reported: it joins the loaded
    /// list when loading has happened, the pre-load buffer otherwise, and
    /// a net addition is recorded for a nonzero identity.
    pub fn add_with_id(&mut self, id: u64, item: T)
        requires
            old(self).wf(),
        ensures
            final(self).wf(),
            final(self).is_loaded() == old(self).is_loaded(),
            final(self).all_seq() == old(self).all_seq().push((id, item)),
            final(self).spec_rel_info() == old(self).spec_rel_info(),
            id != 0 ==> final(self).net(id) == bump(old(self).net(id), true),
            id == 0 ==> final(self).changes_seq() == old(self).changes_seq(),
            forall|k: u64| k != id ==> final(self).net(k) == old(self).net(k),
    {
        self.track(id, true);
        match &mut self.loaded {
            Some(v) => {
                v.push((id, item));
                proof {
                    assert(final(self).all_seq() =~= old(self).all_seq().push((id, item)));
                }
            },
            None => {
                self.pre.push((id, item));
                proof {
                    assert(final(self).all_seq() =~= old(self).all_seq().push((id, item)));
                }
            },
        }
    }

    /// Install the freshly loaded items, merging the pre-load buffer after
    /// them, in arrival order. The change log is not touched.
    pub fn set_items(&mut self, items: Vec<(u64, T)>)
        requires
            old(self).wf(),
        ensures
            final(self).wf(),
            final(self).is_loaded(),
            final(self).all_seq() == items@ + old(self).pre_seq(),
            old(self).is_loaded() ==> final(self).loaded_seq() == items@,
            final(self).changes_seq() == old(self).changes_seq(),
            final(self).spec_rel_info() == old(self).spec_rel_info(),
    {
        let mut items = items;
        items.append(&mut self.pre);
        self.loaded = Some(items);
        proof {
            assert(final(self).all_seq() =~= final(self).loaded_seq());
        }
    }

    /// Remove the item held under identity `id`, wherever it currently
    /// lives, and record a net removal. Identity `0`, or an identity no
    /// held item carries, is "not found": nothing changes.
    pub fn remove_by_id(&mut self, id: u64) -> (found: bool)
        requires
            old(self).wf(),
        ensures
            final(self).wf(),
            found == (id != 0 && count_matching(old(self).all_seq(), id) > 0),
            !found ==> *final(self) == *old(self),
            found ==> final(self).all_seq() == remove_first_matching(old(self).all_seq(), id),
            found ==> final(self).net(id) == bump(old(self).net(id), false),
            final(self).is_loaded() == old(self).is_loaded(),
            final(self).spec_rel_info() == old(self).spec_rel_info(),
            forall|k: u64| k != id ==> final(self).net(k) == old(self).net(k),
    {
        if id == 0 {
            proof {
                lemma_count_matching_exists(old(self).all_seq(), id);
            }
            return false;
        }
        let mut found = false;
        match &mut self.loaded {
            Some(v) => {
                proof {
                    assert(old(self).pre_seq().len() == 0);
                    assert(old(self).all_seq() =~= old(self).loaded_seq());
                }
                match find_pos(v, id) {
                    Some(i) => {
                        proof {
                            lemma_remove_first_matching_at(v@, id, i as int);
                            lemma_count_matching_exists(v@, id);
                        }
                        v.remove(i);
                        found = true;
                    },
                    None => {
                        proof {
                            lemma_count_matching_exists(old(self).loaded_seq(), id);
                        }
                    },
                }
                proof {
                    if found {
                        assert(self.all_seq() =~= self.loaded_seq());
                    }
                }
            },
            None => {
                proof {
                    assert(old(self).all_seq() =~= old(self).pre_seq());
                }
                match find_pos(&self.pre, id) {
                    Some(i) => {
                        proof {
                            lemma_remove_first_matching_at(self.pre@, id, i as int);
                            lemma_count_matching_exists(self.pre@, id);
                        }
                        self.pre.remove(i);
                        found = true;
                    },
                    None => {
                        proof {
                            lemma_count_matching_exists(old(self).pre_seq(), id);
                        }
                    },
                }
                proof {
                    assert(self.all_seq() =~= self.pre_seq());
                }
            },
        }
        if found {
            self.track(id, false);
        }
        found
    }

    /// Record a net removal for every item in `items`, in order; the held
    /// lists themselves are not touched.
    fn track_removals(&mut self, items: &Vec<(u64, T)>)
        requires
            old(self).wf(),
        ensures
            final(self).wf(),
            final(self).is_loaded() == old(self).is_loaded(),
            final(self).all_seq() == old(self).all_seq(),
            final(self).spec_rel_info() == old(self).spec_rel_info(),
            forall|id: u64| id != 0 ==> final(self).net(id) == bump_down_n(
                old(self).net(id),
                count_matching(items@, id),
            ),
            final(self).net(0) == old(self).net(0),
    {
        let n = items.len();
        let mut i: usize = 0;
        proof {
            assert forall|id: u64| id != 0 implies self.net(id) == bump_down_n(
                old(self).net(id),
                count_matching(items@.take(0), id),
            ) by {
                assert(items@.take(0) =~= Seq::<(u64, T)>::empty());
                lemma_change_count_one_in_range(old(self).changes@, id);
            }
        }
        while i < n
            invariant
                old(self).wf(),
                self.wf(),
                n == items@.len(),
                i <= n,
                self.is_loaded() == old(self).is_loaded(),
                self.all_seq() == old(self).all_seq(),
                self.spec_rel_info() == old(self).spec_rel_info(),
                forall|id: u64| id != 0 ==> self.net(id) == bump_down_n(
                    old(self).net(id),
                    count_matching(items@.take(i as int), id),
                ),
                self.net(0) == old(self).net(0),
            decreases n - i,
        {
            let ghost pre_state = *self;
            let item_id = items[i].0;
            self.track(item_id, false);
            proof {
                assert(items@.take(i + 1) =~= items@.take(i as int).push(items@[i as int]));
                assert forall|id: u64| id != 0 implies self.net(id) == bump_down_n(
                    old(self).net(id),
                    count_matching(items@.take(i + 1), id),
                ) by {
                    lemma_count_matching_push(items@.take(i as int), items@[i as int], id);
                    lemma_change_count_one_in_range(old(self).changes@, id);
                    if id == item_id {
                        assert(self.net(id) == bump(pre_state.net(id), false));
                    } else {
                        assert(self.net(id) == pre_state.net(id));
                    }
                }
                if item_id == 0 {
                    assert(self.net(0) == pre_state.net(0));
                }
            }
            i += 1;
        }
        proof {
            assert(items@.take(n as int) =~= items@);
        }
    }

    /// Empty the relation: a net removal is recorded for every held item,
    /// both lists are emptied, and the loaded list counts as populated
    /// afterwards.
    pub fn clear(&mut self)
        requires
            old(self).wf(),
        ensures
            final(self).wf(),
            final(self).is_loaded(),
            final(self).all_seq() == Seq::<(u64, T)>::empty(),
            final(self).spec_rel_info() == old(self).spec_rel_info(),
            forall|id: u64| id != 0 ==> final(self).net(id) == bump_down_n(
                old(self).net(id),
                count_matching(old(self).all_seq(), id),
            ),
            final(self).net(0) == old(self).net(0),
    {
        let loaded = self.loaded.take();
        let mut pre_items: Vec<(u64, T)> = Vec::new();
        core::mem::swap(&mut pre_items, &mut self.pre);
        proof {
            assert(self.all_seq() =~= Seq::<(u64, T)>::empty());
        }
        let ghost after_take = *self;
        match &loaded {
            Some(v) => {
                self.track_removals(v);
            },
            None => {},
        }
        let ghost mid = *self;
        self.track_removals(&pre_items);
        let ghost after2 = *self;
        self.loaded = Some(Vec::new());
        proof {
            assert(final(self).all_seq() =~= Seq::<(u64, T)>::empty());
            assert(pre_items@ == old(self).pre_seq());
            assert(final(self).changes_seq() == after2.changes_seq());
            assert forall|id: u64| id != 0 implies final(self).net(id) == bump_down_n(
                old(self).net(id),
                count_matching(old(self).all_seq(), id),
            ) by {
                lemma_count_matching_concat(old(self).loaded_seq(), old(self).pre_seq(), id);
                lemma_count_matching_exists(old(self).loaded_seq(), id);
                lemma_count_matching_exists(old(self).pre_seq(), id);
                lemma_change_count_one_in_range(old(self).changes@, id);
                let m1 = count_matching(old(self).loaded_seq(), id);
                let m2 = count_matching(old(self).pre_seq(), id);
                match loaded {
                    Some(v) => {
                        assert(v@ == old(self).loaded_seq());
                        assert(mid.net(id) == bump_down_n(old(self).net(id), m1));
                    },
                    None => {
                        assert(old(self).loaded_seq() =~= Seq::<(u64, T)>::empty());
                        assert(mid.net(id) == old(self).net(id));
                        assert(bump_down_n(old(self).net(id), 0) == old(self).net(id));
                    },
                }
                assert(count_matching(pre_items@, id) == m2);
                assert(after2.net(id) == bump_down_n(mid.net(id), count_matching(pre_items@, id)));
                assert(final(self).net(id) == after2.net(id));
                lemma_bump_down_n_compose(old(self).net(id), m1, m2);
            }
        }
    }

    /// How many items the relation currently holds.
    pub fn len(&self) -> (r: usize)
        requires
            self.wf(),
        ensures
            r == self.all_seq().len(),
    {
        proof {
            assert(self.all_seq().len() == self.loaded_seq().len() + self.pre_seq().len());
        }
        match &self.loaded {
            Some(v) => v.len(),
            None => self.pre.len(),
        }
    }

    /// True if the relation holds no items.
    pub fn is_empty(&self) -> (r: bool)
        requires
            self.wf(),
        ensures
            r == (self.all_seq().len() == 0),
    {
        self.len() == 0
    }

    /// The identities of the held items that have one already (nonzero),
    /// in iteration order.
    pub fn get_ids(&self) -> (r: Vec<u64>)
        requires
            self.wf(),
        ensures
            r@ == nonzero_ids(self.all_seq()),
    {
        let list: &Vec<(u64, T)> = match &self.loaded {
            Some(v) => v,
            None => &self.pre,
        };
        proof {
            if self.is_loaded() {
                assert(self.all_seq() =~= self.loaded_seq());
            } else {
                assert(self.all_seq() =~= self.pre_seq());
            }
        }
        let n = list.len();
        let mut out: Vec<u64> = Vec::new();
        let mut i: usize = 0;
        proof {
            assert(list@.take(0) =~= Seq::<(u64, T)>::empty());
        }
        while i < n
            invariant
                n == list@.len(),
                i <= n,
                out@ == nonzero_ids(list@.take(i as int)),
            decreases n - i,
        {
            let id = list[i].0;
            if id != 0 {
                out.push(id);
            }
            proof {
                assert(list@.take(i + 1) =~= list@.take(i as int).push(list@[i as int]));
                lemma_nonzero_ids_push(list@.take(i as int), list@[i as int]);
            }
            i += 1;
        }
        proof {
            assert(list@.take(n as int) =~= list@);
        }
        out
    }

    /// The held items in iteration order: loaded items first, then the
    /// pre-load buffer.
    pub fn iter(&self) -> (r: Vec<&T>)
        requires
            self.wf(),
        ensures
            r@.len() == self.all_seq().len(),
            forall|i: int| 0 <= i < r@.len() ==> *r@[i] == self.all_seq()[i].1,
    {
        let list: &Vec<(u64, T)> = match &self.loaded {
            Some(v) => v,
            None => &self.pre,
        };
        proof {
            if self.is_loaded() {
                assert(self.all_seq() =~= self.loaded_seq());
            } else {
                assert(self.all_seq() =~= self.pre_seq());
            }
        }
        let n = list.len();
        let mut out: Vec<&T> = Vec::new();
        let mut i: usize = 0;
        while i < n
            invariant
                n == list@.len(),
                i <= n,
                out@.len() == i,
                forall|j: int| 0 <= j < i ==> *out@[j] == list@[j].1,
            decreases n - i,
        {
            out.push(&list[i].1);
            i += 1;
        }
        out
    }

    /// The held items whose identity is `0`: the ones that still need to
    /// be stored before the relation itself can be persisted.
    pub fn get_items_to_put(&self) -> (r: Vec<&T>)
        requires
            self.wf(),
        ensures
            r@.len() == zero_items(self.all_seq()).len(),
            forall|i: int| 0 <= i < r@.len() ==> *r@[i] == zero_items(self.all_seq())[i],
    {
        let list: &Vec<(u64, T)> = match &self.loaded {
            Some(v) => v,
            None => &self.pre,
        };
        proof {
            if self.is_loaded() {
                assert(self.all_seq() =~= self.loaded_seq());
            } else {
                assert(self.all_seq() =~= self.pre_seq());
            }
        }
        let n = list.len();
        let mut out: Vec<&T> = Vec::new();
        let mut i: usize = 0;
        proof {
            assert(list@.take(0) =~= Seq::<(u64, T)>::empty());
        }
        while i < n
            invariant
                n == list@.len(),
                i <= n,
                out@.len() == zero_items(list@.take(i as int)).len(),
                forall|j: int| 0 <= j < out@.len() ==> *out@[j] == zero_items(
                    list@.take(i as int),
                )[j],
            decreases n - i,
        {
            let ghost prefix = list@.take(i as int);
            if list[i].0 == 0 {
                out.push(&list[i].1);
            }
            proof {
                assert(list@.take(i + 1) =~= prefix.push(list@[i as int]));
                lemma_zero_items_push(prefix, list@[i as int]);
            }
            i += 1;
        }
        proof {
            assert(list@.take(n as int) =~= list@);
        }
        out
    }

    /// Seed the relation from items that already carry their identities,
    /// bypassing lazy loading; each distinct identity among them is
    /// recorded once as a net addition.
    pub fn with_pairs(pairs: Vec<(u64, T)>) -> (r: Self)
        ensures
            r.wf(),
            r.is_loaded(),
            r.all_seq() == pairs@,
            r.spec_rel_info() is None,
            forall|id: u64| r.net(id) == if count_matching(pairs@, id) > 0 {
                1int
            } else {
                0int
            },
    {
        let mut changes: Vec<(u64, i64)> = Vec::new();
        let n = pairs.len();
        let mut i: usize = 0;
        proof {
            assert(pairs@.take(0) =~= Seq::<(u64, T)>::empty());
            assert forall|id: u64| change_count(changes@, id) == if count_matching(
                pairs@.take(0),
                id,
            ) > 0 {
                1int
            } else {
                0int
            } by {
                lemma_count_matching_exists(pairs@.take(0), id);
            }
        }
        while i < n
            invariant
                n == pairs@.len(),
                i <= n,
                keys_unique(changes@),
                forall|j: int| 0 <= j < changes@.len() ==> changes@[j].1 == 1,
                forall|id: u64| #[trigger] change_count(changes@, id) == if count_matching(
                    pairs@.take(i as int),
                    id,
                ) > 0 {
                    1int
                } else {
                    0int
                },
            decreases n - i,
        {
            let ghost prefix = pairs@.take(i as int);
            let ghost changes0 = changes@;
            let id = pairs[i].0;
            proof {
                assert(pairs@.take(i + 1) =~= prefix.push(pairs@[i as int]));
            }
            match find_pos(&changes, id) {
                Some(j) => {
                    proof {
                        lemma_change_count_entry(changes@, j as int);
                        assert(change_count(changes@, id) == 1);
                        assert(count_matching(prefix, id) > 0) by {
                            lemma_count_matching_exists(prefix, id);
                        }
                        assert forall|k: u64| #[trigger] change_count(changes@, k)
                            == if count_matching(pairs@.take(i + 1), k) > 0 {
                            1int
                        } else {
                            0int
                        } by {
                            lemma_count_matching_push(prefix, pairs@[i as int], k);
                            lemma_count_matching_exists(prefix, k);
                        }
                    }
                },
                None => {
                    proof {
                        lemma_change_count_absent(changes@, id);
                    }
                    changes.push((id, 1));
                    proof {
                        lemma_change_count_append(changes0, id, 1);
                        assert forall|k: u64| #[trigger] change_count(changes@, k)
                            == if count_matching(pairs@.take(i + 1), k) > 0 {
                            1int
                        } else {
                            0int
                        } by {
                            lemma_count_matching_push(prefix, pairs@[i as int], k);
                            lemma_count_matching_exists(prefix, k);
                            if k == id {
                                assert(change_count(changes@, k) == 1);
                            } else {
                                assert(change_count(changes@, k) == change_count(changes0, k));
                            }
                        }
                    }
                },
            }
            i += 1;
        }
        proof {
            assert(pairs@.take(n as int) =~= pairs@);
        }
        let r = ToMany { rel_info: None, loaded: Some(pairs), pre: Vec::new(), changes };
        proof {
            assert(r.all_seq() =~= r.loaded_seq());
        }
        r
    }
}

impl<T: IdExt> ToMany<T> {
    /// Append an item under the identity it reports through `IdExt`.
    /// Whatever that identity turns out to be, the item is appended under
    /// it, a net addition is recorded for it if it is nonzero, and no
    /// other identity's pending count moves.
    pub fn add(&mut self, item: T)
        requires
            old(self).wf(),
        ensures
            final(self).wf(),
            final(self).is_loaded() == old(self).is_loaded(),
            final(self).spec_rel_info() == old(self).spec_rel_info(),
            exists|id: u64|
                {
                    &&& final(self).all_seq() == #[trigger] old(self).all_seq().push((id, item))
                    &&& (id != 0 ==> final(self).net(id) == bump(old(self).net(id), true))
                    &&& (id == 0 ==> final(self).changes_seq() == old(self).changes_seq())
                    &&& (forall|k: u64| k != id ==> final(self).net(k) == old(self).net(k))
                },
    {
        let id = item.get_id();
        self.add_with_id(id, item);
        proof {
            assert({
                &&& final(self).all_seq() == old(self).all_seq().push((id, item))
                &&& (id != 0 ==> final(self).net(id) == bump(old(self).net(id), true))
                &&& (id == 0 ==> final(self).changes_seq() == old(self).changes_seq())
                &&& (forall|k: u64| k != id ==> final(self).net(k) == old(self).net(k))
            });
        }
    }

    /// Append every item of `items`, in order, each under the identity it
    /// reports. Identities none of the items reported keep their pending
    /// counts.
    pub fn add_all(&mut self, items: Vec<T>)
        requires
            old(self).wf(),
        ensures
            final(self).wf(),
            final(self).is_loaded() == old(self).is_loaded(),
            final(self).spec_rel_info() == old(self).spec_rel_info(),
            final(self).all_seq().len() == old(self).all_seq().len() + items@.len(),
            forall|i: int| 0 <= i < old(self).all_seq().len() ==> final(self).all_seq()[i] == old(
                self,
            ).all_seq()[i],
            forall|i: int| 0 <= i < items@.len() ==> final(self).all_seq()[old(
                self,
            ).all_seq().len() + i].1 == items@[i],
            exists|ids: Seq<u64>| #[trigger] preserves_nets_outside(
                *old(self),
                *final(self),
                ids,
            ),
    {
        let ghost orig_items = items@;
        let ghost orig_len = old(self).all_seq().len();
        let ghost mut ids: Seq<u64> = Seq::empty();
        let mut items = items;
        while items.len() > 0
            invariant
                self.wf(),
                self.is_loaded() == old(self).is_loaded(),
                self.spec_rel_info() == old(self).spec_rel_info(),
                items@ == orig_items.skip(orig_items.len() - items@.len()),
                items@.len() <= orig_items.len(),
                self.all_seq().len() == orig_len + orig_items.len() - items@.len(),
                forall|i: int| 0 <= i < orig_len ==> self.all_seq()[i] == old(self).all_seq()[i],
                forall|i: int| 0 <= i < orig_items.len() - items@.len() ==> self.all_seq()[orig_len
                    + i].1 == orig_items[i],
                preserves_nets_outside(*old(self), *self, ids),
            decreases items@.len(),
        {
            let ghost done = orig_items.len() - items@.len();
            let it = items.remove(0);
            proof {
                assert(orig_items.skip(done).remove(0) =~= orig_items.skip(done + 1));
                assert(it == orig_items[done]);
            }
            let ghost pre_state = *self;
            self.add(it);
            proof {
                let ids0 = ids;
                let idw = choose|idq: u64|
                    {
                        &&& self.all_seq() == pre_state.all_seq().push((idq, it))
                        &&& (idq != 0 ==> self.net(idq) == bump(pre_state.net(idq), true))
                        &&& (idq == 0 ==> self.changes_seq() == pre_state.changes_seq())
                        &&& (forall|k: u64| k != idq ==> self.net(k) == pre_state.net(k))
                    };
                ids = ids0.push(idw);
                assert forall|k: u64| !(#[trigger] ids.contains(k)) implies self.net(k) == old(
                    self,
                ).net(k) by {
                    assert(ids[ids.len() - 1] == idw);
                    assert(k != idw);
                    assert(!ids0.contains(k)) by {
                        if ids0.contains(k) {
                            let j = choose|j: int| 0 <= j < ids0.len() && ids0[j] == k;
                            assert(ids[j] == k);
                        }
                    }
                    assert(self.net(k) == pre_state.net(k));
                }
                assert(preserves_nets_outside(*old(self), *self, ids));
            }
        }
        proof {
            assert(items@.len() == 0);
            assert(preserves_nets_outside(*old(self), *final(self), ids));
        }
    }

    /// Seed the relation from items fetched elsewhere, bypassing lazy
    /// loading; each item enters under the identity it reports, and each
    /// distinct identity among them is recorded once as a net addition.
    pub fn with_items(items: Vec<T>) -> (r: Self)
        ensures
            r.wf(),
            r.is_loaded(),
            r.spec_rel_info() is None,
            r.all_seq().len() == items@.len(),
            forall|i: int| 0 <= i < items@.len() ==> r.all_seq()[i].1 == items@[i],
            forall|id: u64| r.net(id) == if count_matching(r.all_seq(), id) > 0 {
                1int
            } else {
                0int
            },
    {
        let ghost orig_items = items@;
        let mut items = items;
        let mut pairs: Vec<(u64, T)> = Vec::new();
        while items.len() > 0
            invariant
                pairs@.len() + items@.len() == orig_items.len(),
                items@ == orig_items.skip(pairs@.len() as int),
                forall|j: int| 0 <= j < pairs@.len() ==> pairs@[j].1 == orig_items[j],
            decreases items@.len(),
        {
            let ghost done = pairs@.len() as int;
            let it = items.remove(0);
            proof {
                assert(orig_items.skip(done).remove(0) =~= orig_items.skip(done + 1));
                assert(it == orig_items[done]);
            }
            let id = it.get_id();
            pairs.push((id, it));
        }
        Self::with_pairs(pairs)
    }
}

/// Appending an item raises the matching count of its identity by one and
/// leaves every other identity's count unchanged.
proof fn lemma_count_matching_push<T>(s: Seq<(u64, T)>, x: (u64, T), id: u64)
    ensures
        count_matching(s.push(x), id) == count_matching(s, id) + if x.0 == id {
            1int
        } else {
            0int
        },
    decreases s.len(),
{
    if s.len() == 0 {
        reveal_with_fuel(count_matching, 2);
        assert(s.push(x).drop_first() =~= Seq::<(u64, T)>::empty());
        assert(s.push(x)[0] == x);
    } else {
        lemma_count_matching_push(s.drop_first(), x, id);
        assert(s.push(x).drop_first() =~= s.drop_first().push(x));
        assert(s.push(x)[0] == s[0]);
    }
}

/// Matching counts add up over concatenation.
proof fn lemma_count_matching_concat<T>(a: Seq<(u64, T)>, b: Seq<(u64, T)>, id: u64)
    ensures
        count_matching(a + b, id) == count_matching(a, id) + count_matching(b, id),
    decreases a.len(),
{
    if a.len() == 0 {
        assert(a + b =~= b);
    } else {
        lemma_count_matching_concat(a.drop_first(), b, id);
        assert((a + b).drop_first() =~= a.drop_first() + b);
        assert((a + b)[0] == a[0]);
    }
}

/// An identity has a positive matching count exactly when some held item
/// carries it; the count is never negative.
proof fn lemma_count_matching_exists<T>(s: Seq<(u64, T)>, id: u64)
    ensures
        count_matching(s, id) >= 0,
        (count_matching(s, id) > 0) <==> (exists|j: int| 0 <= j < s.len() && s[j].0 == id),
    decreases s.len(),
{
    if s.len() > 0 {
        lemma_count_matching_exists(s.drop_first(), id);
        if s[0].0 == id {
            assert(count_matching(s, id) > 0);
        } else {
            if count_matching(s, id) > 0 {
                let j = choose|j: int|
                    0 <= j < s.drop_first().len() && s.drop_first()[j].0 == id;
                assert(s[j + 1].0 == id);
            }
            if exists|j: int| 0 <= j < s.len() && s[j].0 == id {
                let j = choose|j: int| 0 <= j < s.len() && s[j].0 == id;
                assert(j >= 1);
                assert(s.drop_first()[j - 1].0 == id);
            }
        }
    }
}

/// Removing the first item that carries `id`, found at index `i`, is the
/// removal of index `i`.
proof fn lemma_remove_first_matching_at<T>(s: Seq<(u64, T)>, id: u64, i: int)
    requires
        0 <= i < s.len(),
        s[i].0 == id,
        forall|j: int| 0 <= j < i ==> s[j].0 != id,
    ensures
        remove_first_matching(s, id) == s.remove(i),
    decreases s.len(),
{
    if i == 0 {
        assert(remove_first_matching(s, id) == s.drop_first());
        assert(s.remove(0) =~= s.drop_first());
    } else {
        assert(s[0].0 != id);
        assert(s.drop_first()[i - 1].0 == id);
        assert(forall|j: int| 0 <= j < i - 1 ==> s.drop_first()[j].0 != id);
        lemma_remove_first_matching_at(s.drop_first(), id, i - 1);
        assert(seq![s[0]] + s.drop_first().remove(i - 1) =~= s.remove(i));
    }
}

/// Appending an item with a nonzero identity appends that identity to the
/// nonzero-identity list; identity zero leaves it unchanged.
proof fn lemma_nonzero_ids_push<T>(s: Seq<(u64, T)>, x: (u64, T))
    ensures
        x.0 != 0 ==> nonzero_ids(s.push(x)) == nonzero_ids(s).push(x.0),
        x.0 == 0 ==> nonzero_ids(s.push(x)) == nonzero_ids(s),
    decreases s.len(),
{
    if s.len() == 0 {
        reveal_with_fuel(nonzero_ids, 2);
        assert(s.push(x).drop_first() =~= Seq::<(u64, T)>::empty());
        assert(s.push(x)[0] == x);
        if x.0 != 0 {
            assert(nonzero_ids(s.push(x)) =~= nonzero_ids(s).push(x.0));
        } else {
            assert(nonzero_ids(s.push(x)) =~= nonzero_ids(s));
        }
    } else {
        lemma_nonzero_ids_push(s.drop_first(), x);
        assert(s.push(x).drop_first() =~= s.drop_first().push(x));
        assert(s.push(x)[0] == s[0]);
        if x.0 != 0 {
            if s[0].0 != 0 {
                assert(nonzero_ids(s.push(x)) =~= seq![s[0].0] + nonzero_ids(s.drop_first()).push(
                    x.0,
                ));
                assert(seq![s[0].0] + nonzero_ids(s.drop_first()).push(x.0) =~= nonzero_ids(
                    s,
                ).push(x.0));
            }
        }
    }
}

/// Appending an item with identity zero appends its value to the
/// zero-identity item list; a nonzero identity leaves it unchanged.
proof fn lemma_zero_items_push<T>(s: Seq<(u64, T)>, x: (u64, T))
    ensures
        x.0 == 0 ==> zero_items(s.push(x)) == zero_items(s).push(x.1),
        x.0 != 0 ==> zero_items(s.push(x)) == zero_items(s),
    decreases s.len(),
{
    if s.len() == 0 {
        reveal_with_fuel(zero_items, 2);
        assert(s.push(x).drop_first() =~= Seq::<(u64, T)>::empty());
        assert(s.push(x)[0] == x);
        if x.0 == 0 {
            assert(zero_items(s.push(x)) =~= zero_items(s).push(x.1));
        } else {
            assert(zero_items(s.push(x)) =~= zero_items(s));
        }
    } else {
        lemma_zero_items_push(s.drop_first(), x);
        assert(s.push(x).drop_first() =~= s.drop_first().push(x));
        assert(s.push(x)[0] == s[0]);
        if x.0 == 0 {
            if s[0].0 == 0 {
                assert(zero_items(s.push(x)) =~= seq![s[0].1] + zero_items(s.drop_first()).push(
                    x.1,
                ));
                assert(seq![s[0].1] + zero_items(s.drop_first()).push(x.1) =~= zero_items(s).push(
                    x.1,
                ));
            }
        }
    }
}

/// Under unique keys, the count recorded for the key of entry `j` is that
/// entry's count.
proof fn lemma_change_count_entry(ch: Seq<(u64, i64)>, j: int)
    requires
        keys_unique(ch),
        0 <= j < ch.len(),
    ensures
        change_count(ch, ch[j].0) == ch[j].1 as int,
    decreases ch.len(),
{
    if j > 0 {
        assert(ch[0].0 != ch[j].0);
        assert(ch.drop_first()[j - 1] == ch[j]);
        assert(keys_unique(ch.drop_first()));
        lemma_change_count_entry(ch.drop_first(), j - 1);
    }
}

/// Under unique keys, a nonzero recorded count for `id` corresponds
/// exactly to an entry with key `id` and that count's sign.
proof fn lemma_change_count_lookup(ch: Seq<(u64, i64)>, id: u64)
    requires
        keys_unique(ch),
    ensures
        (change_count(ch, id) > 0) <==> (exists|j: int|
            0 <= j < ch.len() && ch[j].0 == id && ch[j].1 > 0),
        (change_count(ch, id) < 0) <==> (exists|j: int|
            0 <= j < ch.len() && ch[j].0 == id && ch[j].1 < 0),
        (change_count(ch, id) != 0) <==> (exists|j: int|
            0 <= j < ch.len() && ch[j].0 == id && ch[j].1 != 0),
{
    if exists|j: int| 0 <= j < ch.len() && ch[j].0 == id {
        let j = choose|j: int| 0 <= j < ch.len() && ch[j].0 == id;
        lemma_change_count_entry(ch, j);
        assert forall|j2: int| 0 <= j2 < ch.len() && ch[j2].0 == id implies j2 == j by {
            if j2 < j {
                assert(ch[j2].0 != ch[j].0);
            } else if j2 > j {
                assert(ch[j].0 != ch[j2].0);
            }
        }
    } else {
        assert(forall|j: int| 0 <= j < ch.len() ==> ch[j].0 != id);
        lemma_change_count_absent(ch, id);
    }
}

/// An addition followed by a removal of the same identity nets to zero
/// change: moving a net count up and then down returns it to its old
/// value. Together with the contract of `get_pending_changes` — the
/// returned lists hold exactly the identities whose net count is positive
/// respectively negative — an identity added and then removed appears in
/// neither list.
pub proof fn lemma_add_then_remove_cancels(c: int)
    requires
        i64::MIN <= c < i64::MAX,
    ensures
        bump(bump(c, true), false) == c,
        bump(bump(c, false), true) == c || c == i64::MIN,
{
}

impl<T> Default for ToMany<T> {
    /// Same as `new`: an empty relation.
    fn default() -> (r: Self)
        ensures
            !r.is_loaded(),
            r.all_seq() == Seq::<(u64, T)>::empty(),
            r.changes_seq() == Seq::<(u64, i64)>::empty(),
            r.spec_rel_info() is None,
            r.wf(),
    {
        Self::new()
    }
}

impl<T> Clone for ToMany<T> {
    /// Copy the relation info only: the clone holds no items and has no
    /// pending changes.
    fn clone(&self) -> (r: Self)
        ensures
            r.wf(),
            !r.is_loaded(),
            r.all_seq() == Seq::<(u64, T)>::empty(),
            r.changes_seq() == Seq::<(u64, i64)>::empty(),
            r.spec_rel_info() == self.spec_rel_info(),
    {
        let r = ToMany {
            rel_info: self.rel_info,
            loaded: None,
            pre: Vec::new(),
            changes: Vec::new(),
        };
        proof {
            assert(r.all_seq() =~= Seq::<(u64, T)>::empty());
        }
        r
    }
}

/// The index of the first item carrying identity `id`, if any item does.
fn find_pos<T>(list: &Vec<(u64, T)>, id: u64) -> (r: Option<usize>)
    ensures
        match r {
            Some(i) => i < list@.len() && list@[i as int].0 == id && forall|j: int|
                0 <= j < i ==> list@[j].0 != id,
            None => forall|j: int| 0 <= j < list@.len() ==> list@[j].0 != id,
        },
{
    let n = list.len();
    let mut i: usize = 0;
    while i < n
        invariant
            n == list@.len(),
            i <= n,
            forall|j: int| 0 <= j < i ==> list@[j].0 != id,
        decreases n - i,
    {
        if list[i].0 == id {
            return Some(i);
        }
        i += 1;
    }
    None
}

/// Moving a count down `m1` times and then `m2` more times is moving it
/// down `m1 + m2` times.
proof fn lemma_bump_down_n_compose(c: int, m1: int, m2: int)
    requires
        m1 >= 0,
        m2 >= 0,
        c >= i64::MIN,
    ensures
        bump_down_n(bump_down_n(c, m1), m2) == bump_down_n(c, m1 + m2),
{
}

/// A recorded change count is a 64-bit value.
proof fn lemma_change_count_one_in_range(ch: Seq<(u64, i64)>, id: u64)
    ensures
        i64::MIN <= change_count(ch, id) <= i64::MAX,
    decreases ch.len(),
{
    if ch.len() > 0 {
        lemma_change_count_one_in_range(ch.drop_first(), id);
    }
}

/// Every recorded change count is a 64-bit value.
proof fn lemma_change_count_in_range(ch: Seq<(u64, i64)>)
    ensures
        forall|id: u64| i64::MIN <= #[trigger] change_count(ch, id) <= i64::MAX,
{
    assert forall|id: u64| i64::MIN <= #[trigger] change_count(ch, id) <= i64::MAX by {
        lemma_change_count_one_in_range(ch, id);
    }
}

/// When no entry carries `id`, its change count is zero.
proof fn lemma_change_count_absent(ch: Seq<(u64, i64)>, id: u64)
    requires
        forall|j: int| 0 <= j < ch.len() ==> ch[j].0 != id,
    ensures
        change_count(ch, id) == 0,
    decreases ch.len(),
{
    if ch.len() > 0 {
        assert(forall|j: int| 0 <= j < ch.drop_first().len() ==> ch.drop_first()[j].0 != id);
        lemma_change_count_absent(ch.drop_first(), id);
    }
}

/// Appending an entry for a key not yet present sets that key's count and
/// leaves every other key's count unchanged.
proof fn lemma_change_count_append(ch: Seq<(u64, i64)>, id: u64, c: i64)
    requires
        forall|j: int| 0 <= j < ch.len() ==> ch[j].0 != id,
    ensures
        change_count(ch.push((id, c)), id) == c as int,
        forall|k: u64| k != id ==> change_count(ch.push((id, c)), k) == change_count(ch, k),
        keys_unique(ch) ==> keys_unique(ch.push((id, c))),
    decreases ch.len(),
{
    if ch.len() == 0 {
        assert(ch.push((id, c)).drop_first() =~= Seq::<(u64, i64)>::empty());
        assert(ch.push((id, c))[0] == (id, c));
        assert forall|k: u64| k != id implies change_count(ch.push((id, c)), k) == change_count(
            ch,
            k,
        ) by {
            assert(change_count(ch.push((id, c)), k) == change_count(
                ch.push((id, c)).drop_first(),
                k,
            ));
        }
    } else {
        assert(forall|j: int| 0 <= j < ch.drop_first().len() ==> ch.drop_first()[j].0 != id);
        lemma_change_count_append(ch.drop_first(), id, c);
        assert(ch.push((id, c)).drop_first() =~= ch.drop_first().push((id, c)));
        assert(ch.push((id, c))[0] == ch[0]);
        assert(ch[0].0 != id);
        assert(change_count(ch.push((id, c)), id) == change_count(
            ch.drop_first().push((id, c)),
            id,
        ));
        assert forall|k: u64| k != id implies change_count(ch.push((id, c)), k) == change_count(
            ch,
            k,
        ) by {
            if ch[0].0 == k {
                assert(change_count(ch.push((id, c)), k) == ch[0].1 as int);
                assert(change_count(ch, k) == ch[0].1 as int);
            } else {
                assert(change_count(ch.push((id, c)), k) == change_count(
                    ch.drop_first().push((id, c)),
                    k,
                ));
                assert(change_count(ch, k) == change_count(ch.drop_first(), k));
            }
        }
    }
}

/// Updating the entry at `i`, the only one whose key is `id`, gives `id`
/// the new count and leaves every other key's count unchanged.
proof fn lemma_change_count_update(
    ch: Seq<(u64, i64)>,
    ch2: Seq<(u64, i64)>,
    i: int,
    id: u64,
    nc: i64,
)
    requires
        keys_unique(ch),
        0 <= i < ch.len(),
        ch[i].0 == id,
        forall|j: int| 0 <= j < i ==> ch[j].0 != id,
        ch2 == ch.update(i, (id, nc)),
    ensures
        keys_unique(ch2),
        change_count(ch2, id) == nc as int,
        change_count(ch, id) == ch[i].1 as int,
        forall|k: u64| k != id ==> change_count(ch2, k) == change_count(ch, k),
    decreases ch.len(),
{
    assert(ch2.len() == ch.len());
    assert(forall|j: int| 0 <= j < ch.len() && j != i ==> ch2[j] == ch[j]);
    assert(ch2[i] == (id, nc));
    if i == 0 {
        assert(ch2[0] == (id, nc));
        assert(change_count(ch2, id) == nc as int);
        assert(ch2.drop_first() =~= ch.drop_first());
        assert forall|k: u64| k != id implies change_count(ch2, k) == change_count(ch, k) by {
            assert(change_count(ch2, k) == change_count(ch2.drop_first(), k));
            assert(change_count(ch, k) == change_count(ch.drop_first(), k));
        }
    } else {
        assert(ch2.drop_first() =~= ch.drop_first().update(i - 1, (id, nc)));
        assert(keys_unique(ch.drop_first()));
        assert(ch.drop_first()[i - 1].0 == id);
        assert(forall|j: int| 0 <= j < i - 1 ==> ch.drop_first()[j].0 != id);
        lemma_change_count_update(ch.drop_first(), ch2.drop_first(), i - 1, id, nc);
        assert(ch2[0] == ch[0]);
        assert(ch[0].0 != id);
        assert(change_count(ch2, id) == change_count(ch2.drop_first(), id));
        assert(change_count(ch, id) == change_count(ch.drop_first(), id));
        assert forall|k: u64| k != id implies change_count(ch2, k) == change_count(ch, k) by {
            if ch[0].0 == k {
            } else {
                assert(change_count(ch2, k) == change_count(ch2.drop_first(), k));
                assert(change_count(ch, k) == change_count(ch.drop_first(), k));
            }
        }
    }
}

} // verus!
