//! Single-target relation: a reference from one record to at most one
//! record of a target type.
//!
//! The relation is a small state machine. The target is referenced by its
//! identifier; the identifier is persisted with the owning record, while
//! the target value itself is only cached here and fetched lazily by the
//! store collaborator on first value access.

use crate::relations::IdExt;
use vstd::prelude::*;

verus! {

/// The state of a single-target relation.
#[derive(Debug, Clone, Copy, PartialEq, Eq, Structural)]
pub enum ToOneState {
    /// No target is referenced.
    Empty,
    /// A target value is held but has never been persisted; its id is not
    /// known yet.
    Unstored,
    /// A target id is known but the value has not been fetched.
    Lazy,
    /// Target id known and value cached.
    Stored,
    /// An id was set but the fetch found nothing.
    Unresolvable,
}

/// The abstract state a freshly created relation has: empty, no target id.
pub open spec fn abs_new() -> (ToOneState, u64) {
    (ToOneState::Empty, 0u64)
}

/// The abstract state `with_id` yields: empty for id `0`, else lazy with
/// that id.
pub open spec fn abs_with_id(id: u64) -> (ToOneState, u64) {
    if id == 0 {
        abs_new()
    } else {
        (ToOneState::Lazy, id)
    }
}

/// A reference from one record to at most one record of the target type
/// `T`.
#[derive(Debug)]
pub struct ToOne<T> {
    /// The target id; `0` means no target.
    target_id: u64,
    /// Current state.
    state: ToOneState,
    /// Cached target value, used in the `Unstored` and `Stored` states.
    target: Option<T>,
}

impl<T> ToOne<T> {
    /// The current state.
    pub closed spec fn spec_state(&self) -> ToOneState {
        self.state
    }

    /// The current target id.
    pub closed spec fn spec_target_id(&self) -> u64 {
        self.target_id
    }

    /// The cached target value, if any.
    pub closed spec fn spec_cached(&self) -> Option<T> {
        self.target
    }

    /// The abstract state: state tag and target id together.
    pub open spec fn abs(&self) -> (ToOneState, u64) {
        (self.spec_state(), self.spec_target_id())
    }

    /// Validity: the target id is `0` exactly in the states that hold no
    /// persisted target, and a value is cached only in the states that
    /// cache one.
    pub open spec fn wf(&self) -> bool {
        &&& (self.spec_state() == ToOneState::Empty ==> self.spec_target_id() == 0
            && self.spec_cached() is None)
        &&& (self.spec_state() == ToOneState::Unstored ==> self.spec_target_id() == 0
            && self.spec_cached() is Some)
        &&& (self.spec_state() == ToOneState::Lazy ==> self.spec_target_id() != 0
            && self.spec_cached() is None)
        &&& (self.spec_state() == ToOneState::Stored ==> self.spec_target_id() != 0)
    }

    /// Create a new empty relation.
    pub fn new() -> (r: Self)
        ensures
            r.abs() == abs_new(),
            r.spec_cached() is None,
            r.wf(),
    {
        ToOne { target_id: 0, state: ToOneState::Empty, target: None }
    }

    /// Create a relation with a given target id. Id `0` means no target;
    /// any other id yields a lazy reference whose value is fetched on
    /// first access.
    pub fn with_id(id: u64) -> (r: Self)
        ensures
            r.abs() == abs_with_id(id),
            r.spec_cached() is None,
            r.wf(),
    {
        if id == 0 {
            Self::new()
        } else {
            ToOne { target_id: id, state: ToOneState::Lazy, target: None }
        }
    }

    /// The target id; `0` if no target is set.
    pub fn get_target_id(&self) -> (r: u64)
        ensures
            r == self.spec_target_id(),
    {
        self.target_id
    }

    /// Set the target by id. Id `0` removes the relation; any other id
    /// yields a lazy reference, dropping a cached value.
    pub fn set_target_id(&mut self, id: u64)
        ensures
            final(self).abs() == abs_with_id(id),
            final(self).spec_cached() is None,
            final(self).wf(),
    {
        if id == 0 {
            self.clear();
        } else {
            self.target_id = id;
            self.state = ToOneState::Lazy;
            self.target = None;
        }
    }

    /// True if a target is set.
    pub fn has_value(&self) -> (r: bool)
        ensures
            r == (self.spec_state() != ToOneState::Empty),
    {
        self.state != ToOneState::Empty
    }

    /// True if no target is set.
    pub fn is_empty(&self) -> (r: bool)
        ensures
            r == (self.spec_state() == ToOneState::Empty),
    {
        self.state == ToOneState::Empty
    }

    /// Clear the relation: no target, no cached value.
    pub fn clear(&mut self)
        ensures
            final(self).abs() == abs_new(),
            final(self).spec_cached() is None,
            final(self).wf(),
    {
        self.target_id = 0;
        self.state = ToOneState::Empty;
        self.target = None;
    }

    /// Record that an unstored target has been persisted under the given
    /// id: `Unstored` becomes `Stored` with that id; every other state is
    /// left unchanged.
    pub fn mark_stored(&mut self, id: u64)
        requires
            id != 0,
            old(self).wf(),
        ensures
            old(self).spec_state() == ToOneState::Unstored ==> final(self).abs() == (
                ToOneState::Stored,
                id,
            ),
            old(self).spec_state() != ToOneState::Unstored ==> *final(self) == *old(self),
            final(self).spec_cached() == old(self).spec_cached(),
            final(self).wf(),
    {
        if self.state == ToOneState::Unstored {
            self.target_id = id;
            self.state = ToOneState::Stored;
        }
    }

    /// True exactly when the held target still needs to be persisted.
    pub fn needs_put(&self) -> (r: bool)
        ensures
            r == (self.spec_state() == ToOneState::Unstored),
    {
        self.state == ToOneState::Unstored
    }

    /// The relation property id used during serialization; assigned by
    /// generated code, absent here.
    pub fn get_property_id(&self) -> (r: u64)
        ensures
            r == 0,
    {
        0
    }

    /// Hold a target value together with the id it reported: id `0` means
    /// the value has never been persisted (`Unstored`); any other id means
    /// it is already stored (`Stored`).
    pub fn apply_target_stored(&mut self, id: u64, value: T)
        ensures
            id == 0 ==> final(self).abs() == (ToOneState::Unstored, 0u64),
            id != 0 ==> final(self).abs() == (ToOneState::Stored, id),
            final(self).spec_cached() == Some(value),
            final(self).wf(),
    {
        if id == 0 {
            self.target_id = 0;
            self.state = ToOneState::Unstored;
        } else {
            self.target_id = id;
            self.state = ToOneState::Stored;
        }
        self.target = Some(value);
    }
}

impl<T: IdExt + Clone> ToOne<T> {
    /// Set a target value, caching a copy. The state follows the identity
    /// the value reports: not yet stored (`Unstored`) or already stored
    /// under a nonzero id (`Stored`).
    pub fn set_target_stored(&mut self, target: &T)
        ensures
            (final(self).abs() == (ToOneState::Unstored, 0u64)) || (final(self).spec_state()
                == ToOneState::Stored && final(self).spec_target_id() != 0),
            final(self).spec_cached() is Some,
            final(self).wf(),
    {
        let id = target.get_id();
        let cached = target.clone();
        self.apply_target_stored(id, cached);
    }
}

impl<T> Default for ToOne<T> {
    /// Same as `new`: an empty relation.
    fn default() -> (r: Self)
        ensures
            r.abs() == abs_new(),
            r.spec_cached() is None,
            r.wf(),
    {
        Self::new()
    }
}

impl<T> Clone for ToOne<T> {
    /// Copy the state and target id; the cached value is not carried over.
    fn clone(&self) -> (r: Self)
        ensures
            r.abs() == self.abs(),
            r.spec_cached() is None,
    {
        ToOne { target_id: self.target_id, state: self.state, target: None }
    }
}

/// A relation created with target id `0` is the same, in its abstract
/// state, as a freshly created one: both are empty with no target.
pub proof fn lemma_with_id_zero_is_new()
    ensures
        abs_with_id(0) == abs_new(),
{
}

} // verus!
