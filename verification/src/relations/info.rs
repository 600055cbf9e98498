//! Relation metadata attached to a relation field once its owning record
//! is bound to a store.

use vstd::prelude::*;

verus! {

/// The kind of a relation field.
#[derive(Debug, Clone, Copy, PartialEq, Eq, Structural)]
pub enum RelType {
    /// Many-to-many relation held as a standalone link table.
    ToMany,
    /// Many-to-many backlink.
    ToManyBacklink,
    /// One-to-many backlink derived from a single-target relation.
    ToOneBacklink,
}

/// Relation information for a field: its kind, the schema identifier of
/// the relation (or of the referencing property, for backlinks), and the
/// identifier of the object the relation belongs to.
#[derive(Debug, Clone, Copy, PartialEq, Eq, Structural)]
pub struct RelInfo {
    /// The kind of this relation.
    pub rel_type: RelType,
    /// Relation id, or property id for a backlink.
    pub id: u32,
    /// Source object id, or target object id for backlinks.
    pub object_id: u64,
}

impl RelInfo {
    /// Info for a many-to-many relation field.
    pub fn to_many(id: u32, object_id: u64) -> (r: Self)
        ensures
            r == (RelInfo { rel_type: RelType::ToMany, id, object_id }),
    {
        RelInfo { rel_type: RelType::ToMany, id, object_id }
    }

    /// Info for a backlink of a single-target relation field.
    pub fn to_one_backlink(id: u32, object_id: u64) -> (r: Self)
        ensures
            r == (RelInfo { rel_type: RelType::ToOneBacklink, id, object_id }),
    {
        RelInfo { rel_type: RelType::ToOneBacklink, id, object_id }
    }

    /// Info for a backlink of a many-to-many relation field.
    pub fn to_many_backlink(id: u32, object_id: u64) -> (r: Self)
        ensures
            r == (RelInfo { rel_type: RelType::ToManyBacklink, id, object_id }),
    {
        RelInfo { rel_type: RelType::ToManyBacklink, id, object_id }
    }
}

} // verus!
