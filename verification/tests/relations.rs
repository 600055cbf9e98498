use objectbox::relations::IdExt;
use objectbox::relations::RelInfo;
use objectbox::relations::RelType;
use objectbox::relations::ToMany;
use objectbox::relations::ToOne;

#[derive(Clone)]
struct TestEntity {
    id: u64,
}

impl IdExt for TestEntity {
    fn get_id(&self) -> u64 {
        self.id
    }

    fn set_id(&mut self, id: u64) {
        self.id = id;
    }
}

#[test]
fn test_to_many_new() {
    let rel: ToMany<TestEntity> = ToMany::new();
    assert!(rel.is_empty());
    assert!(!rel.has_pending_changes());
}

#[test]
fn test_to_many_add() {
    let mut rel: ToMany<TestEntity> = ToMany::new();
    let entity = TestEntity { id: 42 };
    rel.add(entity);

    assert!(!rel.is_empty());
    assert_eq!(rel.len(), 1);
    assert!(rel.has_pending_changes());

    let (added, removed) = rel.get_pending_changes();
    assert_eq!(added, vec![42]);
    assert!(removed.is_empty());
}

#[test]
fn test_to_many_remove() {
    let mut rel: ToMany<TestEntity> = ToMany::new();
    let entity = TestEntity { id: 42 };
    rel.add(entity);

    assert!(rel.remove_by_id(42));
    assert!(rel.is_empty());

    // After add and remove, the net change should be 0
    assert!(!rel.has_pending_changes());
}

#[test]
fn test_to_many_with_items() {
    let items = vec![TestEntity { id: 1 }, TestEntity { id: 2 }, TestEntity { id: 3 }];
    let rel: ToMany<TestEntity> = ToMany::with_items(items);

    assert_eq!(rel.len(), 3);
    assert!(rel.has_pending_changes());

    let ids = rel.get_ids();
    assert_eq!(ids.len(), 3);
}

#[test]
fn test_to_many_clear_pending() {
    let mut rel: ToMany<TestEntity> = ToMany::new();
    rel.add(TestEntity { id: 1 });
    rel.add(TestEntity { id: 2 });

    assert!(rel.has_pending_changes());
    rel.clear_pending_changes();
    assert!(!rel.has_pending_changes());
}

#[test]
fn test_to_many_add_then_remove_nets_to_zero() {
    // An id added and then removed nets to zero and appears in neither list.
    let mut rel: ToMany<TestEntity> = ToMany::new();
    rel.add(TestEntity { id: 5 });
    rel.add(TestEntity { id: 7 });
    assert!(rel.remove_by_id(5));

    let (added, removed) = rel.get_pending_changes();
    assert_eq!(added, vec![7]);
    assert!(removed.is_empty());
}

#[test]
fn test_to_many_remove_absent_is_not_found() {
    let mut rel: ToMany<TestEntity> = ToMany::new();
    rel.add(TestEntity { id: 3 });
    assert!(!rel.remove_by_id(4));
    assert!(!rel.remove_by_id(0));
    assert_eq!(rel.len(), 1);
}

#[test]
fn test_to_many_clear_records_removals() {
    let mut rel: ToMany<TestEntity> = ToMany::with_items(vec![
        TestEntity { id: 1 },
        TestEntity { id: 2 },
    ]);
    rel.clear_pending_changes();
    rel.clear();
    assert!(rel.is_empty());
    let (added, removed) = rel.get_pending_changes();
    assert!(added.is_empty());
    assert_eq!(removed.len(), 2);
    assert!(removed.contains(&1));
    assert!(removed.contains(&2));
}

#[test]
fn test_to_many_add_all_and_iter_order() {
    let mut rel: ToMany<TestEntity> = ToMany::new();
    rel.add_all(vec![TestEntity { id: 10 }, TestEntity { id: 0 }, TestEntity { id: 20 }]);
    assert_eq!(rel.len(), 3);
    let items = rel.iter();
    assert_eq!(items.len(), 3);
    assert_eq!(items[0].id, 10);
    assert_eq!(items[1].id, 0);
    assert_eq!(items[2].id, 20);
    // Identity zero stands for "not stored yet" and is left out of the ids.
    assert_eq!(rel.get_ids(), vec![10, 20]);
    // The unstored item is the one that still needs a put.
    let to_put = rel.get_items_to_put();
    assert_eq!(to_put.len(), 1);
    assert_eq!(to_put[0].id, 0);
}

#[test]
fn test_to_many_set_items_merges_preload_buffer() {
    let mut rel: ToMany<TestEntity> = ToMany::new();
    rel.add(TestEntity { id: 30 });
    // The store collaborator loads; the pre-load addition follows the
    // fetched items, and the change log is untouched.
    rel.set_items(vec![(8, TestEntity { id: 8 }), (9, TestEntity { id: 9 })]);
    assert_eq!(rel.len(), 3);
    assert_eq!(rel.get_ids(), vec![8, 9, 30]);
    let (added, removed) = rel.get_pending_changes();
    assert_eq!(added, vec![30]);
    assert!(removed.is_empty());
}

#[test]
fn test_to_one_new() {
    let rel: ToOne<TestEntity> = ToOne::new();
    assert!(rel.is_empty());
    assert!(!rel.has_value());
    assert_eq!(rel.get_target_id(), 0);
}

#[test]
fn test_to_one_with_id() {
    let rel: ToOne<TestEntity> = ToOne::with_id(42);
    assert!(!rel.is_empty());
    assert!(rel.has_value());
    assert_eq!(rel.get_target_id(), 42);
}

#[test]
fn test_to_one_set_target_id() {
    let mut rel: ToOne<TestEntity> = ToOne::new();
    rel.set_target_id(123);
    assert_eq!(rel.get_target_id(), 123);
    assert!(rel.has_value());
}

#[test]
fn test_to_one_clear() {
    let mut rel: ToOne<TestEntity> = ToOne::with_id(42);
    assert!(rel.has_value());
    rel.clear();
    assert!(rel.is_empty());
    assert_eq!(rel.get_target_id(), 0);
}

#[test]
fn test_to_one_set_target_stored() {
    let mut rel: ToOne<TestEntity> = ToOne::new();
    let target = TestEntity { id: 99 };
    rel.set_target_stored(&target);
    assert_eq!(rel.get_target_id(), 99);
    assert!(rel.has_value());
}

#[test]
fn test_to_one_with_id_zero_is_new() {
    // Target id zero means no target: the same state a fresh relation has.
    let a: ToOne<TestEntity> = ToOne::with_id(0);
    let b: ToOne<TestEntity> = ToOne::new();
    assert_eq!(a.is_empty(), b.is_empty());
    assert!(!a.has_value());
    assert_eq!(a.get_target_id(), 0);
}

#[test]
fn test_to_one_unstored_then_mark_stored() {
    // A target that reports identity zero is held as unstored; marking it
    // stored under the id the store assigned completes the transition.
    let mut rel: ToOne<TestEntity> = ToOne::new();
    let unsaved = TestEntity { id: 0 };
    rel.set_target_stored(&unsaved);
    assert!(rel.needs_put());
    assert_eq!(rel.get_target_id(), 0);
    rel.mark_stored(42);
    assert!(!rel.needs_put());
    assert_eq!(rel.get_target_id(), 42);
    assert!(rel.has_value());
}

#[test]
fn test_rel_info_constructors() {
    let a = RelInfo::to_many(3, 17);
    assert_eq!(a.rel_type, RelType::ToMany);
    assert_eq!(a.id, 3);
    assert_eq!(a.object_id, 17);
    let b = RelInfo::to_one_backlink(4, 18);
    assert_eq!(b.rel_type, RelType::ToOneBacklink);
    let c = RelInfo::to_many_backlink(5, 19);
    assert_eq!(c.rel_type, RelType::ToManyBacklink);
}
