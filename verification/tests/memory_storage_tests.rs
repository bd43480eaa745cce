use cad_core::attribute_codec::{ser_i32, serialize_blank};
use cad_core::entity_data::{AggregateOfInstance, Declaration, EnumerationReference, IfcBaseClass, Schema};
use std::sync::Arc;
use cad_core::memory_storage::{dispatch_has_, dispatch_index_, AnyKind, AnyValue, MemoryAttributeStorage};
use cad_core::valuation::Real;

#[test]
fn setting_beyond_the_end_adds_blanks() {
    let mut s = MemoryAttributeStorage::new();
    s.set_int(2, 7);
    assert_eq!(s.slots.len(), 3);
    assert!(s.has(0, AnyKind::Blank));
    assert!(s.has(1, AnyKind::Blank));
    assert!(s.has(2, AnyKind::Int));
    assert!(!s.has(2, AnyKind::Bool));
    assert!(!s.has(3, AnyKind::Blank));
    assert!(matches!(s.get(2), Some(AnyValue::Int(7))));
    assert!(s.get(3).is_none());
}

#[test]
fn setting_within_keeps_the_other_slots() {
    let mut s = MemoryAttributeStorage::new();
    s.set_string(1, "wall".to_string());
    s.set_bool(0, true);
    s.set_double(1, Real::Literal(12));
    assert_eq!(s.slots.len(), 2);
    assert!(matches!(s.get(0), Some(AnyValue::Bool(true))));
    assert!(matches!(s.get(1), Some(AnyValue::Double(Real::Literal(12)))));
}

#[test]
fn type_index_of_each_slot() {
    let mut s = MemoryAttributeStorage::new();
    s.set_int(0, 1);
    s.set_vec_int(1, vec![1, 2]);
    s.set_enumref(2, EnumerationReference::new("AREA".to_string(), 3));
    s.set(3, AnyValue::Derived(cad_core::entity_data::Derived));
    s.set_vec_vec_double(4, vec![vec![Real::Integer(1)]]);
    assert_eq!(s.index(0), 1);
    assert_eq!(s.index(1), 9);
    assert_eq!(s.index(2), 7);
    assert_eq!(s.index(3), 17);
    assert_eq!(s.index(4), 12);
    assert_eq!(s.index(9), 0);
}

#[test]
fn dispatch_over_memory_and_store() {
    let mut s = MemoryAttributeStorage::new();
    s.set_tribool(0, cad_core::entity_data::TriBool::Indeterminate);
    assert_eq!(dispatch_index_(&s, 0, None, 0), 3);
    assert!(dispatch_has_(&s, 0, None, 0, AnyKind::Tri));
    let stored = ser_i32(5);
    assert_eq!(dispatch_index_(&s, 1, Some(&stored), 0), 1);
    assert!(dispatch_has_(&s, 1, Some(&stored), 0, AnyKind::Int));
    assert!(!dispatch_has_(&s, 1, Some(&stored), 0, AnyKind::Tri));
    assert_eq!(dispatch_index_(&s, 1, None, 0), 0);
    assert!(!dispatch_has_(&s, 1, None, 0, AnyKind::Blank));
    let blank = serialize_blank();
    assert!(dispatch_has_(&s, 1, Some(&blank), 0, AnyKind::Blank) == blank.is_empty());
    assert!(dispatch_has_(&s, 1, Some(&[]), 0, AnyKind::Blank));
    // lists have no tag test in the store: they are tested as blanks are
    assert!(!dispatch_has_(&s, 1, Some(&stored), 0, AnyKind::VecInt));
}

#[test]
fn enumeration_values_are_named_by_index() {
    let d = Declaration::new_type("IfcWallTypeEnum", Schema::new("IFC4", false), true);
    assert_eq!(d.as_enumeration_type().name(), "IfcWallTypeEnum");
    assert_eq!(d.lookup_enum_value(3), "IfcWallTypeEnum#3");
    assert_eq!(d.lookup_enum_value(0), "IfcWallTypeEnum#0");
}

fn inst(id: usize, name: &str) -> Arc<IfcBaseClass> {
    Arc::new(IfcBaseClass::new(id, id, name, true))
}

#[test]
fn unique_keeps_the_first_instance_of_each_id() {
    let mut a = AggregateOfInstance::new();
    a.push(inst(3, "IFCWALL"));
    a.push(inst(5, "IFCDOOR"));
    a.push(inst(3, "IFCSLAB"));
    a.push(inst(7, "IFCROOF"));
    a.push(inst(5, "IFCBEAM"));
    let u = a.unique();
    let got: Vec<(usize, String)> = u.iter().iter().map(|x| (x.id, x.decl_name.clone())).collect();
    assert_eq!(
        got,
        vec![(3, "IFCWALL".to_string()), (5, "IFCDOOR".to_string()), (7, "IFCROOF".to_string())]
    );
    assert_eq!(a.size(), 5);
    assert_eq!(AggregateOfInstance::new().unique().size(), 0);
}

#[test]
fn another_aggregate_is_appended_in_order() {
    let mut a = AggregateOfInstance::new();
    a.push(inst(1, "A"));
    let mut b = AggregateOfInstance::new();
    b.push(inst(2, "B"));
    b.push(inst(3, "C"));
    a.push_aggregate(Some(&b));
    a.push_aggregate(None);
    let ids: Vec<usize> = a.iter().iter().map(|x| x.id).collect();
    assert_eq!(ids, vec![1, 2, 3]);
    assert!(Arc::ptr_eq(&a.iter()[1], &b.iter()[0]));
    assert_eq!(a.get(2).decl_name, "C");
}
