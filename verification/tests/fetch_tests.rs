use cad_core::attribute_codec::{serialize_agg_inst, serialize_enumref, serialize_ifcptr, serialize_ifcptr_in, serialize_tribool};
use cad_core::bitset_codec::{serialize_bitset, Bits};
use cad_core::bytes::ByteOrder;
use cad_core::entity_data::{AggregateOfInstance, Declaration, EnumerationReference, IfcBaseClass, Schema, SchemaContainer, TriBool};
use cad_core::fetch::{dispatch_get_, dispatch_get_in, dispatch_get_string_from_enumref, Fetched};
use cad_core::memory_storage::{AnyKind, AnyValue, MemoryAttributeStorage};
use std::sync::Arc;

#[test]
fn values_held_in_memory_are_read_from_their_slot() {
    let mut s = MemoryAttributeStorage::new();
    s.set_int(1, 5);
    let c = SchemaContainer::new();
    assert!(matches!(dispatch_get_(&s, 0, &c, &[], 1, AnyKind::Int), Some(Fetched::Held(AnyValue::Int(5)))));
    assert!(matches!(dispatch_get_(&s, 0, &c, &[], 0, AnyKind::Int), Some(Fetched::Held(AnyValue::Blank(_)))));
    assert!(dispatch_get_(&s, 0, &c, &[], 2, AnyKind::Int).is_none());
}

#[test]
fn stored_values_are_decoded_by_type() {
    let s = MemoryAttributeStorage::new();
    let schema = Schema::new("IFC4", false);
    let mut c = SchemaContainer::new();
    c.decls.push(Declaration::new_entity("IfcWall", schema.clone()));
    c.decls.push(Declaration::new_type("IfcWallTypeEnum", schema.clone(), true));

    let t = serialize_tribool(TriBool::Indeterminate);
    assert!(matches!(dispatch_get_(&s, 1, &c, &t, 0, AnyKind::Tri), Some(Fetched::Stored(AnyValue::Tri(TriBool::Indeterminate)))));

    let e = serialize_enumref(&EnumerationReference::new("IfcWallTypeEnum".to_string(), 2), &c);
    match dispatch_get_(&s, 1, &c, &e, 0, AnyKind::EnumRef) {
        Some(Fetched::Stored(AnyValue::EnumRef(r))) => {
            assert_eq!(r.value(), "IfcWallTypeEnum");
            assert_eq!(r.index(), 2);
        }
        _ => panic!("enumeration value not read back"),
    }

    let p = serialize_ifcptr(&Arc::new(IfcBaseClass::new(0, 9, "IFCDIRECTION", false)));
    match dispatch_get_(&s, 1, &c, &p, 0, AnyKind::IfcPtr) {
        Some(Fetched::Stored(AnyValue::IfcPtr(x))) => {
            assert_eq!(x.id, 9);
            assert_eq!(x.identity, 9);
            assert!(!x.is_entity);
            assert_eq!(x.decl_name, "IFCGENERIC");
        }
        _ => panic!("instance reference not read back"),
    }

    let mut a = AggregateOfInstance::new();
    a.push(Arc::new(IfcBaseClass::new(4, 4, "IFCWALL", true)));
    a.push(Arc::new(IfcBaseClass::new(6, 6, "IFCWALL", true)));
    let ab = serialize_agg_inst(&a);
    match dispatch_get_(&s, 1, &c, &ab, 0, AnyKind::AggInst) {
        Some(Fetched::Stored(AnyValue::AggInst(d))) => {
            assert_eq!(d.size(), 2);
            assert_eq!(d.iter()[1].id, 6);
        }
        _ => panic!("aggregate not read back"),
    }

    let bits = serialize_bitset(&Bits::from_bools(&[true, false, true]));
    assert!(matches!(dispatch_get_(&s, 1, &c, &bits, 0, AnyKind::Bitset), Some(Fetched::Stored(AnyValue::Bitset(_)))));
}

#[test]
fn bytes_of_another_type_give_nothing() {
    let s = MemoryAttributeStorage::new();
    let c = SchemaContainer::new();
    let t = serialize_tribool(TriBool::True);
    assert!(dispatch_get_(&s, 1, &c, &t, 0, AnyKind::AggInst).is_none());
    assert!(dispatch_get_(&s, 1, &c, &[], 0, AnyKind::Tri).is_none());
    assert!(dispatch_get_(&s, 1, &c, &[b'P', 7], 0, AnyKind::AggInst).is_none());
    let e = serialize_enumref(&EnumerationReference::new("IfcWallTypeEnum".to_string(), 2), &c);
    let mut bigger = SchemaContainer::new();
    bigger.decls.push(Declaration::new_entity("IfcWall", Schema::new("IFC4", false)));
    assert!(matches!(dispatch_get_(&s, 1, &bigger, &e, 0, AnyKind::EnumRef), Some(Fetched::Stored(AnyValue::EnumRef(_)))));
    let mut far = e.clone();
    far[1] = 200;
    assert!(dispatch_get_(&s, 1, &bigger, &far, 0, AnyKind::EnumRef).is_none());
}

#[test]
fn instance_references_survive_a_roundtrip_in_either_order() {
    let s = MemoryAttributeStorage::new();
    let c = SchemaContainer::new();
    let x = Arc::new(IfcBaseClass::new(12, 3, "IFCWALL", true));
    for order in [ByteOrder::Little, ByteOrder::Big] {
        let b = serialize_ifcptr_in(&x, order);
        match dispatch_get_in(&s, 1, &c, &b, 0, AnyKind::IfcPtr, order) {
            Some(Fetched::Stored(AnyValue::IfcPtr(p))) => {
                assert_eq!(p.id, 12);
                assert!(p.is_entity);
            }
            _ => panic!("instance reference not read back"),
        }
    }
}

#[test]
fn enumeration_names_are_read_from_memory_or_bytes() {
    let mut s = MemoryAttributeStorage::new();
    s.set_enumref(0, EnumerationReference::new("IfcWallTypeEnum".to_string(), 3));
    let schema = Schema::new("IFC4", false);
    let mut c = SchemaContainer::new();
    c.decls.push(Declaration::new_entity("IfcWall", schema.clone()));
    c.decls.push(Declaration::new_type("IfcDoorTypeEnum", schema.clone(), true));
    assert_eq!(dispatch_get_string_from_enumref(&s, 0, &c, None, 0), Some("IfcWallTypeEnum".to_string()));
    let b = serialize_enumref(&EnumerationReference::new("IfcDoorTypeEnum".to_string(), 1), &c);
    assert_eq!(dispatch_get_string_from_enumref(&s, 1, &c, Some(&b), 0), Some("IfcDoorTypeEnum".to_string()));
    assert_eq!(dispatch_get_string_from_enumref(&s, 1, &c, None, 0), None);
    let t = serialize_tribool(TriBool::False);
    assert_eq!(dispatch_get_string_from_enumref(&s, 1, &c, Some(&t), 0), None);
}
