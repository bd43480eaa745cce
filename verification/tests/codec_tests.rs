use cad_core::attribute_codec::{
    attribute_key, stored_type_index,
    de_bool, de_i32, de_i32_in, de_string, de_vec_i32, de_vec_string, de_vec_vec_i32, deserialize_agg_agg_inst,
    deserialize_agg_inst, deserialize_enumref, deserialize_tribool, make_key, ser_bool, ser_i32, ser_i32_in,
    ser_string, ser_vec_i32, ser_vec_string, ser_vec_vec_i32, serialize_agg_agg_inst, serialize_agg_inst,
    serialize_blank, serialize_derived, serialize_empty_agg, serialize_empty_agg_agg, serialize_enumref,
    serialize_ifcptr, serialize_tribool,
};
use cad_core::bitset_codec::{
    de_vec_bitset, deserialize_bitset, ser_vec_bitset, serialize_bitset, Bits,
};
use cad_core::bytes::ByteOrder;
use cad_core::entity_data::{
    stored_value_has, AggregateOfAggregateOfInstance, AggregateOfInstance, Declaration, EnumerationReference,
    IfcBaseClass, Schema, SchemaContainer, TriBool, TypeEncoder, ValueKind,
};
use std::sync::Arc;

#[test]
fn tags_run_from_a_to_t() {
    assert_eq!(TypeEncoder::encode_type_blank(), b'A');
    assert_eq!(TypeEncoder::encode_type_int(), b'B');
    assert_eq!(TypeEncoder::encode_type_string(), b'F');
    assert_eq!(TypeEncoder::encode_type_agg_agg_inst(), b'Q');
    assert_eq!(TypeEncoder::encode_type_empty_agg_agg(), b'T');
    assert_eq!(TypeEncoder::to_index(TypeEncoder::encode_type_blank()), 0);
    assert_eq!(TypeEncoder::to_index(TypeEncoder::encode_type_empty_agg_agg()), 19);
}

#[test]
fn payloadless_values_are_one_tag_byte() {
    assert_eq!(serialize_blank(), vec![b'A']);
    assert_eq!(serialize_derived(), vec![b'R']);
    assert_eq!(serialize_empty_agg(), vec![b'S']);
    assert_eq!(serialize_empty_agg_agg(), vec![b'T']);
}

#[test]
fn tribool_roundtrip_and_errors() {
    assert_eq!(serialize_tribool(TriBool::Indeterminate), vec![b'D', 2]);
    for t in [TriBool::False, TriBool::True, TriBool::Indeterminate] {
        let b = serialize_tribool(t.clone());
        assert!(deserialize_tribool(&b) == Some(t));
    }
    assert!(deserialize_tribool(&[b'D', 7]).is_none());
    assert!(deserialize_tribool(&[b'D']).is_none());
    assert!(deserialize_tribool(&[b'B', 1]).is_none());
    assert!(deserialize_tribool(&[]).is_none());
}

#[test]
fn bool_roundtrip() {
    assert_eq!(ser_bool(true), vec![b'C', 1]);
    assert_eq!(de_bool(&ser_bool(true)), Some(true));
    assert_eq!(de_bool(&ser_bool(false)), Some(false));
    assert_eq!(de_bool(&[b'B', 1]), None);
}

#[test]
fn int_layout_and_roundtrip() {
    let mut expected = vec![b'B'];
    expected.extend_from_slice(&(-5i32).to_ne_bytes());
    assert_eq!(ser_i32(-5), expected);
    assert_eq!(de_i32(&ser_i32(-5)), Some(-5));
    assert_eq!(ser_i32_in(0x01020304, ByteOrder::Big), vec![b'B', 1, 2, 3, 4]);
    assert_eq!(ser_i32_in(0x01020304, ByteOrder::Little), vec![b'B', 4, 3, 2, 1]);
    assert_eq!(de_i32_in(&[b'B', 0xff, 0xff, 0xff, 0xfe], ByteOrder::Big), Some(-2));
    assert_eq!(de_i32(&[b'C', 0, 0, 0, 0]), None);
}

#[test]
fn string_roundtrip() {
    let b = ser_string("héllo");
    assert_eq!(b[0], b'F');
    assert_eq!(&b[1..], "héllo".as_bytes());
    assert_eq!(de_string(&b), Some("héllo".to_string()));
    assert_eq!(de_string(&[b'F', 0xff]), None);
    assert_eq!(de_string(&[b'B']), None);
}

#[test]
fn int_list_layout_and_roundtrip() {
    let v = vec![1, -2, 300];
    let b = ser_vec_i32(&v);
    let mut expected = vec![b'J'];
    expected.extend_from_slice(&3usize.to_ne_bytes());
    for x in &v {
        expected.extend_from_slice(&x.to_ne_bytes());
    }
    assert_eq!(b, expected);
    assert_eq!(de_vec_i32(&b), Some(v));
    let mut short = b.clone();
    short.truncate(b.len() - 1);
    assert_eq!(de_vec_i32(&short), None);
}

#[test]
fn string_list_roundtrip() {
    let v = vec!["a".to_string(), String::new(), "ü".to_string()];
    let b = ser_vec_string(&v);
    assert_eq!(b[0], b'N');
    assert_eq!(de_vec_string(&b), Some(v));
}

#[test]
fn nested_int_list_roundtrip() {
    let v = vec![vec![1, 2], vec![], vec![-3]];
    let b = ser_vec_vec_i32(&v);
    assert_eq!(b[0], b'L');
    assert_eq!(de_vec_vec_i32(&b), Some(v));
}

fn inst(id: usize, identity: usize, entity: bool) -> Arc<IfcBaseClass> {
    Arc::new(IfcBaseClass::new(id, identity, "IfcWall", entity))
}

#[test]
fn instance_reference_layout() {
    let b = serialize_ifcptr(&inst(0, 42, false));
    let mut expected = vec![b'I', b't'];
    expected.extend_from_slice(&42usize.to_ne_bytes());
    assert_eq!(b, expected);
    let b = serialize_ifcptr(&inst(7, 42, true));
    assert_eq!(b[1], b'i');
    assert_eq!(&b[2..], &7usize.to_ne_bytes());
}

#[test]
fn aggregate_of_instances_roundtrip() {
    let mut a = AggregateOfInstance::new();
    a.push(inst(3, 0, true));
    a.push(inst(0, 9, false));
    let b = serialize_agg_inst(&a);
    assert_eq!(b[0], b'P');
    let d = deserialize_agg_inst(&b).unwrap();
    assert_eq!(d.size(), 2);
    assert_eq!(d.iter()[0].id, 3);
    assert!(d.iter()[0].is_entity);
    assert_eq!(d.iter()[1].id, 9);
    assert!(!d.iter()[1].is_entity);
}

#[test]
fn aggregate_of_aggregates_roundtrip() {
    let mut a = AggregateOfAggregateOfInstance::new();
    a.push(vec![inst(1, 0, true), inst(2, 0, true)]);
    a.push(vec![]);
    let b = serialize_agg_agg_inst(&a);
    assert_eq!(b[0], b'Q');
    let d = deserialize_agg_agg_inst(&b).unwrap();
    assert_eq!(d.size(), 2);
    assert_eq!(d.iter()[0].len(), 2);
    assert_eq!(d.iter()[0][1].id, 2);
    assert_eq!(d.iter()[1].len(), 0);
}

#[test]
fn enumeration_reference_roundtrip() {
    let s = Schema::new("IFC4", false);
    let mut c = SchemaContainer::new();
    c.decls.push(Declaration::new_entity("IfcWall", s.clone()));
    c.decls.push(Declaration::new_type("IfcWallTypeEnum", s.clone(), true));
    let e = EnumerationReference::new("IfcWallTypeEnum".to_string(), 4);
    let b = serialize_enumref(&e, &c);
    let mut expected = vec![b'H'];
    expected.extend_from_slice(&1usize.to_ne_bytes());
    expected.extend_from_slice(&4usize.to_ne_bytes());
    assert_eq!(b, expected);
    let d = deserialize_enumref(&c, &b).unwrap();
    assert_eq!(d.value(), "IfcWallTypeEnum");
    assert_eq!(d.index(), 4);
}

#[test]
fn attribute_keys() {
    assert_eq!(make_key(false, true, "12".to_string(), 3), "i|12|3");
    assert_eq!(make_key(false, false, "5".to_string(), 0), "t|5|0");
    assert_eq!(make_key(true, true, "FILE_NAME".to_string(), 255), "h|FILE_NAME|255");
}

#[test]
fn bit_set_layout_and_roundtrip() {
    let b = Bits::from_bools(&[true, false, true, true]);
    let s = serialize_bitset(&b);
    assert_eq!(s, b"G1011".to_vec());
    let d = deserialize_bitset(&s).unwrap();
    assert_eq!(d.to_bools(), vec![true, false, true, true]);
    assert!(deserialize_bitset(&[b'G', 0xff]).is_none());
    assert_eq!(deserialize_bitset(b"G1x1").unwrap().to_bools(), vec![true, false, true]);
}

#[test]
fn bit_set_list_roundtrip() {
    let v = vec![Bits::from_bools(&[true]), Bits::from_bools(&[]), Bits::from_bools(&[false, true])];
    let b = ser_vec_bitset(&v);
    let mut expected = vec![b'O'];
    expected.extend_from_slice(&3usize.to_ne_bytes());
    expected.extend_from_slice(&1usize.to_ne_bytes());
    expected.push(b'1');
    expected.extend_from_slice(&0usize.to_ne_bytes());
    expected.extend_from_slice(&2usize.to_ne_bytes());
    expected.extend_from_slice(b"01");
    assert_eq!(b, expected);
    let d = de_vec_bitset(&b).unwrap();
    let back: Vec<Vec<bool>> = d.iter().map(|x| x.to_bools()).collect();
    assert_eq!(back, vec![vec![true], vec![], vec![false, true]]);
}

#[test]
fn stored_values_are_recognized_by_tag() {
    assert!(stored_value_has(Some(&ser_i32(1)), ValueKind::Int));
    assert!(!stored_value_has(Some(&ser_i32(1)), ValueKind::Bool));
    assert!(stored_value_has(Some(&[]), ValueKind::Blank));
    assert!(!stored_value_has(Some(&serialize_blank()), ValueKind::Blank));
    assert!(stored_value_has(Some(&serialize_blank()), ValueKind::Other));
    assert!(!stored_value_has(None, ValueKind::Int));
}

#[test]
fn attribute_store_keys_and_kinds() {
    let header = Schema::new("header", true);
    let ifc = Schema::new("IFC4", false);
    let fd = Declaration::new_entity("FILE_DESCRIPTION", header);
    let wall = Declaration::new_entity("IfcWall", ifc.clone());
    let label = Declaration::new_type("IfcLabel", ifc, false);
    assert_eq!(attribute_key(&fd, 7, 1), "h|FILE_DESCRIPTION|1");
    assert_eq!(attribute_key(&wall, 120, 4), "i|120|4");
    assert_eq!(attribute_key(&label, 0, 0), "t|0|0");
    assert_eq!(stored_type_index(Some(&ser_i32(3))), 1);
    assert_eq!(stored_type_index(Some(&[])), 0);
    assert_eq!(stored_type_index(None), 0);
    assert_eq!(stored_type_index(Some(&serialize_empty_agg_agg())), 19);
}
