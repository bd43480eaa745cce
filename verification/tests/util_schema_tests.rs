use cad_core::schema::{
    clear_schemas, ensure_schemas_loaded, register_schema, schema_by_name, schema_names, SchemaDefinition,
    SchemaRegistry,
};
use cad_core::util::{
    argument_type_to_string, escape_xml, from_parameter_type, make_aggregate, sanitate_material_name,
    unescape_xml, valid_binary_string, ArgumentType, ParameterType, SimpleTypeKind,
};

#[test]
fn argument_type_names() {
    assert_eq!(argument_type_to_string(ArgumentType::EntityInstance), "ENTITY INSTANCE");
    assert_eq!(
        argument_type_to_string(ArgumentType::AggregateOfAggregateOfEntityInstance),
        "AGGREGATE OF AGGREGATE OF ENTITY INSTANCE"
    );
    assert_eq!(argument_type_to_string(ArgumentType::String_), "STRING");
}

#[test]
fn aggregates_of_argument_types() {
    assert_eq!(make_aggregate(ArgumentType::Int), ArgumentType::AggregateOfInt);
    assert_eq!(make_aggregate(ArgumentType::AggregateOfInt), ArgumentType::AggregateOfAggregateOfInt);
    assert_eq!(make_aggregate(ArgumentType::EmptyAggregate), ArgumentType::AggregateOfEmptyAggregate);
    assert_eq!(make_aggregate(ArgumentType::Bool), ArgumentType::Unknown);
    assert_eq!(make_aggregate(ArgumentType::AggregateOfAggregateOfInt), ArgumentType::Unknown);
}

#[test]
fn argument_types_of_parameter_types() {
    let p = ParameterType::Aggregation(Box::new(ParameterType::Simple(SimpleTypeKind::Real)));
    assert_eq!(from_parameter_type(&p), ArgumentType::AggregateOfDouble);
    let p = ParameterType::Named { is_entity: true, is_enum_name: false };
    assert_eq!(from_parameter_type(&p), ArgumentType::EntityInstance);
    assert_eq!(from_parameter_type(&ParameterType::Other), ArgumentType::Unknown);
    assert_eq!(from_parameter_type(&ParameterType::Simple(SimpleTypeKind::Logical)), ArgumentType::Logical);
}

#[test]
fn binary_strings() {
    assert!(valid_binary_string("0101"));
    assert!(valid_binary_string(""));
    assert!(!valid_binary_string("012"));
}

#[test]
fn material_names() {
    let mut s = "Concrete C30 37".to_string();
    sanitate_material_name(&mut s);
    assert_eq!(s, "Concrete_C30_37");
}

#[test]
fn xml_escaping() {
    let mut s = "a<b & \"c\" 'd'>".to_string();
    escape_xml(&mut s);
    assert_eq!(s, "a&lt;b &amp; &quot;c&quot; &apos;d&apos;&gt;");
    unescape_xml(&mut s);
    assert_eq!(s, "a<b & \"c\" 'd'>");
    let mut t = "&amp;lt; &&quot;".to_string();
    unescape_xml(&mut t);
    assert_eq!(t, "&lt; &\"");
}

#[test]
fn schemas_are_found_in_any_case() {
    let mut reg = SchemaRegistry::new();
    ensure_schemas_loaded();
    let e = schema_by_name(&mut reg, "IFC4").unwrap_err();
    assert_eq!(e.0, "No schema named IFC4");
    assert!(schema_names(&mut reg).is_empty());
    SchemaDefinition::new(&mut reg, "Ifc4x3_Add2", vec![]);
    let s = schema_by_name(&mut reg, "ifc4x3_add2").unwrap();
    assert_eq!(s.name(), "Ifc4x3_Add2");
    assert_eq!(schema_names(&mut reg), vec!["IFC4X3_ADD2".to_string()]);
    let e = schema_by_name(&mut reg, "Nope").unwrap_err();
    assert_eq!(e.0, "No schema named Nope");
}

#[test]
fn registered_schemas_can_be_looked_up() {
    let mut reg = SchemaRegistry::new();
    let sd = SchemaDefinition::new(&mut reg, "My_Schema", vec!["IfcThing".to_string()]);
    assert_eq!(sd.name(), "My_Schema");
    let found = schema_by_name(&mut reg, "my_schema").unwrap();
    assert_eq!(found.name(), "My_Schema");
    assert_eq!(found.declarations(), &vec!["IfcThing".to_string()]);
    let mut other = SchemaRegistry::new();
    let newer = SchemaDefinition::new(&mut other, "MY_SCHEMA", vec![]);
    register_schema(&mut reg, newer);
    let found = schema_by_name(&mut reg, "My_Schema").unwrap();
    assert_eq!(found.name(), "MY_SCHEMA");
    assert!(found.declarations().is_empty());
    assert_eq!(schema_names(&mut reg).len(), 1);
    clear_schemas(&mut reg);
    assert!(schema_names(&mut reg).is_empty());
}

#[test]
fn declarations_are_ordered_by_upper_case_name() {
    let mut reg = SchemaRegistry::new();
    let names = vec!["b".to_string(), "A".to_string(), "a".to_string(), "C".to_string(), "B_".to_string()];
    let sd = SchemaDefinition::new(&mut reg, "S", names);
    assert_eq!(sd.declarations(), &vec!["A".to_string(), "a".to_string(), "b".to_string(), "B_".to_string(), "C".to_string()]);
    let found = schema_by_name(&mut reg, "s").unwrap();
    assert_eq!(found.declarations()[0], "A");
}
