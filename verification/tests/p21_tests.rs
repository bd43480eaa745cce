use cad_core::file_kind::{file_type_of, FileType};
use cad_core::p21::{
    all_ids, contains, entity_kind, first_id, parse_arbitrary_profile, parse_axis2placement3d,
    parse_local_placement, parse_polyline, parse_product, parse_shape_rep, parse_statement, parse_statement_lite,
    parse_units, scan_p21,
    read_p21_entities, same_text, EntityKind, Idx, UnitLen,
};

#[test]
fn statements_are_gathered_across_lines() {
    let text = "ISO-10303-21;\nDATA;\n#1= IFCCARTESIANPOINT((0.,\n  0.,0.));\n\n// a note\n#2=IFCDIRECTION((1.,0.,0.)); // trailing\r\n#3=IFCX(\n";
    let r = read_p21_entities(text);
    assert_eq!(
        r,
        vec![
            "#1= IFCCARTESIANPOINT((0., 0.,0.));".to_string(),
            "#2=IFCDIRECTION((1.,0.,0.));".to_string(),
        ]
    );
}

#[test]
fn only_entity_statements_are_gathered() {
    assert_eq!(read_p21_entities("DATA;\n#1=IFCWALL();\nENDSEC;"), vec!["#1=IFCWALL();".to_string()]);
    assert!(read_p21_entities("#=IFCWALL();\n#1=wall();\nHEADER;").is_empty());
}

#[test]
fn comments_cut_lines_and_unicode_space_is_trimmed() {
    let r = read_p21_entities("\u{a0} #5=A(1); //x\n  #6=B(2) // y\n ;");
    assert_eq!(r, vec!["#5=A(1);".to_string(), "#6=B(2) ;".to_string()]);
    assert!(read_p21_entities("").is_empty());
    assert!(read_p21_entities("// only\n\n").is_empty());
}

#[test]
fn references_are_read_in_order() {
    let ids = all_ids("(#10,#2,$,#x,#99999999999,#7)");
    assert_eq!(ids, vec![Idx(10), Idx(2), Idx(7)]);
    assert_eq!(first_id("$,#42,#1"), Some(Idx(42)));
    assert_eq!(first_id("#99999999999,#1"), None);
    assert_eq!(first_id("none"), None);
    assert_eq!(all_ids("##3"), vec![Idx(3)]);
}

#[test]
fn statements_are_taken_apart() {
    let s = parse_statement("#12 = IFCPOLYLINE((#1,#2));").unwrap();
    assert_eq!(s.id, 12);
    assert_eq!(s.kind, "IFCPOLYLINE");
    assert_eq!(s.args, "(#1,#2)");
    let s = parse_statement("#3=IFCX( a );").unwrap();
    assert_eq!(s.args, "a");
    let s = parse_statement("#99999999999=IFCX();").unwrap();
    assert_eq!(s.id, 0);
    assert_eq!(s.args, "");
    assert!(parse_statement("#1=ifcx();").is_none());
    assert!(parse_statement("#1=IFCX;").is_none());
    assert!(parse_statement("#1 IFCX();").is_none());
    assert!(parse_statement("DATA;").is_none());
    assert!(parse_statement("#1=IFCX() ;").is_none());
}

#[test]
fn kinds_choose_the_reader() {
    assert_eq!(entity_kind("IFCSIUNIT"), EntityKind::Units);
    assert_eq!(entity_kind("IFCUNITASSIGNMENT"), EntityKind::Units);
    assert_eq!(entity_kind("IFCPOLYLINE"), EntityKind::Polyline);
    assert_eq!(entity_kind("IFCWALL"), EntityKind::Product);
    assert_eq!(entity_kind("IFCREINFORCINGBAR"), EntityKind::Product);
    assert_eq!(entity_kind("IFCSHAPEMODEL"), EntityKind::ShapeRep);
    assert_eq!(entity_kind("IFCEXTRUDEDAREASOLID"), EntityKind::ExtrudedAreaSolid);
    assert_eq!(entity_kind("IfcWall"), EntityKind::Unknown);
    assert!(same_text("ab", "ab"));
    assert!(!same_text("ab", "abc"));
}

#[test]
fn units_are_read() {
    assert_eq!(parse_units("(*,.LENGTHUNIT.,.MILLI.,.METRE.)"), Some(UnitLen::MilliMetre));
    assert_eq!(parse_units("(*,.LENGTHUNIT.,$,.METRE.)"), Some(UnitLen::Metre));
    assert_eq!(parse_units("(*,.LENGTHUNIT.,$,$)"), Some(UnitLen::Metre));
    assert_eq!(parse_units("(*,.AREAUNIT.,$,.SQUARE_METRE.)"), None);
    assert!(contains("abc", ""));
    assert!(contains("abc", "bc"));
    assert!(!contains("abc", "cb"));
}

#[test]
fn references_of_geometry_entities() {
    assert_eq!(parse_polyline("((#1,#2,#3))"), vec![Idx(1), Idx(2), Idx(3)]);
    assert_eq!(parse_arbitrary_profile(".AREA.,$,#40"), Idx(40));
    assert_eq!(parse_arbitrary_profile(".AREA.,$,$"), Idx(0));
    assert_eq!(parse_axis2placement3d("#5,$,$"), (Idx(5), None, None));
    assert_eq!(parse_axis2placement3d("#5,#6,#7"), (Idx(5), Some(Idx(6)), Some(Idx(7))));
    assert_eq!(parse_axis2placement3d("$,$,$"), (Idx(0), None, None));
    assert_eq!(parse_local_placement("$,#9"), (Some(Idx(9)), Idx(0)));
    assert_eq!(parse_local_placement("#8,#9"), (Some(Idx(8)), Idx(9)));
    assert_eq!(parse_product("'g',#2,'n',$,$,#20,#21,$"), (Some(Idx(2)), Some(Idx(20))));
    assert_eq!(parse_shape_rep("#1,'Body','SweptSolid',(#50,#51)"), vec![Idx(1), Idx(50), Idx(51)]);
}

#[test]
fn what_a_path_holds() {
    assert_eq!(file_type_of(false, false, false, None), FileType::IfcSpf);
    assert_eq!(file_type_of(true, false, false, None), FileType::IfcSpf);
    assert_eq!(file_type_of(true, true, false, None), FileType::Unknown);
    assert_eq!(file_type_of(true, true, true, Some(" \nMANIFEST-000004\n")), FileType::RocksDb);
    assert_eq!(file_type_of(true, true, true, Some("MANIFEST")), FileType::Unknown);
    assert_eq!(file_type_of(true, true, true, None), FileType::Unknown);
}

fn lite(text: &str) -> Vec<(u32, String, String)> {
    scan_p21(text).into_iter().map(|e| (e.id, e.kind, e.args)).collect()
}

#[test]
fn lite_statements_of_a_file() {
    let text = "ISO-10303-21;\nDATA;\n#1= IFCCARTESIANPOINT ((0.,0.,0.)) ;\n// note\n#2=IFCPOLYLINE(\n(#1,#3));\n#3=IFCWALL('x') ; // trailing\n#4=IFCSLAB($);\n";
    assert_eq!(
        lite(text),
        vec![
            (1, "IFCCARTESIANPOINT".to_string(), "(0.,0.,0.)".to_string()),
            (2, "IFCPOLYLINE".to_string(), " (#1,#3)".to_string()),
            (3, "IFCWALL".to_string(), "'x') ; // trailing #4=IFCSLAB($".to_string()),
        ]
    );
    assert!(lite("").is_empty());
    assert!(lite("#1=IFCWALL($)").is_empty());
}

#[test]
fn lite_statement_parts() {
    let e = parse_statement_lite("#5 = IFCX ( a ) ;").unwrap();
    assert_eq!((e.id, e.kind.as_str(), e.args.as_str()), (5, "IFCX", " a "));
    let e = parse_statement_lite("#5=IFCX();").unwrap();
    assert_eq!(e.args, "");
    assert!(parse_statement_lite("#5=X(a);x").is_none());
    assert!(parse_statement_lite("#=X();").is_none());
    assert!(parse_statement_lite("#5=x();").is_none());
    assert!(parse_statement_lite("#5=X(a;").is_none());
    let e = parse_statement_lite("#99999999999=IFCX(1);").unwrap();
    assert_eq!(e.id, 0);
}
