use cad_core::header::{HeaderSchema, IfcSpfHeader};
use cad_core::lexer::{IfcSpfLexer, IfcSpfStream};

fn ifc_header_schema() -> HeaderSchema {
    HeaderSchema {
        file_description: "FILE_DESCRIPTION".to_string(),
        file_name: "FILE_NAME".to_string(),
        file_schema: "FILE_SCHEMA".to_string(),
    }
}

fn header(text: &str) -> IfcSpfHeader {
    let lexer = IfcSpfLexer::new(IfcSpfStream::new_from_bytes(text.as_bytes().to_vec()));
    IfcSpfHeader::with_lexer(lexer, ifc_header_schema())
}

fn error_of(text: &str) -> String {
    match header(text).read() {
        Ok(()) => panic!("the header was read"),
        Err(e) => e.0,
    }
}

#[test]
fn header_with_one_token_arguments_is_read() {
    let text = "ISO-10303-21;\nHEADER;\nFILE_DESCRIPTION/**/$;\nFILE_NAME/* x */$ ;\nFILE_SCHEMA/**/*;\nENDSEC;";
    let mut h = header(text);
    assert!(h.read().is_ok());
    // the reader stops after the last semicolon of the header and the line break
    assert_eq!(h.tokens.stream.Tell() as usize, text.find("ENDSEC").unwrap());
    assert!(header(text).try_read());
}

#[test]
fn header_names_may_have_comments_between() {
    let text = "ISO-10303-21 ; /* c */ HEADER;FILE_DESCRIPTION/* args */*;FILE_NAME,;FILE_SCHEMA;;";
    assert!(header(text).read().is_ok());
}

#[test]
fn wrong_first_terminal() {
    assert_eq!(error_of("ISO-10303-22;\nHEADER;"), "Expected ISO-10303-21");
}

#[test]
fn missing_semicolon_after_first_terminal() {
    assert_eq!(error_of("ISO-10303-21()HEADER;"), "Expected ;");
}

#[test]
fn white_space_does_not_end_a_token() {
    // the lexer reads `ISO-10303-21 HEADER` as one token
    assert_eq!(error_of("ISO-10303-21\nHEADER;"), "Expected ISO-10303-21");
    assert_eq!(error_of("ISO-10303-21;HEADER;FILE_DESCRIPTION $;"), "Expected FILE_DESCRIPTION");
}

#[test]
fn missing_header_terminal() {
    assert_eq!(error_of("ISO-10303-21;\nDATA;"), "Expected HEADER");
}

#[test]
fn arguments_in_parentheses_take_more_than_one_token() {
    let text = "ISO-10303-21;\nHEADER;\nFILE_DESCRIPTION(('ViewDefinition'),'2;1');";
    assert_eq!(error_of(text), "Expected ;");
    assert!(!header(text).try_read());
}

#[test]
fn wrong_entity_name() {
    assert_eq!(error_of("ISO-10303-21;HEADER;FILE_DESCRIPTION,;FILE_SCHEMA,;"), "Expected FILE_NAME");
}

#[test]
fn empty_file_expects_the_first_terminal() {
    let mut h = header("");
    assert!(!h.try_read());
    assert_eq!(error_of(""), "Expected ISO-10303-21");
}

#[test]
fn header_is_written_in_order() {
    let text = IfcSpfHeader::write(
        "FILE_DESCRIPTION(('ViewDefinition'),'2;1')",
        "FILE_NAME('a.ifc')",
        "FILE_SCHEMA(('IFC4'))",
    );
    assert_eq!(
        text,
        "ISO-10303-21;\nHEADER;\nFILE_DESCRIPTION(('ViewDefinition'),'2;1');\nFILE_NAME('a.ifc');\nFILE_SCHEMA(('IFC4'));\nENDSEC;\nDATA;\n"
    );
}

#[test]
fn schema_names_are_given_back() {
    let s = ifc_header_schema();
    assert_eq!(s.file_description_name_uc(), "FILE_DESCRIPTION");
    assert_eq!(s.file_name_name_uc(), "FILE_NAME");
    assert_eq!(s.file_schema_name_uc(), "FILE_SCHEMA");
}
