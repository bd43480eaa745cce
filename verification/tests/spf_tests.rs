use cad_core::spf::{
    general_token, init_locale, operator_token, ParseBool, ParseInt, StringBuilderVisitor, TokenFunc, TokenType,
};

#[test]
fn parse_int_accepts_signed_decimals() {
    init_locale();
    let mut v = 7;
    assert!(ParseInt("-42", &mut v));
    assert_eq!(v, -42);
    assert!(ParseInt("+17", &mut v));
    assert_eq!(v, 17);
    assert!(ParseInt("2147483647", &mut v));
    assert_eq!(v, i32::MAX);
    assert!(ParseInt("-2147483648", &mut v));
    assert_eq!(v, i32::MIN);
}

#[test]
fn parse_int_rejects_and_keeps_value() {
    let mut v = 7;
    for s in ["", "-", "+", "1.5", "2147483648", "-2147483649", " 1", "1a", "--1"] {
        assert!(!ParseInt(s, &mut v), "{}", s);
        assert_eq!(v, 7);
    }
}

#[test]
fn parse_bool_reads_logicals() {
    let mut v = 9;
    assert!(ParseBool(".T.", &mut v));
    assert_eq!(v, 1);
    assert!(ParseBool(".F.", &mut v));
    assert_eq!(v, 0);
    assert!(ParseBool(".U.", &mut v));
    assert_eq!(v, 2);
    assert!(!ParseBool(".X.", &mut v));
    assert!(!ParseBool("T", &mut v));
    assert!(!ParseBool(".T", &mut v));
    assert_eq!(v, 2);
}

#[test]
fn general_tokens_are_classified() {
    let t = general_token(0, 4, '#', "#123");
    assert!(TokenFunc::isIdentifier(&t));
    assert_eq!(TokenFunc::asIdentifier(&t), 123);
    let t = general_token(0, 2, '#', "#x");
    assert!(TokenFunc::isOperator_ch(&t, '$'));
    let t = general_token(5, 8, '.', ".T.");
    assert!(TokenFunc::isBool(&t));
    assert!(TokenFunc::asBool(&t));
    assert!(TokenFunc::isEnumeration(&t));
    let t = general_token(5, 8, '.', ".U.");
    assert!(!TokenFunc::isBool(&t));
    assert!(TokenFunc::isLogical(&t));
    assert_eq!(TokenFunc::asLogical(&t), None);
    let t = general_token(0, 6, '.', ".WALL.");
    assert_eq!(t.type_, TokenType::Token_ENUMERATION);
    let t = general_token(0, 3, '\'', "'a'");
    assert!(TokenFunc::isString(&t));
    let t = general_token(0, 3, '"', "\"0\"");
    assert!(TokenFunc::isBinary(&t));
    let t = general_token(0, 3, '-', "-12");
    assert!(TokenFunc::isInt(&t));
    assert_eq!(TokenFunc::asInt(&t), -12);
    assert!(TokenFunc::isFloat(&t));
    let t = general_token(0, 3, '1', "1.5E3");
    assert_eq!(t.type_, TokenType::Token_FLOAT);
    let t = general_token(0, 3, '.', ".5");
    assert_eq!(t.type_, TokenType::Token_ENUMERATION);
    let t = general_token(0, 3, '1', "1.");
    assert_eq!(t.type_, TokenType::Token_FLOAT);
    let t = general_token(0, 3, 'i', "inf");
    assert_eq!(t.type_, TokenType::Token_FLOAT);
    let t = general_token(0, 3, 'I', "IFCWALL");
    assert!(TokenFunc::isKeyword(&t));
    let t = general_token(0, 3, '1', "1e");
    assert!(TokenFunc::isKeyword(&t));
    let t = operator_token(3, 4, '(');
    assert!(TokenFunc::isOperator(&t));
    assert_eq!((t.startPos, t.endPos), (3, 4));
}

#[test]
fn binary_text_and_back() {
    assert_eq!(StringBuilderVisitor::format_binary(&[true, false, true, true]), "\"0D\"");
    assert_eq!(StringBuilderVisitor::format_binary(&[true]), "\"31\"");
    assert_eq!(StringBuilderVisitor::format_binary(&[]), "\"0\"");
    assert_eq!(TokenFunc::asBinary("0D"), vec![true, false, true, true]);
    assert_eq!(TokenFunc::asBinary("0B"), vec![true, true, false, true]);
    assert_eq!(TokenFunc::asBinary("0F0"), vec![false, false, false, false, true, true, true, true]);
    // the reader takes the padding bits from the low end of the first digit
    assert_eq!(TokenFunc::asBinary("31"), vec![false]);
    assert_eq!(TokenFunc::asBinary("0"), Vec::<bool>::new());
}

#[test]
fn visitor_renders_step_values() {
    let mut v = StringBuilderVisitor::new(false);
    v.blank();
    v.derived();
    v.int_(-7);
    v.bool_(true);
    v.tribool(None);
    v.str_("it");
    v.vec_int(&[1, 2, 3]);
    v.enum_ref("WALL");
    v.agg_of_instance(&["#1".to_string(), "#2".to_string()]);
    v.empty_agg();
    v.bin_(&[true, true, true, true]);
    assert_eq!(v.text(), "$*-7.T..U.'it'(1,2,3).WALL.(#1,#2)()\"0F\"");
}

#[test]
fn visitor_lists() {
    let mut v = StringBuilderVisitor::new(false);
    v.vec_int(&[]);
    v.vec_int(&[42]);
    assert_eq!(v.text(), "()(42)");
}
