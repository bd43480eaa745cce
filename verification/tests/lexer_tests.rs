use cad_core::lexer::{GeneralTokenPtr, IfcSpfLexer, IfcSpfStream, OperatorTokenPtr, RemoveTokenSeparators};
use cad_core::spf::{TokenFunc, TokenType};

fn lexer(text: &str) -> IfcSpfLexer {
    IfcSpfLexer::new(IfcSpfStream::new_from_bytes(text.as_bytes().to_vec()))
}

#[test]
fn stream_steps_over_line_breaks() {
    let mut s = IfcSpfStream::new_from_bytes(b"a\r\nb".to_vec());
    assert_eq!(s.Peek(), 'a');
    s.Inc();
    assert_eq!(s.Tell(), 3);
    assert_eq!(s.Peek(), 'b');
    assert!(!s.eof());
    s.Inc();
    assert!(s.eof());
    assert_eq!(s.Read(10), '\0');
    s.Seek(1);
    assert!(!s.eof());
    assert_eq!(s.Peek(), '\r');
    let mut p = 0u32;
    s.increment_at(&mut p);
    assert_eq!(p, 3);
    assert!(s.is_eof_at(4));
    assert_eq!(s.size(), 4);
}

#[test]
fn tokens_of_an_instance() {
    let mut lx = lexer("#12= IFCWALL('a''b',.T.,$,(1,2.5)); /* c */ #3=X();");
    let t = lx.Next();
    assert!(TokenFunc::isIdentifier(&t));
    assert_eq!(TokenFunc::asIdentifier(&t), 12);
    assert_eq!((t.startPos, t.endPos), (0, 3));
    let t = lx.Next();
    assert!(TokenFunc::isOperator_ch(&t, '='));
    let t = lx.Next();
    assert!(TokenFunc::isKeyword(&t));
    assert_eq!(TokenFunc::toString(&lx, &t), Some("IFCWALL".to_string()));
    assert!(TokenFunc::isOperator_ch(&lx.Next(), '('));
    let t = lx.Next();
    assert!(TokenFunc::isString(&t));
    assert_eq!((t.startPos, t.endPos), (13, 19));
    assert_eq!(TokenFunc::asStringRef(&lx, &t), None);
    assert!(TokenFunc::isOperator_ch(&lx.Next(), ','));
    let t = lx.Next();
    assert!(TokenFunc::isBool(&t));
    assert_eq!(TokenFunc::asStringRef(&lx, &t), Some("T".to_string()));
    assert!(TokenFunc::isOperator_ch(&lx.Next(), ','));
    assert!(TokenFunc::isOperator_ch(&lx.Next(), '$'));
    assert!(TokenFunc::isOperator_ch(&lx.Next(), ','));
    assert!(TokenFunc::isOperator_ch(&lx.Next(), '('));
    let t = lx.Next();
    assert_eq!(TokenFunc::asInt(&t), 1);
    assert!(TokenFunc::isOperator_ch(&lx.Next(), ','));
    assert_eq!(lx.Next().type_, TokenType::Token_FLOAT);
    assert!(TokenFunc::isOperator_ch(&lx.Next(), ')'));
    assert!(TokenFunc::isOperator_ch(&lx.Next(), ')'));
    assert!(TokenFunc::isOperator_ch(&lx.Next(), ';'));
    let t = lx.Next();
    assert_eq!(TokenFunc::asIdentifier(&t), 3);
    assert!(TokenFunc::isOperator_ch(&lx.Next(), '='));
    assert!(TokenFunc::isKeyword(&lx.Next()));
    assert!(TokenFunc::isOperator_ch(&lx.Next(), '('));
    assert!(TokenFunc::isOperator_ch(&lx.Next(), ')'));
    assert!(TokenFunc::isOperator_ch(&lx.Next(), ';'));
    let t = lx.Next();
    assert_eq!(t.type_, TokenType::Token_NONE);
    assert_eq!(lx.Next().type_, TokenType::Token_NONE);
}

#[test]
fn white_space_and_comments_are_skipped() {
    let mut lx = lexer("  \t/* x */ /**/ A");
    assert_eq!(lx.skipWhitespace(), 3);
    assert_eq!(lx.skipComment(), 8);
    assert_eq!(lx.skipComment(), 0);
    assert_eq!(lx.skipWhitespace(), 1);
    assert_eq!(lx.skipComment(), 5);
    let t = lx.Next();
    assert!(TokenFunc::isKeyword(&t));
    assert_eq!(t.startPos, 16);
}

#[test]
fn a_lone_slash_is_given_back() {
    let mut lx = lexer("/A");
    assert_eq!(lx.skipComment(), 0);
    assert_eq!(lx.stream.Tell(), 0);
}

#[test]
fn separators_inside_a_token_are_left_out() {
    let lx = lexer("1 2\n3");
    let mut out = String::new();
    RemoveTokenSeparators(&lx.stream, 0, 5, &mut out);
    assert_eq!(out, "123");
    let mut lx = lexer("12 34;");
    let t = lx.Next();
    assert_eq!(TokenFunc::asInt(&t), 1234);
    assert_eq!(t.endPos, 5);
}

#[test]
fn enumerations_and_binaries_lose_their_delimiters() {
    let mut lx = lexer(".WALL.,\"0F\"");
    let t = lx.Next();
    assert_eq!(t.type_, TokenType::Token_ENUMERATION);
    assert_eq!(TokenFunc::asString(&lx, &t), Some("WALL".to_string()));
    lx.Next();
    let t = lx.Next();
    assert!(TokenFunc::isBinary(&t));
    let inner = TokenFunc::asStringRef(&lx, &t).unwrap();
    assert_eq!(inner, "0F");
    assert_eq!(TokenFunc::asBinary(&inner), vec![true, true, true, true]);
}

#[test]
fn tokens_made_from_stream_positions() {
    let lx = lexer("#4 2=(.F.)");
    let t = GeneralTokenPtr(&lx, 0, 4);
    assert_eq!(TokenFunc::asIdentifier(&t), 42);
    let t = OperatorTokenPtr(&lx, 4, 5);
    assert!(TokenFunc::isOperator_ch(&t, '='));
    let t = GeneralTokenPtr(&lx, 6, 9);
    assert!(TokenFunc::isLogical(&t));
    assert!(!TokenFunc::asBool(&t));
}
