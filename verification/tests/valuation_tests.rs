use cad_core::entity_data::TriBool;
use cad_core::valuation::{dispatch_token, DispatchResult};
use cad_core::util::{ParameterType, SimpleTypeKind};
use cad_core::valuation::{
    construct_rec, empty_aggregate, AggOut, AggVariant, AttributeSlot, Dispatched, MutableAttributeValue,
    ParseContext, PcItem, Real, RefOrSimple, ValuationError,
};

fn ints(v: &[i32]) -> ParseContext {
    ParseContext { tokens: v.iter().map(|&x| PcItem::Tok(Dispatched::Int(x))).collect() }
}

fn nested(inner: Vec<ParseContext>) -> ParseContext {
    ParseContext { tokens: inner.into_iter().map(|c| PcItem::Ctx(Box::new(c))).collect() }
}

fn int_list_type() -> ParameterType {
    ParameterType::Aggregation(Box::new(ParameterType::Simple(SimpleTypeKind::Integer)))
}

#[test]
fn integers_gather_into_a_list_of_integers() {
    let mut a = AggVariant::Empty;
    assert!(a.push_scalar(Dispatched::Int(1)).is_none());
    assert!(a.push_scalar(Dispatched::Int(2)).is_none());
    assert!(matches!(&a, AggVariant::VecI(v) if v == &vec![1, 2]));
}

#[test]
fn a_real_turns_integers_into_reals() {
    let mut a = AggVariant::Empty;
    a.push_scalar(Dispatched::Int(1));
    assert!(a.push_scalar(Dispatched::Float(40)).is_none());
    assert!(a.push_scalar(Dispatched::Int(3)).is_none());
    assert!(matches!(&a, AggVariant::VecD(v) if v == &vec![Real::Integer(1), Real::Literal(40), Real::Integer(3)]));
}

#[test]
fn values_of_another_kind_are_refused() {
    let mut a = AggVariant::Empty;
    a.push_scalar(Dispatched::Int(1));
    assert_eq!(a.push_scalar(Dispatched::String("x".to_string())), Some(ValuationError::Inconsistent));
    assert_eq!(a.push_scalar(Dispatched::Bool(true)), Some(ValuationError::UnsupportedScalar));
    assert!(matches!(&a, AggVariant::VecI(v) if v == &vec![1]));
    let mut n = AggVariant::VecVecI(vec![vec![1]]);
    assert_eq!(n.push_scalar(Dispatched::Int(2)), Some(ValuationError::ScalarIntoNested));
    assert_eq!(n.push_scalar(Dispatched::Derived), Some(ValuationError::UnsupportedScalar));
}

#[test]
fn strings_bits_and_references() {
    let mut s = AggVariant::Empty;
    s.push_scalar(Dispatched::String("a".to_string()));
    s.push_scalar(Dispatched::String("b".to_string()));
    assert!(matches!(&s, AggVariant::VecS(v) if v == &vec!["a".to_string(), "b".to_string()]));
    let mut b = AggVariant::Empty;
    b.push_scalar(Dispatched::Binary(vec![true, false]));
    assert!(matches!(&b, AggVariant::VecB(v) if v == &vec![vec![true, false]]));
    let mut r = AggVariant::Empty;
    r.push_scalar(Dispatched::RefOrSimple(RefOrSimple::Identifier { id: 5, offset: 10 }));
    r.push_scalar(Dispatched::RefOrSimple(RefOrSimple::Instance(6)));
    assert!(matches!(&r, AggVariant::VecRef(v) if v == &vec![RefOrSimple::Identifier { id: 5, offset: 10 }, RefOrSimple::Instance(6)]));
    assert_eq!(r.push_scalar(Dispatched::Float(1)), Some(ValuationError::Inconsistent));
}

#[test]
fn inner_lists() {
    let mut a = AggVariant::Empty;
    assert!(a.push_inner_vec_i(vec![1, 2]).is_none());
    assert!(a.push_inner_vec_d(vec![Real::Literal(9)]).is_none());
    assert!(matches!(&a, AggVariant::VecVecD(v)
        if v == &vec![vec![Real::Integer(1), Real::Integer(2)], vec![Real::Literal(9)]]));
    assert!(a.push_inner_vec_i(vec![3]).is_none());
    assert!(matches!(&a, AggVariant::VecVecD(v) if v.len() == 3 && v[2] == vec![Real::Integer(3)]));
    assert_eq!(a.push_inner_vec_ref(vec![RefOrSimple::Instance(1)]), Some(ValuationError::RefsIntoOther));
    let mut f = AggVariant::VecI(vec![1]);
    assert_eq!(f.push_inner_vec_i(vec![2]), Some(ValuationError::IntsIntoOther));
    assert_eq!(f.push_inner_vec_d(vec![]), Some(ValuationError::DoublesIntoOther));
    let mut r = AggVariant::Empty;
    assert!(r.push_inner_vec_ref(vec![RefOrSimple::Instance(1)]).is_none());
    assert!(matches!(&r, AggVariant::VecVecRef(v) if v == &vec![vec![RefOrSimple::Instance(1)]]));
}

#[test]
fn a_flat_list_of_numbers() {
    let mut errors = Vec::new();
    let mut p = ints(&[1, 2]);
    p.tokens.push(PcItem::Tok(Dispatched::Float(12)));
    match construct_rec(0, &p, None, &mut errors) {
        Some(AggOut::VecD(v)) => assert_eq!(v, vec![Real::Integer(1), Real::Integer(2), Real::Literal(12)]),
        _ => panic!("a list of reals was expected"),
    }
    assert!(errors.is_empty());
}

#[test]
fn an_empty_list_takes_its_declared_type() {
    let mut errors = Vec::new();
    let empty = ParseContext { tokens: vec![] };
    let elem = ParameterType::Simple(SimpleTypeKind::Integer);
    assert!(matches!(construct_rec(0, &empty, Some(&elem), &mut errors), Some(AggOut::VecI(v)) if v.is_empty()));
    assert!(construct_rec(0, &empty, None, &mut errors).is_none());
    let entity = ParameterType::Named { is_entity: true, is_enum_name: false };
    assert!(matches!(construct_rec(0, &empty, Some(&entity), &mut errors), Some(AggOut::AggInst(a)) if a.size() == 0));
    assert!(matches!(empty_aggregate(&ParameterType::Other), AggOut::Blank));
    assert!(errors.is_empty());
}

#[test]
fn nested_lists_leave_the_outer_list_blank() {
    let mut errors = Vec::new();
    let p = nested(vec![ints(&[1, 2]), ints(&[3, 4])]);
    assert!(matches!(construct_rec(0, &p, None, &mut errors), Some(AggOut::Blank)));
    assert!(errors.is_empty());
}

#[test]
fn a_nested_list_of_strings_is_refused() {
    let mut errors = Vec::new();
    let strings = ParseContext { tokens: vec![PcItem::Tok(Dispatched::String("s".to_string()))] };
    let p = nested(vec![strings]);
    assert!(matches!(construct_rec(0, &p, None, &mut errors), Some(AggOut::Blank)));
    assert_eq!(errors, vec![ValuationError::UnsupportedNested]);
    assert_eq!(errors[0].message(), "Unsupported nested aggregate kind");
}

#[test]
fn errors_of_a_list_are_collected_in_order() {
    let mut errors = Vec::new();
    let p = ParseContext {
        tokens: vec![
            PcItem::Tok(Dispatched::Int(1)),
            PcItem::Tok(Dispatched::Bool(true)),
            PcItem::Tok(Dispatched::String("x".to_string())),
            PcItem::Inst(3),
        ],
    };
    assert!(matches!(construct_rec(0, &p, None, &mut errors), Some(AggOut::VecI(v)) if v == vec![1]));
    assert_eq!(errors, vec![ValuationError::UnsupportedScalar, ValuationError::Inconsistent, ValuationError::Inconsistent]);
    assert_eq!(errors[0].message(), "Aggregates of this scalar type not supported in parser");
    assert_eq!(errors[1].message(), "Inconsistent aggregate valuation");
}

#[test]
fn lists_deeper_than_three_levels_are_passed_over() {
    let mut errors = Vec::new();
    let deep = nested(vec![nested(vec![nested(vec![ints(&[1])])])]);
    let p = nested(vec![deep]);
    assert!(matches!(construct_rec(0, &p, None, &mut errors), Some(AggOut::Blank)));
    // the innermost list is passed over; each level above gets a blank,
    // which is no list it can take
    assert_eq!(errors, vec![ValuationError::UnsupportedNested; 3]);
    assert!(construct_rec(3, &nested(vec![ints(&[1])]), None, &mut errors).is_some());
}

#[test]
fn an_instance_is_read() {
    let p = ParseContext {
        tokens: vec![
            PcItem::Tok(Dispatched::Int(5)),
            PcItem::Tok(Dispatched::RefOrSimple(RefOrSimple::Identifier { id: 12, offset: 30 })),
            PcItem::Ctx(Box::new(ints(&[1, 2]))),
            PcItem::Inst(8),
        ],
    };
    let types = vec![ParameterType::Simple(SimpleTypeKind::Integer), ParameterType::Other, int_list_type(), ParameterType::Other];
    let mut refs = Vec::new();
    let c = p.construct(7, &mut refs, Some(&types), None, -1, false);
    assert!(c.warning.is_none());
    assert!(c.errors.is_empty());
    let v = &c.storage.values;
    assert_eq!(v.len(), 4);
    assert!(matches!(&v[0], Some(AttributeSlot::Scalar(Dispatched::Int(5)))));
    assert!(v[1].is_none());
    assert!(matches!(&v[2], Some(AttributeSlot::List(AggOut::VecI(x))) if x == &vec![1, 2]));
    assert!(v[3].is_none());
    assert_eq!(refs.len(), 2);
    assert_eq!(refs[0].0, MutableAttributeValue { instance_name: 7, index: 1 });
    assert_eq!(refs[0].1, vec![RefOrSimple::Identifier { id: 12, offset: 30 }]);
    assert_eq!(refs[1].0, MutableAttributeValue { instance_name: 7, index: 3 });
    assert_eq!(refs[1].1, vec![RefOrSimple::Instance(8)]);
}

#[test]
fn a_count_that_differs_is_warned() {
    let p = ints(&[1, 2, 3]);
    let types = (0..4).map(|_| ParameterType::Other).collect::<Vec<_>>();
    let mut refs = Vec::new();
    let c = p.construct(7, &mut refs, Some(&types), None, -1, false);
    assert_eq!(c.warning.as_deref(), Some("Expected 4 attribute values, found 3 for instance #7"));
    let c = p.construct(-2, &mut refs, None, Some(2), -1, false);
    assert_eq!(c.warning.as_deref(), Some("Expected 2 attribute values, found 3 for instance #0"));
    let c = p.construct(1, &mut refs, None, Some(3), -1, false);
    assert!(c.warning.is_none());
}

#[test]
fn a_coerced_count_drops_extra_values() {
    let p = ints(&[1, 2, 3]);
    let types = (0..2).map(|_| ParameterType::Other).collect::<Vec<_>>();
    let mut refs = Vec::new();
    let c = p.construct(7, &mut refs, Some(&types), None, -1, true);
    assert_eq!(c.storage.values.len(), 2);
    assert!(matches!(&c.storage.values[1], Some(AttributeSlot::Scalar(Dispatched::Int(2)))));
    assert_eq!(c.warning.as_deref(), Some("Expected 2 attribute values, found 3 for instance #7"));
}

#[test]
fn references_of_unnamed_instances_are_not_kept() {
    let p = ParseContext { tokens: vec![PcItem::Inst(4)] };
    let mut refs = Vec::new();
    let c = p.construct(0, &mut refs, None, None, -1, false);
    assert!(refs.is_empty());
    assert_eq!(c.storage.values.len(), 1);
    assert!(c.storage.values[0].is_none());
}

#[test]
fn references_of_nested_lists_are_flattened_under_the_given_index() {
    let refs_of = |ids: &[usize]| ParseContext { tokens: ids.iter().map(|&i| PcItem::Inst(i)).collect() };
    let p = ParseContext { tokens: vec![PcItem::Ctx(Box::new(refs_of(&[1, 2])))] };
    let mut refs = Vec::new();
    p.construct(9, &mut refs, None, None, 5, false);
    assert_eq!(refs.len(), 1);
    assert_eq!(refs[0].0, MutableAttributeValue { instance_name: 9, index: 5 });
    assert_eq!(refs[0].1, vec![RefOrSimple::Instance(1), RefOrSimple::Instance(2)]);
    let empty = ParseContext { tokens: vec![] };
    let c = empty.construct(9, &mut refs, None, None, -1, false);
    assert!(c.storage.values.is_empty());
    assert_eq!(refs.len(), 1);
}

fn lexer_of(text: &str) -> cad_core::lexer::IfcSpfLexer {
    cad_core::lexer::IfcSpfLexer::new(cad_core::lexer::IfcSpfStream::new_from_bytes(text.as_bytes().to_vec()))
}

#[test]
fn tokens_give_attribute_values() {
    let mut lx = lexer_of("\"2C\",.T.,.U.,.AREA.,.VOLUME.,1.5,#12,42,'x',*,$,.BAD.,\"9\"");
    let items = vec!["AREA".to_string(), "VOLUME".to_string()];
    let en = Some(("IfcUnitEnum", &items));
    let mut next = || lx.Next();
    let toks: Vec<_> = (0..25).map(|_| next()).step_by(2).collect();
    let lx = lexer_of("\"2C\",.T.,.U.,.AREA.,.VOLUME.,1.5,#12,42,'x',*,$,.BAD.,\"9\"");
    let d = |i: usize| dispatch_token(&lx, &toks[i], en.map(|(n, v)| (n, v)));
    match d(0) {
        DispatchResult::Value(Dispatched::Binary(b)) => assert_eq!(b, vec![true, true]),
        _ => panic!("bits expected"),
    }
    assert!(matches!(d(1), DispatchResult::Value(Dispatched::Bool(true))));
    assert!(matches!(d(2), DispatchResult::Value(Dispatched::Logical(TriBool::Indeterminate))));
    assert!(matches!(d(3), DispatchResult::Value(Dispatched::Enum(e)) if e.value() == "IfcUnitEnum" && e.index() == 0));
    assert!(matches!(d(4), DispatchResult::Value(Dispatched::Enum(e)) if e.index() == 1));
    assert!(matches!(d(5), DispatchResult::Value(Dispatched::Float(o)) if o == toks[5].startPos));
    assert!(matches!(d(6), DispatchResult::Value(Dispatched::RefOrSimple(RefOrSimple::Identifier { id: 12, .. }))));
    assert!(matches!(d(7), DispatchResult::Value(Dispatched::Int(42))));
    assert!(matches!(d(8), DispatchResult::StringLiteral { .. }));
    assert!(matches!(d(9), DispatchResult::Value(Dispatched::Derived)));
    assert!(matches!(d(10), DispatchResult::NoValue));
    assert!(matches!(d(11), DispatchResult::InvalidEnumeration { literal, .. } if literal == "BAD"));
    assert!(matches!(d(12), DispatchResult::InvalidBinary { .. }));
    assert!(matches!(dispatch_token(&lx, &toks[3], None), DispatchResult::UnexpectedEnumeration { literal, .. } if literal == "AREA"));
}
