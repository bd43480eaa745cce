//! How the values read for an aggregate attribute settle on one element
//! type as they come in, nested lists included.
use std::sync::Arc;
use vstd::prelude::*;
use crate::entity_data::{AggregateOfAggregateOfInstance, AggregateOfInstance, EnumerationReference, IfcBaseClass, TriBool};
use crate::text::{chars_of, decimal, push_decimal, push_str, string_from_chars};
use crate::lexer::{token_text, unquoted, IfcSpfLexer};
use crate::spf::{binary_bits, binary_text_ok, Token, TokenFunc, TokenType};
use crate::p21::same_text;
use vstd::utf8::encode_utf8;
use crate::util::{aggregate_of, argument_type_of, from_parameter_type, make_aggregate, ArgumentType, ParameterType};

verus! {

/// A reference to an instance: one named in the file, or one given
/// directly.
#[derive(Debug, Clone, Copy, PartialEq, Eq, Structural)]
pub enum RefOrSimple {
    /// `#id`, read at `offset` in the file.
    Identifier { id: usize, offset: u32 },
    /// An instance given directly, by its id.
    Instance(usize),
}

impl DeepView for RefOrSimple {
    type V = RefOrSimple;

    open spec fn deep_view(&self) -> RefOrSimple {
        *self
    }
}

/// A real number of an aggregate: the literal at an offset in the file
/// (whose digits are read there), or an integer taken as a real.
#[derive(Debug, Clone, Copy, PartialEq, Eq, Structural)]
pub enum Real {
    Literal(u32),
    Integer(i32),
}

impl DeepView for Real {
    type V = Real;

    open spec fn deep_view(&self) -> Real {
        *self
    }
}

/// The value read from one token.
pub enum Dispatched {
    Binary(Vec<bool>),
    Bool(bool),
    Logical(TriBool),
    Enum(EnumerationReference),
    /// A real number, by the offset of its literal in the file.
    Float(u32),
    Int(i32),
    String(String),
    RefOrSimple(RefOrSimple),
    Derived,
}

/// A value read from one token, as contracts see it.
pub enum DispatchedView {
    Binary(Seq<bool>),
    Bool(bool),
    Logical(TriBool),
    Enum((Seq<char>, usize)),
    Float(u32),
    Int(i32),
    String(Seq<char>),
    RefOrSimple(RefOrSimple),
    Derived,
}

impl View for Dispatched {
    type V = DispatchedView;

    open spec fn view(&self) -> DispatchedView {
        match self {
            Dispatched::Binary(b) => DispatchedView::Binary(b@),
            Dispatched::Bool(b) => DispatchedView::Bool(*b),
            Dispatched::Logical(t) => DispatchedView::Logical(*t),
            Dispatched::Enum(e) => DispatchedView::Enum(e@),
            Dispatched::Float(o) => DispatchedView::Float(*o),
            Dispatched::Int(i) => DispatchedView::Int(*i),
            Dispatched::String(s) => DispatchedView::String(s@),
            Dispatched::RefOrSimple(r) => DispatchedView::RefOrSimple(*r),
            Dispatched::Derived => DispatchedView::Derived,
        }
    }
}

/// Why a value was not taken into an aggregate.
#[derive(Debug, Clone, Copy, PartialEq, Eq, Structural)]
pub enum ValuationError {
    ScalarIntoNested,
    Inconsistent,
    UnsupportedScalar,
    IntsIntoOther,
    DoublesIntoOther,
    RefsIntoOther,
    UnsupportedNested,
    NestedIntsIntoFlat,
    NestedDoublesIntoFlat,
    NestedRefsIntoFlat,
}

/// The message logged for an error.
pub open spec fn error_message(e: ValuationError) -> Seq<char> {
    match e {
        ValuationError::ScalarIntoNested => "Inconsistent aggregate valuation (scalar into nested)"@,
        ValuationError::Inconsistent => "Inconsistent aggregate valuation"@,
        ValuationError::UnsupportedScalar => "Aggregates of this scalar type not supported in parser"@,
        ValuationError::IntsIntoOther => "Inconsistent aggregate valuation (int[] into other)"@,
        ValuationError::DoublesIntoOther => "Inconsistent aggregate valuation (double[] into other)"@,
        ValuationError::RefsIntoOther => "Inconsistent aggregate valuation (ref[] into other)"@,
        ValuationError::UnsupportedNested => "Unsupported nested aggregate kind"@,
        ValuationError::NestedIntsIntoFlat => "Nested int[] into non-nested aggregate"@,
        ValuationError::NestedDoublesIntoFlat => "Nested double[] into non-nested aggregate"@,
        ValuationError::NestedRefsIntoFlat => "Nested ref[] into non-nested aggregate"@,
    }
}

impl ValuationError {
    pub fn message(&self) -> (r: &'static str)
        ensures
            r@ == error_message(*self),
    {
        match self {
            ValuationError::ScalarIntoNested => "Inconsistent aggregate valuation (scalar into nested)",
            ValuationError::Inconsistent => "Inconsistent aggregate valuation",
            ValuationError::UnsupportedScalar => "Aggregates of this scalar type not supported in parser",
            ValuationError::IntsIntoOther => "Inconsistent aggregate valuation (int[] into other)",
            ValuationError::DoublesIntoOther => "Inconsistent aggregate valuation (double[] into other)",
            ValuationError::RefsIntoOther => "Inconsistent aggregate valuation (ref[] into other)",
            ValuationError::UnsupportedNested => "Unsupported nested aggregate kind",
            ValuationError::NestedIntsIntoFlat => "Nested int[] into non-nested aggregate",
            ValuationError::NestedDoublesIntoFlat => "Nested double[] into non-nested aggregate",
            ValuationError::NestedRefsIntoFlat => "Nested ref[] into non-nested aggregate",
        }
    }
}

/// The values gathered so far for an aggregate: nothing yet, a list of one
/// element type, or a list of lists.
pub enum AggVariant {
    Empty,
    VecI(Vec<i32>),
    VecD(Vec<Real>),
    VecS(Vec<String>),
    VecB(Vec<Vec<bool>>),
    VecRef(Vec<RefOrSimple>),
    VecVecI(Vec<Vec<i32>>),
    VecVecD(Vec<Vec<Real>>),
    VecVecRef(Vec<Vec<RefOrSimple>>),
}

/// The values gathered for an aggregate, as contracts see them.
pub enum AggView {
    Empty,
    VecI(Seq<i32>),
    VecD(Seq<Real>),
    VecS(Seq<Seq<char>>),
    VecB(Seq<Seq<bool>>),
    VecRef(Seq<RefOrSimple>),
    VecVecI(Seq<Seq<i32>>),
    VecVecD(Seq<Seq<Real>>),
    VecVecRef(Seq<Seq<RefOrSimple>>),
}

impl View for AggVariant {
    type V = AggView;

    open spec fn view(&self) -> AggView {
        match self {
            AggVariant::Empty => AggView::Empty,
            AggVariant::VecI(v) => AggView::VecI(v@),
            AggVariant::VecD(v) => AggView::VecD(v@),
            AggVariant::VecS(v) => AggView::VecS(v.deep_view()),
            AggVariant::VecB(v) => AggView::VecB(v.deep_view()),
            AggVariant::VecRef(v) => AggView::VecRef(v@),
            AggVariant::VecVecI(v) => AggView::VecVecI(v.deep_view()),
            AggVariant::VecVecD(v) => AggView::VecVecD(v.deep_view()),
            AggVariant::VecVecRef(v) => AggView::VecVecRef(v.deep_view()),
        }
    }
}

/// Integers taken as reals.
pub open spec fn as_reals(v: Seq<i32>) -> Seq<Real> {
    v.map_values(|i: i32| Real::Integer(i))
}

/// Lists of integers taken as lists of reals.
pub open spec fn as_real_lists(v: Seq<Seq<i32>>) -> Seq<Seq<Real>> {
    v.map_values(|l: Seq<i32>| as_reals(l))
}

/// The gathered values after one more scalar `v`, and the error when `v`
/// does not fit them (the values then stay as they were). An integer joins
/// reals as a real; a real turns integers gathered so far into reals.
pub open spec fn scalar_pushed(s: AggView, v: DispatchedView) -> (AggView, Option<ValuationError>) {
    match v {
        DispatchedView::Int(x) => match s {
            AggView::Empty => (AggView::VecI(seq![x]), None),
            AggView::VecI(vv) => (AggView::VecI(vv.push(x)), None),
            AggView::VecD(vv) => (AggView::VecD(vv.push(Real::Integer(x))), None),
            AggView::VecVecD(_) => (s, Some(ValuationError::ScalarIntoNested)),
            AggView::VecVecI(_) => (s, Some(ValuationError::ScalarIntoNested)),
            _ => (s, Some(ValuationError::Inconsistent)),
        },
        DispatchedView::Float(x) => match s {
            AggView::Empty => (AggView::VecD(seq![Real::Literal(x)]), None),
            AggView::VecD(vv) => (AggView::VecD(vv.push(Real::Literal(x))), None),
            AggView::VecI(vv) => (AggView::VecD(as_reals(vv).push(Real::Literal(x))), None),
            AggView::VecVecI(_) => (s, Some(ValuationError::ScalarIntoNested)),
            AggView::VecVecD(_) => (s, Some(ValuationError::ScalarIntoNested)),
            _ => (s, Some(ValuationError::Inconsistent)),
        },
        DispatchedView::String(x) => match s {
            AggView::Empty => (AggView::VecS(seq![x]), None),
            AggView::VecS(vv) => (AggView::VecS(vv.push(x)), None),
            _ => (s, Some(ValuationError::Inconsistent)),
        },
        DispatchedView::Binary(x) => match s {
            AggView::Empty => (AggView::VecB(seq![x]), None),
            AggView::VecB(vv) => (AggView::VecB(vv.push(x)), None),
            _ => (s, Some(ValuationError::Inconsistent)),
        },
        DispatchedView::RefOrSimple(x) => match s {
            AggView::Empty => (AggView::VecRef(seq![x]), None),
            AggView::VecRef(vv) => (AggView::VecRef(vv.push(x)), None),
            _ => (s, Some(ValuationError::Inconsistent)),
        },
        _ => (s, Some(ValuationError::UnsupportedScalar)),
    }
}

/// Pushing onto a list leaves its deep view pushed by the new element's.
proof fn lemma_deep_push<T: DeepView>(before: Seq<T>, after: Seq<T>, x: T)
    requires
        after == before.push(x),
    ensures
        Seq::new(after.len(), |i: int| after[i].deep_view()) == Seq::new(
            before.len(),
            |i: int| before[i].deep_view(),
        ).push(x.deep_view()),
{
    assert(Seq::new(after.len(), |i: int| after[i].deep_view()) =~= Seq::new(
        before.len(),
        |i: int| before[i].deep_view(),
    ).push(x.deep_view()));
}

/// A one-element list's deep view is that of its element.
proof fn lemma_deep_one<T: DeepView>(v: Vec<T>, x: T)
    requires
        v@ == seq![x],
    ensures
        v.deep_view() == seq![x.deep_view()],
{
    assert(v.deep_view() =~= seq![x.deep_view()]);
}

/// The deep view of a list of bits is its view.
proof fn lemma_bits_deep(b: Vec<bool>)
    ensures
        b.deep_view() == b@,
{
    assert(b.deep_view() =~= b@);
}

/// Integers as reals, in order.
fn reals_of(v: &Vec<i32>) -> (r: Vec<Real>)
    ensures
        r@ == as_reals(v@),
{
    let mut r: Vec<Real> = Vec::new();
    let mut i: usize = 0;
    while i < v.len()
        invariant
            i <= v@.len(),
            r@ == as_reals(v@.subrange(0, i as int)),
        decreases v@.len() - i,
    {
        r.push(Real::Integer(v[i]));
        i = i + 1;
        assert(as_reals(v@.subrange(0, i as int)) =~= as_reals(v@.subrange(0, i - 1 as int)).push(
            Real::Integer(v@[i - 1]),
        ));
    }
    assert(v@.subrange(0, i as int) =~= v@);
    r
}


/// The gathered values after one more inner list of integers `v`, and the
/// error when a list does not fit them.
pub open spec fn inner_ints_pushed(s: AggView, v: Seq<i32>) -> (AggView, Option<ValuationError>) {
    match s {
        AggView::Empty => (AggView::VecVecI(seq![v]), None),
        AggView::VecVecI(vv) => (AggView::VecVecI(vv.push(v)), None),
        AggView::VecVecD(vv) => (AggView::VecVecD(vv.push(as_reals(v))), None),
        _ => (s, Some(ValuationError::IntsIntoOther)),
    }
}

/// The gathered values after one more inner list of reals `v`: lists of
/// integers gathered so far turn into lists of reals.
pub open spec fn inner_reals_pushed(s: AggView, v: Seq<Real>) -> (AggView, Option<ValuationError>) {
    match s {
        AggView::Empty => (AggView::VecVecD(seq![v]), None),
        AggView::VecVecD(vv) => (AggView::VecVecD(vv.push(v)), None),
        AggView::VecVecI(vv) => (AggView::VecVecD(as_real_lists(vv).push(v)), None),
        _ => (s, Some(ValuationError::DoublesIntoOther)),
    }
}

/// The gathered values after one more inner list of references `v`.
pub open spec fn inner_refs_pushed(s: AggView, v: Seq<RefOrSimple>) -> (AggView, Option<ValuationError>) {
    match s {
        AggView::Empty => (AggView::VecVecRef(seq![v]), None),
        AggView::VecVecRef(vv) => (AggView::VecVecRef(vv.push(v)), None),
        _ => (s, Some(ValuationError::RefsIntoOther)),
    }
}

/// The deep view of a list of integers is its view.
proof fn lemma_ints_deep(v: Vec<i32>)
    ensures
        v.deep_view() == v@,
{
    assert(v.deep_view() =~= v@);
}

/// The deep view of a list of reals is its view.
proof fn lemma_reals_deep(v: Vec<Real>)
    ensures
        v.deep_view() == v@,
{
    assert(v.deep_view() =~= v@);
}

/// The deep view of a list of references is its view.
proof fn lemma_refs_deep(v: Vec<RefOrSimple>)
    ensures
        v.deep_view() == v@,
{
    assert(v.deep_view() =~= v@);
}

/// Lists of integers as lists of reals, in order.
fn real_lists_of(vv: &Vec<Vec<i32>>) -> (r: Vec<Vec<Real>>)
    ensures
        r.deep_view() == as_real_lists(vv.deep_view()),
{
    let mut r: Vec<Vec<Real>> = Vec::new();
    let mut i: usize = 0;
    while i < vv.len()
        invariant
            i <= vv@.len(),
            r.deep_view() == as_real_lists(vv.deep_view().subrange(0, i as int)),
        decreases vv@.len() - i,
    {
        let rv = reals_of(&vv[i]);
        let ghost before = r@;
        proof {
            lemma_reals_deep(rv);
            lemma_ints_deep(vv@[i as int]);
        }
        r.push(rv);
        proof {
            lemma_deep_push(before, r@, rv);
        }
        i = i + 1;
        assert(as_real_lists(vv.deep_view().subrange(0, i as int)) =~= as_real_lists(
            vv.deep_view().subrange(0, i - 1 as int),
        ).push(as_reals(vv.deep_view()[i - 1])));
    }
    assert(vv.deep_view().subrange(0, i as int) =~= vv.deep_view());
    r
}

/// The value made of the items of a list.
pub enum AggOut {
    Blank,
    VecI(Vec<i32>),
    VecD(Vec<Real>),
    VecS(Vec<String>),
    VecB(Vec<Vec<bool>>),
    VecRef(Vec<RefOrSimple>),
    VecVecI(Vec<Vec<i32>>),
    VecVecD(Vec<Vec<Real>>),
    VecVecRef(Vec<Vec<RefOrSimple>>),
    AggInst(AggregateOfInstance),
    AggAggInst(AggregateOfAggregateOfInstance),
}

/// The value made of the items of a list, as contracts see it.
pub enum AggOutView {
    Blank,
    VecI(Seq<i32>),
    VecD(Seq<Real>),
    VecS(Seq<Seq<char>>),
    VecB(Seq<Seq<bool>>),
    VecRef(Seq<RefOrSimple>),
    VecVecI(Seq<Seq<i32>>),
    VecVecD(Seq<Seq<Real>>),
    VecVecRef(Seq<Seq<RefOrSimple>>),
    AggInst(Seq<Arc<IfcBaseClass>>),
    AggAggInst(Seq<Seq<Arc<IfcBaseClass>>>),
}

impl View for AggOut {
    type V = AggOutView;

    open spec fn view(&self) -> AggOutView {
        match self {
            AggOut::Blank => AggOutView::Blank,
            AggOut::VecI(v) => AggOutView::VecI(v@),
            AggOut::VecD(v) => AggOutView::VecD(v@),
            AggOut::VecS(v) => AggOutView::VecS(v.deep_view()),
            AggOut::VecB(v) => AggOutView::VecB(v.deep_view()),
            AggOut::VecRef(v) => AggOutView::VecRef(v@),
            AggOut::VecVecI(v) => AggOutView::VecVecI(v.deep_view()),
            AggOut::VecVecD(v) => AggOutView::VecVecD(v.deep_view()),
            AggOut::VecVecRef(v) => AggOutView::VecVecRef(v.deep_view()),
            AggOut::AggInst(a) => AggOutView::AggInst(a@),
            AggOut::AggAggInst(a) => AggOutView::AggAggInst(a@),
        }
    }
}

/// The value made of gathered values: a blank when nothing was gathered.
pub open spec fn out_of(s: AggView) -> AggOutView {
    match s {
        AggView::Empty => AggOutView::Blank,
        AggView::VecI(v) => AggOutView::VecI(v),
        AggView::VecD(v) => AggOutView::VecD(v),
        AggView::VecS(v) => AggOutView::VecS(v),
        AggView::VecB(v) => AggOutView::VecB(v),
        AggView::VecRef(v) => AggOutView::VecRef(v),
        AggView::VecVecI(v) => AggOutView::VecVecI(v),
        AggView::VecVecD(v) => AggOutView::VecVecD(v),
        AggView::VecVecRef(v) => AggOutView::VecVecRef(v),
    }
}

/// The empty value of an aggregate of argument type `a`: an empty list of
/// its elements, or a blank for a type with no such list.
pub open spec fn empty_out(a: ArgumentType) -> AggOutView {
    match a {
        ArgumentType::AggregateOfInt => AggOutView::VecI(Seq::empty()),
        ArgumentType::AggregateOfDouble => AggOutView::VecD(Seq::empty()),
        ArgumentType::AggregateOfString => AggOutView::VecS(Seq::empty()),
        ArgumentType::AggregateOfBinary => AggOutView::VecB(Seq::empty()),
        ArgumentType::AggregateOfEntityInstance => AggOutView::AggInst(Seq::empty()),
        ArgumentType::AggregateOfAggregateOfInt => AggOutView::VecVecI(Seq::empty()),
        ArgumentType::AggregateOfAggregateOfDouble => AggOutView::VecVecD(Seq::empty()),
        ArgumentType::AggregateOfAggregateOfEntityInstance => AggOutView::AggAggInst(Seq::empty()),
        _ => AggOutView::Blank,
    }
}

/// The values of one attribute as they were read: tokens, nested lists and
/// instances given inline.
pub struct ParseContext {
    pub tokens: Vec<PcItem>,
}

/// An item of a list as it was read.
pub enum PcItem {
    /// A token, by the value read from it.
    Tok(Dispatched),
    /// A nested list.
    Ctx(Box<ParseContext>),
    /// An instance given inline, by its id.
    Inst(usize),
}

/// The errors that an optional error stands for.
pub open spec fn opt_seq(e: Option<ValuationError>) -> Seq<ValuationError> {
    match e {
        Some(x) => seq![x],
        None => Seq::empty(),
    }
}

/// A nested list's gathered values go into the outer ones as one element.
/// Only a plain list of integers, reals or references is taken (the outer
/// values, when empty, becoming a list of such lists); anything else leaves
/// the outer values as they are.
pub open spec fn merged(s: AggView, inner: AggView) -> (AggView, Option<ValuationError>) {
    match inner {
        AggView::VecI(v) => {
            let s1 = if s is Empty {
                AggView::VecVecI(Seq::empty())
            } else {
                s
            };
            if s1 is VecVecI || s1 is VecVecD {
                inner_ints_pushed(s1, v)
            } else {
                (s1, Some(ValuationError::NestedIntsIntoFlat))
            }
        },
        AggView::VecD(v) => {
            let s1 = if s is Empty {
                AggView::VecVecD(Seq::empty())
            } else {
                s
            };
            if s1 is VecVecI || s1 is VecVecD {
                inner_reals_pushed(s1, v)
            } else {
                (s1, Some(ValuationError::NestedDoublesIntoFlat))
            }
        },
        AggView::VecRef(v) => {
            let s1 = if s is Empty {
                AggView::VecVecRef(Seq::empty())
            } else {
                s
            };
            if s1 is VecVecRef {
                inner_refs_pushed(s1, v)
            } else {
                (s1, Some(ValuationError::NestedRefsIntoFlat))
            }
        },
        _ => (s, None),
    }
}

/// What a nested list read at depth `depth` gathers by itself: its value
/// taken as the one inner list of otherwise empty values.
pub open spec fn inner_gathered(out: Option<AggOutView>) -> (AggView, Option<ValuationError>) {
    match out {
        None => (AggView::Empty, None),
        Some(AggOutView::VecI(v)) => inner_ints_pushed(AggView::Empty, v),
        Some(AggOutView::VecD(v)) => inner_reals_pushed(AggView::Empty, v),
        Some(AggOutView::VecRef(v)) => inner_refs_pushed(AggView::Empty, v),
        Some(_) => (AggView::Empty, Some(ValuationError::UnsupportedNested)),
    }
}

/// The value of a list read at nesting depth `depth` whose elements are of
/// type `element` when known, and the errors met, in order. An empty list
/// has the empty value of its aggregate type, or none without one; lists
/// nested deeper than three levels are passed over.
pub open spec fn rec_out(depth: int, p: ParseContext, element: Option<ParameterType>) -> (
    Option<AggOutView>,
    Seq<ValuationError>,
)
    decreases 3 - depth, p.tokens@.len() + 1,
{
    if p.tokens@.len() == 0 {
        match element {
            Some(e) => (Some(empty_out(aggregate_of(argument_type_of(e)))), Seq::empty()),
            None => (None, Seq::empty()),
        }
    } else {
        let r = items_out(depth, p.tokens@, 0, AggView::Empty, Seq::empty());
        (Some(out_of(r.0)), r.1)
    }
}

/// Takes the items of a list from the `i`-th on into gathered values `s`,
/// with errors `errs` met so far.
pub open spec fn items_out(depth: int, items: Seq<PcItem>, i: int, s: AggView, errs: Seq<ValuationError>) -> (
    AggView,
    Seq<ValuationError>,
)
    decreases 3 - depth, items.len() - i,
{
    if i < 0 || i >= items.len() {
        (s, errs)
    } else {
        let r = item_taken(depth, items[i], s);
        items_out(depth, items, i + 1, r.0, errs + r.1)
    }
}

/// Takes one item of a list read at depth `depth` into gathered values `s`.
pub open spec fn item_taken(depth: int, item: PcItem, s: AggView) -> (AggView, Seq<ValuationError>)
    decreases 3 - depth, 0int,
{
    match item {
        PcItem::Tok(v) => {
            let r = scalar_pushed(s, v@);
            (r.0, opt_seq(r.1))
        },
        PcItem::Inst(id) => {
            let r = scalar_pushed(s, DispatchedView::RefOrSimple(RefOrSimple::Instance(id)));
            (r.0, opt_seq(r.1))
        },
        PcItem::Ctx(ctx) => if depth < 3 {
            let inner = rec_out(depth + 1, *ctx, None);
            let g = inner_gathered(inner.0);
            let m = merged(s, g.0);
            (m.0, inner.1 + opt_seq(g.1) + opt_seq(m.1))
        } else {
            (s, Seq::empty())
        },
    }
}

/// A list of integers read inside a list joins the lists gathered so far as
/// their new last element, those before it kept as they were, and without
/// error: with no lists gathered yet it becomes the only one, after lists of
/// integers it comes as it is, after lists of reals it comes as the same
/// numbers taken as reals. Values of any other shape refuse it with the
/// error for integer lists and stay as they were.
pub proof fn law_inner_int_list_appended(s: AggView, v: Seq<i32>)
    ensures
        ({
            let t = inner_ints_pushed(s, v).0;
            let e = inner_ints_pushed(s, v).1;
            match s {
                AggView::Empty => e is None && (t matches AggView::VecVecI(w) && w.len() == 1 && w[0] == v),
                AggView::VecVecI(vv) => e is None && (t matches AggView::VecVecI(w) && w.len() == vv.len() + 1
                    && w.subrange(0, vv.len() as int) == vv && w[vv.len() as int] == v),
                AggView::VecVecD(dd) => e is None && (t matches AggView::VecVecD(w) && w.len() == dd.len() + 1
                    && w.subrange(0, dd.len() as int) == dd && w[dd.len() as int].len() == v.len() && forall|i: int|
                    0 <= i < v.len() ==> #[trigger] w[dd.len() as int][i] == Real::Integer(v[i])),
                _ => e == Some(ValuationError::IntsIntoOther) && t == s,
            }
        }),
{
    match s {
        AggView::VecVecI(vv) => {
            assert(vv.push(v).subrange(0, vv.len() as int) =~= vv);
        },
        AggView::VecVecD(dd) => {
            assert(dd.push(as_reals(v)).subrange(0, dd.len() as int) =~= dd);
        },
        _ => {},
    }
}

/// A list of reals read inside a list joins the lists gathered so far as
/// their new last element, without error: with no lists gathered yet it
/// becomes the only one, after lists of reals it comes as it is, and lists
/// of integers gathered before become the same numbers taken as reals.
/// Values of any other shape refuse it with the error for real lists and
/// stay as they were.
pub proof fn law_inner_real_list_appended(s: AggView, v: Seq<Real>)
    ensures
        ({
            let t = inner_reals_pushed(s, v).0;
            let e = inner_reals_pushed(s, v).1;
            match s {
                AggView::Empty => e is None && (t matches AggView::VecVecD(w) && w.len() == 1 && w[0] == v),
                AggView::VecVecD(dd) => e is None && (t matches AggView::VecVecD(w) && w.len() == dd.len() + 1
                    && w.subrange(0, dd.len() as int) == dd && w[dd.len() as int] == v),
                AggView::VecVecI(vv) => e is None && (t matches AggView::VecVecD(w) && w.len() == vv.len() + 1
                    && w[vv.len() as int] == v && forall|i: int, j: int|
                    0 <= i < vv.len() && 0 <= j < vv[i].len() ==> w[i].len() == vv[i].len() && #[trigger] w[i][j]
                        == Real::Integer(vv[i][j])),
                _ => e == Some(ValuationError::DoublesIntoOther) && t == s,
            }
        }),
{
    match s {
        AggView::VecVecD(dd) => {
            assert(dd.push(v).subrange(0, dd.len() as int) =~= dd);
        },
        _ => {},
    }
}

/// A list of references read inside a list joins the lists of references
/// gathered so far as their new last element, those before it kept, without
/// error; values of any other shape refuse it with the error for reference
/// lists and stay as they were.
pub proof fn law_inner_ref_list_appended(s: AggView, v: Seq<RefOrSimple>)
    ensures
        ({
            let t = inner_refs_pushed(s, v).0;
            let e = inner_refs_pushed(s, v).1;
            match s {
                AggView::Empty => e is None && (t matches AggView::VecVecRef(w) && w.len() == 1 && w[0] == v),
                AggView::VecVecRef(vv) => e is None && (t matches AggView::VecVecRef(w) && w.len() == vv.len() + 1
                    && w.subrange(0, vv.len() as int) == vv && w[vv.len() as int] == v),
                _ => e == Some(ValuationError::RefsIntoOther) && t == s,
            }
        }),
{
    match s {
        AggView::VecVecRef(vv) => {
            assert(vv.push(v).subrange(0, vv.len() as int) =~= vv);
        },
        _ => {},
    }
}

impl AggVariant {
    /// Takes one more scalar into the gathered values; the error when it
    /// does not fit them, which are then left as they were.
    pub fn push_scalar(&mut self, v: Dispatched) -> (r: Option<ValuationError>)
        ensures
            (final(self)@, r) == scalar_pushed(old(self)@, v@),
    {
        match v {
            Dispatched::Int(x) => match self {
                AggVariant::Empty => {
                    let mut nv: Vec<i32> = Vec::new();
                    nv.push(x);
                    assert(nv@ =~= seq![x]);
                    *self = AggVariant::VecI(nv);
                    None
                },
                AggVariant::VecI(vv) => {
                    vv.push(x);
                    None
                },
                AggVariant::VecD(vv) => {
                    vv.push(Real::Integer(x));
                    None
                },
                AggVariant::VecVecD(_) | AggVariant::VecVecI(_) => Some(ValuationError::ScalarIntoNested),
                _ => Some(ValuationError::Inconsistent),
            },
            Dispatched::Float(x) => match self {
                AggVariant::Empty => {
                    let mut nv: Vec<Real> = Vec::new();
                    nv.push(Real::Literal(x));
                    assert(nv@ =~= seq![Real::Literal(x)]);
                    *self = AggVariant::VecD(nv);
                    None
                },
                AggVariant::VecD(vv) => {
                    vv.push(Real::Literal(x));
                    None
                },
                AggVariant::VecI(vv) => {
                    let mut nd = reals_of(vv);
                    nd.push(Real::Literal(x));
                    *self = AggVariant::VecD(nd);
                    None
                },
                AggVariant::VecVecI(_) | AggVariant::VecVecD(_) => Some(ValuationError::ScalarIntoNested),
                _ => Some(ValuationError::Inconsistent),
            },
            Dispatched::String(s) => match self {
                AggVariant::Empty => {
                    let ghost gs = s;
                    let mut nv: Vec<String> = Vec::new();
                    nv.push(s);
                    assert(nv@ =~= seq![gs]);
                    proof {
                        lemma_deep_one(nv, gs);
                    }
                    *self = AggVariant::VecS(nv);
                    None
                },
                AggVariant::VecS(vv) => {
                    let ghost before = vv@;
                    let ghost sv = s@;
                    vv.push(s);
                    proof {
                        lemma_deep_push(before, vv@, vv@.last());
                    }
                    None
                },
                _ => Some(ValuationError::Inconsistent),
            },
            Dispatched::Binary(b) => match self {
                AggVariant::Empty => {
                    let ghost gb = b;
                    proof {
                        lemma_bits_deep(gb);
                    }
                    let mut nv: Vec<Vec<bool>> = Vec::new();
                    nv.push(b);
                    assert(nv@ =~= seq![gb]);
                    proof {
                        lemma_deep_one(nv, gb);
                    }
                    *self = AggVariant::VecB(nv);
                    None
                },
                AggVariant::VecB(vv) => {
                    let ghost before = vv@;
                    proof {
                        lemma_bits_deep(b);
                    }
                    vv.push(b);
                    proof {
                        lemma_deep_push(before, vv@, vv@.last());
                    }
                    None
                },
                _ => Some(ValuationError::Inconsistent),
            },
            Dispatched::RefOrSimple(x) => match self {
                AggVariant::Empty => {
                    let mut nv: Vec<RefOrSimple> = Vec::new();
                    nv.push(x);
                    assert(nv@ =~= seq![x]);
                    *self = AggVariant::VecRef(nv);
                    None
                },
                AggVariant::VecRef(vv) => {
                    vv.push(x);
                    None
                },
                _ => Some(ValuationError::Inconsistent),
            },
            _ => Some(ValuationError::UnsupportedScalar),
        }
    }

    /// Takes one more inner list of integers.
    pub fn push_inner_vec_i(&mut self, v: Vec<i32>) -> (r: Option<ValuationError>)
        ensures
            (final(self)@, r) == inner_ints_pushed(old(self)@, v@),
    {
        let ghost gv = v;
        proof {
            lemma_ints_deep(gv);
        }
        match self {
            AggVariant::Empty => {
                let mut nv: Vec<Vec<i32>> = Vec::new();
                nv.push(v);
                assert(nv@ =~= seq![gv]);
                proof {
                    lemma_deep_one(nv, gv);
                }
                *self = AggVariant::VecVecI(nv);
                None
            },
            AggVariant::VecVecI(vv) => {
                let ghost before = vv@;
                vv.push(v);
                proof {
                    lemma_deep_push(before, vv@, gv);
                }
                None
            },
            AggVariant::VecVecD(vv) => {
                let rv = reals_of(&v);
                let ghost before = vv@;
                proof {
                    lemma_reals_deep(rv);
                }
                vv.push(rv);
                proof {
                    lemma_deep_push(before, vv@, rv);
                }
                None
            },
            _ => Some(ValuationError::IntsIntoOther),
        }
    }

    /// Takes one more inner list of reals.
    pub fn push_inner_vec_d(&mut self, v: Vec<Real>) -> (r: Option<ValuationError>)
        ensures
            (final(self)@, r) == inner_reals_pushed(old(self)@, v@),
    {
        let ghost gv = v;
        proof {
            lemma_reals_deep(gv);
        }
        match self {
            AggVariant::Empty => {
                let mut nv: Vec<Vec<Real>> = Vec::new();
                nv.push(v);
                assert(nv@ =~= seq![gv]);
                proof {
                    lemma_deep_one(nv, gv);
                }
                *self = AggVariant::VecVecD(nv);
                None
            },
            AggVariant::VecVecD(vv) => {
                let ghost before = vv@;
                vv.push(v);
                proof {
                    lemma_deep_push(before, vv@, gv);
                }
                None
            },
            AggVariant::VecVecI(vv) => {
                let mut up = real_lists_of(vv);
                let ghost before = up@;
                up.push(v);
                proof {
                    lemma_deep_push(before, up@, gv);
                }
                *self = AggVariant::VecVecD(up);
                None
            },
            _ => Some(ValuationError::DoublesIntoOther),
        }
    }

    /// Takes one more inner list of references.
    pub fn push_inner_vec_ref(&mut self, v: Vec<RefOrSimple>) -> (r: Option<ValuationError>)
        ensures
            (final(self)@, r) == inner_refs_pushed(old(self)@, v@),
    {
        let ghost gv = v;
        proof {
            lemma_refs_deep(gv);
        }
        match self {
            AggVariant::Empty => {
                let mut nv: Vec<Vec<RefOrSimple>> = Vec::new();
                nv.push(v);
                assert(nv@ =~= seq![gv]);
                proof {
                    lemma_deep_one(nv, gv);
                }
                *self = AggVariant::VecVecRef(nv);
                None
            },
            AggVariant::VecVecRef(vv) => {
                let ghost before = vv@;
                vv.push(v);
                proof {
                    lemma_deep_push(before, vv@, gv);
                }
                None
            },
            _ => Some(ValuationError::RefsIntoOther),
        }
    }
}

/// A copy of a list of bits.
fn copy_bits(b: &Vec<bool>) -> (r: Vec<bool>)
    ensures
        r@ == b@,
{
    let mut r: Vec<bool> = Vec::new();
    let mut i: usize = 0;
    while i < b.len()
        invariant
            i <= b@.len(),
            r@ == b@.subrange(0, i as int),
        decreases b@.len() - i,
    {
        r.push(b[i]);
        i = i + 1;
        assert(r@ =~= b@.subrange(0, i as int));
    }
    assert(b@.subrange(0, i as int) =~= b@);
    r
}

/// A copy of a value read from a token.
fn clone_dispatched(v: &Dispatched) -> (r: Dispatched)
    ensures
        r@ == v@,
{
    match v {
        Dispatched::Binary(b) => Dispatched::Binary(copy_bits(b)),
        Dispatched::Bool(x) => Dispatched::Bool(*x),
        Dispatched::Logical(t) => Dispatched::Logical(*t),
        Dispatched::Enum(e) => Dispatched::Enum(EnumerationReference::new(e.value(), e.index())),
        Dispatched::Float(o) => Dispatched::Float(*o),
        Dispatched::Int(x) => Dispatched::Int(*x),
        Dispatched::String(x) => Dispatched::String(x.clone()),
        Dispatched::RefOrSimple(x) => Dispatched::RefOrSimple(*x),
        Dispatched::Derived => Dispatched::Derived,
    }
}

/// Records an error when there is one.
fn note(errors: &mut Vec<ValuationError>, e: Option<ValuationError>)
    ensures
        final(errors)@ == old(errors)@ + opt_seq(e),
{
    match e {
        Some(x) => {
            errors.push(x);
            assert(errors@ =~= old(errors)@ + opt_seq(e));
        },
        None => {
            assert(errors@ =~= old(errors)@ + opt_seq(e));
        },
    }
}

/// The empty value of an aggregate whose elements are of type `element`.
pub fn empty_aggregate(element: &ParameterType) -> (r: AggOut)
    ensures
        r@ == empty_out(aggregate_of(argument_type_of(*element))),
{
    let a = make_aggregate(from_parameter_type(element));
    match a {
        ArgumentType::AggregateOfInt => AggOut::VecI(Vec::new()),
        ArgumentType::AggregateOfDouble => AggOut::VecD(Vec::new()),
        ArgumentType::AggregateOfString => {
            let v: Vec<String> = Vec::new();
            assert(v.deep_view() =~= Seq::<Seq<char>>::empty());
            AggOut::VecS(v)
        },
        ArgumentType::AggregateOfBinary => {
            let v: Vec<Vec<bool>> = Vec::new();
            assert(v.deep_view() =~= Seq::<Seq<bool>>::empty());
            AggOut::VecB(v)
        },
        ArgumentType::AggregateOfEntityInstance => AggOut::AggInst(AggregateOfInstance::new()),
        ArgumentType::AggregateOfAggregateOfInt => {
            let v: Vec<Vec<i32>> = Vec::new();
            assert(v.deep_view() =~= Seq::<Seq<i32>>::empty());
            AggOut::VecVecI(v)
        },
        ArgumentType::AggregateOfAggregateOfDouble => {
            let v: Vec<Vec<Real>> = Vec::new();
            assert(v.deep_view() =~= Seq::<Seq<Real>>::empty());
            AggOut::VecVecD(v)
        },
        ArgumentType::AggregateOfAggregateOfEntityInstance => AggOut::AggAggInst(
            AggregateOfAggregateOfInstance::new(),
        ),
        _ => AggOut::Blank,
    }
}

/// The value made of gathered values.
fn out_from(store: AggVariant) -> (r: AggOut)
    ensures
        r@ == out_of(store@),
{
    match store {
        AggVariant::Empty => AggOut::Blank,
        AggVariant::VecI(v) => AggOut::VecI(v),
        AggVariant::VecD(v) => AggOut::VecD(v),
        AggVariant::VecS(v) => AggOut::VecS(v),
        AggVariant::VecB(v) => AggOut::VecB(v),
        AggVariant::VecRef(v) => AggOut::VecRef(v),
        AggVariant::VecVecI(v) => AggOut::VecVecI(v),
        AggVariant::VecVecD(v) => AggOut::VecVecD(v),
        AggVariant::VecVecRef(v) => AggOut::VecVecRef(v),
    }
}

/// Puts a nested list's gathered values into the outer ones (see `merged`).
fn merge_inner(store: &mut AggVariant, inner: AggVariant, errors: &mut Vec<ValuationError>)
    ensures
        final(store)@ == merged(old(store)@, inner@).0,
        final(errors)@ == old(errors)@ + opt_seq(merged(old(store)@, inner@).1),
{
    match inner {
        AggVariant::VecI(v) => {
            if let AggVariant::Empty = store {
                let nv: Vec<Vec<i32>> = Vec::new();
                assert(nv.deep_view() =~= Seq::<Seq<i32>>::empty());
                *store = AggVariant::VecVecI(nv);
            }
            if let AggVariant::VecVecI(_) | AggVariant::VecVecD(_) = store {
                let e = store.push_inner_vec_i(v);
                note(errors, e);
            } else {
                note(errors, Some(ValuationError::NestedIntsIntoFlat));
            }
        },
        AggVariant::VecD(v) => {
            if let AggVariant::Empty = store {
                let nv: Vec<Vec<Real>> = Vec::new();
                assert(nv.deep_view() =~= Seq::<Seq<Real>>::empty());
                *store = AggVariant::VecVecD(nv);
            }
            if let AggVariant::VecVecI(_) | AggVariant::VecVecD(_) = store {
                let e = store.push_inner_vec_d(v);
                note(errors, e);
            } else {
                note(errors, Some(ValuationError::NestedDoublesIntoFlat));
            }
        },
        AggVariant::VecRef(v) => {
            if let AggVariant::Empty = store {
                let nv: Vec<Vec<RefOrSimple>> = Vec::new();
                assert(nv.deep_view() =~= Seq::<Seq<RefOrSimple>>::empty());
                *store = AggVariant::VecVecRef(nv);
            }
            if let AggVariant::VecVecRef(_) = store {
                let e = store.push_inner_vec_ref(v);
                note(errors, e);
            } else {
                note(errors, Some(ValuationError::NestedRefsIntoFlat));
            }
        },
        _ => {
            note(errors, None);
        },
    }
}

/// Reads the value of a list at nesting depth `depth`, whose elements are of
/// type `element` when known; the errors met are added to `errors`, in
/// order. An empty list gives the empty value of its aggregate type, or
/// nothing without one; lists nested deeper than three levels are passed
/// over.
pub fn construct_rec(depth: usize, p: &ParseContext, element: Option<&ParameterType>, errors: &mut Vec<
    ValuationError,
>) -> (r: Option<AggOut>)
    ensures
        ({
            let expected = rec_out(
                depth as int,
                *p,
                match element {
                    Some(e) => Some(*e),
                    None => None,
                },
            );
            &&& match r {
                Some(o) => expected.0 == Some(o@),
                None => expected.0 is None,
            }
            &&& final(errors)@ == old(errors)@ + expected.1
        }),
    decreases 3 - depth,
{
    if p.tokens.len() == 0 {
        assert(old(errors)@ + Seq::<ValuationError>::empty() =~= old(errors)@);
        return match element {
            Some(e) => Some(empty_aggregate(e)),
            None => None,
        };
    }
    let ghost items = p.tokens@;
    let ghost d: int = depth as int;
    let ghost e0 = old(errors)@;
    let mut store = AggVariant::Empty;
    let ghost mut acc: Seq<ValuationError> = Seq::empty();
    let mut i: usize = 0;
    while i < p.tokens.len()
        invariant
            items == p.tokens@,
            d == depth as int,
            0 <= i <= items.len(),
            errors@ == e0 + acc,
            items_out(d, items, 0, AggView::Empty, Seq::empty()) == items_out(d, items, i as int, store@, acc),
        decreases items.len() - i,
    {
        let ghost before = store@;
        let ghost before_errs = errors@;
        let ghost taken = item_taken(d, items[i as int], before);
        match &p.tokens[i] {
            PcItem::Tok(v) => {
                let e = store.push_scalar(clone_dispatched(v));
                note(errors, e);
            },
            PcItem::Inst(id) => {
                let e = store.push_scalar(Dispatched::RefOrSimple(RefOrSimple::Instance(*id)));
                note(errors, e);
            },
            PcItem::Ctx(ctx) => {
                if depth < 3 {
                    let out = construct_rec(depth + 1, ctx, None, errors);
                    let mut inner_store = AggVariant::Empty;
                    match out {
                        None => {
                            note(errors, None);
                        },
                        Some(AggOut::VecI(v)) => {
                            let e = inner_store.push_inner_vec_i(v);
                            note(errors, e);
                        },
                        Some(AggOut::VecD(v)) => {
                            let e = inner_store.push_inner_vec_d(v);
                            note(errors, e);
                        },
                        Some(AggOut::VecRef(v)) => {
                            let e = inner_store.push_inner_vec_ref(v);
                            note(errors, e);
                        },
                        Some(_) => {
                            note(errors, Some(ValuationError::UnsupportedNested));
                        },
                    }
                    merge_inner(&mut store, inner_store, errors);
                } else {
                    note(errors, None);
                }
            },
        }
        assert(store@ == taken.0);
        assert(errors@ =~= e0 + (acc + taken.1));
        proof {
            acc = acc + taken.1;
        }
        i = i + 1;
    }
    Some(out_from(store))
}

/// An attribute value held in memory: the value read from a token, or the
/// value of a list.
pub enum AttributeSlot {
    Scalar(Dispatched),
    List(AggOut),
}

/// An attribute value held in memory, as contracts see it.
pub enum SlotView {
    Scalar(DispatchedView),
    List(AggOutView),
}

impl View for AttributeSlot {
    type V = SlotView;

    open spec fn view(&self) -> SlotView {
        match self {
            AttributeSlot::Scalar(d) => SlotView::Scalar(d@),
            AttributeSlot::List(o) => SlotView::List(o@),
        }
    }
}

/// The attribute values of an instance held in memory; a value not set is
/// `None`.
pub struct InMemoryAttributeStorage {
    pub values: Vec<Option<AttributeSlot>>,
}

/// The attribute values held, as contracts see them.
pub open spec fn slots_view(v: Seq<Option<AttributeSlot>>) -> Seq<Option<SlotView>> {
    v.map_values(|o: Option<AttributeSlot>| match o {
        Some(x) => Some(x@),
        None => None,
    })
}

/// The attribute of an instance that references read for it are to be
/// resolved into.
#[derive(Debug, Clone, Copy, PartialEq, Eq, Structural)]
pub struct MutableAttributeValue {
    pub instance_name: usize,
    pub index: u8,
}

/// References waiting to be resolved, as contracts see them.
pub open spec fn refs_view(v: Seq<(MutableAttributeValue, Vec<RefOrSimple>)>) -> Seq<(MutableAttributeValue, Seq<RefOrSimple>)> {
    v.map_values(|x: (MutableAttributeValue, Vec<RefOrSimple>)| (x.0, x.1@))
}

/// What reading an instance's attributes has made so far: the values
/// held, the references waiting to be resolved, and the errors met.
pub type BuildState = (Seq<Option<SlotView>>, Seq<(MutableAttributeValue, Seq<RefOrSimple>)>, Seq<ValuationError>);

/// Sets the value at `index` when the storage has room for it.
pub open spec fn set_slot(st: Seq<Option<SlotView>>, index: int, v: SlotView) -> Seq<Option<SlotView>> {
    if 0 <= index < st.len() {
        st.update(index, Some(v))
    } else {
        st
    }
}

/// The index that references read for attribute `index` are resolved
/// into: `index` itself, unless another is given (`-1` gives none).
pub open spec fn ref_index(index: u8, resolve_reference_index: i32) -> u8 {
    if resolve_reference_index == -1 {
        index
    } else {
        resolve_reference_index as u8
    }
}

/// Adds references to resolve for instance `name` (only for a named
/// instance, `name > 0`).
pub open spec fn refs_added(
    refs: Seq<(MutableAttributeValue, Seq<RefOrSimple>)>,
    name: i32,
    index: u8,
    rri: i32,
    r: Seq<RefOrSimple>,
) -> Seq<(MutableAttributeValue, Seq<RefOrSimple>)> {
    if name > 0 {
        refs.push((MutableAttributeValue { instance_name: name as usize, index: ref_index(index, rri) }, r))
    } else {
        refs
    }
}

/// The element type of an aggregate type.
pub open spec fn element_of(pt: ParameterType) -> Option<ParameterType> {
    match pt {
        ParameterType::Aggregation(e) => Some(*e),
        _ => None,
    }
}

/// Takes the `idx`-th attribute of instance `name`, of declared type `pt`,
/// into what was made so far: a reference waits to be resolved; a list's
/// references wait together (those of a list of lists flattened into one);
/// any other value is held at the attribute's index.
pub open spec fn attr_taken(name: i32, rri: i32, idx: int, item: PcItem, pt: ParameterType, st: BuildState) -> BuildState {
    let index = (idx % 256) as u8;
    match item {
        PcItem::Tok(v) => match v@ {
            DispatchedView::RefOrSimple(r) => (st.0, refs_added(st.1, name, index, rri, seq![r]), st.2),
            dv => (set_slot(st.0, index as int, SlotView::Scalar(dv)), st.1, st.2),
        },
        PcItem::Ctx(ctx) => {
            let r = rec_out(0, *ctx, element_of(pt));
            match r.0 {
                None => (st.0, st.1, st.2 + r.1),
                Some(AggOutView::VecRef(v)) => (st.0, refs_added(st.1, name, index, rri, v), st.2 + r.1),
                Some(AggOutView::VecVecRef(v)) => (st.0, refs_added(st.1, name, index, rri, v.flatten()), st.2 + r.1),
                Some(o) => (set_slot(st.0, index as int, SlotView::List(o)), st.1, st.2 + r.1),
            }
        },
        PcItem::Inst(id) => (st.0, refs_added(st.1, name, index, rri, seq![RefOrSimple::Instance(id)]), st.2),
    }
}

/// The declared type of the `i`-th attribute: of the declaration's list
/// when there is one and it is long enough, otherwise none in particular.
pub open spec fn param_type_at(param_types: Option<Seq<ParameterType>>, i: int) -> ParameterType {
    match param_types {
        Some(pts) => if 0 <= i < pts.len() {
            pts[i]
        } else {
            ParameterType::Other
        },
        None => ParameterType::Other,
    }
}

/// Takes the attributes from the `i`-th on.
pub open spec fn attrs_taken(
    name: i32,
    rri: i32,
    items: Seq<PcItem>,
    param_types: Option<Seq<ParameterType>>,
    i: int,
    st: BuildState,
) -> BuildState
    decreases items.len() - i,
{
    if i < 0 || i >= items.len() {
        st
    } else {
        attrs_taken(name, rri, items, param_types, i + 1, attr_taken(name, rri, i, items[i], param_type_at(param_types, i), st))
    }
}

/// How many values the storage of an instance with `n` attribute values
/// holds: as many as were read, or, when the count is coerced to a
/// declaration's, no more than it declares.
pub open spec fn storage_size(n: int, param_types: Option<Seq<ParameterType>>, coerce: bool) -> int {
    if coerce {
        match param_types {
            Some(pts) => if pts.len() < n {
                pts.len() as int
            } else {
                n
            },
            None => n,
        }
    } else {
        n
    }
}

/// The warning when the number `n` of values read differs from the
/// declaration's or the expected one.
pub open spec fn count_warning(
    name: i32,
    n: int,
    param_types: Option<Seq<ParameterType>>,
    expected_size: Option<usize>,
) -> Option<Seq<char>> {
    let declared: int = match param_types {
        Some(pts) => pts.len() as int,
        None => 0,
    };
    let off = (param_types is Some && n != declared) || (expected_size matches Some(e) && e != n);
    if off {
        let expected: int = match expected_size {
            Some(e) => e as int,
            None => declared,
        };
        Some(
            "Expected "@ + decimal(expected as nat) + " attribute values, found "@ + decimal(n as nat)
                + " for instance #"@ + decimal(
                if name > 0 {
                    name as nat
                } else {
                    0
                },
            ),
        )
    } else {
        None
    }
}

/// What reading an instance's attribute values gives: the values held, the
/// warning on their number, and the errors met.
pub struct Constructed {
    pub storage: InMemoryAttributeStorage,
    pub warning: Option<String>,
    pub errors: Vec<ValuationError>,
}

/// A storage of `n` values, none set.
fn storage_of_size(n: usize) -> (r: InMemoryAttributeStorage)
    ensures
        r.values@.len() == n,
        slots_view(r.values@) == Seq::new(n as nat, |i: int| None::<SlotView>),
{
    let mut values: Vec<Option<AttributeSlot>> = Vec::new();
    let mut i: usize = 0;
    while i < n
        invariant
            i <= n,
            values@.len() == i,
            forall|k: int| 0 <= k < i ==> values@[k] is None,
        decreases n - i,
    {
        values.push(None);
        i = i + 1;
    }
    assert(slots_view(values@) =~= Seq::new(n as nat, |k: int| None::<SlotView>));
    InMemoryAttributeStorage { values }
}

/// Holds `v` at `index` when the storage has room for it.
fn set_value(storage: &mut InMemoryAttributeStorage, index: usize, v: AttributeSlot)
    ensures
        slots_view(final(storage).values@) == set_slot(slots_view(old(storage).values@), index as int, v@),
{
    if index < storage.values.len() {
        let ghost gv = v;
        storage.values.set(index, Some(v));
        assert(slots_view(storage.values@) =~= set_slot(slots_view(old(storage).values@), index as int, gv@));
    }
}

/// Adds references to resolve for instance `name` (see `refs_added`).
fn add_refs(
    refs: &mut Vec<(MutableAttributeValue, Vec<RefOrSimple>)>,
    name: i32,
    index: u8,
    rri: i32,
    r: Vec<RefOrSimple>,
)
    ensures
        refs_view(final(refs)@) == refs_added(refs_view(old(refs)@), name, index, rri, r@),
{
    if name > 0 {
        let idx_for: u8 = if rri == -1 {
            index
        } else {
            rri as u8
        };
        let ghost gr = r;
        refs.push((MutableAttributeValue { instance_name: name as usize, index: idx_for }, r));
        assert(refs_view(refs@) =~= refs_added(refs_view(old(refs)@), name, index, rri, gr@));
    }
}

/// The references of a list of lists, in order, in one list.
fn flatten_refs(v: Vec<Vec<RefOrSimple>>) -> (r: Vec<RefOrSimple>)
    ensures
        r@ == v.deep_view().flatten(),
{
    let mut out: Vec<RefOrSimple> = Vec::new();
    let mut i: usize = 0;
    while i < v.len()
        invariant
            i <= v@.len(),
            out@ == v.deep_view().subrange(0, i as int).flatten(),
        decreases v@.len() - i,
    {
        let inner = &v[i];
        proof {
            lemma_refs_deep(*inner);
        }
        let mut j: usize = 0;
        let ghost start = out@;
        while j < inner.len()
            invariant
                j <= inner@.len(),
                out@ == start + inner@.subrange(0, j as int),
            decreases inner@.len() - j,
        {
            out.push(inner[j]);
            j = j + 1;
            assert(out@ =~= start + inner@.subrange(0, j as int));
        }
        assert(inner@.subrange(0, j as int) =~= inner@);
        proof {
            let d = v.deep_view();
            assert(d.subrange(0, i + 1 as int) =~= d.subrange(0, i as int).push(d[i as int]));
            d.subrange(0, i as int).lemma_flatten_push(d[i as int]);
        }
        i = i + 1;
    }
    assert(v.deep_view().subrange(0, i as int) =~= v.deep_view());
    out
}

impl ParseContext {
    /// Reads the attribute values of instance `name` (`0` or less for one
    /// without a name). `param_types` are the declared types of the
    /// attributes when there is a declaration; `expected_size` is the
    /// number of values expected when one is; references read wait in
    /// `references_to_resolve`, under the index `resolve_reference_index`
    /// when it is not `-1`; with `coerce_attribute_count` the storage holds
    /// no more values than the declaration has attributes.
    pub fn construct(
        &self,
        name: i32,
        references_to_resolve: &mut Vec<(MutableAttributeValue, Vec<RefOrSimple>)>,
        param_types: Option<&Vec<ParameterType>>,
        expected_size: Option<usize>,
        resolve_reference_index: i32,
        coerce_attribute_count: bool,
    ) -> (r: Constructed)
        ensures
            ({
                let pts = match param_types {
                    Some(v) => Some(v@),
                    None => None,
                };
                let n = self.tokens@.len() as int;
                let made = attrs_taken(
                    name,
                    resolve_reference_index,
                    self.tokens@,
                    pts,
                    0,
                    (
                        Seq::new(storage_size(n, pts, coerce_attribute_count) as nat, |i: int| None::<SlotView>),
                        refs_view(old(references_to_resolve)@),
                        Seq::empty(),
                    ),
                );
                &&& match r.warning {
                    Some(w) => count_warning(name, n, pts, expected_size) == Some(w@),
                    None => count_warning(name, n, pts, expected_size) is None,
                }
                &&& n == 0 ==> {
                    &&& r.storage.values@.len() == 0
                    &&& final(references_to_resolve)@ == old(references_to_resolve)@
                    &&& r.errors@.len() == 0
                }
                &&& n > 0 ==> {
                    &&& slots_view(r.storage.values@) == made.0
                    &&& refs_view(final(references_to_resolve)@) == made.1
                    &&& r.errors@ == made.2
                }
            }),
    {
        let n = self.tokens.len();
        let ghost pts = match param_types {
            Some(v) => Some(v@),
            None => None,
        };
        let declared: usize = match param_types {
            Some(v) => v.len(),
            None => 0,
        };
        let off = (param_types.is_some() && n != declared) || match expected_size {
            Some(e) => e != n,
            None => false,
        };
        let warning = if off {
            let expected: usize = match expected_size {
                Some(e) => e,
                None => declared,
            };
            let mut msg: Vec<char> = Vec::new();
            push_str(&mut msg, "Expected ");
            push_decimal(&mut msg, expected as u64);
            push_str(&mut msg, " attribute values, found ");
            push_decimal(&mut msg, n as u64);
            push_str(&mut msg, " for instance #");
            let shown: u64 = if name > 0 {
                name as u64
            } else {
                0
            };
            push_decimal(&mut msg, shown);
            Some(string_from_chars(&msg))
        } else {
            None
        };
        if n == 0 {
            let storage = storage_of_size(0);
            let errors: Vec<ValuationError> = Vec::new();
            return Constructed { storage, warning, errors };
        }
        let capacity: usize = if coerce_attribute_count {
            match param_types {
                Some(v) => if v.len() < n {
                    v.len()
                } else {
                    n
                },
                None => n,
            }
        } else {
            n
        };
        let mut storage = storage_of_size(capacity);
        let mut errors: Vec<ValuationError> = Vec::new();
        let ghost items = self.tokens@;
        let ghost init: BuildState = (
            Seq::new(capacity as nat, |i: int| None::<SlotView>),
            refs_view(old(references_to_resolve)@),
            Seq::empty(),
        );
        let ghost full = attrs_taken(name, resolve_reference_index, items, pts, 0, init);
        let mut idx: usize = 0;
        while idx < n
            invariant
                n == items.len(),
                items == self.tokens@,
                pts == match param_types {
                    Some(v) => Some(v@),
                    None => None::<Seq<ParameterType>>,
                },
                idx <= n,
                full == attrs_taken(
                    name,
                    resolve_reference_index,
                    items,
                    pts,
                    idx as int,
                    (slots_view(storage.values@), refs_view(references_to_resolve@), errors@),
                ),
            decreases n - idx,
        {
            let index: u8 = (idx % 256) as u8;
            let ghost st: BuildState = (slots_view(storage.values@), refs_view(references_to_resolve@), errors@);
            let ghost pt = param_type_at(pts, idx as int);
            match &self.tokens[idx] {
                PcItem::Tok(t) => {
                    match t {
                        Dispatched::RefOrSimple(r) => {
                            let mut one: Vec<RefOrSimple> = Vec::new();
                            one.push(*r);
                            assert(one@ =~= seq![*r]);
                            add_refs(references_to_resolve, name, index, resolve_reference_index, one);
                        },
                        _ => {
                            set_value(&mut storage, index as usize, AttributeSlot::Scalar(clone_dispatched(t)));
                        },
                    }
                },
                PcItem::Ctx(ctx) => {
                    let element: Option<&ParameterType> = match param_types {
                        Some(v) => if idx < v.len() {
                            match &v[idx] {
                                ParameterType::Aggregation(e) => Some(&**e),
                                _ => None,
                            }
                        } else {
                            None
                        },
                        None => None,
                    };
                    let ghost e0 = errors@;
                    let out = construct_rec(0, ctx, element, &mut errors);
                    match out {
                        None => {},
                        Some(AggOut::VecRef(v)) => {
                            add_refs(references_to_resolve, name, index, resolve_reference_index, v);
                        },
                        Some(AggOut::VecVecRef(v)) => {
                            let flat = flatten_refs(v);
                            add_refs(references_to_resolve, name, index, resolve_reference_index, flat);
                        },
                        Some(o) => {
                            set_value(&mut storage, index as usize, AttributeSlot::List(o));
                        },
                    }
                },
                PcItem::Inst(id) => {
                    let mut one: Vec<RefOrSimple> = Vec::new();
                    one.push(RefOrSimple::Instance(*id));
                    assert(one@ =~= seq![RefOrSimple::Instance(*id)]);
                    add_refs(references_to_resolve, name, index, resolve_reference_index, one);
                },
            }
            assert((slots_view(storage.values@), refs_view(references_to_resolve@), errors@) == attr_taken(
                name,
                resolve_reference_index,
                idx as int,
                items[idx as int],
                pt,
                st,
            ));
            idx = idx + 1;
        }
        Constructed { storage, warning, errors }
    }
}

/// Is the item a token holding an integer or a real number?
pub open spec fn is_number_item(it: PcItem) -> bool {
    ||| it matches PcItem::Tok(Dispatched::Int(_))
    ||| it matches PcItem::Tok(Dispatched::Float(_))
}

/// Is the item a token holding a real number?
pub open spec fn is_real_item(it: PcItem) -> bool {
    it matches PcItem::Tok(Dispatched::Float(_))
}

/// The number of a token item taken as a real.
pub open spec fn real_of_item(it: PcItem) -> Real {
    match it {
        PcItem::Tok(Dispatched::Float(o)) => Real::Literal(o),
        PcItem::Tok(Dispatched::Int(x)) => Real::Integer(x),
        _ => Real::Integer(0),
    }
}

/// The integer of a token item.
pub open spec fn int_of_item(it: PcItem) -> i32 {
    match it {
        PcItem::Tok(Dispatched::Int(x)) => x,
        _ => 0,
    }
}

/// What a flat list of numbers gathers: nothing when empty; its integers
/// when it has no real number; otherwise all its numbers as reals, in
/// order.
pub open spec fn numbers_gathered(items: Seq<PcItem>) -> AggView {
    if items.len() == 0 {
        AggView::Empty
    } else if exists|k: int| 0 <= k < items.len() && is_real_item(#[trigger] items[k]) {
        AggView::VecD(items.map_values(|it: PcItem| real_of_item(it)))
    } else {
        AggView::VecI(items.map_values(|it: PcItem| int_of_item(it)))
    }
}

proof fn lemma_number_taken(depth: int, items: Seq<PcItem>, i: int)
    requires
        0 <= i < items.len(),
        is_number_item(items[i]),
        forall|k: int| 0 <= k < i ==> is_number_item(#[trigger] items[k]),
    ensures
        item_taken(depth, items[i], numbers_gathered(items.take(i))) == (
            numbers_gathered(items.take(i + 1)),
            Seq::<ValuationError>::empty(),
        ),
{
    let before = items.take(i);
    let after = items.take(i + 1);
    let it = items[i];
    assert(after =~= before.push(it));
    assert(after.map_values(|x: PcItem| real_of_item(x)) =~= before.map_values(|x: PcItem| real_of_item(x)).push(
        real_of_item(it),
    ));
    assert(after.map_values(|x: PcItem| int_of_item(x)) =~= before.map_values(|x: PcItem| int_of_item(x)).push(
        int_of_item(it),
    ));
    let had_real = exists|k: int| 0 <= k < before.len() && is_real_item(#[trigger] before[k]);
    if had_real {
        let k = choose|k: int| 0 <= k < before.len() && is_real_item(#[trigger] before[k]);
        assert(after[k] == before[k]);
        assert(is_real_item(after[k]));
    } else {
        if !is_real_item(it) {
            assert forall|k: int| 0 <= k < after.len() implies !is_real_item(#[trigger] after[k]) by {
                if k < before.len() {
                    assert(after[k] == before[k]);
                }
            }
        } else {
            assert(is_real_item(after[i]));
            assert(before.map_values(|x: PcItem| real_of_item(x)) =~= as_reals(
                before.map_values(|x: PcItem| int_of_item(x)),
            )) by {
                assert forall|k: int| 0 <= k < before.len() implies real_of_item(before[k]) == Real::Integer(
                    int_of_item(before[k]),
                ) by {
                    assert(is_number_item(items[k]));
                    assert(!is_real_item(before[k]));
                }
            }
        }
        if i == 0 {
            assert(before.len() == 0);
            assert(after.map_values(|x: PcItem| real_of_item(x)) =~= seq![real_of_item(it)]);
            assert(after.map_values(|x: PcItem| int_of_item(x)) =~= seq![int_of_item(it)]);
        }
    }
}

proof fn lemma_numbers_from(depth: int, items: Seq<PcItem>, i: int)
    requires
        0 <= i <= items.len(),
        forall|k: int| 0 <= k < items.len() ==> is_number_item(#[trigger] items[k]),
    ensures
        items_out(depth, items, i, numbers_gathered(items.take(i)), Seq::empty()) == (
            numbers_gathered(items),
            Seq::<ValuationError>::empty(),
        ),
    decreases items.len() - i,
{
    if i == items.len() {
        assert(items.take(i) =~= items);
    } else {
        lemma_number_taken(depth, items, i);
        assert(Seq::<ValuationError>::empty() + Seq::<ValuationError>::empty() =~= Seq::<ValuationError>::empty());
        lemma_numbers_from(depth, items, i + 1);
    }
}

/// A flat list of numbers gathers its integers, in order, while it holds
/// no real number; with one real number among them, all its numbers are
/// gathered as reals, in order. No error is met.
pub proof fn law_numbers_gathered(depth: int, p: ParseContext, element: Option<ParameterType>)
    requires
        p.tokens@.len() > 0,
        forall|k: int| 0 <= k < p.tokens@.len() ==> is_number_item(#[trigger] p.tokens@[k]),
    ensures
        rec_out(depth, p, element) == (Some(out_of(numbers_gathered(p.tokens@))), Seq::<ValuationError>::empty()),
{
    assert(p.tokens@.take(0) =~= Seq::<PcItem>::empty());
    lemma_numbers_from(depth, p.tokens@, 0);
}

/// A nested list leaves the values gathered for the outer list as they
/// were: what it gathers by itself is a list of lists, which merging into
/// the outer values passes over.
pub proof fn law_nested_list_keeps_values(depth: int, ctx: ParseContext, s: AggView)
    ensures
        item_taken(depth, PcItem::Ctx(Box::new(ctx)), s).0 == s,
{
}

/// The index that references read for the `k`-th attribute are resolved
/// into.
pub open spec fn attr_ref_index(k: int, rri: i32) -> u8 {
    ref_index((k % 256) as u8, rri)
}

/// The references `after` are those of `before` followed by references
/// waiting for attributes of instance `name` only: each under the index
/// that some attribute among the first `n` is resolved into; none are added
/// for an unnamed instance (`name <= 0`).
pub open spec fn refs_appended(
    before: Seq<(MutableAttributeValue, Seq<RefOrSimple>)>,
    after: Seq<(MutableAttributeValue, Seq<RefOrSimple>)>,
    name: i32,
    rri: i32,
    n: int,
) -> bool {
    &&& before.len() <= after.len()
    &&& after.subrange(0, before.len() as int) == before
    &&& name <= 0 ==> after == before
    &&& forall|j: int|
        before.len() <= j < after.len() ==> (#[trigger] after[j]).0.instance_name == name as usize && exists|k: int|
            0 <= k < n && after[j].0.index == #[trigger] attr_ref_index(k, rri)
}

proof fn lemma_attrs_refs(
    name: i32,
    rri: i32,
    items: Seq<PcItem>,
    param_types: Option<Seq<ParameterType>>,
    i: int,
    st: BuildState,
    base: Seq<(MutableAttributeValue, Seq<RefOrSimple>)>,
)
    requires
        0 <= i <= items.len(),
        refs_appended(base, st.1, name, rri, i),
    ensures
        refs_appended(base, attrs_taken(name, rri, items, param_types, i, st).1, name, rri, items.len() as int),
    decreases items.len() - i,
{
    if i == items.len() {
        assert forall|j: int| base.len() <= j < st.1.len() implies (#[trigger] st.1[j]).0.instance_name == name as usize
            && exists|k: int| 0 <= k < items.len() && st.1[j].0.index == attr_ref_index(k, rri) by {
            let k = choose|k: int| 0 <= k < i && st.1[j].0.index == attr_ref_index(k, rri);
        }
    } else {
        let nx = attr_taken(name, rri, i, items[i], param_type_at(param_types, i), st);
        let idx = (i % 256) as u8;
        assert(nx.1 == st.1 || (name > 0 && nx.1.len() == st.1.len() + 1 && nx.1.drop_last() == st.1 && nx.1.last().0
            == MutableAttributeValue { instance_name: name as usize, index: ref_index(idx, rri) }));
        assert(refs_appended(base, nx.1, name, rri, i + 1)) by {
            if nx.1 != st.1 {
                assert(nx.1.subrange(0, base.len() as int) =~= st.1.subrange(0, base.len() as int));
            }
            assert forall|j: int| base.len() <= j < nx.1.len() implies (#[trigger] nx.1[j]).0.instance_name == name as usize
                && exists|k: int| 0 <= k < i + 1 && nx.1[j].0.index == attr_ref_index(k, rri) by {
                if j < st.1.len() {
                    assert(nx.1[j] == st.1[j]);
                    let k = choose|k: int| 0 <= k < i && st.1[j].0.index == attr_ref_index(k, rri);
                } else {
                    assert(nx.1[j].0.index == attr_ref_index(i, rri));
                }
            }
        }
        lemma_attrs_refs(name, rri, items, param_types, i + 1, nx, base);
    }
}

/// Reading an instance's attributes only adds references: those waiting
/// before stay first, in order; every one added waits for an attribute of
/// instance `name` under the index of some attribute read (or under
/// `resolve_reference_index` when it is not `-1`); an unnamed instance adds
/// none.
pub proof fn law_construct_references(
    name: i32,
    rri: i32,
    items: Seq<PcItem>,
    param_types: Option<Seq<ParameterType>>,
    st: BuildState,
)
    ensures
        refs_appended(st.1, attrs_taken(name, rri, items, param_types, 0, st).1, name, rri, items.len() as int),
{
    assert(st.1.subrange(0, st.1.len() as int) =~= st.1);
    lemma_attrs_refs(name, rri, items, param_types, 0, st, st.1);
}

/// What a token gives for an attribute value.
pub enum DispatchResult {
    Value(Dispatched),
    /// An enumeration literal, read at `offset`, that is no value of the
    /// enumeration expected there.
    InvalidEnumeration { literal: String, offset: u32 },
    /// An enumeration literal, read at `offset`, where no enumeration is
    /// expected.
    UnexpectedEnumeration { literal: String, offset: u32 },
    /// A binary literal, read at `offset`, whose text is no bits.
    InvalidBinary { offset: u32 },
    /// A string literal, read at `offset`: its characters are for the
    /// character decoder to give.
    StringLiteral { offset: u32 },
    /// A token that gives no value (an operator other than `*`, a keyword,
    /// the end of the data).
    NoValue,
}

/// What a token gives for an attribute value, as contracts see it.
pub enum DispatchView {
    Value(DispatchedView),
    InvalidEnumeration(Seq<char>, u32),
    UnexpectedEnumeration(Seq<char>, u32),
    InvalidBinary(u32),
    StringLiteral(u32),
    NoValue,
}

impl View for DispatchResult {
    type V = DispatchView;

    open spec fn view(&self) -> DispatchView {
        match self {
            DispatchResult::Value(d) => DispatchView::Value(d@),
            DispatchResult::InvalidEnumeration { literal, offset } => DispatchView::InvalidEnumeration(literal@, *offset),
            DispatchResult::UnexpectedEnumeration { literal, offset } => DispatchView::UnexpectedEnumeration(
                literal@,
                *offset,
            ),
            DispatchResult::InvalidBinary { offset } => DispatchView::InvalidBinary(*offset),
            DispatchResult::StringLiteral { offset } => DispatchView::StringLiteral(*offset),
            DispatchResult::NoValue => DispatchView::NoValue,
        }
    }
}

/// The text of a token without the delimiters of a string, enumeration or
/// binary; empty where the lexer reads a string literal inside it.
pub open spec fn literal_of(data: Seq<u8>, t: Token) -> Seq<char> {
    match token_text(data, t.startPos as int, Seq::<char>::empty()) {
        Some(x) => unquoted(t.type_, x),
        None => Seq::<char>::empty(),
    }
}

/// The first position of `lit` among the values `items` of an enumeration.
pub open spec fn item_position(items: Seq<Seq<char>>, lit: Seq<char>) -> Option<int> {
    if exists|i: int| 0 <= i < items.len() && items[i] == lit {
        Some(choose|i: int| 0 <= i < items.len() && items[i] == lit && forall|j: int| 0 <= j < i ==> items[j] != lit)
    } else {
        None
    }
}

/// The three-valued logical of a logical token.
pub open spec fn tribool_of(v: i32) -> TriBool {
    if v == 0 {
        TriBool::False
    } else if v == 1 {
        TriBool::True
    } else {
        TriBool::Indeterminate
    }
}

/// What token `t` of the file `data` gives for an attribute whose expected
/// enumeration, when there is one, is named `enumeration.0` and has values
/// `enumeration.1`: a binary its bits; a boolean or logical its value; an
/// enumeration literal the reference to its position among the values; a
/// real its literal's offset; an instance name the reference to it; an
/// integer its value; `*` a derived value.
pub open spec fn dispatch_spec(data: Seq<u8>, t: Token, enumeration: Option<(Seq<char>, Seq<Seq<char>>)>) -> DispatchView {
    let lit = literal_of(data, t);
    if t.type_ == TokenType::Token_BINARY {
        if binary_text_ok(lit) && encode_utf8(lit).len() < 0x1000_0000 {
            DispatchView::Value(DispatchedView::Binary(binary_bits(lit, encode_utf8(lit).len() as int)))
        } else {
            DispatchView::InvalidBinary(t.startPos)
        }
    } else if t.type_ == TokenType::Token_BOOL && t.value_int != 2 {
        DispatchView::Value(DispatchedView::Bool(t.value_int == 1))
    } else if t.type_ == TokenType::Token_BOOL {
        DispatchView::Value(DispatchedView::Logical(tribool_of(t.value_int)))
    } else if t.type_ == TokenType::Token_ENUMERATION {
        match enumeration {
            Some((name, items)) => match item_position(items, lit) {
                Some(i) => DispatchView::Value(DispatchedView::Enum((name, i as usize))),
                None => DispatchView::InvalidEnumeration(lit, t.startPos),
            },
            None => DispatchView::UnexpectedEnumeration(lit, t.startPos),
        }
    } else if t.type_ == TokenType::Token_FLOAT {
        DispatchView::Value(DispatchedView::Float(t.startPos))
    } else if t.type_ == TokenType::Token_IDENTIFIER {
        DispatchView::Value(
            DispatchedView::RefOrSimple(RefOrSimple::Identifier { id: t.value_int as usize, offset: t.startPos }),
        )
    } else if t.type_ == TokenType::Token_INT {
        DispatchView::Value(DispatchedView::Int(t.value_int))
    } else if t.type_ == TokenType::Token_STRING {
        DispatchView::StringLiteral(t.startPos)
    } else if t.type_ == TokenType::Token_OPERATOR && t.value_char == '*' {
        DispatchView::Value(DispatchedView::Derived)
    } else {
        DispatchView::NoValue
    }
}

/// Is `s` the text of a binary literal (see `binary_text_ok`)?
fn binary_text_checked(s: &str) -> (r: bool)
    ensures
        r == binary_text_ok(s@),
{
    let cs = chars_of(s);
    if cs.len() == 0 || !('0' <= cs[0] && cs[0] <= '3') || (cs.len() == 1 && cs[0] != '0') {
        return false;
    }
    let mut k: usize = 1;
    while k < cs.len()
        invariant
            1 <= k <= cs@.len(),
            cs@ == s@,
            forall|j: int|
                1 <= j < k ==> ((#[trigger] cs@[j] as u32) < 65 ==> 48 <= (cs@[j] as u32)) && ((cs@[j] as u32) >= 65
                    ==> (cs@[j] as u32) % 256 >= 65),
        decreases cs@.len() - k,
    {
        let c = cs[k] as u32;
        if (c < 65 && c < 48) || (c >= 65 && c % 256 < 65) {
            return false;
        }
        k = k + 1;
    }
    true
}

/// The position of `lit` among `items`, the first where it occurs.
fn position_of(items: &Vec<String>, lit: &str) -> (r: Option<usize>)
    ensures
        match item_position(items.deep_view(), lit@) {
            Some(i) => r == Some(i as usize),
            None => r is None,
        },
{
    let ghost d = items.deep_view();
    let mut i: usize = 0;
    while i < items.len()
        invariant
            i <= items@.len(),
            d == items.deep_view(),
            forall|j: int| 0 <= j < i ==> d[j] != lit@,
        decreases items@.len() - i,
    {
        if same_text(items[i].as_str(), lit) {
            assert(d[i as int] == lit@);
            assert(item_position(d, lit@) == Some(i as int)) by {
                let c = choose|c: int| 0 <= c < d.len() && d[c] == lit@ && forall|j: int| 0 <= j < c ==> d[j] != lit@;
                if c < i {
                } else if c > i {
                    assert(d[i as int] != lit@);
                }
            }
            return Some(i);
        }
        i = i + 1;
    }
    assert(!exists|j: int| 0 <= j < d.len() && d[j] == lit@);
    None
}

/// The value token `t` gives for an attribute (see `dispatch_spec`); the
/// expected enumeration, when there is one, is named `enum_name` and has
/// the values `enum_items`.
pub fn dispatch_token(lexer: &IfcSpfLexer, t: &Token, enumeration: Option<(&str, &Vec<String>)>) -> (r: DispatchResult)
    requires
        lexer.stream.wf(),
    ensures
        r@ == dispatch_spec(
            lexer.stream.data(),
            *t,
            match enumeration {
                Some((n, v)) => Some((n@, v.deep_view())),
                None => None,
            },
        ),
{
    let is_quoted = t.type_ == TokenType::Token_BINARY || t.type_ == TokenType::Token_ENUMERATION;
    let lit: String = if is_quoted {
        match TokenFunc::asStringRef(lexer, t) {
            Some(x) => x,
            None => String::new(),
        }
    } else {
        String::new()
    };
    if t.type_ == TokenType::Token_BINARY {
        if binary_text_checked(lit.as_str()) && lit.as_str().as_bytes().len() < 0x1000_0000 {
            DispatchResult::Value(Dispatched::Binary(TokenFunc::asBinary(lit.as_str())))
        } else {
            DispatchResult::InvalidBinary { offset: t.startPos }
        }
    } else if TokenFunc::isBool(t) {
        DispatchResult::Value(Dispatched::Bool(TokenFunc::asBool(t)))
    } else if TokenFunc::isLogical(t) {
        let v = match TokenFunc::asLogical(t) {
            Some(true) => TriBool::True,
            Some(false) => TriBool::False,
            None => TriBool::Indeterminate,
        };
        DispatchResult::Value(Dispatched::Logical(v))
    } else if t.type_ == TokenType::Token_ENUMERATION {
        match enumeration {
            Some((name, items)) => match position_of(items, lit.as_str()) {
                Some(i) => DispatchResult::Value(
                    Dispatched::Enum(EnumerationReference::new(name.to_owned(), i)),
                ),
                None => DispatchResult::InvalidEnumeration { literal: lit, offset: t.startPos },
            },
            None => DispatchResult::UnexpectedEnumeration { literal: lit, offset: t.startPos },
        }
    } else if t.type_ == TokenType::Token_FLOAT {
        DispatchResult::Value(Dispatched::Float(t.startPos))
    } else if t.type_ == TokenType::Token_IDENTIFIER {
        DispatchResult::Value(
            Dispatched::RefOrSimple(RefOrSimple::Identifier { id: t.value_int as usize, offset: t.startPos }),
        )
    } else if t.type_ == TokenType::Token_INT {
        DispatchResult::Value(Dispatched::Int(t.value_int))
    } else if t.type_ == TokenType::Token_STRING {
        DispatchResult::StringLiteral { offset: t.startPos }
    } else if TokenFunc::isOperator_ch(t, '*') {
        DispatchResult::Value(Dispatched::Derived)
    } else {
        DispatchResult::NoValue
    }
}

} // verus!
