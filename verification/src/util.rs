//! Small helpers around IFC data: argument type names and aggregates of
//! them, binary strings, material names and XML escaping.
use crate::text::{chars_of, string_from_chars};
use vstd::prelude::*;
use vstd::utf8::encode_utf8;

verus! {

/// Kind of value an attribute of an IFC entity holds.
#[derive(Copy, Clone, Debug, PartialEq, Eq, Structural)]
pub enum ArgumentType {
    Null,
    Derived,
    Int,
    Bool,
    Logical,
    Double,
    String_,
    Binary,
    Enumeration,
    EntityInstance,
    EmptyAggregate,
    AggregateOfInt,
    AggregateOfDouble,
    AggregateOfString,
    AggregateOfBinary,
    AggregateOfEntityInstance,
    AggregateOfEmptyAggregate,
    AggregateOfAggregateOfInt,
    AggregateOfAggregateOfDouble,
    AggregateOfAggregateOfEntityInstance,
    Unknown,
}

/// Upper-case name of an argument type.
pub open spec fn argument_type_name(t: ArgumentType) -> Seq<char> {
    match t {
        ArgumentType::Null => "NULL"@,
        ArgumentType::Derived => "DERIVED"@,
        ArgumentType::Int => "INT"@,
        ArgumentType::Bool => "BOOL"@,
        ArgumentType::Logical => "LOGICAL"@,
        ArgumentType::Double => "DOUBLE"@,
        ArgumentType::String_ => "STRING"@,
        ArgumentType::Binary => "BINARY"@,
        ArgumentType::Enumeration => "ENUMERATION"@,
        ArgumentType::EntityInstance => "ENTITY INSTANCE"@,
        ArgumentType::EmptyAggregate => "EMPTY AGGREGATE"@,
        ArgumentType::AggregateOfInt => "AGGREGATE OF INT"@,
        ArgumentType::AggregateOfDouble => "AGGREGATE OF DOUBLE"@,
        ArgumentType::AggregateOfString => "AGGREGATE OF STRING"@,
        ArgumentType::AggregateOfBinary => "AGGREGATE OF BINARY"@,
        ArgumentType::AggregateOfEntityInstance => "AGGREGATE OF ENTITY INSTANCE"@,
        ArgumentType::AggregateOfEmptyAggregate => "AGGREGATE OF EMPTY AGGREGATE"@,
        ArgumentType::AggregateOfAggregateOfInt => "AGGREGATE OF AGGREGATE OF INT"@,
        ArgumentType::AggregateOfAggregateOfDouble => "AGGREGATE OF AGGREGATE OF DOUBLE"@,
        ArgumentType::AggregateOfAggregateOfEntityInstance => "AGGREGATE OF AGGREGATE OF ENTITY INSTANCE"@,
        ArgumentType::Unknown => "UNKNOWN"@,
    }
}

pub fn argument_type_to_string(t: ArgumentType) -> (r: &'static str)
    ensures
        r@ == argument_type_name(t),
{
    match t {
        ArgumentType::Null => "NULL",
        ArgumentType::Derived => "DERIVED",
        ArgumentType::Int => "INT",
        ArgumentType::Bool => "BOOL",
        ArgumentType::Logical => "LOGICAL",
        ArgumentType::Double => "DOUBLE",
        ArgumentType::String_ => "STRING",
        ArgumentType::Binary => "BINARY",
        ArgumentType::Enumeration => "ENUMERATION",
        ArgumentType::EntityInstance => "ENTITY INSTANCE",
        ArgumentType::EmptyAggregate => "EMPTY AGGREGATE",
        ArgumentType::AggregateOfInt => "AGGREGATE OF INT",
        ArgumentType::AggregateOfDouble => "AGGREGATE OF DOUBLE",
        ArgumentType::AggregateOfString => "AGGREGATE OF STRING",
        ArgumentType::AggregateOfBinary => "AGGREGATE OF BINARY",
        ArgumentType::AggregateOfEntityInstance => "AGGREGATE OF ENTITY INSTANCE",
        ArgumentType::AggregateOfEmptyAggregate => "AGGREGATE OF EMPTY AGGREGATE",
        ArgumentType::AggregateOfAggregateOfInt => "AGGREGATE OF AGGREGATE OF INT",
        ArgumentType::AggregateOfAggregateOfDouble => "AGGREGATE OF AGGREGATE OF DOUBLE",
        ArgumentType::AggregateOfAggregateOfEntityInstance => "AGGREGATE OF AGGREGATE OF ENTITY INSTANCE",
        ArgumentType::Unknown => "UNKNOWN",
    }
}

/// The type of an aggregate of elements of type `elem`.
pub open spec fn aggregate_of(elem: ArgumentType) -> ArgumentType {
    match elem {
        ArgumentType::Int => ArgumentType::AggregateOfInt,
        ArgumentType::Double => ArgumentType::AggregateOfDouble,
        ArgumentType::String_ => ArgumentType::AggregateOfString,
        ArgumentType::Binary => ArgumentType::AggregateOfBinary,
        ArgumentType::EntityInstance => ArgumentType::AggregateOfEntityInstance,
        ArgumentType::AggregateOfInt => ArgumentType::AggregateOfAggregateOfInt,
        ArgumentType::AggregateOfDouble => ArgumentType::AggregateOfAggregateOfDouble,
        ArgumentType::AggregateOfEntityInstance => ArgumentType::AggregateOfAggregateOfEntityInstance,
        ArgumentType::EmptyAggregate => ArgumentType::AggregateOfEmptyAggregate,
        _ => ArgumentType::Unknown,
    }
}

pub fn make_aggregate(elem: ArgumentType) -> (r: ArgumentType)
    ensures
        r == aggregate_of(elem),
{
    match elem {
        ArgumentType::Int => ArgumentType::AggregateOfInt,
        ArgumentType::Double => ArgumentType::AggregateOfDouble,
        ArgumentType::String_ => ArgumentType::AggregateOfString,
        ArgumentType::Binary => ArgumentType::AggregateOfBinary,
        ArgumentType::EntityInstance => ArgumentType::AggregateOfEntityInstance,
        ArgumentType::AggregateOfInt => ArgumentType::AggregateOfAggregateOfInt,
        ArgumentType::AggregateOfDouble => ArgumentType::AggregateOfAggregateOfDouble,
        ArgumentType::AggregateOfEntityInstance => ArgumentType::AggregateOfAggregateOfEntityInstance,
        ArgumentType::EmptyAggregate => ArgumentType::AggregateOfEmptyAggregate,
        _ => ArgumentType::Unknown,
    }
}

/// Kinds of simple types of EXPRESS.
#[derive(Copy, Clone, Debug, PartialEq, Eq, Structural)]
pub enum SimpleTypeKind {
    Binary,
    Boolean,
    Integer,
    Logical,
    Number,
    Real,
    String_,
}

/// The type of an attribute as a schema declares it.
pub enum ParameterType {
    /// An aggregate of elements of the given type.
    Aggregation(Box<ParameterType>),
    /// A reference to a declaration: whether that declaration is an entity,
    /// and whether it goes by the name `ENUM`.
    Named { is_entity: bool, is_enum_name: bool },
    /// A simple type.
    Simple(SimpleTypeKind),
    /// Anything else.
    Other,
}

/// The argument type of a simple type.
pub open spec fn simple_argument_type(k: SimpleTypeKind) -> ArgumentType {
    match k {
        SimpleTypeKind::Binary => ArgumentType::Binary,
        SimpleTypeKind::Boolean => ArgumentType::Bool,
        SimpleTypeKind::Integer => ArgumentType::Int,
        SimpleTypeKind::Logical => ArgumentType::Logical,
        SimpleTypeKind::Number => ArgumentType::Double,
        SimpleTypeKind::Real => ArgumentType::Double,
        SimpleTypeKind::String_ => ArgumentType::String_,
    }
}

/// The EXPRESS keyword of a simple type.
pub open spec fn express_keyword(k: SimpleTypeKind) -> Seq<char> {
    match k {
        SimpleTypeKind::Binary => "BINARY"@,
        SimpleTypeKind::Boolean => "BOOLEAN"@,
        SimpleTypeKind::Integer => "INTEGER"@,
        SimpleTypeKind::Logical => "LOGICAL"@,
        SimpleTypeKind::Number => "NUMBER"@,
        SimpleTypeKind::Real => "REAL"@,
        SimpleTypeKind::String_ => "STRING"@,
    }
}

/// The argument type that values of a declared parameter type take.
pub open spec fn argument_type_of(pt: ParameterType) -> ArgumentType
    decreases pt,
{
    match pt {
        ParameterType::Aggregation(elem) => aggregate_of(argument_type_of(*elem)),
        ParameterType::Named { is_entity, is_enum_name } => if is_entity {
            ArgumentType::EntityInstance
        } else if is_enum_name {
            ArgumentType::Enumeration
        } else {
            ArgumentType::Unknown
        },
        ParameterType::Simple(k) => simple_argument_type(k),
        ParameterType::Other => ArgumentType::Unknown,
    }
}

pub fn from_parameter_type(pt: &ParameterType) -> (r: ArgumentType)
    ensures
        r == argument_type_of(*pt),
    decreases pt,
{
    match pt {
        ParameterType::Aggregation(elem) => make_aggregate(from_parameter_type(elem)),
        ParameterType::Named { is_entity, is_enum_name } => {
            if *is_entity {
                ArgumentType::EntityInstance
            } else if *is_enum_name {
                ArgumentType::Enumeration
            } else {
                ArgumentType::Unknown
            }
        },
        ParameterType::Simple(k) => match k {
            SimpleTypeKind::Binary => ArgumentType::Binary,
            SimpleTypeKind::Boolean => ArgumentType::Bool,
            SimpleTypeKind::Integer => ArgumentType::Int,
            SimpleTypeKind::Logical => ArgumentType::Logical,
            SimpleTypeKind::Number => ArgumentType::Double,
            SimpleTypeKind::Real => ArgumentType::Double,
            SimpleTypeKind::String_ => ArgumentType::String_,
        },
        ParameterType::Other => ArgumentType::Unknown,
    }
}

/// Does the string consist of the characters `0` and `1` only?
pub fn valid_binary_string(s: &str) -> (r: bool)
    ensures
        r == forall|i: int|
            0 <= i < encode_utf8(s@).len() ==> #[trigger] encode_utf8(s@)[i] == 48u8
                || encode_utf8(s@)[i] == 49u8,
{
    let b = s.as_bytes();
    let mut i: usize = 0;
    while i < b.len()
        invariant
            i <= b@.len(),
            b@ == encode_utf8(s@),
            forall|k: int| 0 <= k < i ==> #[trigger] b@[k] == 48u8 || b@[k] == 49u8,
        decreases b@.len() - i,
    {
        if b[i] != 48u8 && b[i] != 49u8 {
            return false;
        }
        i = i + 1;
    }
    true
}

/// The characters of `s` with every space replaced by an underscore.
pub open spec fn sanitized(s: Seq<char>) -> Seq<char> {
    s.map_values(|c: char| if c == ' ' { '_' } else { c })
}

/// Replaces every space of a material name by an underscore.
pub fn sanitate_material_name(s: &mut String)
    ensures
        final(s)@ == sanitized(old(s)@),
{
    let cs = chars_of(s.as_str());
    let mut out: Vec<char> = Vec::new();
    let mut i: usize = 0;
    while i < cs.len()
        invariant
            i <= cs@.len(),
            out@ == sanitized(cs@.subrange(0, i as int)),
        decreases cs@.len() - i,
    {
        let c = cs[i];
        out.push(if c == ' ' { '_' } else { c });
        i = i + 1;
        assert(out@ =~= sanitized(cs@.subrange(0, i as int)));
    }
    assert(cs@.subrange(0, i as int) =~= cs@);
    *s = string_from_chars(&out);
}

/// `&amp;`
pub open spec fn amp_entity() -> Seq<char> {
    seq!['&', 'a', 'm', 'p', ';']
}

/// `&quot;`
pub open spec fn quot_entity() -> Seq<char> {
    seq!['&', 'q', 'u', 'o', 't', ';']
}

/// `&apos;`
pub open spec fn apos_entity() -> Seq<char> {
    seq!['&', 'a', 'p', 'o', 's', ';']
}

/// `&lt;`
pub open spec fn lt_entity() -> Seq<char> {
    seq!['&', 'l', 't', ';']
}

/// `&gt;`
pub open spec fn gt_entity() -> Seq<char> {
    seq!['&', 'g', 't', ';']
}

/// The XML escape of one character.
pub open spec fn xml_char(c: char) -> Seq<char> {
    if c == '&' {
        amp_entity()
    } else if c == '"' {
        quot_entity()
    } else if c == '\'' {
        apos_entity()
    } else if c == '<' {
        lt_entity()
    } else if c == '>' {
        gt_entity()
    } else {
        seq![c]
    }
}

/// The XML escape of a string, character by character.
pub open spec fn xml_escaped(s: Seq<char>) -> Seq<char>
    decreases s.len(),
{
    if s.len() == 0 {
        seq![]
    } else {
        xml_char(s[0]) + xml_escaped(s.drop_first())
    }
}

/// Does `s` start with `p`?
pub open spec fn starts_with(s: Seq<char>, p: Seq<char>) -> bool {
    p.len() <= s.len() && s.subrange(0, p.len() as int) == p
}

/// Undoes XML escapes, reading left to right: each of `&quot;`, `&apos;`,
/// `&lt;`, `&gt;` and `&amp;` becomes the character it stands for.
pub open spec fn xml_unescaped(s: Seq<char>) -> Seq<char>
    decreases s.len(),
{
    if s.len() == 0 {
        seq![]
    } else if starts_with(s, quot_entity()) {
        seq!['"'] + xml_unescaped(s.skip(6))
    } else if starts_with(s, apos_entity()) {
        seq!['\''] + xml_unescaped(s.skip(6))
    } else if starts_with(s, lt_entity()) {
        seq!['<'] + xml_unescaped(s.skip(4))
    } else if starts_with(s, gt_entity()) {
        seq!['>'] + xml_unescaped(s.skip(4))
    } else if starts_with(s, amp_entity()) {
        seq!['&'] + xml_unescaped(s.skip(5))
    } else {
        seq![s[0]] + xml_unescaped(s.drop_first())
    }
}

proof fn lemma_xml_escaped_push(s: Seq<char>, c: char)
    ensures
        xml_escaped(s.push(c)) =~= xml_escaped(s) + xml_char(c),
    decreases s.len(),
{
    if s.len() == 0 {
        assert(s.push(c).drop_first() =~= Seq::<char>::empty());
        assert(xml_escaped(Seq::<char>::empty()) == Seq::<char>::empty());
        assert(xml_escaped(s.push(c)) == xml_char(c) + xml_escaped(Seq::<char>::empty()));
    } else {
        assert(s.push(c).drop_first() =~= s.drop_first().push(c));
        lemma_xml_escaped_push(s.drop_first(), c);
    }
}

/// Escapes the XML special characters `&`, `"`, `'`, `<` and `>`.
pub fn escape_xml(s: &mut String)
    ensures
        final(s)@ == xml_escaped(old(s)@),
{
    let cs = chars_of(s.as_str());
    let mut out: Vec<char> = Vec::new();
    let mut i: usize = 0;
    while i < cs.len()
        invariant
            i <= cs@.len(),
            out@ == xml_escaped(cs@.subrange(0, i as int)),
        decreases cs@.len() - i,
    {
        let c = cs[i];
        let ghost before = out@;
        if c == '&' {
            crate::text::push_str(&mut out, "&amp;");
        } else if c == '"' {
            crate::text::push_str(&mut out, "&quot;");
        } else if c == '\'' {
            crate::text::push_str(&mut out, "&apos;");
        } else if c == '<' {
            crate::text::push_str(&mut out, "&lt;");
        } else if c == '>' {
            crate::text::push_str(&mut out, "&gt;");
        } else {
            out.push(c);
        }
        proof {
            reveal_strlit("&quot;");
            reveal_strlit("&apos;");
            reveal_strlit("&lt;");
            reveal_strlit("&gt;");
            reveal_strlit("&amp;");
            lemma_xml_escaped_push(cs@.subrange(0, i as int), c);
            assert(cs@.subrange(0, i + 1) =~= cs@.subrange(0, i as int).push(c));
        }
        assert(out@ =~= before + xml_char(c));
        i = i + 1;
    }
    assert(cs@.subrange(0, i as int) =~= cs@);
    *s = string_from_chars(&out);
}

/// Does `cs[i..]` start with the characters of `p`?
fn has_at(cs: &Vec<char>, i: usize, p: &str) -> (r: bool)
    requires
        i <= cs@.len(),
    ensures
        r == starts_with(cs@.skip(i as int), p@),
{
    let ps = chars_of(p);
    if ps.len() > cs.len() - i {
        return false;
    }
    let mut k: usize = 0;
    let clen = cs.len();
    while k < ps.len()
        invariant
            clen == cs@.len(),
            k <= ps@.len(),
            ps@ == p@,
            i + ps@.len() <= cs@.len(),
            forall|j: int| 0 <= j < k ==> cs@[i + j] == ps@[j],
        decreases ps@.len() - k,
    {
        if cs[i + k] != ps[k] {
            assert(cs@.skip(i as int).subrange(0, ps@.len() as int)[k as int] != ps@[k as int]);
            return false;
        }
        k = k + 1;
    }
    assert(cs@.skip(i as int).subrange(0, ps@.len() as int) =~= ps@);
    true
}

/// Undoes the XML escapes `&quot;`, `&apos;`, `&lt;`, `&gt;` and `&amp;`.
pub fn unescape_xml(s: &mut String)
    ensures
        final(s)@ == xml_unescaped(old(s)@),
{
    let cs = chars_of(s.as_str());
    let mut out: Vec<char> = Vec::new();
    let mut i: usize = 0;
    assert(cs@.skip(0) =~= cs@);
    assert(out@ + cs@ =~= cs@);
    while i < cs.len()
        invariant
            i <= cs@.len(),
            xml_unescaped(cs@) == out@ + xml_unescaped(cs@.skip(i as int)),
        decreases cs@.len() - i,
    {
        let ghost rest = cs@.skip(i as int);
        let ghost before = out@;
        let step: usize;
        let c: char;
        if has_at(&cs, i, "&quot;") {
            c = '"';
            step = 6;
        } else if has_at(&cs, i, "&apos;") {
            c = '\'';
            step = 6;
        } else if has_at(&cs, i, "&lt;") {
            c = '<';
            step = 4;
        } else if has_at(&cs, i, "&gt;") {
            c = '>';
            step = 4;
        } else if has_at(&cs, i, "&amp;") {
            c = '&';
            step = 5;
        } else {
            c = cs[i];
            step = 1;
        }
        proof {
            reveal_strlit("&quot;");
            reveal_strlit("&apos;");
            reveal_strlit("&lt;");
            reveal_strlit("&gt;");
            reveal_strlit("&amp;");
            assert("&quot;"@ =~= quot_entity());
            assert("&apos;"@ =~= apos_entity());
            assert("&lt;"@ =~= lt_entity());
            assert("&gt;"@ =~= gt_entity());
            assert("&amp;"@ =~= amp_entity());
            assert(rest.skip(step as int) =~= cs@.skip(i + step));
            assert(rest.drop_first() =~= cs@.skip(i + 1));
            assert(xml_unescaped(rest) == seq![c] + xml_unescaped(cs@.skip(i + step)));
        }
        out.push(c);
        i = i + step;
        assert(before + (seq![c] + xml_unescaped(cs@.skip(i as int))) =~= out@ + xml_unescaped(
            cs@.skip(i as int),
        ));
    }
    assert(cs@.skip(i as int) =~= Seq::<char>::empty());
    assert(out@ + Seq::<char>::empty() =~= out@);
    *s = string_from_chars(&out);
}

/// Undoing the XML escape of a string gives the string back.
pub proof fn law_xml_unescape_escape(s: Seq<char>)
    ensures
        xml_unescaped(xml_escaped(s)) == s,
    decreases s.len(),
{
    if s.len() > 0 {
        let c = s[0];
        let rest = xml_escaped(s.drop_first());
        let e = xml_escaped(s);
        assert(e == xml_char(c) + rest);
        law_xml_unescape_escape(s.drop_first());
        let k = xml_char(c).len() as int;
        assert(e.skip(k) =~= rest);
        if c == '&' {
            assert(e.subrange(0, 5) =~= amp_entity());
            assert(!starts_with(e, quot_entity())) by { assert(e[1] != quot_entity()[1]); }
            assert(!starts_with(e, apos_entity())) by { assert(e[2] != apos_entity()[2]); }
            assert(!starts_with(e, lt_entity())) by { assert(e[1] != lt_entity()[1]); }
            assert(!starts_with(e, gt_entity())) by { assert(e[1] != gt_entity()[1]); }
        } else if c == '"' {
            assert(e.subrange(0, 6) =~= quot_entity());
        } else if c == '\'' {
            assert(e.subrange(0, 6) =~= apos_entity());
            assert(!starts_with(e, quot_entity())) by { assert(e[1] != quot_entity()[1]); }
        } else if c == '<' {
            assert(e.subrange(0, 4) =~= lt_entity());
            assert(!starts_with(e, quot_entity())) by { assert(e[1] != quot_entity()[1]); }
            assert(!starts_with(e, apos_entity())) by { assert(e[1] != apos_entity()[1]); }
        } else if c == '>' {
            assert(e.subrange(0, 4) =~= gt_entity());
            assert(!starts_with(e, quot_entity())) by { assert(e[1] != quot_entity()[1]); }
            assert(!starts_with(e, apos_entity())) by { assert(e[1] != apos_entity()[1]); }
            assert(!starts_with(e, lt_entity())) by { assert(e[1] != lt_entity()[1]); }
        } else {
            assert(e[0] == c);
            assert(!starts_with(e, quot_entity())) by { assert(e[0] != quot_entity()[0]); }
            assert(!starts_with(e, apos_entity())) by { assert(e[0] != apos_entity()[0]); }
            assert(!starts_with(e, lt_entity())) by { assert(e[0] != lt_entity()[0]); }
            assert(!starts_with(e, gt_entity())) by { assert(e[0] != gt_entity()[0]); }
            assert(!starts_with(e, amp_entity())) by { assert(e[0] != amp_entity()[0]); }
            assert(e.drop_first() =~= rest);
        }
        assert(seq![c] + s.drop_first() =~= s);
    }
}

/// The XML escape of a string, as written into SVG text (see
/// `xml_escaped`).
pub fn xml_escape(s: &str) -> (r: String)
    ensures
        r@ == xml_escaped(s@),
{
    let mut t = s.to_owned();
    escape_xml(&mut t);
    t
}

/// Values of every simple type take a known argument type: numbers and
/// reals are doubles, and each other simple type takes the argument type
/// whose name is its EXPRESS keyword or the start of it (`BINARY`, `BOOL`,
/// `INT`, `LOGICAL`, `STRING`).
pub proof fn law_simple_types_keep_their_names(k: SimpleTypeKind)
    ensures
        argument_type_of(ParameterType::Simple(k)) != ArgumentType::Unknown,
        (k is Number || k is Real) ==> argument_type_of(ParameterType::Simple(k)) == ArgumentType::Double,
        !(k is Number || k is Real) ==> argument_type_name(argument_type_of(ParameterType::Simple(k))).is_prefix_of(
            express_keyword(k),
        ),
{
    match k {
        SimpleTypeKind::Binary => {
            reveal_strlit("BINARY");
        },
        SimpleTypeKind::Boolean => {
            reveal_strlit("BOOL");
            reveal_strlit("BOOLEAN");
        },
        SimpleTypeKind::Integer => {
            reveal_strlit("INT");
            reveal_strlit("INTEGER");
        },
        SimpleTypeKind::Logical => {
            reveal_strlit("LOGICAL");
        },
        SimpleTypeKind::String_ => {
            reveal_strlit("STRING");
        },
        _ => {},
    }
}

/// An aggregate type is named after its element type: wherever there is an
/// aggregate of `elem`, its name is `AGGREGATE OF ` followed by the name of
/// `elem`; integers, doubles, strings and binaries always have one.
pub proof fn law_aggregates_are_named_after_their_elements(elem: ArgumentType)
    ensures
        aggregate_of(elem) != ArgumentType::Unknown ==> argument_type_name(aggregate_of(elem)) == "AGGREGATE OF "@
            + argument_type_name(elem),
        (elem is Int || elem is Double || elem is String_ || elem is Binary) ==> aggregate_of(elem)
            != ArgumentType::Unknown,
{
    reveal_strlit("AGGREGATE OF ");
    match elem {
        ArgumentType::Int => {
            reveal_strlit("INT");
            reveal_strlit("AGGREGATE OF INT");
            assert(argument_type_name(aggregate_of(elem)) =~= "AGGREGATE OF "@ + argument_type_name(elem));
        },
        ArgumentType::Double => {
            reveal_strlit("DOUBLE");
            reveal_strlit("AGGREGATE OF DOUBLE");
            assert(argument_type_name(aggregate_of(elem)) =~= "AGGREGATE OF "@ + argument_type_name(elem));
        },
        ArgumentType::String_ => {
            reveal_strlit("STRING");
            reveal_strlit("AGGREGATE OF STRING");
            assert(argument_type_name(aggregate_of(elem)) =~= "AGGREGATE OF "@ + argument_type_name(elem));
        },
        ArgumentType::Binary => {
            reveal_strlit("BINARY");
            reveal_strlit("AGGREGATE OF BINARY");
            assert(argument_type_name(aggregate_of(elem)) =~= "AGGREGATE OF "@ + argument_type_name(elem));
        },
        ArgumentType::EntityInstance => {
            reveal_strlit("ENTITY INSTANCE");
            reveal_strlit("AGGREGATE OF ENTITY INSTANCE");
            assert(argument_type_name(aggregate_of(elem)) =~= "AGGREGATE OF "@ + argument_type_name(elem));
        },
        ArgumentType::EmptyAggregate => {
            reveal_strlit("EMPTY AGGREGATE");
            reveal_strlit("AGGREGATE OF EMPTY AGGREGATE");
            assert(argument_type_name(aggregate_of(elem)) =~= "AGGREGATE OF "@ + argument_type_name(elem));
        },
        ArgumentType::AggregateOfInt => {
            reveal_strlit("AGGREGATE OF INT");
            reveal_strlit("AGGREGATE OF AGGREGATE OF INT");
            assert(argument_type_name(aggregate_of(elem)) =~= "AGGREGATE OF "@ + argument_type_name(elem));
        },
        ArgumentType::AggregateOfDouble => {
            reveal_strlit("AGGREGATE OF DOUBLE");
            reveal_strlit("AGGREGATE OF AGGREGATE OF DOUBLE");
            assert(argument_type_name(aggregate_of(elem)) =~= "AGGREGATE OF "@ + argument_type_name(elem));
        },
        ArgumentType::AggregateOfEntityInstance => {
            reveal_strlit("AGGREGATE OF ENTITY INSTANCE");
            reveal_strlit("AGGREGATE OF AGGREGATE OF ENTITY INSTANCE");
            assert(argument_type_name(aggregate_of(elem)) =~= "AGGREGATE OF "@ + argument_type_name(elem));
        },
        _ => {},
    }
}

} // verus!
