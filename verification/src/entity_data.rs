//! Attribute values of IFC entity instances and their byte encoding in a
//! key-value store: one tag byte from `A` to `T` naming the kind of value,
//! followed by the value's payload.
use crate::bytes::{ByteOrder};
use crate::text::{decimal, push_decimal, push_str, string_from_chars};

use std::sync::Arc;
use vstd::prelude::*;
use vstd::utf8::{decode_utf8, encode_utf8, valid_utf8};

verus! {

broadcast use {vstd::utf8::encode_utf8_valid_utf8, vstd::utf8::encode_utf8_decode_utf8};

pub const TAG_BLANK: u8 = 65;

pub const TAG_INT: u8 = 66;

pub const TAG_BOOL: u8 = 67;

pub const TAG_TRIBOOL: u8 = 68;

pub const TAG_DOUBLE: u8 = 69;

pub const TAG_STRING: u8 = 70;

pub const TAG_BITSET: u8 = 71;

pub const TAG_ENUMREF: u8 = 72;

pub const TAG_IFCPTR: u8 = 73;

pub const TAG_VEC_INT: u8 = 74;

pub const TAG_VEC_DOUBLE: u8 = 75;

pub const TAG_VEC_VEC_INT: u8 = 76;

pub const TAG_VEC_VEC_DOUBLE: u8 = 77;

pub const TAG_VEC_STRING: u8 = 78;

pub const TAG_VEC_BITSET: u8 = 79;

pub const TAG_AGG_INST: u8 = 80;

pub const TAG_AGG_AGG_INST: u8 = 81;

pub const TAG_DERIVED: u8 = 82;

pub const TAG_EMPTY_AGG: u8 = 83;

pub const TAG_EMPTY_AGG_AGG: u8 = 84;

/// Marker of an attribute without a value (`$` in a STEP file).
#[derive(Debug, Clone)]
pub struct Blank;

/// Marker of a derived attribute (`*` in a STEP file).
#[derive(Debug, Clone)]
pub struct Derived;

/// Marker of an empty aggregate.
#[derive(Debug, Clone)]
pub struct EmptyAggregate;

/// Marker of an empty aggregate of aggregates.
#[derive(Debug, Clone)]
pub struct EmptyAggregateOfAggregate;

/// Three-valued logical.
#[derive(Debug, Clone, Copy, PartialEq, Eq, Structural)]
pub enum TriBool {
    True,
    False,
    Indeterminate,
}

/// A value of an enumeration type: the enumeration's name and the index of
/// the value in it.
#[derive(Debug, Clone)]
pub struct EnumerationReference {
    name: String,
    index: usize,
}

impl View for EnumerationReference {
    type V = (Seq<char>, usize);

    open spec fn view(&self) -> (Seq<char>, usize) {
        (self.spec_name(), self.spec_index())
    }
}

impl EnumerationReference {
    pub closed spec fn spec_name(&self) -> Seq<char> {
        self.name@
    }

    pub closed spec fn spec_index(&self) -> usize {
        self.index
    }

    pub fn new(name: String, index: usize) -> (r: Self)
        ensures
            r@ == (name@, index),
    {
        Self { name, index }
    }

    pub fn value(&self) -> (r: String)
        ensures
            r@ == self@.0,
    {
        self.name.clone()
    }

    pub fn index(&self) -> (r: usize)
        ensures
            r == self@.1,
    {
        self.index
    }
}

/// An entity or type instance as the codec sees it: its instance name, its
/// identity, the name of its declaration and whether that declaration is an
/// entity.
#[derive(Debug, Clone)]
pub struct IfcBaseClass {
    pub id: usize,
    pub identity: usize,
    pub decl_name: String,
    pub is_entity: bool,
}

impl IfcBaseClass {
    pub fn new(id: usize, identity: usize, decl_name: &str, is_entity: bool) -> (r: Self)
        ensures
            r.id == id,
            r.identity == identity,
            r.decl_name@ == decl_name@,
            r.is_entity == is_entity,
    {
        Self { id, identity, decl_name: decl_name.to_owned(), is_entity }
    }

    pub fn declaration(&self) -> (r: &Self)
        ensures
            r == self,
    {
        self
    }

    pub fn as_entity(&self) -> (r: bool)
        ensures
            r == self.is_entity,
    {
        self.is_entity
    }

    pub fn name(&self) -> (r: &str)
        ensures
            r@ == self.decl_name@,
    {
        self.decl_name.as_str()
    }
}

/// The number under which an instance is referenced: its instance name, or
/// its identity when it has none.
pub open spec fn ref_id(x: IfcBaseClass) -> usize {
    if x.id != 0 {
        x.id
    } else {
        x.identity
    }
}

/// `i` for an entity instance, `t` for a type instance.
pub open spec fn kind_byte(is_entity: bool) -> u8 {
    if is_entity {
        105
    } else {
        116
    }
}

/// An instance as a decoder recreates it from a reference: named and
/// identified by the reference number, of a generic declaration, an entity
/// instance or a type instance as the reference says.
pub open spec fn is_generic_instance(x: IfcBaseClass, r: (bool, usize)) -> bool {
    &&& x.id == r.1
    &&& x.identity == r.1
    &&& x.decl_name@ == "IFCGENERIC"@
    &&& x.is_entity == r.0
}

/// How an encoded aggregate refers to an instance: whether it is an entity
/// instance, and its reference number.
pub open spec fn inst_ref(x: IfcBaseClass) -> (bool, usize) {
    (x.is_entity, ref_id(x))
}

/// A list of instances.
#[derive(Debug, Clone)]
pub struct AggregateOfInstance {
    items: Vec<Arc<IfcBaseClass>>,
}

impl View for AggregateOfInstance {
    type V = Seq<Arc<IfcBaseClass>>;

    closed spec fn view(&self) -> Seq<Arc<IfcBaseClass>> {
        self.items@
    }
}

impl AggregateOfInstance {
    pub fn new() -> (r: Self)
        ensures
            r@ == Seq::<Arc<IfcBaseClass>>::empty(),
    {
        Self { items: Vec::new() }
    }

    pub fn push(&mut self, item: Arc<IfcBaseClass>)
        ensures
            final(self)@ == old(self)@.push(item),
    {
        self.items.push(item);
    }

    pub fn size(&self) -> (r: usize)
        ensures
            r == self@.len(),
    {
        self.items.len()
    }

    /// The instances, in order.
    pub fn iter(&self) -> (r: &Vec<Arc<IfcBaseClass>>)
        ensures
            r@ == self@,
    {
        &self.items
    }

    /// The `i`-th instance.
    pub fn get(&self, i: usize) -> (r: Arc<IfcBaseClass>)
        requires
            i < self@.len(),
        ensures
            r == self@[i as int],
    {
        share(&self.items[i])
    }

    /// Appends the instances of `other`, in order, when there is one.
    pub fn push_aggregate(&mut self, other: Option<&AggregateOfInstance>)
        ensures
            final(self)@ == old(self)@ + match other {
                Some(o) => o@,
                None => Seq::<Arc<IfcBaseClass>>::empty(),
            },
    {
        match other {
            Some(o) => {
                let mut i: usize = 0;
                while i < o.items.len()
                    invariant
                        i <= o@.len(),
                        self@ == old(self)@ + o@.subrange(0, i as int),
                    decreases o@.len() - i,
                {
                    self.items.push(share(&o.items[i]));
                    i = i + 1;
                    assert(self@ =~= old(self)@ + o@.subrange(0, i as int));
                }
                assert(o@.subrange(0, i as int) =~= o@);
            },
            None => {
                assert(self@ =~= old(self)@ + Seq::<Arc<IfcBaseClass>>::empty());
            },
        }
    }

    /// The instances with each id kept once: of instances with the same id
    /// the first stays; the order is kept.
    pub fn unique(&self) -> (r: AggregateOfInstance)
        ensures
            r@ == unique_by_id(self@, self@.len() as int),
    {
        let mut seen: Vec<usize> = Vec::new();
        let mut out = AggregateOfInstance::new();
        let mut i: usize = 0;
        while i < self.items.len()
            invariant
                i <= self@.len(),
                out@ == unique_by_id(self@, i as int),
                forall|x: usize| seen@.contains(x) <==> (exists|k: int| 0 <= k < i && #[trigger] self@[k].id == x),
            decreases self@.len() - i,
        {
            let id = self.items[i].id;
            let mut j: usize = 0;
            let mut found = false;
            while j < seen.len()
                invariant
                    j <= seen@.len(),
                    found <==> (exists|m: int| 0 <= m < j && seen@[m] == id),
                decreases seen@.len() - j,
            {
                if seen[j] == id {
                    found = true;
                }
                j = j + 1;
            }
            proof {
                if found {
                    let m = choose|m: int| 0 <= m < j && seen@[m] == id;
                    assert(seen@[m] == id);
                }
            }
            let ghost before = seen@;
            if !found {
                seen.push(id);
                out.push(share(&self.items[i]));
            }
            proof {
                assert forall|x: usize| seen@.contains(x) <==> (exists|k: int| 0 <= k < i + 1 && #[trigger] self@[k].id == x) by {
                    if seen@.contains(x) {
                        let m = choose|m: int| 0 <= m < seen@.len() && seen@[m] == x;
                        if m < before.len() {
                            assert(before[m] == x);
                            assert(before.contains(x));
                        } else {
                            assert(x == id);
                            assert(self@[i as int].id == x);
                        }
                    }
                    if exists|k: int| 0 <= k < i + 1 && #[trigger] self@[k].id == x {
                        let k = choose|k: int| 0 <= k < i + 1 && #[trigger] self@[k].id == x;
                        if k < i {
                            assert(before.contains(x));
                            let m = choose|m: int| 0 <= m < before.len() && before[m] == x;
                            assert(seen@[m] == x);
                        } else if found {
                            let m = choose|m: int| 0 <= m < before.len() && before[m] == id;
                            assert(seen@[m] == x);
                        } else {
                            assert(seen@[before.len() as int] == x);
                        }
                    }
                }
                if found {
                    let m = choose|m: int| 0 <= m < before.len() && before[m] == id;
                    assert(before.contains(id));
                    let k = choose|k: int| 0 <= k < i && #[trigger] self@[k].id == id;
                    assert(exists|k: int| 0 <= k < i && #[trigger] self@[k].id == self@[i as int].id);
                } else {
                    assert(!(exists|k: int| 0 <= k < i && #[trigger] self@[k].id == self@[i as int].id)) by {
                        if exists|k: int| 0 <= k < i && #[trigger] self@[k].id == self@[i as int].id {
                            let k = choose|k: int| 0 <= k < i && #[trigger] self@[k].id == self@[i as int].id;
                            assert(before.contains(id));
                            let m = choose|m: int| 0 <= m < before.len() && before[m] == id;
                            assert(seen@[m] == id);
                        }
                    }
                }
            }
            i = i + 1;
        }
        out
    }
}

/// Does an instance of `u` have the id `x`?
pub open spec fn has_id(u: Seq<Arc<IfcBaseClass>>, x: usize) -> bool {
    exists|m: int| 0 <= m < u.len() && #[trigger] u[m].id == x
}

/// No two instances of `u` have the same id.
pub open spec fn distinct_ids(u: Seq<Arc<IfcBaseClass>>) -> bool {
    forall|i: int, j: int| 0 <= i < j < u.len() ==> #[trigger] u[i].id != #[trigger] u[j].id
}

proof fn lemma_unique_by_id(s: Seq<Arc<IfcBaseClass>>, n: int)
    requires
        0 <= n <= s.len(),
    ensures
        distinct_ids(unique_by_id(s, n)),
        forall|k: int| 0 <= k < n ==> has_id(unique_by_id(s, n), #[trigger] s[k].id),
        forall|m: int| 0 <= m < unique_by_id(s, n).len() ==> s.take(n).contains(#[trigger] unique_by_id(s, n)[m]),
    decreases n,
{
    if n > 0 {
        lemma_unique_by_id(s, n - 1);
        let r = unique_by_id(s, n - 1);
        let u = unique_by_id(s, n);
        assert forall|m: int| 0 <= m < r.len() implies s.take(n).contains(#[trigger] r[m]) by {
            assert(s.take(n - 1).contains(r[m]));
            let k = choose|k: int| 0 <= k < n - 1 && #[trigger] s.take(n - 1)[k] == r[m];
            assert(s.take(n)[k] == r[m]);
        }
        if exists|k: int| 0 <= k < n - 1 && #[trigger] s[k].id == s[n - 1].id {
            let k0 = choose|k: int| 0 <= k < n - 1 && #[trigger] s[k].id == s[n - 1].id;
            assert(u == r);
            assert(has_id(r, s[k0].id));
        } else {
            assert(u == r.push(s[n - 1]));
            assert forall|i: int, j: int| 0 <= i < j < u.len() implies #[trigger] u[i].id != #[trigger] u[j].id by {
                if j == u.len() - 1 {
                    assert(u[i] == r[i]);
                    assert(s.take(n - 1).contains(r[i]));
                    let k = choose|k: int| 0 <= k < n - 1 && #[trigger] s.take(n - 1)[k] == r[i];
                    assert(s[k] == r[i]);
                } else {
                    assert(u[i] == r[i] && u[j] == r[j]);
                }
            }
            assert forall|k: int| 0 <= k < n implies has_id(u, #[trigger] s[k].id) by {
                if k == n - 1 {
                    assert(u[u.len() - 1] == s[k]);
                } else {
                    assert(has_id(r, s[k].id));
                    let m = choose|m: int| 0 <= m < r.len() && #[trigger] r[m].id == s[k].id;
                    assert(u[m] == r[m]);
                }
            }
            assert forall|m: int| 0 <= m < u.len() implies s.take(n).contains(#[trigger] u[m]) by {
                if m == u.len() - 1 {
                    assert(s.take(n)[n - 1] == u[m]);
                } else {
                    assert(u[m] == r[m]);
                }
            }
        }
    }
}

/// Keeping each id once leaves no two instances with the same id, keeps
/// an instance for every id of the list, and takes only instances of the
/// list.
pub proof fn law_unique_ids(s: Seq<Arc<IfcBaseClass>>)
    ensures
        distinct_ids(unique_by_id(s, s.len() as int)),
        forall|k: int| 0 <= k < s.len() ==> has_id(unique_by_id(s, s.len() as int), #[trigger] s[k].id),
        forall|m: int|
            0 <= m < unique_by_id(s, s.len() as int).len() ==> s.contains(
                #[trigger] unique_by_id(s, s.len() as int)[m],
            ),
{
    lemma_unique_by_id(s, s.len() as int);
    assert(s.take(s.len() as int) =~= s);
}

/// `Arc::clone`: another pointer to the same instance.
#[verifier::external_body]
fn share(a: &Arc<IfcBaseClass>) -> (r: Arc<IfcBaseClass>)
    ensures
        r == *a,
{
    Arc::clone(a)
}

/// The first `n` instances of `s` with each id kept once: of instances with
/// the same id the first stays; the order is kept.
pub open spec fn unique_by_id(s: Seq<Arc<IfcBaseClass>>, n: int) -> Seq<Arc<IfcBaseClass>>
    decreases n,
{
    if n <= 0 {
        Seq::empty()
    } else {
        let r = unique_by_id(s, n - 1);
        if exists|k: int| 0 <= k < n - 1 && #[trigger] s[k].id == s[n - 1].id {
            r
        } else {
            r.push(s[n - 1])
        }
    }
}

/// A list of lists of instances.
#[derive(Debug, Clone)]
pub struct AggregateOfAggregateOfInstance {
    items: Vec<Vec<Arc<IfcBaseClass>>>,
}

impl View for AggregateOfAggregateOfInstance {
    type V = Seq<Seq<Arc<IfcBaseClass>>>;

    closed spec fn view(&self) -> Seq<Seq<Arc<IfcBaseClass>>> {
        self.items@.map_values(|v: Vec<Arc<IfcBaseClass>>| v@)
    }
}

impl AggregateOfAggregateOfInstance {
    pub fn new() -> (r: Self)
        ensures
            r@ == Seq::<Seq<Arc<IfcBaseClass>>>::empty(),
    {
        let r = Self { items: Vec::new() };
        assert(r@ =~= Seq::<Seq<Arc<IfcBaseClass>>>::empty());
        r
    }

    pub fn push(&mut self, inner: Vec<Arc<IfcBaseClass>>)
        ensures
            final(self)@ == old(self)@.push(inner@),
    {
        self.items.push(inner);
        assert(self@ =~= old(self)@.push(inner@));
    }

    pub fn size(&self) -> (r: usize)
        ensures
            r == self@.len(),
    {
        self.items.len()
    }

    /// The inner lists, in order.
    pub fn iter(&self) -> (r: &Vec<Vec<Arc<IfcBaseClass>>>)
        ensures
            r@.len() == self@.len(),
            forall|i: int| 0 <= i < r@.len() ==> #[trigger] r@[i]@ == self@[i],
    {
        &self.items
    }
}

/// Number of elements of an attribute value: the length of an aggregate,
/// `0` for an empty aggregate, `-1` for a value that is not an aggregate.
pub trait SizeVisitor {
    fn size(&self) -> i32;
}

impl SizeVisitor for Blank {
    fn size(&self) -> (r: i32)
        ensures
            r == -1,
    {
        -1
    }
}

impl SizeVisitor for Derived {
    fn size(&self) -> (r: i32)
        ensures
            r == -1,
    {
        -1
    }
}

impl SizeVisitor for i32 {
    fn size(&self) -> (r: i32)
        ensures
            r == -1,
    {
        -1
    }
}

impl SizeVisitor for bool {
    fn size(&self) -> (r: i32)
        ensures
            r == -1,
    {
        -1
    }
}

impl SizeVisitor for TriBool {
    fn size(&self) -> (r: i32)
        ensures
            r == -1,
    {
        -1
    }
}

impl SizeVisitor for String {
    fn size(&self) -> (r: i32)
        ensures
            r == -1,
    {
        -1
    }
}

impl SizeVisitor for EmptyAggregate {
    fn size(&self) -> (r: i32)
        ensures
            r == 0,
    {
        0
    }
}

impl SizeVisitor for EmptyAggregateOfAggregate {
    fn size(&self) -> (r: i32)
        ensures
            r == 0,
    {
        0
    }
}

impl SizeVisitor for EnumerationReference {
    fn size(&self) -> (r: i32)
        ensures
            r == -1,
    {
        -1
    }
}

impl SizeVisitor for Arc<IfcBaseClass> {
    fn size(&self) -> (r: i32)
        ensures
            r == -1,
    {
        -1
    }
}

impl SizeVisitor for Vec<i32> {
    fn size(&self) -> (r: i32)
        ensures
            r == self@.len() as i32,
    {
        self.len() as i32
    }
}

impl SizeVisitor for Vec<Vec<i32>> {
    fn size(&self) -> (r: i32)
        ensures
            r == self@.len() as i32,
    {
        self.len() as i32
    }
}

impl SizeVisitor for Vec<String> {
    fn size(&self) -> (r: i32)
        ensures
            r == self@.len() as i32,
    {
        self.len() as i32
    }
}

/// The schema a declaration belongs to.
#[derive(Debug, Clone)]
pub struct Schema {
    pub name: String,
    pub is_header: bool,
}

impl Schema {
    pub fn new(name: &str, is_header: bool) -> (r: Self)
        ensures
            r.name@ == name@,
            r.is_header == is_header,
    {
        Self { name: name.to_owned(), is_header }
    }
}

/// The schema of the header section of a STEP file.
pub struct HeaderSectionSchema;

impl HeaderSectionSchema {
    pub fn get_schema() -> (r: Schema)
        ensures
            r.name@ == "header"@,
            r.is_header,
    {
        Schema::new("header", true)
    }
}

/// An entity or type declaration.
#[derive(Debug, Clone)]
pub struct Declaration {
    pub name: String,
    pub schema: Schema,
    pub is_entity: bool,
    pub is_enumeration: bool,
}

impl Declaration {
    pub fn new_entity(name: &str, schema: Schema) -> (r: Self)
        ensures
            r.name@ == name@,
            r.schema == schema,
            r.is_entity,
            !r.is_enumeration,
    {
        Self { name: name.to_owned(), schema, is_entity: true, is_enumeration: false }
    }

    pub fn new_type(name: &str, schema: Schema, is_enum: bool) -> (r: Self)
        ensures
            r.name@ == name@,
            r.schema == schema,
            !r.is_entity,
            r.is_enumeration == is_enum,
    {
        Self { name: name.to_owned(), schema, is_entity: false, is_enumeration: is_enum }
    }

    pub fn schema(&self) -> (r: &Schema)
        ensures
            r == self.schema,
    {
        &self.schema
    }

    pub fn as_entity(&self) -> (r: bool)
        ensures
            r == self.is_entity,
    {
        self.is_entity
    }

    pub fn name(&self) -> (r: &str)
        ensures
            r@ == self.name@,
    {
        self.name.as_str()
    }

    /// The declaration taken as an enumeration type: itself.
    pub fn as_enumeration_type(&self) -> (r: &Self)
        ensures
            r == self,
    {
        self
    }

    /// The symbolic name of the `idx`-th value of this enumeration: the
    /// declaration's name, `#` and the index in decimal.
    pub fn lookup_enum_value(&self, idx: usize) -> (r: String)
        ensures
            r@ == self.name@ + seq!['#'] + decimal(idx as nat),
    {
        let mut out: Vec<char> = Vec::new();
        push_str(&mut out, self.name.as_str());
        out.push('#');
        push_decimal(&mut out, idx as u64);
        string_from_chars(&out)
    }
}

/// The declarations of a schema, in schema order.
#[derive(Debug, Clone)]
pub struct SchemaContainer {
    pub decls: Vec<Declaration>,
}

impl SchemaContainer {
    pub fn new() -> (r: Self)
        ensures
            r.decls@.len() == 0,
    {
        Self { decls: Vec::new() }
    }

    pub fn declarations(&self) -> (r: &Vec<Declaration>)
        ensures
            r == self.decls,
    {
        &self.decls
    }
}

/// The tag bytes of the attribute codec, `A` to `T`.
pub struct TypeEncoder;

impl TypeEncoder {
    pub fn encode_type_blank() -> (r: u8)
        ensures
            r == TAG_BLANK,
    {
        TAG_BLANK
    }

    pub fn encode_type_int() -> (r: u8)
        ensures
            r == TAG_INT,
    {
        TAG_INT
    }

    pub fn encode_type_bool() -> (r: u8)
        ensures
            r == TAG_BOOL,
    {
        TAG_BOOL
    }

    pub fn encode_type_tribool() -> (r: u8)
        ensures
            r == TAG_TRIBOOL,
    {
        TAG_TRIBOOL
    }

    pub fn encode_type_double() -> (r: u8)
        ensures
            r == TAG_DOUBLE,
    {
        TAG_DOUBLE
    }

    pub fn encode_type_string() -> (r: u8)
        ensures
            r == TAG_STRING,
    {
        TAG_STRING
    }

    pub fn encode_type_bitset() -> (r: u8)
        ensures
            r == TAG_BITSET,
    {
        TAG_BITSET
    }

    pub fn encode_type_enumref() -> (r: u8)
        ensures
            r == TAG_ENUMREF,
    {
        TAG_ENUMREF
    }

    pub fn encode_type_ifcptr() -> (r: u8)
        ensures
            r == TAG_IFCPTR,
    {
        TAG_IFCPTR
    }

    pub fn encode_type_vec_int() -> (r: u8)
        ensures
            r == TAG_VEC_INT,
    {
        TAG_VEC_INT
    }

    pub fn encode_type_vec_double() -> (r: u8)
        ensures
            r == TAG_VEC_DOUBLE,
    {
        TAG_VEC_DOUBLE
    }

    pub fn encode_type_vec_vec_int() -> (r: u8)
        ensures
            r == TAG_VEC_VEC_INT,
    {
        TAG_VEC_VEC_INT
    }

    pub fn encode_type_vec_vec_double() -> (r: u8)
        ensures
            r == TAG_VEC_VEC_DOUBLE,
    {
        TAG_VEC_VEC_DOUBLE
    }

    pub fn encode_type_vec_string() -> (r: u8)
        ensures
            r == TAG_VEC_STRING,
    {
        TAG_VEC_STRING
    }

    pub fn encode_type_vec_bitset() -> (r: u8)
        ensures
            r == TAG_VEC_BITSET,
    {
        TAG_VEC_BITSET
    }

    pub fn encode_type_agg_inst() -> (r: u8)
        ensures
            r == TAG_AGG_INST,
    {
        TAG_AGG_INST
    }

    pub fn encode_type_agg_agg_inst() -> (r: u8)
        ensures
            r == TAG_AGG_AGG_INST,
    {
        TAG_AGG_AGG_INST
    }

    pub fn encode_type_derived() -> (r: u8)
        ensures
            r == TAG_DERIVED,
    {
        TAG_DERIVED
    }

    pub fn encode_type_empty_agg() -> (r: u8)
        ensures
            r == TAG_EMPTY_AGG,
    {
        TAG_EMPTY_AGG
    }

    pub fn encode_type_empty_agg_agg() -> (r: u8)
        ensures
            r == TAG_EMPTY_AGG_AGG,
    {
        TAG_EMPTY_AGG_AGG
    }

    /// Position of a tag byte in the alphabet of tags.
    pub fn to_index(c: u8) -> (r: usize)
        requires
            c >= TAG_BLANK,
        ensures
            r == c - TAG_BLANK,
    {
        (c - TAG_BLANK) as usize
    }
}

/// The kinds of attribute value that a value read from the attribute store
/// can be tested for.
#[derive(Clone, Copy, Debug, PartialEq, Eq, Structural)]
pub enum ValueKind {
    Blank,
    Int,
    Bool,
    Tribool,
    Double,
    String,
    Bitset,
    EnumRef,
    IfcPtr,
    AggInst,
    AggAggInst,
    /// Any other kind (lists of simple values among them): the store tests
    /// it against the tag of a blank.
    Other,
}

/// The tag that a value of kind `k` is recognized by in the store.
pub open spec fn kind_tag(k: ValueKind) -> u8 {
    match k {
        ValueKind::Int => TAG_INT,
        ValueKind::Bool => TAG_BOOL,
        ValueKind::Tribool => TAG_TRIBOOL,
        ValueKind::Double => TAG_DOUBLE,
        ValueKind::String => TAG_STRING,
        ValueKind::Bitset => TAG_BITSET,
        ValueKind::EnumRef => TAG_ENUMREF,
        ValueKind::IfcPtr => TAG_IFCPTR,
        ValueKind::AggInst => TAG_AGG_INST,
        ValueKind::AggAggInst => TAG_AGG_AGG_INST,
        _ => TAG_BLANK,
    }
}

/// Whether a value read from the attribute store holds a value of kind
/// `k`: nothing read holds nothing; a blank is an empty value; any other
/// kind is recognized by the tag byte that starts the value.
pub open spec fn spec_stored_has(value: Option<Seq<u8>>, k: ValueKind) -> bool {
    match value {
        None => false,
        Some(v) => if k == ValueKind::Blank {
            v.len() == 0
        } else {
            v.len() > 0 && v[0] == kind_tag(k)
        },
    }
}

/// Whether a value read from the attribute store holds a value of kind `k`
/// (see `spec_stored_has`).
pub fn stored_value_has(value: Option<&[u8]>, k: ValueKind) -> (r: bool)
    ensures
        r == spec_stored_has(
            match value {
                Some(v) => Some(v@),
                None => None,
            },
            k,
        ),
{
    match value {
        None => false,
        Some(v) => {
            if k == ValueKind::Blank {
                return v.len() == 0;
            }
            if v.len() == 0 {
                return false;
            }
            let target = match k {
                ValueKind::Int => TypeEncoder::encode_type_int(),
                ValueKind::Bool => TypeEncoder::encode_type_bool(),
                ValueKind::Tribool => TypeEncoder::encode_type_tribool(),
                ValueKind::Double => TypeEncoder::encode_type_double(),
                ValueKind::String => TypeEncoder::encode_type_string(),
                ValueKind::Bitset => TypeEncoder::encode_type_bitset(),
                ValueKind::EnumRef => TypeEncoder::encode_type_enumref(),
                ValueKind::IfcPtr => TypeEncoder::encode_type_ifcptr(),
                ValueKind::AggInst => TypeEncoder::encode_type_agg_inst(),
                ValueKind::AggAggInst => TypeEncoder::encode_type_agg_agg_inst(),
                _ => TypeEncoder::encode_type_blank(),
            };
            v[0] == target
        },
    }
}

} // verus!
