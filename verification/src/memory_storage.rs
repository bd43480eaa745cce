//! Attribute values of an instance held in memory, one slot per attribute,
//! with the type index and type test of each slot.
use std::sync::Arc;
use vstd::prelude::*;
use crate::bitset_codec::Bits;
use crate::entity_data::{
    AggregateOfAggregateOfInstance, AggregateOfInstance, Blank, Derived, EmptyAggregate, EmptyAggregateOfAggregate,
    EnumerationReference, IfcBaseClass, TriBool, TypeEncoder, TAG_AGG_AGG_INST, TAG_AGG_INST, TAG_BITSET, TAG_BLANK,
    TAG_BOOL, TAG_DERIVED, TAG_DOUBLE, TAG_EMPTY_AGG, TAG_EMPTY_AGG_AGG, TAG_ENUMREF, TAG_IFCPTR, TAG_INT, TAG_STRING,
    TAG_TRIBOOL, TAG_VEC_BITSET, TAG_VEC_DOUBLE, TAG_VEC_INT, TAG_VEC_STRING, TAG_VEC_VEC_DOUBLE, TAG_VEC_VEC_INT,
};
use crate::attribute_codec::{
    spec_ser_bool, spec_ser_i32, spec_ser_string, spec_ser_vec_i32, spec_ser_vec_string, spec_ser_vec_vec_i32,
    spec_serialize_agg_agg_inst, spec_serialize_agg_inst, spec_serialize_enumref, spec_serialize_ifcptr,
    spec_serialize_tribool, spec_stored_type_index, stored_type_index,
};
use crate::bitset_codec::{bits_list, bits_of, spec_ser_vec_bitset, spec_serialize_bitset};
use crate::bytes::ByteOrder;
use crate::entity_data::Declaration;
use crate::entity_data::{spec_stored_has, stored_value_has, ValueKind};
use crate::valuation::Real;

verus! {

/// An attribute value held in memory. A real number is held by what stands
/// for it (see `Real`).
pub enum AnyValue {
    Blank(Blank),
    Derived(Derived),
    Int(i32),
    Bool(bool),
    Tri(TriBool),
    Double(Real),
    Str(String),
    Bitset(Bits),
    EmptyAgg(EmptyAggregate),
    EmptyAggAgg(EmptyAggregateOfAggregate),
    VecInt(Vec<i32>),
    VecDouble(Vec<Real>),
    VecVecInt(Vec<Vec<i32>>),
    VecVecDouble(Vec<Vec<Real>>),
    VecStr(Vec<String>),
    VecBitset(Vec<Bits>),
    EnumRef(EnumerationReference),
    IfcPtr(Arc<IfcBaseClass>),
    AggInst(AggregateOfInstance),
    AggAggInst(AggregateOfAggregateOfInstance),
}

/// The types of value a slot can hold, one for each variant of `AnyValue`.
#[derive(Debug, Clone, Copy, PartialEq, Eq, Structural)]
pub enum AnyKind {
    Blank,
    Derived,
    Int,
    Bool,
    Tri,
    Double,
    Str,
    Bitset,
    EmptyAgg,
    EmptyAggAgg,
    VecInt,
    VecDouble,
    VecVecInt,
    VecVecDouble,
    VecStr,
    VecBitset,
    EnumRef,
    IfcPtr,
    AggInst,
    AggAggInst,
}

/// The type of a value.
pub open spec fn kind_of(v: AnyValue) -> AnyKind {
    match v {
        AnyValue::Blank(_) => AnyKind::Blank,
        AnyValue::Derived(_) => AnyKind::Derived,
        AnyValue::Int(_) => AnyKind::Int,
        AnyValue::Bool(_) => AnyKind::Bool,
        AnyValue::Tri(_) => AnyKind::Tri,
        AnyValue::Double(_) => AnyKind::Double,
        AnyValue::Str(_) => AnyKind::Str,
        AnyValue::Bitset(_) => AnyKind::Bitset,
        AnyValue::EmptyAgg(_) => AnyKind::EmptyAgg,
        AnyValue::EmptyAggAgg(_) => AnyKind::EmptyAggAgg,
        AnyValue::VecInt(_) => AnyKind::VecInt,
        AnyValue::VecDouble(_) => AnyKind::VecDouble,
        AnyValue::VecVecInt(_) => AnyKind::VecVecInt,
        AnyValue::VecVecDouble(_) => AnyKind::VecVecDouble,
        AnyValue::VecStr(_) => AnyKind::VecStr,
        AnyValue::VecBitset(_) => AnyKind::VecBitset,
        AnyValue::EnumRef(_) => AnyKind::EnumRef,
        AnyValue::IfcPtr(_) => AnyKind::IfcPtr,
        AnyValue::AggInst(_) => AnyKind::AggInst,
        AnyValue::AggAggInst(_) => AnyKind::AggAggInst,
    }
}

/// The tag byte of the attribute codec for values of a type.
pub open spec fn tag_of_kind(k: AnyKind) -> u8 {
    match k {
        AnyKind::Blank => TAG_BLANK,
        AnyKind::Derived => TAG_DERIVED,
        AnyKind::Int => TAG_INT,
        AnyKind::Bool => TAG_BOOL,
        AnyKind::Tri => TAG_TRIBOOL,
        AnyKind::Double => TAG_DOUBLE,
        AnyKind::Str => TAG_STRING,
        AnyKind::Bitset => TAG_BITSET,
        AnyKind::EmptyAgg => TAG_EMPTY_AGG,
        AnyKind::EmptyAggAgg => TAG_EMPTY_AGG_AGG,
        AnyKind::VecInt => TAG_VEC_INT,
        AnyKind::VecDouble => TAG_VEC_DOUBLE,
        AnyKind::VecVecInt => TAG_VEC_VEC_INT,
        AnyKind::VecVecDouble => TAG_VEC_VEC_DOUBLE,
        AnyKind::VecStr => TAG_VEC_STRING,
        AnyKind::VecBitset => TAG_VEC_BITSET,
        AnyKind::EnumRef => TAG_ENUMREF,
        AnyKind::IfcPtr => TAG_IFCPTR,
        AnyKind::AggInst => TAG_AGG_INST,
        AnyKind::AggAggInst => TAG_AGG_AGG_INST,
    }
}

/// The slots after `v` is set at `idx`: slots missing before `idx` are
/// added as blanks; the others keep their values.
pub open spec fn slot_set(slots: Seq<AnyValue>, idx: int, v: AnyValue) -> Seq<AnyValue> {
    let grown = if idx < slots.len() {
        slots
    } else {
        slots + Seq::new((idx + 1 - slots.len()) as nat, |i: int| AnyValue::Blank(Blank))
    };
    grown.update(idx, v)
}

/// The bytes under which the attribute codec stores a value, in byte order
/// `order` and with the declarations `decls` of the schema; none for real
/// numbers, whose encoding is not part of this library.
pub open spec fn codec_bytes(v: AnyValue, decls: Seq<Declaration>, order: ByteOrder) -> Option<Seq<u8>> {
    match v {
        AnyValue::Blank(_) => Some(seq![TAG_BLANK]),
        AnyValue::Derived(_) => Some(seq![TAG_DERIVED]),
        AnyValue::Int(i) => Some(spec_ser_i32(i, order)),
        AnyValue::Bool(b) => Some(spec_ser_bool(b)),
        AnyValue::Tri(t) => Some(spec_serialize_tribool(t)),
        AnyValue::Double(_) => None,
        AnyValue::Str(x) => Some(spec_ser_string(x@)),
        AnyValue::Bitset(b) => Some(spec_serialize_bitset(bits_of(b))),
        AnyValue::EmptyAgg(_) => Some(seq![TAG_EMPTY_AGG]),
        AnyValue::EmptyAggAgg(_) => Some(seq![TAG_EMPTY_AGG_AGG]),
        AnyValue::VecInt(x) => Some(spec_ser_vec_i32(x@, order)),
        AnyValue::VecDouble(_) => None,
        AnyValue::VecVecInt(x) => Some(spec_ser_vec_vec_i32(x@.map_values(|r: Vec<i32>| r@), order)),
        AnyValue::VecVecDouble(_) => None,
        AnyValue::VecStr(x) => Some(spec_ser_vec_string(x@.map_values(|t: String| t@), order)),
        AnyValue::VecBitset(x) => Some(spec_ser_vec_bitset(bits_list(x@), order)),
        AnyValue::EnumRef(e) => Some(spec_serialize_enumref(e@, decls, order)),
        AnyValue::IfcPtr(p) => Some(spec_serialize_ifcptr(*p, order)),
        AnyValue::AggInst(a) => Some(spec_serialize_agg_inst(a@, order)),
        AnyValue::AggAggInst(a) => Some(spec_serialize_agg_agg_inst(a@, order)),
    }
}

/// The type index of a slot held in memory (what `index` gives) is the one
/// the attribute codec reads from the bytes of the same value: a string is
/// indexed as a string, a list of integers as a list of integers, and so on
/// for every value the codec encodes.
pub proof fn law_slot_index_is_codec_index(
    s: MemoryAttributeStorage,
    idx: int,
    decls: Seq<Declaration>,
    order: ByteOrder,
)
    requires
        0 <= idx < s.slots@.len(),
    ensures
        codec_bytes(s.slots@[idx], decls, order) matches Some(b) ==> tag_of_kind(kind_of(s.slots@[idx])) - TAG_BLANK
            == spec_stored_type_index(Some(b)),
{
}

/// Values of different types carry different tags, so the type index of
/// a slot tells its type.
pub proof fn law_kinds_have_distinct_tags(a: AnyKind, b: AnyKind)
    ensures
        a != b ==> tag_of_kind(a) != tag_of_kind(b),
{
}

/// The attribute values of an instance, one slot per attribute index.
pub struct MemoryAttributeStorage {
    pub slots: Vec<AnyValue>,
}

impl MemoryAttributeStorage {
    pub fn new() -> (r: Self)
        ensures
            r.slots@.len() == 0,
    {
        Self { slots: Vec::new() }
    }

    /// Holds `v` at `idx`, adding blank slots up to it when there are fewer.
    pub fn set(&mut self, idx: usize, v: AnyValue)
        requires
            idx < usize::MAX,
        ensures
            final(self).slots@ == slot_set(old(self).slots@, idx as int, v),
    {
        let ghost before = self.slots@;
        if idx >= self.slots.len() {
            while self.slots.len() < idx + 1
                invariant
                    idx < usize::MAX,
                    before.len() <= idx,
                    before.len() <= self.slots@.len() <= idx + 1,
                    self.slots@ == before + Seq::new(
                        (self.slots@.len() - before.len()) as nat,
                        |i: int| AnyValue::Blank(Blank),
                    ),
                decreases idx + 1 - self.slots@.len(),
            {
                let ghost prev = self.slots@;
                self.slots.push(AnyValue::Blank(Blank));
                assert(self.slots@ =~= before + Seq::new(
                    (self.slots@.len() - before.len()) as nat,
                    |i: int| AnyValue::Blank(Blank),
                ));
            }
        }
        self.slots.set(idx, v);
    }

    /// The position, among the tags of the attribute codec, of the tag of
    /// the value at `idx`; that of a blank when there is no slot there.
    pub fn index(&self, idx: usize) -> (r: usize)
        ensures
            r == (if idx < self.slots@.len() {
                tag_of_kind(kind_of(self.slots@[idx as int]))
            } else {
                TAG_BLANK
            }) - TAG_BLANK,
    {
        if idx >= self.slots.len() {
            return TypeEncoder::to_index(TypeEncoder::encode_type_blank());
        }
        match &self.slots[idx] {
            AnyValue::Blank(_) => TypeEncoder::to_index(TypeEncoder::encode_type_blank()),
            AnyValue::Derived(_) => TypeEncoder::to_index(TypeEncoder::encode_type_derived()),
            AnyValue::Int(_) => TypeEncoder::to_index(TypeEncoder::encode_type_int()),
            AnyValue::Bool(_) => TypeEncoder::to_index(TypeEncoder::encode_type_bool()),
            AnyValue::Tri(_) => TypeEncoder::to_index(TypeEncoder::encode_type_tribool()),
            AnyValue::Double(_) => TypeEncoder::to_index(TypeEncoder::encode_type_double()),
            AnyValue::Str(_) => TypeEncoder::to_index(TypeEncoder::encode_type_string()),
            AnyValue::Bitset(_) => TypeEncoder::to_index(TypeEncoder::encode_type_bitset()),
            AnyValue::EmptyAgg(_) => TypeEncoder::to_index(TypeEncoder::encode_type_empty_agg()),
            AnyValue::EmptyAggAgg(_) => TypeEncoder::to_index(TypeEncoder::encode_type_empty_agg_agg()),
            AnyValue::VecInt(_) => TypeEncoder::to_index(TypeEncoder::encode_type_vec_int()),
            AnyValue::VecDouble(_) => TypeEncoder::to_index(TypeEncoder::encode_type_vec_double()),
            AnyValue::VecVecInt(_) => TypeEncoder::to_index(TypeEncoder::encode_type_vec_vec_int()),
            AnyValue::VecVecDouble(_) => TypeEncoder::to_index(TypeEncoder::encode_type_vec_vec_double()),
            AnyValue::VecStr(_) => TypeEncoder::to_index(TypeEncoder::encode_type_vec_string()),
            AnyValue::VecBitset(_) => TypeEncoder::to_index(TypeEncoder::encode_type_vec_bitset()),
            AnyValue::EnumRef(_) => TypeEncoder::to_index(TypeEncoder::encode_type_enumref()),
            AnyValue::IfcPtr(_) => TypeEncoder::to_index(TypeEncoder::encode_type_ifcptr()),
            AnyValue::AggInst(_) => TypeEncoder::to_index(TypeEncoder::encode_type_agg_inst()),
            AnyValue::AggAggInst(_) => TypeEncoder::to_index(TypeEncoder::encode_type_agg_agg_inst()),
        }
    }

    /// Does the slot at `idx` hold a value of type `kind`? Never where there
    /// is no slot.
    pub fn has(&self, idx: usize, kind: AnyKind) -> (r: bool)
        ensures
            r == (idx < self.slots@.len() && kind_of(self.slots@[idx as int]) == kind),
    {
        if idx < self.slots.len() {
            let held = match &self.slots[idx] {
                AnyValue::Blank(_) => AnyKind::Blank,
                AnyValue::Derived(_) => AnyKind::Derived,
                AnyValue::Int(_) => AnyKind::Int,
                AnyValue::Bool(_) => AnyKind::Bool,
                AnyValue::Tri(_) => AnyKind::Tri,
                AnyValue::Double(_) => AnyKind::Double,
                AnyValue::Str(_) => AnyKind::Str,
                AnyValue::Bitset(_) => AnyKind::Bitset,
                AnyValue::EmptyAgg(_) => AnyKind::EmptyAgg,
                AnyValue::EmptyAggAgg(_) => AnyKind::EmptyAggAgg,
                AnyValue::VecInt(_) => AnyKind::VecInt,
                AnyValue::VecDouble(_) => AnyKind::VecDouble,
                AnyValue::VecVecInt(_) => AnyKind::VecVecInt,
                AnyValue::VecVecDouble(_) => AnyKind::VecVecDouble,
                AnyValue::VecStr(_) => AnyKind::VecStr,
                AnyValue::VecBitset(_) => AnyKind::VecBitset,
                AnyValue::EnumRef(_) => AnyKind::EnumRef,
                AnyValue::IfcPtr(_) => AnyKind::IfcPtr,
                AnyValue::AggInst(_) => AnyKind::AggInst,
                AnyValue::AggAggInst(_) => AnyKind::AggAggInst,
            };
            return held == kind;
        }
        false
    }

    /// The value at `idx`; `None` where there is no slot.
    pub fn get(&self, idx: usize) -> (r: Option<&AnyValue>)
        ensures
            idx < self.slots@.len() ==> r == Some(&self.slots@[idx as int]),
            idx >= self.slots@.len() ==> r is None,
    {
        if idx < self.slots.len() {
            Some(&self.slots[idx])
        } else {
            None
        }
    }

    pub fn set_int(&mut self, idx: usize, v: i32)
        requires
            idx < usize::MAX,
        ensures
            final(self).slots@ == slot_set(old(self).slots@, idx as int, AnyValue::Int(v)),
    {
        self.set(idx, AnyValue::Int(v));
    }

    pub fn set_bool(&mut self, idx: usize, v: bool)
        requires
            idx < usize::MAX,
        ensures
            final(self).slots@ == slot_set(old(self).slots@, idx as int, AnyValue::Bool(v)),
    {
        self.set(idx, AnyValue::Bool(v));
    }

    pub fn set_double(&mut self, idx: usize, v: Real)
        requires
            idx < usize::MAX,
        ensures
            final(self).slots@ == slot_set(old(self).slots@, idx as int, AnyValue::Double(v)),
    {
        self.set(idx, AnyValue::Double(v));
    }

    pub fn set_string(&mut self, idx: usize, v: String)
        requires
            idx < usize::MAX,
        ensures
            final(self).slots@ == slot_set(old(self).slots@, idx as int, AnyValue::Str(v)),
    {
        self.set(idx, AnyValue::Str(v));
    }

    pub fn set_tribool(&mut self, idx: usize, v: TriBool)
        requires
            idx < usize::MAX,
        ensures
            final(self).slots@ == slot_set(old(self).slots@, idx as int, AnyValue::Tri(v)),
    {
        self.set(idx, AnyValue::Tri(v));
    }

    pub fn set_bitset(&mut self, idx: usize, v: Bits)
        requires
            idx < usize::MAX,
        ensures
            final(self).slots@ == slot_set(old(self).slots@, idx as int, AnyValue::Bitset(v)),
    {
        self.set(idx, AnyValue::Bitset(v));
    }

    pub fn set_enumref(&mut self, idx: usize, v: EnumerationReference)
        requires
            idx < usize::MAX,
        ensures
            final(self).slots@ == slot_set(old(self).slots@, idx as int, AnyValue::EnumRef(v)),
    {
        self.set(idx, AnyValue::EnumRef(v));
    }

    pub fn set_ifcptr(&mut self, idx: usize, v: Arc<IfcBaseClass>)
        requires
            idx < usize::MAX,
        ensures
            final(self).slots@ == slot_set(old(self).slots@, idx as int, AnyValue::IfcPtr(v)),
    {
        self.set(idx, AnyValue::IfcPtr(v));
    }

    pub fn set_vec_int(&mut self, idx: usize, v: Vec<i32>)
        requires
            idx < usize::MAX,
        ensures
            final(self).slots@ == slot_set(old(self).slots@, idx as int, AnyValue::VecInt(v)),
    {
        self.set(idx, AnyValue::VecInt(v));
    }

    pub fn set_vec_double(&mut self, idx: usize, v: Vec<Real>)
        requires
            idx < usize::MAX,
        ensures
            final(self).slots@ == slot_set(old(self).slots@, idx as int, AnyValue::VecDouble(v)),
    {
        self.set(idx, AnyValue::VecDouble(v));
    }

    pub fn set_vec_vec_int(&mut self, idx: usize, v: Vec<Vec<i32>>)
        requires
            idx < usize::MAX,
        ensures
            final(self).slots@ == slot_set(old(self).slots@, idx as int, AnyValue::VecVecInt(v)),
    {
        self.set(idx, AnyValue::VecVecInt(v));
    }

    pub fn set_vec_vec_double(&mut self, idx: usize, v: Vec<Vec<Real>>)
        requires
            idx < usize::MAX,
        ensures
            final(self).slots@ == slot_set(old(self).slots@, idx as int, AnyValue::VecVecDouble(v)),
    {
        self.set(idx, AnyValue::VecVecDouble(v));
    }

    pub fn set_vec_string(&mut self, idx: usize, v: Vec<String>)
        requires
            idx < usize::MAX,
        ensures
            final(self).slots@ == slot_set(old(self).slots@, idx as int, AnyValue::VecStr(v)),
    {
        self.set(idx, AnyValue::VecStr(v));
    }

    pub fn set_vec_bitset(&mut self, idx: usize, v: Vec<Bits>)
        requires
            idx < usize::MAX,
        ensures
            final(self).slots@ == slot_set(old(self).slots@, idx as int, AnyValue::VecBitset(v)),
    {
        self.set(idx, AnyValue::VecBitset(v));
    }

    pub fn set_agg_inst(&mut self, idx: usize, v: AggregateOfInstance)
        requires
            idx < usize::MAX,
        ensures
            final(self).slots@ == slot_set(old(self).slots@, idx as int, AnyValue::AggInst(v)),
    {
        self.set(idx, AnyValue::AggInst(v));
    }

    pub fn set_agg_agg_inst(&mut self, idx: usize, v: AggregateOfAggregateOfInstance)
        requires
            idx < usize::MAX,
        ensures
            final(self).slots@ == slot_set(old(self).slots@, idx as int, AnyValue::AggAggInst(v)),
    {
        self.set(idx, AnyValue::AggAggInst(v));
    }
}

/// The kind that the attribute store recognizes a value of type `k` by:
/// the types it has no tag test for are tested as blanks are.
pub open spec fn stored_kind(k: AnyKind) -> ValueKind {
    match k {
        AnyKind::Blank => ValueKind::Blank,
        AnyKind::Int => ValueKind::Int,
        AnyKind::Bool => ValueKind::Bool,
        AnyKind::Tri => ValueKind::Tribool,
        AnyKind::Double => ValueKind::Double,
        AnyKind::Str => ValueKind::String,
        AnyKind::Bitset => ValueKind::Bitset,
        AnyKind::EnumRef => ValueKind::EnumRef,
        AnyKind::IfcPtr => ValueKind::IfcPtr,
        AnyKind::AggInst => ValueKind::AggInst,
        AnyKind::AggAggInst => ValueKind::AggAggInst,
        _ => ValueKind::Other,
    }
}

fn stored_kind_of(k: AnyKind) -> (r: ValueKind)
    ensures
        r == stored_kind(k),
{
    match k {
        AnyKind::Blank => ValueKind::Blank,
        AnyKind::Int => ValueKind::Int,
        AnyKind::Bool => ValueKind::Bool,
        AnyKind::Tri => ValueKind::Tribool,
        AnyKind::Double => ValueKind::Double,
        AnyKind::Str => ValueKind::String,
        AnyKind::Bitset => ValueKind::Bitset,
        AnyKind::EnumRef => ValueKind::EnumRef,
        AnyKind::IfcPtr => ValueKind::IfcPtr,
        AnyKind::AggInst => ValueKind::AggInst,
        AnyKind::AggAggInst => ValueKind::AggAggInst,
        _ => ValueKind::Other,
    }
}

/// The optional bytes as contracts see them.
pub open spec fn bytes_view(stored: Option<&[u8]>) -> Option<Seq<u8>> {
    match stored {
        Some(v) => Some(v@),
        None => None,
    }
}

/// The position of the tag of the value of attribute `index`: from the
/// slots held in memory under storage model `0`, otherwise from the value
/// `stored` read from the attribute store under the attribute's key (see
/// `attribute_key`).
pub fn dispatch_index_(storage: &MemoryAttributeStorage, storage_model: u8, stored: Option<&[u8]>, index: u8) -> (r: usize)
    requires
        storage_model != 0 ==> (stored matches Some(v) ==> (v@.len() > 0 ==> v@[0] >= TAG_BLANK)),
    ensures
        storage_model == 0 ==> r == (if (index as int) < storage.slots@.len() {
            tag_of_kind(kind_of(storage.slots@[index as int]))
        } else {
            TAG_BLANK
        }) - TAG_BLANK,
        storage_model != 0 ==> r == spec_stored_type_index(bytes_view(stored)),
{
    if storage_model == 0 {
        storage.index(index as usize)
    } else {
        stored_type_index(stored)
    }
}

/// Does attribute `index` hold a value of type `kind`: in the slots held in
/// memory under storage model `0`, otherwise in the value `stored` read
/// from the attribute store?
pub fn dispatch_has_(storage: &MemoryAttributeStorage, storage_model: u8, stored: Option<&[u8]>, index: u8, kind: AnyKind) -> (r: bool)
    ensures
        storage_model == 0 ==> r == ((index as int) < storage.slots@.len() && kind_of(
            storage.slots@[index as int],
        ) == kind),
        storage_model != 0 ==> r == spec_stored_has(bytes_view(stored), stored_kind(kind)),
{
    if storage_model == 0 {
        storage.has(index as usize, kind)
    } else {
        stored_value_has(stored, stored_kind_of(kind))
    }
}

/// What is set at an index is held there, with the type it was set with,
/// and the other slots keep their values and types.
pub proof fn law_set_then_get(slots: Seq<AnyValue>, idx: int, v: AnyValue, other: int)
    requires
        0 <= idx,
        0 <= other < slots.len(),
        other != idx,
    ensures
        slot_set(slots, idx, v)[idx] == v,
        slot_set(slots, idx, v).len() == if idx < slots.len() {
            slots.len() as int
        } else {
            idx + 1
        },
        slot_set(slots, idx, v)[other] == slots[other],
{
}

} // verus!
