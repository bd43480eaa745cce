//! Reading an attribute value back: from the slots held in memory, or by
//! decoding the bytes stored under the attribute's key.
use vstd::prelude::*;
use crate::attribute_codec::{
    check_agg_agg_inst_fits, check_agg_inst_fits, deserialize_agg_agg_inst_fits, deserialize_agg_agg_inst_in,
    deserialize_agg_inst_fits, deserialize_agg_inst_in, deserialize_enumref_fits, deserialize_enumref_in,
    deserialize_tribool, generic_groups, generic_instance, generic_instances, in_some_order, ref_at,
    spec_deserialize_agg_agg_inst, spec_deserialize_agg_inst, spec_deserialize_enumref, spec_deserialize_tribool,
    spec_serialize_ifcptr,
};
use crate::bitset_codec::{bits_of, deserialize_bitset, max_bits, spec_deserialize_bitset};
use crate::bytes::{lemma_usize_roundtrip, native_byte_order, read_usize_at, usize_width, ByteOrder};
use crate::entity_data::{inst_ref, is_generic_instance, Declaration, IfcBaseClass, SchemaContainer, TAG_IFCPTR};
use crate::memory_storage::{AnyKind, AnyValue, MemoryAttributeStorage};

verus! {

/// A value read back: one held in memory, or one decoded from stored bytes.
pub enum Fetched<'a> {
    Held(&'a AnyValue),
    Stored(AnyValue),
}

/// The decoded value of a read, if it gave one.
pub open spec fn stored_value(r: Option<Fetched<'_>>) -> Option<AnyValue> {
    match r {
        Some(Fetched::Stored(v)) => Some(v),
        _ => None,
    }
}

/// The types of value that can be read back from stored bytes.
pub open spec fn stored_kind(kind: AnyKind) -> bool {
    ||| kind is EnumRef
    ||| kind is IfcPtr
    ||| kind is AggInst
    ||| kind is AggAggInst
    ||| kind is Tri
    ||| kind is Bitset
}

/// Decoding a reference to an instance reads its kind byte and its number
/// after the tag.
pub open spec fn deserialize_ifcptr_fits(buf: Seq<u8>) -> bool {
    buf.len() == 0 || buf[0] != TAG_IFCPTR || buf.len() >= 2 + usize_width()
}

/// The reference (entity or type, number) of a decoded instance reference.
pub open spec fn spec_deserialize_ifcptr(buf: Seq<u8>, order: ByteOrder) -> Option<(bool, usize)> {
    if buf.len() == 0 || buf[0] != TAG_IFCPTR {
        None
    } else {
        Some(ref_at(buf, 1, order))
    }
}

/// Reading stored bytes as a value of type `kind` stays inside them.
pub open spec fn stored_readable(buf: Seq<u8>, kind: AnyKind) -> bool {
    match kind {
        AnyKind::EnumRef => deserialize_enumref_fits(buf),
        AnyKind::IfcPtr => deserialize_ifcptr_fits(buf),
        AnyKind::Bitset => buf.len() <= max_bits(),
        _ => true,
    }
}

/// `r` is the value of type `kind` decoded from `buf` in byte order `order`
/// (instances as the generic instances that their references name), or none
/// when the bytes hold no such value.
pub open spec fn decoded_as(
    decls: Seq<Declaration>,
    buf: Seq<u8>,
    kind: AnyKind,
    order: ByteOrder,
    r: Option<AnyValue>,
) -> bool {
    match kind {
        AnyKind::EnumRef => match spec_deserialize_enumref(buf, decls, order) {
            Some(e) => r matches Some(AnyValue::EnumRef(x)) && x@ == e,
            None => r is None,
        },
        AnyKind::IfcPtr => match spec_deserialize_ifcptr(buf, order) {
            Some(id) => r matches Some(AnyValue::IfcPtr(p)) && is_generic_instance(*p, id),
            None => r is None,
        },
        AnyKind::AggInst => if !deserialize_agg_inst_fits(buf, order) {
            r is None
        } else {
            match spec_deserialize_agg_inst(buf, order) {
                Some(ids) => r matches Some(AnyValue::AggInst(a)) && generic_instances(a@, ids),
                None => r is None,
            }
        },
        AnyKind::AggAggInst => if !deserialize_agg_agg_inst_fits(buf, order) {
            r is None
        } else {
            match spec_deserialize_agg_agg_inst(buf, order) {
                Some(ids) => r matches Some(AnyValue::AggAggInst(a)) && generic_groups(a@, ids),
                None => r is None,
            }
        },
        AnyKind::Tri => match spec_deserialize_tribool(buf) {
            Some(t) => r == Some(AnyValue::Tri(t)),
            None => r is None,
        },
        AnyKind::Bitset => match spec_deserialize_bitset(buf) {
            Some(bits) => r matches Some(AnyValue::Bitset(b)) && bits_of(b) == bits,
            None => r is None,
        },
        _ => r is None,
    }
}

/// Decodes stored bytes in byte order `order` as a value of type `kind`.
pub fn decode_stored_in(schema: &SchemaContainer, buf: &[u8], kind: AnyKind, order: ByteOrder) -> (r: Option<
    AnyValue,
>)
    requires
        stored_kind(kind),
        stored_readable(buf@, kind),
    ensures
        decoded_as(schema.decls@, buf@, kind, order, r),
{
    match kind {
        AnyKind::EnumRef => match deserialize_enumref_in(schema, buf, order) {
            Some(e) => Some(AnyValue::EnumRef(e)),
            None => None,
        },
        AnyKind::IfcPtr => {
            if buf.len() == 0 || buf[0] != TAG_IFCPTR {
                None
            } else {
                let entity = buf[1] == 105u8;
                let id = read_usize_at(buf, 2, order);
                Some(AnyValue::IfcPtr(generic_instance(entity, id)))
            }
        },
        AnyKind::AggInst => {
            if !check_agg_inst_fits(buf, order) {
                None
            } else {
                match deserialize_agg_inst_in(buf, order) {
                    Some(a) => Some(AnyValue::AggInst(a)),
                    None => None,
                }
            }
        },
        AnyKind::AggAggInst => {
            if !check_agg_agg_inst_fits(buf, order) {
                None
            } else {
                match deserialize_agg_agg_inst_in(buf, order) {
                    Some(a) => Some(AnyValue::AggAggInst(a)),
                    None => None,
                }
            }
        },
        AnyKind::Tri => match deserialize_tribool(buf) {
            Some(t) => Some(AnyValue::Tri(t)),
            None => None,
        },
        _ => match deserialize_bitset(buf) {
            Some(b) => Some(AnyValue::Bitset(b)),
            None => None,
        },
    }
}

/// Reads attribute `index` back. With storage model `0` it is the value held
/// in memory at `index`, none when there is no slot there; otherwise it is
/// `stored`, the bytes stored under the attribute's key (empty when there are
/// none), decoded in byte order `order` as a value of type `kind`, none when
/// they hold no such value.
pub fn dispatch_get_in<'a>(
    storage: &'a MemoryAttributeStorage,
    storage_model: u8,
    schema: &SchemaContainer,
    stored: &[u8],
    index: u8,
    kind: AnyKind,
    order: ByteOrder,
) -> (r: Option<Fetched<'a>>)
    requires
        storage_model != 0 ==> stored_kind(kind) && stored_readable(stored@, kind),
    ensures
        storage_model == 0 ==> r == if (index as int) < storage.slots@.len() {
            Some(Fetched::Held(&storage.slots@[index as int]))
        } else {
            None
        },
        storage_model != 0 ==> !(r matches Some(Fetched::Held(_))) && decoded_as(
            schema.decls@,
            stored@,
            kind,
            order,
            stored_value(r),
        ),
{
    if storage_model == 0 {
        match storage.get(index as usize) {
            Some(v) => Some(Fetched::Held(v)),
            None => None,
        }
    } else {
        match decode_stored_in(schema, stored, kind, order) {
            Some(v) => Some(Fetched::Stored(v)),
            None => None,
        }
    }
}

/// Reads attribute `index` back as `dispatch_get_in` does, stored bytes
/// being decoded in the machine's native byte order.
pub fn dispatch_get_<'a>(
    storage: &'a MemoryAttributeStorage,
    storage_model: u8,
    schema: &SchemaContainer,
    stored: &[u8],
    index: u8,
    kind: AnyKind,
) -> (r: Option<Fetched<'a>>)
    requires
        storage_model != 0 ==> stored_kind(kind) && stored_readable(stored@, kind),
    ensures
        storage_model == 0 ==> r == if (index as int) < storage.slots@.len() {
            Some(Fetched::Held(&storage.slots@[index as int]))
        } else {
            None
        },
        storage_model != 0 ==> !(r matches Some(Fetched::Held(_))) && in_some_order(
            |o: ByteOrder| decoded_as(schema.decls@, stored@, kind, o, stored_value(r)),
            true,
        ),
{
    let order = native_byte_order();
    dispatch_get_in(storage, storage_model, schema, stored, index, kind, order)
}

/// The name of an optional string, as contracts see it.
pub open spec fn text_of(r: Option<String>) -> Option<Seq<char>> {
    match r {
        Some(s) => Some(s@),
        None => None,
    }
}

/// The name of the enumeration value of attribute `index`: with storage
/// model `0` that of the value held in memory there; otherwise that of the
/// value decoded from `stored`, the bytes stored under the attribute's key,
/// none when there are no bytes or they hold no enumeration value.
pub fn dispatch_get_string_from_enumref(
    storage: &MemoryAttributeStorage,
    storage_model: u8,
    schema: &SchemaContainer,
    stored: Option<&[u8]>,
    index: u8,
) -> (r: Option<String>)
    requires
        storage_model == 0 ==> (index as int) < storage.slots@.len() && storage.slots@[index as int] is EnumRef,
        storage_model != 0 ==> (stored matches Some(b) ==> deserialize_enumref_fits(b@)),
    ensures
        storage_model == 0 ==> (storage.slots@[index as int] matches AnyValue::EnumRef(e) && text_of(r) == Some(
            e@.0,
        )),
        storage_model != 0 ==> match stored {
            None => r is None,
            Some(b) => in_some_order(
                |o: ByteOrder|
                    match spec_deserialize_enumref(b@, schema.decls@, o) {
                        Some(e) => Some(e.0),
                        None => None,
                    },
                text_of(r),
            ),
        },
{
    if storage_model == 0 {
        match storage.get(index as usize) {
            Some(AnyValue::EnumRef(e)) => Some(e.value()),
            _ => None,
        }
    } else {
        match stored {
            None => None,
            Some(b) => {
                let order = native_byte_order();
                match decode_stored_in(schema, b, AnyKind::EnumRef, order) {
                    Some(AnyValue::EnumRef(e)) => Some(e.value()),
                    _ => None,
                }
            },
        }
    }
}

/// A reference to an instance survives encoding and decoding in the same
/// byte order: what comes back is the reference (entity or type, number)
/// of the instance encoded.
pub proof fn law_ifcptr_roundtrip(x: IfcBaseClass, order: ByteOrder)
    ensures
        deserialize_ifcptr_fits(spec_serialize_ifcptr(x, order)),
        spec_deserialize_ifcptr(spec_serialize_ifcptr(x, order), order) == Some(inst_ref(x)),
{
    let buf = spec_serialize_ifcptr(x, order);
    let n = if x.id != 0 {
        x.id
    } else {
        x.identity
    };
    lemma_usize_roundtrip(n, order);
    assert(buf.subrange(2, 2 + usize_width()) =~= crate::bytes::usize_bytes(n as nat, order));
}

} // verus!
