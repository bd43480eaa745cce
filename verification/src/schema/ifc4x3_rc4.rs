//! The IFC4X3_RC4 schema module.
use vstd::prelude::*;

verus! {

/// Hook through which the IFC4X3_RC4 schema is loaded; the schema itself comes from
/// the crate that provides it, so nothing is registered here.
pub fn get_schema() {
}

/// Hook through which the IFC4X3_RC4 schema is unloaded; nothing to do here.
pub fn clear_schema() {
}

} // verus!
