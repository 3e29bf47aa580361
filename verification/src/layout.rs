//! Where the vtable-pointer fields of an object lie.
//!
//! An object starts with its vtable-pointer fields, one after the other. The
//! address of a field is the address of the object plus a fixed offset, so
//! the object is found again from the address of any of its fields and the
//! number of that field, without looking at the object.

use vstd::prelude::*;

verus! {

/// Size in bytes of one vtable-pointer field.
pub const FIELD_SIZE: usize = 8;

/// Byte offset of field `field` from the start of its object.
pub open spec fn spec_field_offset(field: usize) -> int {
    field * FIELD_SIZE
}

/// Byte offset of field `field` from the start of its object; `None` where
/// the offset cannot be represented.
pub fn field_offset(field: usize) -> (offset: Option<usize>)
    ensures
        offset.is_some() == (spec_field_offset(field) <= usize::MAX),
        offset matches Some(x) ==> x == spec_field_offset(field),
{
    field.checked_mul(FIELD_SIZE)
}

/// Address of field `field` of the object at `base`; `None` where the
/// address cannot be represented.
pub fn field_address(base: usize, field: usize) -> (address: Option<usize>)
    ensures
        address.is_some() == (base + spec_field_offset(field) <= usize::MAX),
        address matches Some(a) ==> a == base + spec_field_offset(field),
{
    match field.checked_mul(FIELD_SIZE) {
        Some(offset) => base.checked_add(offset),
        None => None,
    }
}

/// Address of the object whose field `field` lies at `address`; `None`
/// where no object can have that field there.
pub fn enclosing_object(address: usize, field: usize) -> (base: Option<usize>)
    ensures
        base.is_some() == (spec_field_offset(field) <= address),
        base matches Some(b) ==> b == address - spec_field_offset(field),
{
    match field.checked_mul(FIELD_SIZE) {
        Some(offset) => address.checked_sub(offset),
        None => None,
    }
}

/// From the address of any field of an object and the field's number, the
/// object's address is found again; two fields of one object lie at
/// different addresses.
pub proof fn law_fields_lead_back(base: usize, field: usize, other: usize)
    requires
        base + spec_field_offset(field) <= usize::MAX,
        base + spec_field_offset(other) <= usize::MAX,
    ensures
        (base + spec_field_offset(field)) - spec_field_offset(field) == base,
        field != other ==> base + spec_field_offset(field) != base + spec_field_offset(other),
{
}

} // verus!
