//! Identifiers of interfaces and classes.

use vstd::prelude::*;

verus! {

/// The 128-bit value of the identity interface, which every object supports.
pub const IID_IUNKNOWN: u128 = 0x00000000_0000_0000_C000_000000000046;

/// The 128-bit value of the class factory interface.
pub const IID_ICLASS_FACTORY: u128 = 0x00000001_0000_0000_C000_000000000046;

/// Identifies an interface contract.
#[derive(Clone, Copy, Debug, PartialEq, Eq, Structural)]
pub struct InterfaceId {
    pub value: u128,
}

/// Identifies an instantiable class.
#[derive(Clone, Copy, Debug, PartialEq, Eq, Structural)]
pub struct ClassId {
    pub value: u128,
}

impl InterfaceId {
    /// The identity interface as a specification value.
    pub open spec fn spec_unknown() -> InterfaceId {
        InterfaceId { value: IID_IUNKNOWN }
    }

    /// The class factory interface as a specification value.
    pub open spec fn spec_class_factory() -> InterfaceId {
        InterfaceId { value: IID_ICLASS_FACTORY }
    }

    /// The interface with the given 128-bit value.
    pub fn new(value: u128) -> (id: InterfaceId)
        ensures
            id.value == value,
    {
        InterfaceId { value }
    }

    /// The identity interface.
    #[verifier::when_used_as_spec(spec_unknown)]
    pub fn unknown() -> (id: InterfaceId)
        ensures
            id == Self::spec_unknown(),
    {
        InterfaceId { value: IID_IUNKNOWN }
    }

    /// The class factory interface.
    #[verifier::when_used_as_spec(spec_class_factory)]
    pub fn class_factory() -> (id: InterfaceId)
        ensures
            id == Self::spec_class_factory(),
    {
        InterfaceId { value: IID_ICLASS_FACTORY }
    }

    /// Whether this is the identity interface.
    pub fn is_unknown(&self) -> (b: bool)
        ensures
            b == (*self == Self::spec_unknown()),
    {
        self.value == IID_IUNKNOWN
    }
}

impl ClassId {
    /// The class with the given 128-bit value.
    pub fn new(value: u128) -> (id: ClassId)
        ensures
            id.value == value,
    {
        ClassId { value }
    }
}

} // verus!
