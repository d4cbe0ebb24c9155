//! Identifiers of Bluetooth adapters, devices and characteristics.

use vstd::prelude::*;

verus! {

/// The identifier of a Bluetooth adapter: the path of its object on the bus.
#[derive(Clone, Debug, PartialEq, Eq)]
pub struct AdapterId {
    pub object_path: String,
}

/// The identifier of a Bluetooth device: the path of its object on the bus.
#[derive(Clone, Debug, PartialEq, Eq)]
pub struct DeviceId {
    pub object_path: String,
}

/// The identifier of a characteristic of a Bluetooth device: the path of its
/// object on the bus.
#[derive(Clone, Debug, PartialEq, Eq)]
pub struct CharacteristicId {
    pub object_path: String,
}

impl AdapterId {
    /// The identifier of the adapter at `object_path`.
    pub fn new(object_path: &str) -> (id: AdapterId)
        ensures
            id.object_path@ == object_path@,
    {
        AdapterId { object_path: object_path.to_owned() }
    }
}

impl DeviceId {
    /// The identifier of the device at `object_path`.
    pub fn new(object_path: &str) -> (id: DeviceId)
        ensures
            id.object_path@ == object_path@,
    {
        DeviceId { object_path: object_path.to_owned() }
    }
}

impl CharacteristicId {
    /// The identifier of the characteristic at `object_path`.
    pub fn new(object_path: &str) -> (id: CharacteristicId)
        ensures
            id.object_path@ == object_path@,
    {
        CharacteristicId { object_path: object_path.to_owned() }
    }
}

} // verus!
