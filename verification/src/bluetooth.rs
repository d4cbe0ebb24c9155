//! Events of Bluetooth adapters, devices and characteristics, as they are
//! read from the signals of the Bluetooth service on the message bus.

pub mod events;
pub mod ids;
pub mod signals;

pub use self::events::{AdapterEvent, BluetoothEvent, Changes, CharacteristicEvent, DeviceEvent};
pub use self::ids::{AdapterId, CharacteristicId, DeviceId};
