//! Events of Bluetooth adapters, devices and characteristics.
//!
//! The Bluetooth service announces changes by signals on the message bus.
//! A signal that properties of an object have changed gives one event for
//! each property that this module knows and that is in the signal; which
//! properties it knows depends on the interface that the signal is about. A
//! signal that an object has new interfaces gives the event that a device
//! was discovered, if the interface of devices is among them.
//!
//! The signals come here decoded: to take them out of the messages of the
//! bus is left to the caller.

use dbus::nonblock::stdintf::org_freedesktop_dbus::{
    ObjectManagerInterfacesAdded, PropertiesPropertiesChanged,
};
use vstd::prelude::*;

use crate::bluetooth::ids::{AdapterId, CharacteristicId, DeviceId};
use crate::bluetooth::signals::{
    added_object, added_object_of, boolean_of, boolean_property, bytes_of, bytes_property,
    has_interface, has_interface_named, interface_name, interface_name_of, opt_bytes_view,
    short_of, short_property,
};
use crate::text::same_text;

verus! {

/// An event relating to a Bluetooth device or adapter.
#[derive(Clone, Debug, PartialEq, Eq)]
pub enum BluetoothEvent {
    /// An event related to a Bluetooth adapter.
    Adapter {
        /// The adapter in question.
        id: AdapterId,
        /// Details of the event.
        event: AdapterEvent,
    },
    /// An event related to a Bluetooth device.
    Device {
        /// The device in question.
        id: DeviceId,
        /// Details of the event.
        event: DeviceEvent,
    },
    /// An event related to a characteristic of a Bluetooth device.
    Characteristic {
        /// The characteristic in question.
        id: CharacteristicId,
        /// Details of the event.
        event: CharacteristicEvent,
    },
}

/// Details of an event related to a Bluetooth adapter.
#[derive(Clone, Debug, PartialEq, Eq)]
pub enum AdapterEvent {
    /// The adapter has been powered on or off.
    Powered { powered: bool },
    /// The adapter has started or stopped scanning for devices.
    Discovering { discovering: bool },
}

/// Details of an event related to a Bluetooth device.
#[derive(Clone, Debug, PartialEq, Eq)]
pub enum DeviceEvent {
    /// A new device has been discovered.
    Discovered,
    /// The device has connected or disconnected.
    Connected { connected: bool },
    /// A new value is available for the signal strength of the device.
    RSSI { rssi: i16 },
}

/// Details of an event related to a characteristic.
#[derive(Clone, Debug, PartialEq, Eq)]
pub enum CharacteristicEvent {
    /// A new value of the characteristic has been received.
    Value { value: Vec<u8> },
}

/// What a [`BluetoothEvent`] holds. `path` is the path of the object that the
/// event is about.
pub enum BluetoothEventView {
    Adapter { path: Seq<char>, event: AdapterEvent },
    Device { path: Seq<char>, event: DeviceEvent },
    Characteristic { path: Seq<char>, value: Seq<u8> },
}

impl View for BluetoothEvent {
    type V = BluetoothEventView;

    open spec fn view(&self) -> BluetoothEventView {
        match *self {
            BluetoothEvent::Adapter { id, event } => BluetoothEventView::Adapter {
                path: id.object_path@,
                event,
            },
            BluetoothEvent::Device { id, event } => BluetoothEventView::Device {
                path: id.object_path@,
                event,
            },
            BluetoothEvent::Characteristic { id, event } => BluetoothEventView::Characteristic {
                path: id.object_path@,
                value: event->value@,
            },
        }
    }
}

/// The views of a sequence of events.
pub open spec fn views_of(events: Seq<BluetoothEvent>) -> Seq<BluetoothEventView> {
    events.map_values(|e: BluetoothEvent| e@)
}

/// The new values of the properties that give events, for those that are in
/// a signal.
#[derive(Clone, Debug, PartialEq, Eq)]
pub struct Changes {
    /// `Powered`, of an adapter.
    pub powered: Option<bool>,
    /// `Discovering`, of an adapter.
    pub discovering: Option<bool>,
    /// `Connected`, of a device.
    pub connected: Option<bool>,
    /// `RSSI`, of a device.
    pub rssi: Option<i16>,
    /// `Value`, of a characteristic.
    pub value: Option<Vec<u8>>,
}

/// What [`Changes`] holds.
pub struct ChangesView {
    pub powered: Option<bool>,
    pub discovering: Option<bool>,
    pub connected: Option<bool>,
    pub rssi: Option<i16>,
    pub value: Option<Seq<u8>>,
}

impl View for Changes {
    type V = ChangesView;

    open spec fn view(&self) -> ChangesView {
        ChangesView {
            powered: self.powered,
            discovering: self.discovering,
            connected: self.connected,
            rssi: self.rssi,
            value: opt_bytes_view(self.value),
        }
    }
}

/// The events of an adapter: that it was powered on or off, then that it
/// started or stopped scanning, each if its property has changed.
pub open spec fn adapter_events(
    path: Seq<char>,
    powered: Option<bool>,
    discovering: Option<bool>,
) -> Seq<BluetoothEventView> {
    (match powered {
        Some(powered) => seq![
            BluetoothEventView::Adapter { path, event: AdapterEvent::Powered { powered } },
        ],
        None => Seq::empty(),
    }) + (match discovering {
        Some(discovering) => seq![
            BluetoothEventView::Adapter { path, event: AdapterEvent::Discovering { discovering } },
        ],
        None => Seq::empty(),
    })
}

/// The events of a device: that it connected or disconnected, then its new
/// signal strength, each if its property has changed.
pub open spec fn device_events(path: Seq<char>, connected: Option<bool>, rssi: Option<i16>) -> Seq<
    BluetoothEventView,
> {
    (match connected {
        Some(connected) => seq![
            BluetoothEventView::Device { path, event: DeviceEvent::Connected { connected } },
        ],
        None => Seq::empty(),
    }) + (match rssi {
        Some(rssi) => seq![BluetoothEventView::Device { path, event: DeviceEvent::RSSI { rssi } }],
        None => Seq::empty(),
    })
}

/// The event of a characteristic: its new value, if it has changed.
pub open spec fn characteristic_events(path: Seq<char>, value: Option<Seq<u8>>) -> Seq<
    BluetoothEventView,
> {
    match value {
        Some(value) => seq![BluetoothEventView::Characteristic { path, value }],
        None => Seq::empty(),
    }
}

/// The events that changes of properties give, for the object at `path` and
/// the interface `interface` that has the properties. An interface other
/// than that of adapters, devices and characteristics gives none.
pub open spec fn changed_events(
    path: Seq<char>,
    interface: Seq<char>,
    changes: ChangesView,
) -> Seq<BluetoothEventView> {
    if interface == "org.bluez.Adapter1"@ {
        adapter_events(path, changes.powered, changes.discovering)
    } else if interface == "org.bluez.Device1"@ {
        device_events(path, changes.connected, changes.rssi)
    } else if interface == "org.bluez.GattCharacteristic1"@ {
        characteristic_events(path, changes.value)
    } else {
        Seq::empty()
    }
}

/// The properties of `changed` that give events.
pub open spec fn changes_in(changed: PropertiesPropertiesChanged) -> ChangesView {
    ChangesView {
        powered: boolean_property(changed, "Powered"@),
        discovering: boolean_property(changed, "Discovering"@),
        connected: boolean_property(changed, "Connected"@),
        rssi: short_property(changed, "RSSI"@),
        value: bytes_property(changed, "Value"@),
    }
}

/// The events that new interfaces of the object at `path` give: that a
/// device was discovered, if the interface of devices is among them.
pub open spec fn added_events(path: Seq<char>, is_device: bool) -> Seq<BluetoothEventView> {
    if is_device {
        seq![BluetoothEventView::Device { path, event: DeviceEvent::Discovered }]
    } else {
        Seq::empty()
    }
}

/// Adds `event` at the end of `events`.
fn push(events: &mut Vec<BluetoothEvent>, event: BluetoothEvent)
    ensures
        views_of(final(events)@) == views_of(old(events)@).push(event@),
{
    proof {
        assert(views_of(events@.push(event)) =~= views_of(events@).push(event@));
    }
    events.push(event);
}

impl BluetoothEvent {
    /// Returns the events that changes of properties give, for the object at
    /// `object_path` and the interface `interface` that has the properties.
    pub fn changes_to_events(object_path: &str, interface: &str, changes: Changes) -> (events: Vec<
        BluetoothEvent,
    >)
        ensures
            views_of(events@) == changed_events(object_path@, interface@, changes@),
    {
        let mut events: Vec<BluetoothEvent> = Vec::new();
        let ghost path = object_path@;
        proof {
            assert(views_of(events@) =~= Seq::<BluetoothEventView>::empty());
        }
        if same_text(interface, "org.bluez.Adapter1") {
            if let Some(powered) = changes.powered {
                push(
                    &mut events,
                    BluetoothEvent::Adapter {
                        id: AdapterId::new(object_path),
                        event: AdapterEvent::Powered { powered },
                    },
                );
            }
            if let Some(discovering) = changes.discovering {
                push(
                    &mut events,
                    BluetoothEvent::Adapter {
                        id: AdapterId::new(object_path),
                        event: AdapterEvent::Discovering { discovering },
                    },
                );
            }
            proof {
                assert(views_of(events@) =~= adapter_events(
                    path,
                    changes.powered,
                    changes.discovering,
                ));
            }
        } else if same_text(interface, "org.bluez.Device1") {
            if let Some(connected) = changes.connected {
                push(
                    &mut events,
                    BluetoothEvent::Device {
                        id: DeviceId::new(object_path),
                        event: DeviceEvent::Connected { connected },
                    },
                );
            }
            if let Some(rssi) = changes.rssi {
                push(
                    &mut events,
                    BluetoothEvent::Device {
                        id: DeviceId::new(object_path),
                        event: DeviceEvent::RSSI { rssi },
                    },
                );
            }
            proof {
                assert(views_of(events@) =~= device_events(path, changes.connected, changes.rssi));
            }
        } else if same_text(interface, "org.bluez.GattCharacteristic1") {
            if let Some(value) = changes.value {
                push(
                    &mut events,
                    BluetoothEvent::Characteristic {
                        id: CharacteristicId::new(object_path),
                        event: CharacteristicEvent::Value { value },
                    },
                );
            }
            proof {
                assert(views_of(events@) =~= characteristic_events(path, changes@.value));
            }
        }
        events
    }

    /// Returns the events that new interfaces of the object at `object_path`
    /// give. `is_device` says whether the interface of devices is among
    /// them.
    pub fn added_to_events(object_path: &str, is_device: bool) -> (events: Vec<BluetoothEvent>)
        ensures
            views_of(events@) == added_events(object_path@, is_device),
    {
        let mut events: Vec<BluetoothEvent> = Vec::new();
        proof {
            assert(views_of(events@) =~= Seq::<BluetoothEventView>::empty());
        }
        if is_device {
            push(
                &mut events,
                BluetoothEvent::Device {
                    id: DeviceId::new(object_path),
                    event: DeviceEvent::Discovered,
                },
            );
            proof {
                assert(views_of(events@) =~= added_events(object_path@, is_device));
            }
        }
        events
    }

    /// Returns the events of a signal that properties of the object at
    /// `object_path` have changed.
    pub fn properties_changed_to_events(
        object_path: String,
        properties_changed: PropertiesPropertiesChanged,
    ) -> (events: Vec<BluetoothEvent>)
        ensures
            views_of(events@) == changed_events(
                object_path@,
                interface_name(properties_changed),
                changes_in(properties_changed),
            ),
    {
        let interface = interface_name_of(&properties_changed);
        let mut changes = Changes {
            powered: None,
            discovering: None,
            connected: None,
            rssi: None,
            value: None,
        };
        if same_text(interface.as_str(), "org.bluez.Adapter1") {
            changes.powered = boolean_of(&properties_changed, "Powered");
            changes.discovering = boolean_of(&properties_changed, "Discovering");
        } else if same_text(interface.as_str(), "org.bluez.Device1") {
            changes.connected = boolean_of(&properties_changed, "Connected");
            changes.rssi = short_of(&properties_changed, "RSSI");
        } else if same_text(interface.as_str(), "org.bluez.GattCharacteristic1") {
            changes.value = bytes_of(&properties_changed, "Value");
        }
        Self::changes_to_events(object_path.as_str(), interface.as_str(), changes)
    }

    /// Returns the events of a signal that an object has new interfaces.
    pub fn interfaces_added_to_events(interfaces_added: ObjectManagerInterfacesAdded) -> (events:
        Vec<BluetoothEvent>)
        ensures
            views_of(events@) == added_events(
                added_object(interfaces_added),
                has_interface(interfaces_added, "org.bluez.Device1"@),
            ),
    {
        let object_path = added_object_of(&interfaces_added);
        let is_device = has_interface_named(&interfaces_added, "org.bluez.Device1");
        Self::added_to_events(object_path.as_str(), is_device)
    }
}

} // verus!
