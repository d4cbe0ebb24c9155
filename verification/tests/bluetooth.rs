use std::collections::HashMap;

use dbus::arg::{RefArg, Variant};
use dbus::message::SignalArgs;
use dbus::nonblock::stdintf::org_freedesktop_dbus::{
    ObjectManagerInterfacesAdded, PropertiesPropertiesChanged,
};
use dbus::Message;
use homie_controller::bluetooth::{
    AdapterEvent, AdapterId, BluetoothEvent, Changes, CharacteristicEvent, CharacteristicId,
    DeviceEvent, DeviceId,
};

/// Takes the signal out of `message` and returns its events.
fn message_to_events(message: Message) -> Vec<BluetoothEvent> {
    if let Some(properties_changed) = PropertiesPropertiesChanged::from_message(&message) {
        let object_path = message.path().unwrap().to_string();
        BluetoothEvent::properties_changed_to_events(object_path, properties_changed)
    } else if let Some(interfaces_added) = ObjectManagerInterfacesAdded::from_message(&message) {
        BluetoothEvent::interfaces_added_to_events(interfaces_added)
    } else {
        panic!("Unexpected message: {:?}", message)
    }
}

#[test]
fn adapter_powered() {
    let mut changed_properties: HashMap<String, Variant<Box<dyn RefArg>>> = HashMap::new();
    changed_properties.insert("Powered".to_string(), Variant(Box::new(true)));
    let properties_changed = PropertiesPropertiesChanged {
        interface_name: "org.bluez.Adapter1".to_string(),
        changed_properties,
        invalidated_properties: vec![],
    };
    let message = properties_changed.to_emit_message(&"/org/bluez/hci0".into());
    let id = AdapterId::new("/org/bluez/hci0");
    assert_eq!(
        message_to_events(message),
        vec![BluetoothEvent::Adapter {
            id,
            event: AdapterEvent::Powered { powered: true }
        }]
    )
}

#[test]
fn device_rssi() {
    let rssi = 42;
    let mut changed_properties: HashMap<String, Variant<Box<dyn RefArg>>> = HashMap::new();
    changed_properties.insert("RSSI".to_string(), Variant(Box::new(rssi)));
    let properties_changed = PropertiesPropertiesChanged {
        interface_name: "org.bluez.Device1".to_string(),
        changed_properties,
        invalidated_properties: vec![],
    };
    let message =
        properties_changed.to_emit_message(&"/org/bluez/hci0/dev_11_22_33_44_55_66".into());
    let id = DeviceId::new("/org/bluez/hci0/dev_11_22_33_44_55_66");
    assert_eq!(
        message_to_events(message),
        vec![BluetoothEvent::Device {
            id,
            event: DeviceEvent::RSSI { rssi }
        }]
    )
}

#[test]
fn characteristic_value() {
    let mut changed_properties: HashMap<String, Variant<Box<dyn RefArg>>> = HashMap::new();
    let value: Vec<u8> = vec![1, 2, 3];
    changed_properties.insert("Value".to_string(), Variant(Box::new(value.clone())));
    let properties_changed = PropertiesPropertiesChanged {
        interface_name: "org.bluez.GattCharacteristic1".to_string(),
        changed_properties,
        invalidated_properties: vec![],
    };
    let message = properties_changed
        .to_emit_message(&"/org/bluez/hci0/dev_11_22_33_44_55_66/service0012/char0034".into());
    let id = CharacteristicId::new("/org/bluez/hci0/dev_11_22_33_44_55_66/service0012/char0034");
    assert_eq!(
        message_to_events(message),
        vec![BluetoothEvent::Characteristic {
            id,
            event: CharacteristicEvent::Value { value }
        }]
    )
}

#[test]
fn device_discovered() {
    let properties = HashMap::new();
    let mut interfaces = HashMap::new();
    interfaces.insert("org.bluez.Device1".to_string(), properties);
    let interfaces_added = ObjectManagerInterfacesAdded {
        object: "/org/bluez/hci0/dev_11_22_33_44_55_66".into(),
        interfaces,
    };
    let message = interfaces_added.to_emit_message(&"/".into());
    let id = DeviceId::new("/org/bluez/hci0/dev_11_22_33_44_55_66");
    assert_eq!(
        message_to_events(message),
        vec![BluetoothEvent::Device {
            id,
            event: DeviceEvent::Discovered
        }]
    )
}

fn no_changes() -> Changes {
    Changes {
        powered: None,
        discovering: None,
        connected: None,
        rssi: None,
        value: None,
    }
}

#[test]
fn adapter_powered_and_discovering_come_in_that_order() {
    let mut changed_properties: HashMap<String, Variant<Box<dyn RefArg>>> = HashMap::new();
    changed_properties.insert("Discovering".to_string(), Variant(Box::new(true)));
    changed_properties.insert("Powered".to_string(), Variant(Box::new(false)));
    let properties_changed = PropertiesPropertiesChanged {
        interface_name: "org.bluez.Adapter1".to_string(),
        changed_properties,
        invalidated_properties: vec![],
    };
    let message = properties_changed.to_emit_message(&"/org/bluez/hci0".into());
    assert_eq!(
        message_to_events(message),
        vec![
            BluetoothEvent::Adapter {
                id: AdapterId::new("/org/bluez/hci0"),
                event: AdapterEvent::Powered { powered: false }
            },
            BluetoothEvent::Adapter {
                id: AdapterId::new("/org/bluez/hci0"),
                event: AdapterEvent::Discovering { discovering: true }
            },
        ]
    )
}

#[test]
fn device_connected_from_signal() {
    let mut changed_properties: HashMap<String, Variant<Box<dyn RefArg>>> = HashMap::new();
    changed_properties.insert("Connected".to_string(), Variant(Box::new(true)));
    let properties_changed = PropertiesPropertiesChanged {
        interface_name: "org.bluez.Device1".to_string(),
        changed_properties,
        invalidated_properties: vec![],
    };
    let events = BluetoothEvent::properties_changed_to_events(
        "/org/bluez/hci0/dev_11_22_33_44_55_66".to_string(),
        properties_changed,
    );
    assert_eq!(
        events,
        vec![BluetoothEvent::Device {
            id: DeviceId::new("/org/bluez/hci0/dev_11_22_33_44_55_66"),
            event: DeviceEvent::Connected { connected: true }
        }]
    )
}

#[test]
fn property_of_another_type_gives_no_event() {
    let mut changed_properties: HashMap<String, Variant<Box<dyn RefArg>>> = HashMap::new();
    changed_properties.insert("Powered".to_string(), Variant(Box::new(7i16)));
    changed_properties.insert("RSSI".to_string(), Variant(Box::new(true)));
    let adapter = PropertiesPropertiesChanged {
        interface_name: "org.bluez.Adapter1".to_string(),
        changed_properties,
        invalidated_properties: vec![],
    };
    let message = adapter.to_emit_message(&"/org/bluez/hci0".into());
    assert_eq!(message_to_events(message), vec![]);
}

#[test]
fn property_of_another_interface_gives_no_event() {
    let mut changed_properties: HashMap<String, Variant<Box<dyn RefArg>>> = HashMap::new();
    changed_properties.insert("Powered".to_string(), Variant(Box::new(true)));
    let device = PropertiesPropertiesChanged {
        interface_name: "org.bluez.Device1".to_string(),
        changed_properties,
        invalidated_properties: vec![],
    };
    let message = device.to_emit_message(&"/org/bluez/hci0/dev_11_22_33_44_55_66".into());
    assert_eq!(message_to_events(message), vec![]);
}

#[test]
fn unknown_interface_gives_no_event() {
    let mut changed_properties: HashMap<String, Variant<Box<dyn RefArg>>> = HashMap::new();
    changed_properties.insert("Powered".to_string(), Variant(Box::new(true)));
    let other = PropertiesPropertiesChanged {
        interface_name: "org.bluez.Battery1".to_string(),
        changed_properties,
        invalidated_properties: vec![],
    };
    let message = other.to_emit_message(&"/org/bluez/hci0".into());
    assert_eq!(message_to_events(message), vec![]);
}

#[test]
fn interfaces_added_without_device_gives_no_event() {
    let mut interfaces = HashMap::new();
    interfaces.insert("org.bluez.GattService1".to_string(), HashMap::new());
    let interfaces_added = ObjectManagerInterfacesAdded {
        object: "/org/bluez/hci0/dev_11_22_33_44_55_66/service0012".into(),
        interfaces,
    };
    assert_eq!(
        BluetoothEvent::interfaces_added_to_events(interfaces_added),
        vec![]
    );
}

#[test]
fn changes_to_events_of_adapter() {
    let changes = Changes {
        powered: Some(true),
        discovering: Some(false),
        connected: Some(true),
        rssi: Some(-60),
        value: Some(vec![9]),
    };
    assert_eq!(
        BluetoothEvent::changes_to_events("/org/bluez/hci1", "org.bluez.Adapter1", changes),
        vec![
            BluetoothEvent::Adapter {
                id: AdapterId::new("/org/bluez/hci1"),
                event: AdapterEvent::Powered { powered: true }
            },
            BluetoothEvent::Adapter {
                id: AdapterId::new("/org/bluez/hci1"),
                event: AdapterEvent::Discovering { discovering: false }
            },
        ]
    );
}

#[test]
fn changes_to_events_of_device() {
    let changes = Changes {
        powered: Some(true),
        discovering: Some(false),
        connected: Some(false),
        rssi: Some(-60),
        value: Some(vec![9]),
    };
    assert_eq!(
        BluetoothEvent::changes_to_events("/org/bluez/hci0/dev_1", "org.bluez.Device1", changes),
        vec![
            BluetoothEvent::Device {
                id: DeviceId::new("/org/bluez/hci0/dev_1"),
                event: DeviceEvent::Connected { connected: false }
            },
            BluetoothEvent::Device {
                id: DeviceId::new("/org/bluez/hci0/dev_1"),
                event: DeviceEvent::RSSI { rssi: -60 }
            },
        ]
    );
}

#[test]
fn changes_to_events_of_characteristic() {
    let mut changes = no_changes();
    changes.value = Some(vec![0, 255]);
    assert_eq!(
        BluetoothEvent::changes_to_events(
            "/org/bluez/hci0/dev_1/service1/char2",
            "org.bluez.GattCharacteristic1",
            changes
        ),
        vec![BluetoothEvent::Characteristic {
            id: CharacteristicId::new("/org/bluez/hci0/dev_1/service1/char2"),
            event: CharacteristicEvent::Value {
                value: vec![0, 255]
            }
        }]
    );
}

#[test]
fn changes_to_events_without_changes() {
    assert_eq!(
        BluetoothEvent::changes_to_events("/org/bluez/hci0", "org.bluez.Adapter1", no_changes()),
        vec![]
    );
    let mut changes = no_changes();
    changes.powered = Some(true);
    assert_eq!(
        BluetoothEvent::changes_to_events("/org/bluez/hci0", "org.bluez.adapter1", changes),
        vec![]
    );
}

#[test]
fn added_to_events_of_device() {
    assert_eq!(
        BluetoothEvent::added_to_events("/org/bluez/hci0/dev_1", true),
        vec![BluetoothEvent::Device {
            id: DeviceId::new("/org/bluez/hci0/dev_1"),
            event: DeviceEvent::Discovered
        }]
    );
    assert_eq!(
        BluetoothEvent::added_to_events("/org/bluez/hci0/dev_1", false),
        vec![]
    );
}
