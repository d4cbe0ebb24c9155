use homie_controller::error::{Error, ErrorKind};
use homie_controller::types::{
    Datatype, Device, DeviceAttribute, Node, NodeAttribute, ParseDatatypeError, ParseStateError,
    Property, PropertyAttribute, State,
};

#[test]
fn state_names() {
    assert_eq!(State::Unknown.as_str(), "unknown");
    assert_eq!(State::Init.as_str(), "init");
    assert_eq!(State::Ready.as_str(), "ready");
    assert_eq!(State::Disconnected.as_str(), "disconnected");
    assert_eq!(State::Sleeping.as_str(), "sleeping");
    assert_eq!(State::Lost.as_str(), "lost");
    assert_eq!(State::Alert.as_str(), "alert");
    assert_eq!(State::Ready.to_string(), "ready");
}

#[test]
fn state_parses_the_six_names() {
    assert_eq!("init".parse(), Ok(State::Init));
    assert_eq!("ready".parse(), Ok(State::Ready));
    assert_eq!("disconnected".parse(), Ok(State::Disconnected));
    assert_eq!("sleeping".parse(), Ok(State::Sleeping));
    assert_eq!("lost".parse(), Ok(State::Lost));
    assert_eq!("alert".parse(), Ok(State::Alert));
    assert_eq!(State::from_str("lost"), Ok(State::Lost));
}

#[test]
fn state_rejects_everything_else() {
    for text in [
        "unknown", "", "Init", "READY", "ready ", " ready", "readyy", "read", "los", "alerts",
        "sleep",
    ] {
        assert_eq!(
            text.parse::<State>(),
            Err(ParseStateError(text.to_owned())),
            "{:?}",
            text
        );
    }
    assert_eq!(
        ParseStateError("unknown".to_owned()).to_string(),
        "Invalid state 'unknown'"
    );
}

#[test]
fn datatype_parses_the_six_names() {
    assert_eq!("integer".parse(), Ok(Datatype::Integer));
    assert_eq!("float".parse(), Ok(Datatype::Float));
    assert_eq!("boolean".parse(), Ok(Datatype::Boolean));
    assert_eq!("string".parse(), Ok(Datatype::String));
    assert_eq!("enum".parse(), Ok(Datatype::Enum));
    assert_eq!("color".parse(), Ok(Datatype::Color));
    for datatype in [
        Datatype::Integer,
        Datatype::Float,
        Datatype::Boolean,
        Datatype::String,
        Datatype::Enum,
        Datatype::Color,
    ] {
        assert_eq!(Datatype::from_str(datatype.as_str()), Ok(datatype));
    }
}

#[test]
fn datatype_rejects_everything_else() {
    for text in ["", "Integer", "int", "bool", "colour", "notareal type", "enum "] {
        assert_eq!(
            text.parse::<Datatype>(),
            Err(ParseDatatypeError(text.to_owned())),
            "{:?}",
            text
        );
    }
    assert_eq!(
        ParseDatatypeError("int".to_owned()).to_string(),
        "Invalid datatype 'int'"
    );
}

#[test]
fn new_property_has_defaults() {
    let property = Property::new("power");
    assert_eq!(
        property,
        Property {
            id: "power".to_owned(),
            name: None,
            datatype: None,
            settable: false,
            retained: true,
            unit: None,
            format: None,
            value: None,
        }
    );
    assert!(!property.has_required_attributes());
}

#[test]
fn property_is_complete_with_name_and_datatype() {
    let mut property = Property::new("power");
    property.name = Some("Power".to_owned());
    assert!(!property.has_required_attributes());
    property.datatype = Some(Datatype::Boolean);
    assert!(property.has_required_attributes());
    property.name = None;
    assert!(!property.has_required_attributes());
}

#[test]
fn property_attribute_error_leaves_the_property() {
    let mut property = Property::new("power");
    assert_eq!(
        property.set_attribute(PropertyAttribute::Settable, "true"),
        Ok(())
    );
    assert!(property.settable);
    let before = property.clone();
    assert_eq!(
        property.set_attribute(PropertyAttribute::Settable, "TRUE"),
        Err(Error {
            kind: ErrorKind::InvalidScalar,
            input: "TRUE".to_owned()
        })
    );
    assert_eq!(
        property.set_attribute(PropertyAttribute::Datatype, "bool"),
        Err(Error {
            kind: ErrorKind::InvalidDatatype,
            input: "bool".to_owned()
        })
    );
    assert_eq!(property, before);
    assert_eq!(
        property.set_attribute(PropertyAttribute::Settable, "false"),
        Ok(())
    );
    assert!(!property.settable);
}

fn complete_property(id: &str) -> Property {
    let mut property = Property::new(id);
    property.name = Some("Name".to_owned());
    property.datatype = Some(Datatype::Integer);
    property
}

fn complete_node(id: &str) -> Node {
    let mut node = Node::new(id);
    node.name = Some("Node".to_owned());
    node.node_type = Some("type".to_owned());
    node.properties.push(complete_property("p1"));
    node
}

#[test]
fn new_node_has_defaults() {
    let node = Node::new("light");
    assert_eq!(
        node,
        Node {
            id: "light".to_owned(),
            name: None,
            node_type: None,
            properties: vec![],
        }
    );
    assert!(!node.has_required_attributes());
}

#[test]
fn node_is_complete_with_name_type_and_complete_properties() {
    let mut node = Node::new("light");
    node.name = Some("Light".to_owned());
    assert!(!node.has_required_attributes());
    node.node_type = Some("lamp".to_owned());
    assert!(!node.has_required_attributes());
    node.properties.push(complete_property("power"));
    assert!(node.has_required_attributes());
    node.properties.push(Property::new("level"));
    assert!(!node.has_required_attributes());
    node.properties[1] = complete_property("level");
    assert!(node.has_required_attributes());
    node.node_type = None;
    assert!(!node.has_required_attributes());
}

#[test]
fn node_finds_a_property_by_its_identifier() {
    let mut node = Node::new("light");
    assert_eq!(
        node.set_property_attribute("power", PropertyAttribute::Value, "1"),
        (true, None)
    );
    assert_eq!(
        node.set_property_attribute("level", PropertyAttribute::Value, "2"),
        (true, None)
    );
    assert_eq!(
        node.set_property_attribute("power", PropertyAttribute::Unit, "W"),
        (false, None)
    );
    assert_eq!(node.properties.len(), 2);
    assert_eq!(node.property("level").unwrap().value, Some("2".to_owned()));
    assert_eq!(node.property("power").unwrap().unit, Some("W".to_owned()));
    assert!(node.property("speed").is_none());
    assert_eq!(
        node.set_attribute(NodeAttribute::Properties, "level"),
        Ok((vec!["power".to_owned()], vec![]))
    );
    assert!(node.property("power").is_none());
}

#[test]
fn new_device_has_defaults() {
    let device = Device::new("kitchen", "4.0");
    assert_eq!(device.id, "kitchen");
    assert_eq!(device.homie_version, "4.0");
    assert_eq!(device.name, None);
    assert_eq!(device.state, State::Unknown);
    assert_eq!(device.implementation, None);
    assert!(device.nodes.is_empty());
    assert!(device.extensions.is_empty());
    assert_eq!(device.local_ip, None);
    assert_eq!(device.mac, None);
    assert_eq!(device.firmware_name, None);
    assert_eq!(device.firmware_version, None);
    assert_eq!(device.stats_interval, None);
    assert_eq!(device.stats_uptime, None);
    assert_eq!(device.stats_signal, None);
    assert_eq!(device.stats_cputemp, None);
    assert_eq!(device.stats_cpuload, None);
    assert_eq!(device.stats_battery, None);
    assert_eq!(device.stats_freeheap, None);
    assert_eq!(device.stats_supply, None);
    assert!(!device.has_required_attributes());
}

#[test]
fn device_is_complete_with_name_state_and_complete_nodes() {
    let mut device = Device::new("kitchen", "4.0");
    device.name = Some("Kitchen".to_owned());
    assert!(!device.has_required_attributes());
    device.state = State::Ready;
    assert!(device.has_required_attributes());
    device.state = State::Unknown;
    assert!(!device.has_required_attributes());
    device.state = State::Lost;
    assert!(device.has_required_attributes());
    device.nodes.push(complete_node("light"));
    assert!(device.has_required_attributes());
    device.nodes.push(Node::new("fan"));
    assert!(!device.has_required_attributes());
    device.nodes[1] = complete_node("fan");
    assert!(device.has_required_attributes());
    device.nodes[0].properties.push(Property::new("level"));
    assert!(!device.has_required_attributes());
}

#[test]
fn device_attribute_error_leaves_the_device() {
    let mut device = Device::new("kitchen", "4.0");
    assert_eq!(
        device.set_attribute(DeviceAttribute::State, "ready"),
        Ok((vec![], vec![]))
    );
    let before = device.clone();
    assert_eq!(
        device.set_attribute(DeviceAttribute::State, "unknown"),
        Err(Error {
            kind: ErrorKind::InvalidState,
            input: "unknown".to_owned()
        })
    );
    assert_eq!(
        device.set_attribute(DeviceAttribute::Extensions, "a:b"),
        Err(Error {
            kind: ErrorKind::InvalidExtension,
            input: "a:b".to_owned()
        })
    );
    assert_eq!(device, before);
}

#[test]
fn device_adds_nodes_and_properties_on_the_way() {
    let mut device = Device::new("kitchen", "4.0");
    assert_eq!(
        device.set_property_attribute("light", "power", PropertyAttribute::Name, "Power"),
        (true, true, None)
    );
    assert_eq!(
        device.set_property_attribute("light", "level", PropertyAttribute::Retained, "x"),
        (
            false,
            true,
            Some(Error {
                kind: ErrorKind::InvalidScalar,
                input: "x".to_owned()
            })
        )
    );
    assert_eq!(
        device.set_node_attribute("light", NodeAttribute::Name, "Light"),
        (false, Ok((vec![], vec![])))
    );
    assert_eq!(
        device.set_node_attribute("fan", NodeAttribute::Properties, "speed,Speed"),
        (
            true,
            Err(Error {
                kind: ErrorKind::InvalidIdentifier,
                input: "Speed".to_owned()
            })
        )
    );
    assert_eq!(device.nodes.len(), 2);
    assert_eq!(device.node("light").unwrap().properties.len(), 2);
    assert!(device.node("fan").unwrap().properties.is_empty());
    assert!(device.node("door").is_none());
}

#[test]
fn error_messages() {
    let cases = [
        (ErrorKind::InvalidIdentifier, "Invalid identifier 'x y'"),
        (ErrorKind::InvalidState, "Invalid state 'x y'"),
        (ErrorKind::InvalidDatatype, "Invalid datatype 'x y'"),
        (ErrorKind::InvalidExtension, "Invalid extension 'x y'"),
        (ErrorKind::InvalidScalar, "Invalid value 'x y'"),
        (ErrorKind::PropertyNotSettable, "Property not settable 'x y'"),
        (ErrorKind::UnknownEntity, "Unknown entity 'x y'"),
    ];
    for (kind, message) in cases {
        assert_eq!(Error::new(kind, "x y").to_string(), message);
    }
}
