use homie_controller::controller::{Controller, PublishRequest, Update};
use homie_controller::error::{Error, ErrorKind};
use homie_controller::event::ChangeEvent;
use homie_controller::types::{Datatype, Device, Extension, Node, Property, State};

fn error(kind: ErrorKind, input: &str) -> Option<Error> {
    Some(Error {
        kind,
        input: input.to_owned(),
    })
}

fn device_added(device: &str) -> ChangeEvent {
    ChangeEvent::DeviceAdded {
        device: device.to_owned(),
    }
}

fn device_changed(device: &str) -> ChangeEvent {
    ChangeEvent::DeviceChanged {
        device: device.to_owned(),
    }
}

fn node_added(device: &str, node: &str) -> ChangeEvent {
    ChangeEvent::NodeAdded {
        device: device.to_owned(),
        node: node.to_owned(),
    }
}

fn node_changed(device: &str, node: &str) -> ChangeEvent {
    ChangeEvent::NodeChanged {
        device: device.to_owned(),
        node: node.to_owned(),
    }
}

fn node_removed(device: &str, node: &str) -> ChangeEvent {
    ChangeEvent::NodeRemoved {
        device: device.to_owned(),
        node: node.to_owned(),
    }
}

fn property_added(device: &str, node: &str, property: &str) -> ChangeEvent {
    ChangeEvent::PropertyAdded {
        device: device.to_owned(),
        node: node.to_owned(),
        property: property.to_owned(),
    }
}

fn property_changed(device: &str, node: &str, property: &str) -> ChangeEvent {
    ChangeEvent::PropertyChanged {
        device: device.to_owned(),
        node: node.to_owned(),
        property: property.to_owned(),
    }
}

fn property_removed(device: &str, node: &str, property: &str) -> ChangeEvent {
    ChangeEvent::PropertyRemoved {
        device: device.to_owned(),
        node: node.to_owned(),
        property: property.to_owned(),
    }
}

fn apply_all(controller: &mut Controller, messages: &[(&str, &str)]) {
    for (topic, payload) in messages {
        let update = controller.apply_update(topic, payload, true);
        assert_eq!(update.diagnostic, None, "{} = {}", topic, payload);
    }
}

#[test]
fn new_controller_knows_no_device() {
    let controller = Controller::new();
    assert!(controller.snapshot().is_empty());
    assert!(controller.device("kitchen").is_none());
}

#[test]
fn kitchen_light_is_discovered_step_by_step() {
    let mut controller = Controller::new();
    apply_all(
        &mut controller,
        &[
            ("kitchen/light/$name", "Kitchen Light"),
            ("kitchen/light/power/$datatype", "boolean"),
            ("kitchen/light/power/$name", "Power"),
            ("kitchen/light/power", "true"),
        ],
    );
    assert_eq!(controller.snapshot().len(), 1);
    let kitchen = controller.device("kitchen").unwrap();
    assert_eq!(kitchen.id, "kitchen");
    assert_eq!(kitchen.state, State::Unknown);
    assert!(!kitchen.has_required_attributes());
    assert_eq!(kitchen.nodes.len(), 1);
    let light = kitchen.node("light").unwrap();
    assert_eq!(light.id, "light");
    assert_eq!(light.name, Some("Kitchen Light".to_owned()));
    assert_eq!(light.properties.len(), 1);
    let power = light.property("power").unwrap();
    assert_eq!(power.id, "power");
    assert_eq!(power.datatype, Some(Datatype::Boolean));
    assert_eq!(power.name, Some("Power".to_owned()));
    assert_eq!(power.value, Some("true".to_owned()));
    assert!(power.has_required_attributes());
    assert!(!power.settable);
    assert!(power.retained);
    assert_eq!(power.unit, None);
    assert_eq!(power.format, None);
}

#[test]
fn malformed_datatype_leaves_the_property_as_it_was() {
    let mut controller = Controller::new();
    apply_all(
        &mut controller,
        &[("kitchen/light/power/$datatype", "boolean")],
    );
    let before = controller.snapshot().clone();
    let update = controller.apply_update("kitchen/light/power/$datatype", "notareal type", true);
    assert_eq!(
        update,
        Update {
            events: vec![],
            diagnostic: error(ErrorKind::InvalidDatatype, "notareal type"),
        }
    );
    assert_eq!(controller.snapshot(), &before);
    let power = controller
        .device("kitchen")
        .unwrap()
        .node("light")
        .unwrap()
        .property("power")
        .unwrap();
    assert_eq!(power.datatype, Some(Datatype::Boolean));
}

#[test]
fn malformed_datatype_of_unknown_property_adds_the_property() {
    let mut controller = Controller::new();
    let update = controller.apply_update("kitchen/light/power/$datatype", "notareal type", false);
    assert_eq!(
        update,
        Update {
            events: vec![
                device_added("kitchen"),
                node_added("kitchen", "light"),
                property_added("kitchen", "light", "power"),
            ],
            diagnostic: error(ErrorKind::InvalidDatatype, "notareal type"),
        }
    );
    let mut light = Node::new("light");
    light.properties.push(Property::new("power"));
    let mut kitchen = Device::new("kitchen", "");
    kitchen.nodes.push(light);
    assert_eq!(controller.snapshot(), &vec![kitchen]);
}

#[test]
fn same_update_twice_changes_nothing_more() {
    let messages = [
        ("kitchen/$homie", "4.0"),
        ("kitchen/$name", "Kitchen"),
        ("kitchen/$state", "ready"),
        ("kitchen/$state", "asleep"),
        ("kitchen/$nodes", "light,fan"),
        ("kitchen/$extensions", "org.homie.legacy-stats:0.1.1:[4.x]"),
        ("kitchen/$stats/uptime", "12"),
        ("kitchen/light/$name", "Light"),
        ("kitchen/light/$properties", "power,level"),
        ("kitchen/light/power/$settable", "true"),
        ("kitchen/light/power/$settable", "maybe"),
        ("kitchen/light/power", "on"),
        ("attic/sensor/temperature", "21"),
        ("Attic/sensor/temperature", "21"),
        ("attic/sensor", "21"),
    ];
    let mut controller = Controller::new();
    for (topic, payload) in messages {
        let first = controller.apply_update(topic, payload, true);
        let once = controller.snapshot().clone();
        let second = controller.apply_update(topic, payload, true);
        assert_eq!(controller.snapshot(), &once, "{} = {}", topic, payload);
        assert_eq!(first.diagnostic, second.diagnostic);
    }
}

#[test]
fn datatype_and_value_in_either_order() {
    let mut first = Controller::new();
    first.apply_update("kitchen/light/power/$datatype", "boolean", true);
    first.apply_update("kitchen/light/power", "true", true);
    let mut second = Controller::new();
    second.apply_update("kitchen/light/power", "true", true);
    second.apply_update("kitchen/light/power/$datatype", "boolean", true);
    assert_eq!(first.snapshot(), second.snapshot());
    let power = first
        .device("kitchen")
        .unwrap()
        .node("light")
        .unwrap()
        .property("power")
        .unwrap();
    assert_eq!(power.datatype, Some(Datatype::Boolean));
    assert_eq!(power.value, Some("true".to_owned()));

    let mut third = Controller::new();
    third.apply_update("kitchen/light/power/$datatype", "bool", true);
    third.apply_update("kitchen/light/power", "true", true);
    let mut fourth = Controller::new();
    fourth.apply_update("kitchen/light/power", "true", true);
    fourth.apply_update("kitchen/light/power/$datatype", "bool", true);
    assert_eq!(third.snapshot(), fourth.snapshot());
}

#[test]
fn update_leaves_other_attributes_as_they_were() {
    let mut controller = Controller::new();
    apply_all(
        &mut controller,
        &[
            ("kitchen/$name", "Kitchen"),
            ("kitchen/$mac", "00:11:22:33:44:55"),
            ("kitchen/light/$type", "lamp"),
            ("kitchen/light/power/$unit", "W"),
            ("kitchen/light/level/$format", "0:100"),
            ("attic/$name", "Attic"),
        ],
    );
    let before = controller.snapshot().clone();
    apply_all(&mut controller, &[("kitchen/light/power", "12")]);
    let mut expected = before.clone();
    expected[0].nodes[0].properties[0].value = Some("12".to_owned());
    assert_eq!(controller.snapshot(), &expected);
}

#[test]
fn device_attributes_are_parsed() {
    let mut controller = Controller::new();
    apply_all(
        &mut controller,
        &[
            ("d1/$homie", "4.0.0"),
            ("d1/$name", "Device One"),
            ("d1/$state", "init"),
            ("d1/$implementation", "esp8266"),
            (
                "d1/$extensions",
                "org.homie.legacy-stats:0.1.1:[4.x],eu.epnw.meta:1.1.0:[3.0.1;4.x]",
            ),
            ("d1/$localip", "192.168.0.10"),
            ("d1/$mac", "DE:AD:BE:EF:FE:ED"),
            ("d1/$fw/name", "firmware"),
            ("d1/$fw/version", "1.2.3"),
            ("d1/$stats/interval", "60"),
            ("d1/$stats/uptime", "+123456"),
            ("d1/$stats/signal", "-42"),
            ("d1/$stats/cputemp", "48.5"),
            ("d1/$stats/cpuload", "7"),
            ("d1/$stats/battery", "100"),
            ("d1/$stats/freeheap", "18446744073709551615"),
            ("d1/$stats/supply", "3.3e0"),
        ],
    );
    let mut expected = Device::new("d1", "4.0.0");
    expected.name = Some("Device One".to_owned());
    expected.state = State::Init;
    expected.implementation = Some("esp8266".to_owned());
    expected.extensions = vec![
        Extension {
            id: "org.homie.legacy-stats".to_owned(),
            version: "0.1.1".to_owned(),
            homie_versions: vec!["4.x".to_owned()],
        },
        Extension {
            id: "eu.epnw.meta".to_owned(),
            version: "1.1.0".to_owned(),
            homie_versions: vec!["3.0.1".to_owned(), "4.x".to_owned()],
        },
    ];
    expected.local_ip = Some("192.168.0.10".to_owned());
    expected.mac = Some("DE:AD:BE:EF:FE:ED".to_owned());
    expected.firmware_name = Some("firmware".to_owned());
    expected.firmware_version = Some("1.2.3".to_owned());
    expected.stats_interval = Some(60);
    expected.stats_uptime = Some(123456);
    expected.stats_signal = Some(-42);
    expected.stats_cputemp = Some("48.5".to_owned());
    expected.stats_cpuload = Some(7);
    expected.stats_battery = Some(100);
    expected.stats_freeheap = Some(18446744073709551615);
    expected.stats_supply = Some("3.3e0".to_owned());
    assert_eq!(controller.snapshot(), &vec![expected]);
}

#[test]
fn node_and_property_attributes_are_parsed() {
    let mut controller = Controller::new();
    apply_all(
        &mut controller,
        &[
            ("d1/n1/$name", "Node"),
            ("d1/n1/$type", "sensor"),
            ("d1/n1/p1/$name", "Property"),
            ("d1/n1/p1/$datatype", "enum"),
            ("d1/n1/p1/$settable", "true"),
            ("d1/n1/p1/$retained", "false"),
            ("d1/n1/p1/$unit", "°C"),
            ("d1/n1/p1/$format", "low,high"),
            ("d1/n1/p1", "low"),
        ],
    );
    let mut property = Property::new("p1");
    property.name = Some("Property".to_owned());
    property.datatype = Some(Datatype::Enum);
    property.settable = true;
    property.retained = false;
    property.unit = Some("°C".to_owned());
    property.format = Some("low,high".to_owned());
    property.value = Some("low".to_owned());
    let mut node = Node::new("n1");
    node.name = Some("Node".to_owned());
    node.node_type = Some("sensor".to_owned());
    node.properties.push(property);
    let mut device = Device::new("d1", "");
    device.nodes.push(node);
    assert_eq!(controller.snapshot(), &vec![device]);
}

#[test]
fn every_state_is_taken() {
    let states = [
        ("init", State::Init),
        ("ready", State::Ready),
        ("disconnected", State::Disconnected),
        ("sleeping", State::Sleeping),
        ("lost", State::Lost),
        ("alert", State::Alert),
    ];
    let mut controller = Controller::new();
    for (payload, state) in states {
        let update = controller.apply_update("d1/$state", payload, true);
        assert_eq!(update.diagnostic, None);
        assert_eq!(controller.device("d1").unwrap().state, state);
    }
    let update = controller.apply_update("d1/$state", "unknown", true);
    assert_eq!(update.diagnostic, error(ErrorKind::InvalidState, "unknown"));
    assert_eq!(controller.device("d1").unwrap().state, State::Alert);
}

#[test]
fn events_of_a_device_attribute() {
    let mut controller = Controller::new();
    let update = controller.apply_update("d1/$name", "One", true);
    assert_eq!(
        update,
        Update {
            events: vec![device_added("d1"), device_changed("d1")],
            diagnostic: None,
        }
    );
    let update = controller.apply_update("d1/$name", "One", true);
    assert_eq!(
        update,
        Update {
            events: vec![device_changed("d1")],
            diagnostic: None,
        }
    );
}

#[test]
fn events_of_a_node_attribute() {
    let mut controller = Controller::new();
    let update = controller.apply_update("d1/n1/$name", "Node", true);
    assert_eq!(
        update.events,
        vec![
            device_added("d1"),
            node_added("d1", "n1"),
            node_changed("d1", "n1")
        ]
    );
    let update = controller.apply_update("d1/n1/$type", "sensor", true);
    assert_eq!(update.events, vec![node_changed("d1", "n1")]);
}

#[test]
fn events_of_a_property_attribute() {
    let mut controller = Controller::new();
    let update = controller.apply_update("d1/n1/p1", "1", true);
    assert_eq!(
        update.events,
        vec![
            device_added("d1"),
            node_added("d1", "n1"),
            property_added("d1", "n1", "p1"),
            property_changed("d1", "n1", "p1"),
        ]
    );
    let update = controller.apply_update("d1/n1/p2/$name", "Two", true);
    assert_eq!(
        update.events,
        vec![
            property_added("d1", "n1", "p2"),
            property_changed("d1", "n1", "p2"),
        ]
    );
    let update = controller.apply_update("d1/n1/p2/$retained", "no", true);
    assert_eq!(
        update,
        Update {
            events: vec![],
            diagnostic: error(ErrorKind::InvalidScalar, "no"),
        }
    );
}

#[test]
fn device_that_becomes_complete_is_announced() {
    let mut controller = Controller::new();
    apply_all(
        &mut controller,
        &[
            ("d1/$name", "One"),
            ("d1/$state", "ready"),
            ("d1/n1/$name", "Node"),
            ("d1/n1/$type", "sensor"),
            ("d1/n1/p1/$name", "Property"),
        ],
    );
    assert!(!controller.device("d1").unwrap().has_required_attributes());
    let update = controller.apply_update("d1/n1/p1/$datatype", "integer", true);
    assert_eq!(
        update.events,
        vec![property_changed("d1", "n1", "p1"), device_changed("d1")]
    );
    assert!(controller.device("d1").unwrap().has_required_attributes());
    let update = controller.apply_update("d1/n1/p1", "5", true);
    assert_eq!(update.events, vec![property_changed("d1", "n1", "p1")]);
    let update = controller.apply_update("d1/n2/$name", "Other", true);
    assert_eq!(
        update.events,
        vec![node_added("d1", "n2"), node_changed("d1", "n2")]
    );
    assert!(!controller.device("d1").unwrap().has_required_attributes());
}

#[test]
fn node_that_completes_the_device_is_announced() {
    let mut controller = Controller::new();
    apply_all(
        &mut controller,
        &[
            ("d1/$name", "One"),
            ("d1/$state", "ready"),
            ("d1/n1/$name", "Node"),
            ("d1/n1/p1/$name", "Property"),
            ("d1/n1/p1/$datatype", "integer"),
        ],
    );
    let update = controller.apply_update("d1/n1/$type", "sensor", true);
    assert_eq!(
        update.events,
        vec![node_changed("d1", "n1"), device_changed("d1")]
    );
}

#[test]
fn list_of_nodes_removes_and_adds() {
    let mut controller = Controller::new();
    apply_all(
        &mut controller,
        &[
            ("d1/a/$name", "A"),
            ("d1/b/$name", "B"),
            ("d1/c/$name", "C"),
        ],
    );
    let update = controller.apply_update("d1/$nodes", "c,x,a,x,y", true);
    assert_eq!(
        update,
        Update {
            events: vec![
                node_removed("d1", "b"),
                node_added("d1", "x"),
                node_added("d1", "y"),
                device_changed("d1"),
            ],
            diagnostic: None,
        }
    );
    let mut a = Node::new("a");
    a.name = Some("A".to_owned());
    let mut c = Node::new("c");
    c.name = Some("C".to_owned());
    let mut expected = Device::new("d1", "");
    expected.nodes = vec![a, c, Node::new("x"), Node::new("y")];
    assert_eq!(controller.snapshot(), &vec![expected]);
}

#[test]
fn list_of_properties_removes_and_adds() {
    let mut controller = Controller::new();
    apply_all(
        &mut controller,
        &[("d1/n1/p1", "1"), ("d1/n1/p2", "2"), ("d1/n1/p3", "3")],
    );
    let update = controller.apply_update("d1/n1/$properties", "p2,p4", true);
    assert_eq!(
        update,
        Update {
            events: vec![
                property_removed("d1", "n1", "p1"),
                property_removed("d1", "n1", "p3"),
                property_added("d1", "n1", "p4"),
                node_changed("d1", "n1"),
            ],
            diagnostic: None,
        }
    );
    let mut p2 = Property::new("p2");
    p2.value = Some("2".to_owned());
    let node = controller.device("d1").unwrap().node("n1").unwrap();
    assert_eq!(node.properties, vec![p2, Property::new("p4")]);
}

#[test]
fn list_with_malformed_identifier_is_rejected() {
    let mut controller = Controller::new();
    apply_all(&mut controller, &[("d1/a/$name", "A")]);
    let before = controller.snapshot().clone();
    let update = controller.apply_update("d1/$nodes", "a,Bad,-c", true);
    assert_eq!(
        update,
        Update {
            events: vec![],
            diagnostic: error(ErrorKind::InvalidIdentifier, "Bad"),
        }
    );
    assert_eq!(controller.snapshot(), &before);
    let update = controller.apply_update("d1/$nodes", "", true);
    assert_eq!(
        update.diagnostic,
        error(ErrorKind::InvalidIdentifier, "")
    );
    let update = controller.apply_update("d1/a/$properties", "p1,,p2", true);
    assert_eq!(
        update.diagnostic,
        error(ErrorKind::InvalidIdentifier, "")
    );
    assert_eq!(controller.snapshot(), &before);
}

#[test]
fn malformed_identifier_in_topic_is_rejected() {
    let mut controller = Controller::new();
    let topics = [
        ("Kitchen/$name", "Kitchen"),
        ("kitchen-/light/$name", "kitchen-"),
        ("kitchen/li ght/$name", "li ght"),
        ("kitchen/light/-power", "-power"),
        ("kitchen/light/po_wer/$name", "po_wer"),
        ("/light/power", ""),
        ("$SYS/broker/$name", "$SYS"),
        ("kitchen/light/$x/$name", "$x"),
    ];
    for (topic, id) in topics {
        let update = controller.apply_update(topic, "x", true);
        assert_eq!(
            update,
            Update {
                events: vec![],
                diagnostic: error(ErrorKind::InvalidIdentifier, id),
            },
            "{}",
            topic
        );
    }
    assert!(controller.snapshot().is_empty());
}

#[test]
fn unknown_topic_shape_is_ignored() {
    let mut controller = Controller::new();
    let topics = [
        "",
        "kitchen",
        "kitchen/light",
        "kitchen/$unknown",
        "kitchen/$fw",
        "kitchen/$fw/checksum",
        "kitchen/$stats/interval/more",
        "kitchen/$name/more",
        "kitchen/light/$unknown",
        "kitchen/light/$datatype",
        "kitchen/light/power/$unknown",
        "kitchen/light/power/set",
        "kitchen/light/power/$type",
        "kitchen/light/power/$name/more",
        "Kitchen",
        "Kitchen/$unknown",
        "kitchen/$NAME",
    ];
    for topic in topics {
        let update = controller.apply_update(topic, "x", true);
        assert_eq!(
            update,
            Update {
                events: vec![],
                diagnostic: None,
            },
            "{}",
            topic
        );
    }
    assert!(controller.snapshot().is_empty());
}

#[test]
fn payloads_that_are_no_numbers_are_rejected() {
    let mut controller = Controller::new();
    apply_all(&mut controller, &[("d1/$name", "One")]);
    let before = controller.snapshot().clone();
    let messages = [
        ("d1/$stats/interval", ""),
        ("d1/$stats/interval", "-1"),
        ("d1/$stats/interval", "1.5"),
        ("d1/$stats/uptime", "18446744073709551616"),
        ("d1/$stats/uptime", " 1"),
        ("d1/$stats/signal", "9223372036854775808"),
        ("d1/$stats/signal", "-9223372036854775809"),
        ("d1/$stats/signal", "+"),
        ("d1/$stats/signal", "--1"),
        ("d1/$stats/cpuload", "1e2"),
        ("d1/$stats/battery", "full"),
        ("d1/$stats/freeheap", "-0"),
        ("d1/$stats/cputemp", ""),
        ("d1/$stats/cputemp", "."),
        ("d1/$stats/cputemp", "1.2.3"),
        ("d1/$stats/cputemp", "1e"),
        ("d1/$stats/cputemp", "e5"),
        ("d1/$stats/cputemp", "+-1"),
        ("d1/$stats/supply", "3,3"),
        ("d1/$stats/supply", "3.3V"),
        ("d1/$stats/supply", "infinit"),
        ("d1/$stats/supply", " 3.3"),
    ];
    for (topic, payload) in messages {
        let update = controller.apply_update(topic, payload, true);
        assert_eq!(
            update,
            Update {
                events: vec![],
                diagnostic: error(ErrorKind::InvalidScalar, payload),
            },
            "{} = {}",
            topic,
            payload
        );
    }
    assert_eq!(controller.snapshot(), &before);
}

#[test]
fn edge_numbers_are_taken() {
    let mut controller = Controller::new();
    apply_all(
        &mut controller,
        &[
            ("d1/$stats/signal", "-9223372036854775808"),
            ("d1/$stats/cpuload", "9223372036854775807"),
            ("d1/$stats/battery", "+007"),
            ("d1/$stats/interval", "0"),
            ("d1/$stats/uptime", "000000000000000000000000018446744073709551615"),
        ],
    );
    let device = controller.device("d1").unwrap();
    assert_eq!(device.stats_signal, Some(i64::MIN));
    assert_eq!(device.stats_cpuload, Some(i64::MAX));
    assert_eq!(device.stats_battery, Some(7));
    assert_eq!(device.stats_interval, Some(0));
    assert_eq!(device.stats_uptime, Some(u64::MAX));
}

#[test]
fn real_numbers_are_taken_as_their_text() {
    let texts = [
        "0", "21.5", "-1e-3", "+1E+10", ".5", "5.", "-.5e1", "inf", "-Infinity", "NaN", "+nan",
        "1e400", "007.100",
    ];
    let mut controller = Controller::new();
    for text in texts {
        let update = controller.apply_update("d1/$stats/cputemp", text, true);
        assert_eq!(update.diagnostic, None, "{}", text);
        let device = controller.device("d1").unwrap();
        assert_eq!(device.stats_cputemp, Some(text.to_owned()));
        assert!(text.parse::<f64>().is_ok());
    }
}

#[test]
fn real_number_texts_agree_with_the_standard_parser() {
    let texts = [
        "", ".", "+", "-", "e", "1e", "1e+", "e1", ".e1", "1.e1", "1.2.3", "1_000", "0x10", "１",
        "in", "infinit", "infinityy", "na", "nann", "i", " 1", "1 ", "1,5", "--1", "1e1.5", "1f",
        "+.", "-.e2", "1E-", "InF", "iNfInItY", "nAn", "-0", "+0.0e-0", "00", "9e999999999999",
    ];
    let mut controller = Controller::new();
    for text in texts {
        let update = controller.apply_update("d1/$stats/supply", text, true);
        assert_eq!(
            update.diagnostic.is_none(),
            text.parse::<f64>().is_ok(),
            "{:?}",
            text
        );
    }
}

#[test]
fn extensions_that_do_not_parse_are_rejected() {
    let mut controller = Controller::new();
    apply_all(&mut controller, &[("d1/$extensions", "a:0:[]")]);
    let before = controller.snapshot().clone();
    assert_eq!(
        before[0].extensions,
        vec![Extension {
            id: "a".to_owned(),
            version: "0".to_owned(),
            homie_versions: vec!["".to_owned()],
        }]
    );
    let update = controller.apply_update("d1/$extensions", "a:0:[1],b:1,c:2:[3]", true);
    assert_eq!(
        update,
        Update {
            events: vec![],
            diagnostic: error(ErrorKind::InvalidExtension, "b:1"),
        }
    );
    let update = controller.apply_update("d1/$extensions", "", true);
    assert_eq!(update.diagnostic, error(ErrorKind::InvalidExtension, ""));
    assert_eq!(controller.snapshot(), &before);
}

#[test]
fn retained_flag_makes_no_difference() {
    let mut first = Controller::new();
    let mut second = Controller::new();
    let a = first.apply_update("d1/n1/p1", "1", true);
    let b = second.apply_update("d1/n1/p1", "1", false);
    assert_eq!(a, b);
    assert_eq!(first.snapshot(), second.snapshot());
}

#[test]
fn removed_device_leaves_with_all_it_holds() {
    let mut controller = Controller::new();
    apply_all(
        &mut controller,
        &[("d1/n1/p1", "1"), ("d2/$name", "Two"), ("d3/n3/$name", "N")],
    );
    let events = controller.notify_device_removed("d2");
    assert_eq!(
        events,
        vec![ChangeEvent::DeviceRemoved {
            device: "d2".to_owned()
        }]
    );
    assert!(controller.device("d2").is_none());
    assert_eq!(controller.snapshot().len(), 2);
    assert_eq!(controller.snapshot()[0].id, "d1");
    assert_eq!(controller.snapshot()[1].id, "d3");
    let events = controller.notify_device_removed("d2");
    assert_eq!(events, vec![]);
    assert_eq!(controller.snapshot().len(), 2);
    let update = controller.apply_update("d2/$name", "Again", true);
    assert_eq!(update.events, vec![device_added("d2"), device_changed("d2")]);
    assert_eq!(controller.snapshot()[2].id, "d2");
}

#[test]
fn set_property_asks_on_the_set_topic() {
    let mut controller = Controller::new();
    apply_all(
        &mut controller,
        &[
            ("kitchen/light/power/$settable", "true"),
            ("kitchen/light/power", "false"),
        ],
    );
    let before = controller.snapshot().clone();
    assert_eq!(
        controller.set_property("kitchen", "light", "power", "true"),
        Ok(PublishRequest {
            topic: "kitchen/light/power/set".to_owned(),
            payload: "true".to_owned(),
        })
    );
    assert_eq!(controller.snapshot(), &before);
}

#[test]
fn set_property_of_something_unknown_fails() {
    let mut controller = Controller::new();
    apply_all(
        &mut controller,
        &[
            ("kitchen/light/power/$settable", "true"),
            ("kitchen/light/level/$settable", "false"),
            ("kitchen/light/colour", "red"),
        ],
    );
    assert_eq!(
        controller.set_property("attic", "light", "power", "1"),
        Err(Error {
            kind: ErrorKind::UnknownEntity,
            input: "attic".to_owned()
        })
    );
    assert_eq!(
        controller.set_property("kitchen", "fan", "power", "1"),
        Err(Error {
            kind: ErrorKind::UnknownEntity,
            input: "fan".to_owned()
        })
    );
    assert_eq!(
        controller.set_property("kitchen", "light", "speed", "1"),
        Err(Error {
            kind: ErrorKind::UnknownEntity,
            input: "speed".to_owned()
        })
    );
    assert_eq!(
        controller.set_property("kitchen", "light", "level", "1"),
        Err(Error {
            kind: ErrorKind::PropertyNotSettable,
            input: "level".to_owned()
        })
    );
    assert_eq!(
        controller.set_property("kitchen", "light", "colour", "blue"),
        Err(Error {
            kind: ErrorKind::PropertyNotSettable,
            input: "colour".to_owned()
        })
    );
}
