use homie_controller::ident::is_valid;
use homie_controller::scalar::{is_real, parse_boolean, parse_signed, parse_unsigned};
use homie_controller::text::{chars_of, same_text, split_text};
use homie_controller::topic::{compose_set_topic, route, Route};
use homie_controller::types::{
    DeviceAttribute, Extension, NodeAttribute, ParseExtensionError, PropertyAttribute,
};

#[test]
fn identifiers() {
    for id in ["a", "0", "kitchen", "kitchen-light", "a-b-c", "a--b", "light2", "9lives"] {
        assert!(is_valid(id), "{:?}", id);
    }
    for id in [
        "", "-", "-a", "a-", "A", "kitchen light", "kitchen_light", "$name", "a/b", "a,b", "é",
        "a.b",
    ] {
        assert!(!is_valid(id), "{:?}", id);
    }
}

#[test]
fn splitting() {
    assert_eq!(split_text("", ','), vec![""]);
    assert_eq!(split_text("a", ','), vec!["a"]);
    assert_eq!(split_text("a,b", ','), vec!["a", "b"]);
    assert_eq!(split_text(",a,,b,", ','), vec!["", "a", "", "b", ""]);
    assert_eq!(split_text(",", ','), vec!["", ""]);
    assert_eq!(split_text("ä/ö/ü", '/'), vec!["ä", "ö", "ü"]);
    for text in ["", "a:b", "::", "a;b:c", "x:y:[z;w]:"] {
        let expected: Vec<String> = text.split(':').map(|piece| piece.to_owned()).collect();
        assert_eq!(split_text(text, ':'), expected);
        assert_eq!(split_text(text, ':').join(":"), text);
    }
}

#[test]
fn characters_and_equality() {
    assert_eq!(chars_of("aé€"), vec!['a', 'é', '€']);
    assert!(chars_of("").is_empty());
    assert!(same_text("abc", "abc"));
    assert!(!same_text("abc", "abd"));
    assert!(!same_text("abc", "ab"));
    assert!(same_text("", ""));
}

#[test]
fn unsigned_integers() {
    assert_eq!(parse_unsigned("0"), Some(0));
    assert_eq!(parse_unsigned("42"), Some(42));
    assert_eq!(parse_unsigned("+42"), Some(42));
    assert_eq!(parse_unsigned("0042"), Some(42));
    assert_eq!(parse_unsigned("18446744073709551615"), Some(u64::MAX));
    assert_eq!(parse_unsigned("18446744073709551616"), None);
    assert_eq!(parse_unsigned("99999999999999999999999"), None);
    for text in ["", "+", "-1", "-0", "4 2", "4.2", "0x10", "++1", "1+", "٣"] {
        assert_eq!(parse_unsigned(text), None, "{:?}", text);
        assert!(text.parse::<u64>().is_err());
    }
}

#[test]
fn signed_integers() {
    assert_eq!(parse_signed("0"), Some(0));
    assert_eq!(parse_signed("-0"), Some(0));
    assert_eq!(parse_signed("+17"), Some(17));
    assert_eq!(parse_signed("-17"), Some(-17));
    assert_eq!(parse_signed("9223372036854775807"), Some(i64::MAX));
    assert_eq!(parse_signed("-9223372036854775808"), Some(i64::MIN));
    assert_eq!(parse_signed("9223372036854775808"), None);
    assert_eq!(parse_signed("-9223372036854775809"), None);
    assert_eq!(parse_signed("-18446744073709551616"), None);
    for text in ["", "+", "-", "+-1", "-+1", "1-", "1.0", " 1", "one"] {
        assert_eq!(parse_signed(text), None, "{:?}", text);
        assert!(text.parse::<i64>().is_err());
    }
}

#[test]
fn booleans() {
    assert_eq!(parse_boolean("true"), Some(true));
    assert_eq!(parse_boolean("false"), Some(false));
    for text in ["", "True", "FALSE", "1", "0", "yes", "true ", "tru"] {
        assert_eq!(parse_boolean(text), None, "{:?}", text);
    }
}

#[test]
fn real_numbers() {
    for text in [
        "0", "1", "-1", "+1", "1.5", "1.", ".5", "-.5", "1e5", "1E5", "1e+5", "1e-5", "1.5e10",
        ".5e-3", "5.e3", "inf", "+inf", "-inf", "INF", "infinity", "Infinity", "nan", "NaN",
        "-nan", "00012.5000",
    ] {
        assert!(is_real(text), "{:?}", text);
        assert!(text.parse::<f64>().is_ok(), "{:?}", text);
    }
    for text in [
        "", "+", "-", ".", "+.", "e", "e5", ".e5", "1e", "1e+", "1e-", "1e5.0", "1.5.5", "1 ",
        " 1", "1,5", "in", "infinit", "infinityx", "na", "nanx", "++1", "1f", "0x1p3", "1__0",
    ] {
        assert!(!is_real(text), "{:?}", text);
        assert!(text.parse::<f64>().is_err(), "{:?}", text);
    }
}

#[test]
fn extension_round_trip() {
    for text in [
        "org.homie.legacy-stats:0.1.1:[4.x]",
        "eu.epnw.meta:1.1.0:[3.0.1;4.x]",
        "a:0:[]",
        "::[]",
        "a:b:[;]",
        "a:b:[;;x;]",
        "a:b:[[x]]",
    ] {
        let extension: Extension = text.parse().unwrap();
        let list = &text[text.find(":[").unwrap() + 1..];
        assert_eq!(
            format!("[{}]", extension.homie_versions.join(";")),
            list,
            "{:?}",
            text
        );
        assert_eq!(
            format!(
                "{}:{}:[{}]",
                extension.id,
                extension.version,
                extension.homie_versions.join(";")
            ),
            text
        );
    }
}

#[test]
fn extension_without_three_parts_or_brackets_fails() {
    for text in [
        "", ":", "a", "a:b", "a:b:c", "a:b:[", "a:b:]", "a:b:[c", "a:b:c]", "a:b:[c]:d",
        "a:b:[c:d]", "a:b: [c]", "a:b:[c] ", "a:b:][",
    ] {
        assert_eq!(
            Extension::from_str(text),
            Err(ParseExtensionError(text.to_owned())),
            "{:?}",
            text
        );
    }
    assert_eq!(
        ParseExtensionError("a:b".to_owned()).to_string(),
        "Invalid extension 'a:b'"
    );
}

#[test]
fn empty_brackets_list_one_empty_version() {
    let extension = Extension::from_str("a:0:[]").unwrap();
    assert_eq!(extension.homie_versions, vec!["".to_owned()]);
    assert_eq!(extension.homie_versions.len(), 1);
}

fn device_route(device: &str, attribute: DeviceAttribute) -> Result<Option<Route>, ()> {
    Ok(Some(Route::Device {
        device: device.to_owned(),
        attribute,
    }))
}

#[test]
fn routes_of_device_attributes() {
    let attributes = [
        ("$homie", DeviceAttribute::Homie),
        ("$name", DeviceAttribute::Name),
        ("$state", DeviceAttribute::State),
        ("$implementation", DeviceAttribute::Implementation),
        ("$extensions", DeviceAttribute::Extensions),
        ("$nodes", DeviceAttribute::Nodes),
        ("$localip", DeviceAttribute::LocalIp),
        ("$mac", DeviceAttribute::Mac),
        ("$fw/name", DeviceAttribute::FirmwareName),
        ("$fw/version", DeviceAttribute::FirmwareVersion),
        ("$stats/interval", DeviceAttribute::StatsInterval),
        ("$stats/uptime", DeviceAttribute::StatsUptime),
        ("$stats/signal", DeviceAttribute::StatsSignal),
        ("$stats/cputemp", DeviceAttribute::StatsCputemp),
        ("$stats/cpuload", DeviceAttribute::StatsCpuload),
        ("$stats/battery", DeviceAttribute::StatsBattery),
        ("$stats/freeheap", DeviceAttribute::StatsFreeheap),
        ("$stats/supply", DeviceAttribute::StatsSupply),
    ];
    for (name, attribute) in attributes {
        let topic = format!("my-device/{}", name);
        assert_eq!(
            route(&topic).map_err(|_| ()),
            device_route("my-device", attribute),
            "{}",
            topic
        );
    }
}

#[test]
fn routes_of_node_attributes() {
    let attributes = [
        ("$name", NodeAttribute::Name),
        ("$type", NodeAttribute::Type),
        ("$properties", NodeAttribute::Properties),
    ];
    for (name, attribute) in attributes {
        let topic = format!("d/n/{}", name);
        assert_eq!(
            route(&topic),
            Ok(Some(Route::Node {
                device: "d".to_owned(),
                node: "n".to_owned(),
                attribute,
            })),
            "{}",
            topic
        );
    }
}

#[test]
fn routes_of_property_attributes() {
    let attributes = [
        ("/$name", PropertyAttribute::Name),
        ("/$datatype", PropertyAttribute::Datatype),
        ("/$settable", PropertyAttribute::Settable),
        ("/$retained", PropertyAttribute::Retained),
        ("/$unit", PropertyAttribute::Unit),
        ("/$format", PropertyAttribute::Format),
        ("", PropertyAttribute::Value),
    ];
    for (name, attribute) in attributes {
        let topic = format!("d/n/p{}", name);
        assert_eq!(
            route(&topic),
            Ok(Some(Route::Property {
                device: "d".to_owned(),
                node: "n".to_owned(),
                property: "p".to_owned(),
                attribute,
            })),
            "{}",
            topic
        );
    }
}

#[test]
fn routes_nowhere() {
    for topic in [
        "", "d", "d/n", "d/$x", "d/n/$x", "d/n/p/x", "d/n/p/$x", "d/n/p/$name/x", "a/b/c/d/e",
    ] {
        assert_eq!(route(topic), Ok(None), "{:?}", topic);
    }
}

#[test]
fn set_topic() {
    assert_eq!(
        compose_set_topic("kitchen", "light", "power"),
        "kitchen/light/power/set"
    );
    assert_eq!(route("kitchen/light/power/set"), Ok(None));
}
