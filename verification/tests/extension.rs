use homie_controller::types::{Extension, ParseExtensionError};

#[test]
fn extension_parse_succeeds() {
    let legacy_stats: Extension = "org.homie.legacy-stats:0.1.1:[4.x]".parse().unwrap();
    assert_eq!(legacy_stats.id, "org.homie.legacy-stats");
    assert_eq!(legacy_stats.version, "0.1.1");
    assert_eq!(legacy_stats.homie_versions, &["4.x"]);

    let meta: Extension = "eu.epnw.meta:1.1.0:[3.0.1;4.x]".parse().unwrap();
    assert_eq!(meta.id, "eu.epnw.meta");
    assert_eq!(meta.version, "1.1.0");
    assert_eq!(meta.homie_versions, &["3.0.1", "4.x"]);

    let minimal: Extension = "a:0:[]".parse().unwrap();
    assert_eq!(minimal.id, "a");
    assert_eq!(minimal.version, "0");
    assert_eq!(minimal.homie_versions, &[""]);
}

#[test]
fn extension_parse_fails() {
    assert_eq!(
        "".parse::<Extension>(),
        Err(ParseExtensionError("".to_owned()))
    );
    assert_eq!(
        "test.blah:1.2.3".parse::<Extension>(),
        Err(ParseExtensionError("test.blah:1.2.3".to_owned()))
    );
    assert_eq!(
        "test.blah:1.2.3:4.x".parse::<Extension>(),
        Err(ParseExtensionError("test.blah:1.2.3:4.x".to_owned()))
    );
}
