use std::str::FromStr;

use helixlauncher_meta::util::{GradleParseError, GradleSpecifier};

fn spec(
    group: &str,
    artifact: &str,
    version: &str,
    classifier: Option<&str>,
    extension: &str,
) -> GradleSpecifier {
    GradleSpecifier {
        group: group.to_string(),
        artifact: artifact.to_string(),
        version: version.to_string(),
        classifier: classifier.map(|c| c.to_string()),
        extension: extension.to_string(),
    }
}

#[test]
fn parse_plain_coordinate() {
    let parsed = GradleSpecifier::parse("org.quilt:loader:0.20.0").unwrap();
    assert_eq!(parsed, spec("org.quilt", "loader", "0.20.0", None, "jar"));
}

#[test]
fn parse_classifier_and_extension() {
    let parsed = GradleSpecifier::parse("org.quilt:loader:0.20.0:dev@zip").unwrap();
    assert_eq!(parsed, spec("org.quilt", "loader", "0.20.0", Some("dev"), "zip"));
}

#[test]
fn parse_through_from_str() {
    let parsed: GradleSpecifier = "net.minecraft:launchwrapper:1.2".parse().unwrap();
    assert_eq!(parsed, spec("net.minecraft", "launchwrapper", "1.2", None, "jar"));
}

#[test]
fn parse_without_version_fails() {
    match GradleSpecifier::parse("org.quilt:loader") {
        Err(GradleParseError::VersionMissing(text)) => assert_eq!(text, "org.quilt:loader"),
        other => panic!("unexpected result: {:?}", other),
    }
}

#[test]
fn parse_without_artifact_fails() {
    match GradleSpecifier::parse("org.quilt") {
        Err(GradleParseError::ArtifactIdMissing(text)) => assert_eq!(text, "org.quilt"),
        other => panic!("unexpected result: {:?}", other),
    }
}

#[test]
fn parse_empty_text_fails() {
    assert!(matches!(
        GradleSpecifier::parse(""),
        Err(GradleParseError::ArtifactIdMissing(_))
    ));
}

#[test]
fn parse_keeps_colons_in_classifier() {
    let parsed = GradleSpecifier::parse("a:b:1.0:x:y").unwrap();
    assert_eq!(parsed, spec("a", "b", "1.0", Some("x:y"), "jar"));
}

#[test]
fn parse_takes_last_at_sign() {
    let parsed = GradleSpecifier::parse("a:b:1.0@x@tar.gz").unwrap();
    assert_eq!(parsed, spec("a", "b", "1.0@x", None, "tar.gz"));
}

#[test]
fn parse_empty_extension_reads_as_jar() {
    let parsed = GradleSpecifier::parse("a:b:1.0@").unwrap();
    assert_eq!(parsed, spec("a", "b", "1.0", None, "jar"));
    assert_eq!(parsed.to_string(), "a:b:1.0");
}

#[test]
fn parse_explicit_jar_is_dropped_on_format() {
    let parsed = GradleSpecifier::parse("a:b:1.0@jar").unwrap();
    assert_eq!(parsed, spec("a", "b", "1.0", None, "jar"));
    assert_eq!(parsed.to_string(), "a:b:1.0");
}

#[test]
fn parse_rejects_empty_group_or_artifact() {
    for text in ["::1.0", ":b:1.0", "a::1.0"] {
        match GradleSpecifier::parse(text) {
            Err(GradleParseError::ArtifactIdMissing(t)) => assert_eq!(t, text),
            other => panic!("unexpected result: {:?}", other),
        }
    }
}

#[test]
fn parse_rejects_empty_version() {
    for text in ["a:b:", "a:b::dev", "a:b:@zip"] {
        match GradleSpecifier::parse(text) {
            Err(GradleParseError::VersionMissing(t)) => assert_eq!(t, text),
            other => panic!("unexpected result: {:?}", other),
        }
    }
}

#[test]
fn from_str_matches_parse() {
    assert_eq!(
        GradleSpecifier::from_str("org.quilt:loader:0.20.0:dev@zip").unwrap(),
        spec("org.quilt", "loader", "0.20.0", Some("dev"), "zip")
    );
    assert!(matches!(
        GradleSpecifier::from_str("org.quilt"),
        Err(GradleParseError::ArtifactIdMissing(_))
    ));
}

#[test]
fn format_leaves_out_jar_extension() {
    let s = spec("org.quilt", "loader", "0.20.0", None, "jar");
    assert_eq!(s.to_string(), "org.quilt:loader:0.20.0");
}

#[test]
fn format_writes_classifier_and_extension() {
    let s = spec("org.quilt", "loader", "0.20.0", Some("dev"), "zip");
    assert_eq!(s.to_string(), "org.quilt:loader:0.20.0:dev@zip");
}

#[test]
fn round_trip_of_coordinates() {
    let cases = vec![
        spec("org.quilt", "loader", "0.20.0", None, "jar"),
        spec("org.quilt", "loader", "0.20.0", Some("dev"), "zip"),
        spec("org.lwjgl", "lwjgl", "3.3.1", Some("natives-linux"), "jar"),
        spec("a", "b", "c", Some(""), "pom"),
        spec("g", "a", "v", None, "war"),
    ];
    for c in cases {
        assert_eq!(GradleSpecifier::parse(&c.to_string()).unwrap(), c);
    }
}

#[test]
fn round_trip_of_text() {
    for text in ["org.quilt:loader:0.20.0", "org.quilt:loader:0.20.0:dev@zip", "a:b:c:d"] {
        assert_eq!(GradleSpecifier::parse(text).unwrap().to_string(), text);
    }
}

#[test]
fn url_without_classifier() {
    let s = spec("net.minecraft", "launchwrapper", "1.2", None, "jar");
    assert_eq!(
        s.to_url("https://repo/"),
        "https://repo/net/minecraft/launchwrapper/1.2/launchwrapper-1.2.jar"
    );
}

#[test]
fn url_with_classifier() {
    let s = spec("net.minecraft", "launchwrapper", "1.2", Some("natives"), "jar");
    assert_eq!(
        s.to_url("https://repo/"),
        "https://repo/net/minecraft/launchwrapper/1.2/launchwrapper-1.2-natives.jar"
    );
}

#[test]
fn url_keeps_base_as_given() {
    let s = spec("org.quilt", "loader", "0.20.0", None, "zip");
    assert_eq!(s.to_url("https://maven.example"), "https://maven.exampleorg/quilt/loader/0.20.0/loader-0.20.0.zip");
}

#[test]
fn with_classifier_leaves_original() {
    let s = spec("org.lwjgl", "lwjgl", "3.3.1", None, "jar");
    let t = s.with_classifier("natives-windows".to_string());
    assert_eq!(t, spec("org.lwjgl", "lwjgl", "3.3.1", Some("natives-windows"), "jar"));
    assert_eq!(s.classifier, None);
    let u = t.with_classifier("natives-macos".to_string());
    assert_eq!(u.classifier.as_deref(), Some("natives-macos"));
}
