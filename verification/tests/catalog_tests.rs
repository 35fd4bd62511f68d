use dk::catalog_file::{decode_catalog, encode_catalog};
use dk::config::{catalog_eq, catalog_or_default, default_catalog, DkConfig, Ots};

fn ots(name: &str, port: u32, command_line: &str) -> Ots {
    Ots { name: name.to_string(), port, command_line: command_line.to_string() }
}

#[test]
fn test_round_trip_default_catalog() {
    let cfg = default_catalog();
    let text = encode_catalog(&cfg);
    let back = decode_catalog(text.as_str()).expect("canonical text must decode");
    assert!(catalog_eq(&cfg, &back));
}

#[test]
fn test_round_trip_empty_catalog() {
    let cfg = DkConfig { ots: Vec::new() };
    let text = encode_catalog(&cfg);
    assert_eq!(text.as_str(), "{\n  \"ots\": []\n}");
    let back = decode_catalog(text.as_str()).expect("canonical text must decode");
    assert!(catalog_eq(&cfg, &back));
    assert_eq!(back.ots.len(), 0);
}

#[test]
fn test_round_trip_awkward_strings() {
    let cfg = DkConfig {
        ots: vec![
            ots("we\"ird\\name", 0, "line one\nline\ttwo \u{1} end"),
            ots("caf\u{e9} \u{20ac}", 4294967295, ""),
        ],
    };
    let text = encode_catalog(&cfg);
    let back = decode_catalog(text.as_str()).expect("canonical text must decode");
    assert!(catalog_eq(&cfg, &back));
}

#[test]
fn test_missing_file_gives_default_then_same_catalog_again() {
    // what the loader does when no file exists, and what a second load of
    // the freshly written file gives back
    let first = catalog_or_default(None);
    let written = encode_catalog(&first);
    let second = decode_catalog(written.as_str()).expect("written file must decode");
    assert!(catalog_eq(&first, &second));
    assert!(catalog_eq(&first, &default_catalog()));
}

#[test]
fn test_encode_uses_the_pretty_layout() {
    let text = encode_catalog(&default_catalog());
    assert!(text.starts_with(
        "{\n  \"ots\": [\n    {\n      \"name\": \"portainer\",\n      \"port\": 25003,\n      \"command_line\": \""
    ));
    assert!(text.ends_with("\n    }\n  ]\n}"));
}

#[test]
fn test_encode_escapes_control_characters() {
    let cfg = DkConfig { ots: vec![ots("a\nb", 1, "c\"d\\e")] };
    let text = encode_catalog(&cfg);
    assert!(text.contains("a\\u000ab"));
    assert!(text.contains("c\\\"d\\\\e"));
}

#[test]
fn test_decode_is_whitespace_insensitive() {
    let compact = "{\"ots\":[{\"name\":\"a\",\"port\":7,\"command_line\":\"run a\"}]}";
    let cfg = decode_catalog(compact).expect("compact form must decode");
    assert_eq!(cfg.ots.len(), 1);
    assert_eq!(cfg.ots[0].name.as_str(), "a");
    assert_eq!(cfg.ots[0].port, 7);
    assert_eq!(cfg.ots[0].command_line.as_str(), "run a");
}

#[test]
fn test_decode_escapes() {
    let text = "{\"ots\":[{\"name\":\"\\u0041\\n\\\"\",\"port\":1,\"command_line\":\"\\\\\"}]}";
    let cfg = decode_catalog(text).expect("escapes must decode");
    assert_eq!(cfg.ots[0].name.as_str(), "A\n\"");
    assert_eq!(cfg.ots[0].command_line.as_str(), "\\");
}

#[test]
fn test_decode_rejects_malformed_text() {
    assert!(decode_catalog("").is_none());
    assert!(decode_catalog("{}").is_none());
    assert!(decode_catalog("{\"ots\":[").is_none());
    assert!(decode_catalog("{\"ots\":[{\"name\":\"a\"}]}").is_none());
    assert!(decode_catalog("{\"ots\":[]} trailing").is_none());
    assert!(decode_catalog("{\"ots\":[{\"name\":\"a\",\"port\":99999999999,\"command_line\":\"c\"}]}").is_none());
    // a lone surrogate escape is not a character
    assert!(decode_catalog("{\"ots\":[{\"name\":\"\\uD800\",\"port\":1,\"command_line\":\"c\"}]}").is_none());
}

#[test]
fn test_default_catalog_contents() {
    let cfg = default_catalog();
    assert_eq!(cfg.ots.len(), 5);
    assert_eq!(cfg.ots[0].name.as_str(), "portainer");
    assert_eq!(cfg.ots[0].port, 25003);
    assert!(cfg.ots[0].command_line.as_str().starts_with("docker run -d --name ots_portainer"));
    assert_eq!(cfg.ots[1].name.as_str(), "sqlserver");
    assert_eq!(cfg.ots[2].name.as_str(), "kroki");
    assert_eq!(cfg.ots[3].name.as_str(), "excalidraw");
    assert_eq!(cfg.ots[4].name.as_str(), "rabbitmq");
}

#[test]
fn test_catalog_eq_spots_differences() {
    let a = DkConfig { ots: vec![ots("a", 1, "x")] };
    let same = DkConfig { ots: vec![ots("a", 1, "x")] };
    let other_port = DkConfig { ots: vec![ots("a", 2, "x")] };
    let other_len = DkConfig { ots: Vec::new() };
    assert!(catalog_eq(&a, &same));
    assert!(!catalog_eq(&a, &other_port));
    assert!(!catalog_eq(&a, &other_len));
}

#[test]
fn test_catalog_or_default_keeps_loaded() {
    let loaded = DkConfig { ots: vec![ots("mine", 9, "run mine")] };
    let kept = catalog_or_default(Some(loaded));
    assert_eq!(kept.ots.len(), 1);
    assert_eq!(kept.ots[0].name.as_str(), "mine");
}
