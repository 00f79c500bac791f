use trellis::cli::commands::{decode_payload, encode_payload, read_payload};
use trellis::cli::state::{cli_state_from_json, cli_state_to_json, load_cli_state, put_artifact, ArtifactEntry, CliState};
use trellis::json::{parse_json, Json};

fn pin(k: &str, s: &str, sc: &str, d: &str) -> (String, String, String, String) {
    (k.to_string(), s.to_string(), sc.to_string(), d.to_string())
}

fn entry(id: &str, kind: &str) -> ArtifactEntry {
    ArtifactEntry { id: id.to_string(), kind: kind.to_string() }
}

#[test]
fn json_texts_parse_to_documents() {
    match parse_json(br#"{"b": [1, true, null], "a": "x"}"#) {
        Ok(Some(Json::Object(members))) => {
            assert_eq!(members.len(), 2);
            assert_eq!(members[0].0, "a");
            assert!(matches!(&members[0].1, Json::Str(s) if s == "x"));
            assert_eq!(members[1].0, "b");
            match &members[1].1 {
                Json::Array(items) => {
                    assert!(matches!(&items[0], Json::Number(n) if n == "1"));
                    assert!(matches!(&items[1], Json::Bool(true)));
                    assert!(matches!(&items[2], Json::Null));
                },
                _ => panic!("array expected"),
            }
        },
        _ => panic!("object expected"),
    }
    assert!(parse_json(b"{not json").is_err());
}

#[test]
fn payloads_keep_well_formed_pins_and_default_the_value() {
    let bytes = br#"{"pins": [["callers", "a.b", "Repository", "blake3:00"], [1, 2], ["x"]], "value": "v"}"#;
    let (pins, value) = read_payload(bytes).unwrap();
    assert_eq!(pins, vec![pin("callers", "a.b", "Repository", "blake3:00")]);
    assert_eq!(value, "v");
    let (pins, value) = read_payload(br#"{"pins": []}"#).unwrap();
    assert!(pins.is_empty());
    assert_eq!(value, "");
    assert_eq!(read_payload(br#"{"value": "v"}"#), Err("payload missing pins".to_string()));
    assert!(read_payload(b"[1, 2").unwrap_err().starts_with("payload corrupt: "));
}

#[test]
fn encoded_payloads_decode_to_their_pins_and_value() {
    let pins = vec![pin("callers", "a.b", "Repository", "blake3:01"), pin("imports", "m", "Module", "blake3:02")];
    let doc = encode_payload(&pins, "a.c; a.d");
    assert_eq!(decode_payload(&doc), Ok((pins, "a.c; a.d".to_string())));
}

#[test]
fn sidecars_load_in_key_order_and_round_trip() {
    let bytes = br#"{"artifacts": {"z": {"id": "blake3:9", "kind": "callers"}, "a": {"id": "blake3:1"}},
        "head": "blake3:h", "manifest": {"entries": [{"path": "a.py", "digest": "blake3:d"}, {"path": 3}]}}"#;
    let st = load_cli_state(bytes);
    assert_eq!(st.artifacts, vec![("a".to_string(), entry("blake3:1", "")), ("z".to_string(), entry("blake3:9", "callers"))]);
    assert_eq!(st.manifest_entries, vec![("a.py".to_string(), "blake3:d".to_string())]);
    assert_eq!(st.head, Some("blake3:h".to_string()));
    assert_eq!(cli_state_from_json(&cli_state_to_json(&st)), st);
    assert_eq!(load_cli_state(b"garbage"), CliState::default());
}

#[test]
fn registry_puts_insert_in_order_and_replace() {
    let mut st = CliState::default();
    put_artifact(&mut st, "m", entry("1", "k"));
    put_artifact(&mut st, "b", entry("2", "k"));
    put_artifact(&mut st, "x", entry("3", "k"));
    put_artifact(&mut st, "m", entry("4", "k"));
    let keys: Vec<&str> = st.artifacts.iter().map(|(k, _)| k.as_str()).collect();
    assert_eq!(keys, vec!["b", "m", "x"]);
    assert_eq!(st.artifacts[1].1, entry("4", "k"));
}
