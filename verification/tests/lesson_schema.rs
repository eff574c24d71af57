use harmonicon::lessons::check_lesson_manifest;
use serde_json::Value;

/// The lesson schema, as the game ships it.
const SCHEMA: &str = r#"{
  "$schema": "http://json-schema.org/draft-07/schema#",
  "type": "object",
  "required": ["id", "unit", "title_key", "body_key"],
  "additionalProperties": false,
  "properties": {
    "id": {"type": "string"},
    "unit": {"type": "string"},
    "title_key": {"type": "string"},
    "body_key": {"type": "string"},
    "chart": {"type": "string"},
    "prerequisites": {"type": "array", "items": {"type": "string"}},
    "pass_criteria": {
      "oneOf": [
        {
          "type": "object",
          "required": ["type", "threshold"],
          "additionalProperties": false,
          "properties": {
            "type": {"const": "accuracy"},
            "threshold": {"type": "number", "minimum": 0, "maximum": 1}
          }
        },
        {
          "type": "object",
          "required": ["type", "technique", "threshold"],
          "additionalProperties": false,
          "properties": {
            "type": {"const": "technique"},
            "technique": {"enum": ["normal", "bend", "overblow", "overdraw", "slide", "vibrato", "wah-wah", "clean-attack", "chord"]},
            "threshold": {"type": "number", "minimum": 0, "maximum": 1}
          }
        }
      ]
    }
  }
}"#;

fn checked(bytes: &[u8]) -> Value {
    check_lesson_manifest(bytes, SCHEMA).unwrap();
    serde_json::from_slice(bytes).unwrap()
}

#[test]
fn parses_a_minimal_instructional_lesson() {
    let m = checked(br#"{"id":"twelve-bar","unit":"rhythm","title_key":"t","body_key":"b"}"#);
    assert_eq!(m["id"], "twelve-bar");
    assert!(m.get("chart").is_none());
    assert!(m.get("prerequisites").is_none());
    assert!(m.get("pass_criteria").is_none());
}

#[test]
fn parses_a_full_chart_lesson() {
    let m = checked(
        br#"{
            "id": "hand-wah", "unit": "blowing",
            "title_key": "t", "body_key": "b",
            "chart": "song/chart.harpchart",
            "prerequisites": ["single-note"],
            "pass_criteria": {"type": "technique", "technique": "wah-wah", "threshold": 0.5}
        }"#,
    );
    assert_eq!(m["chart"], "song/chart.harpchart");
    assert_eq!(m["prerequisites"][0], "single-note");
    assert_eq!(m["pass_criteria"]["technique"], "wah-wah");
    assert_eq!(m["pass_criteria"]["threshold"], 0.5);
}

#[test]
fn parses_a_clean_attack_technique_criterion() {
    let m = checked(
        br#"{"id":"single-note","unit":"blowing","title_key":"t","body_key":"b",
             "pass_criteria":{"type":"technique","technique":"clean-attack","threshold":0.6}}"#,
    );
    assert_eq!(m["pass_criteria"]["technique"], "clean-attack");
    assert_eq!(m["pass_criteria"]["threshold"], 0.6);
}

#[test]
fn rejects_a_manifest_missing_required_fields() {
    let err = check_lesson_manifest(br#"{"id":"x","unit":"blowing"}"#, SCHEMA).unwrap_err();
    assert!(err.contains("title_key"), "unexpected error: {err}");
    // Each violation is reported, joined by "; ".
    assert!(err.contains("body_key") && err.contains("; "), "unexpected error: {err}");
}

#[test]
fn rejects_an_unknown_field() {
    let err = check_lesson_manifest(
        br#"{"id":"x","unit":"u","title_key":"t","body_key":"b","chrat":"oops"}"#,
        SCHEMA,
    )
    .unwrap_err();
    assert!(err.contains("chrat"), "unexpected error: {err}");
}

#[test]
fn rejects_an_out_of_range_threshold() {
    let err = check_lesson_manifest(
        br#"{"id":"x","unit":"u","title_key":"t","body_key":"b",
             "pass_criteria":{"type":"accuracy","threshold":1.5}}"#,
        SCHEMA,
    )
    .unwrap_err();
    assert!(err.contains("1.5"), "unexpected error: {err}");
}

#[test]
fn rejects_an_unknown_technique_name() {
    let err = check_lesson_manifest(
        br#"{"id":"x","unit":"u","title_key":"t","body_key":"b",
             "pass_criteria":{"type":"technique","technique":"wah","threshold":0.5}}"#,
        SCHEMA,
    )
    .unwrap_err();
    assert!(!err.is_empty());
}

#[test]
fn bytes_that_are_not_json_are_refused() {
    let err = check_lesson_manifest(b"{not json", SCHEMA).unwrap_err();
    assert!(err.starts_with("JSON parse error: "), "unexpected error: {err}");
    let err = check_lesson_manifest(br#"{"id":"x"}"#, "{oops").unwrap_err();
    assert!(err.starts_with("schema is not JSON: "), "unexpected error: {err}");
    let err = check_lesson_manifest(br#"{"id":"x"}"#, r#"{"type": 12}"#).unwrap_err();
    assert!(err.starts_with("schema is invalid: "), "unexpected error: {err}");
}
