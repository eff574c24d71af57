use harmonicon::midi_to_chart::{check_chart, ChartRejection};

/// A small song schema: a title and a list of timed holes.
const SCHEMA: &str = r#"{
  "type": "object",
  "required": ["title", "track"],
  "properties": {
    "title": {"type": "string"},
    "track": {
      "type": "array",
      "items": {
        "type": "object",
        "required": ["time", "hole"],
        "properties": {
          "time": {"type": "number", "minimum": 0},
          "hole": {"type": "integer", "minimum": 1, "maximum": 10}
        }
      }
    }
  }
}"#;

#[test]
fn a_chart_that_fits_the_schema_passes() {
    let chart = br#"{"title":"Juke","track":[{"time":0.5,"hole":4},{"time":1.0,"hole":6}]}"#;
    assert!(check_chart(chart, SCHEMA).is_ok());
}

#[test]
fn each_violation_is_listed_on_its_own_line() {
    let chart = br#"{"title":"Juke","track":[{"time":-1,"hole":4},{"time":1.0,"hole":11}]}"#;
    match check_chart(chart, SCHEMA) {
        Err(ChartRejection::Violations(lines)) => {
            let lines: Vec<&str> = lines.split('\n').collect();
            assert_eq!(lines.len(), 2, "{lines:?}");
            assert!(lines.iter().all(|l| l.starts_with("  - ")), "{lines:?}");
            assert!(lines[0].contains("(at /") && lines[0].ends_with("/track/0/time)"), "{lines:?}");
            assert!(lines[1].contains("(at /") && lines[1].ends_with("/track/1/hole)"), "{lines:?}");
        }
        other => panic!("expected violations, got {other:?}"),
    }
}

#[test]
fn an_unusable_schema_is_reported_as_such() {
    match check_chart(br#"{"title":"x","track":[]}"#, "{not json") {
        Err(ChartRejection::Unusable(m)) => assert!(m.starts_with("schema is not JSON: "), "{m}"),
        other => panic!("expected an unusable schema, got {other:?}"),
    }
    match check_chart(br#"{"title":"x","track":[]}"#, r#"{"type": 7}"#) {
        Err(ChartRejection::Unusable(m)) => assert!(m.starts_with("schema is invalid: "), "{m}"),
        other => panic!("expected an invalid schema, got {other:?}"),
    }
}
