//! Checking JSON documents against a JSON Schema, through `serde_json` and
//! `jsonschema`: what a check reports, and the report rendered as text.

use vstd::prelude::*;

verus! {

/// A parsed JSON document (`serde_json::Value`), carried through opaquely.
#[verifier::external_type_specification]
#[verifier::external_body]
pub struct ExJsonValue(serde_json::Value);

/// What `serde_json::from_slice` makes of `bytes`: the document, or the
/// parser's message.
pub uninterp spec fn json_from_bytes(bytes: Seq<u8>) -> Result<serde_json::Value, Seq<char>>;

/// What `serde_json::from_str` makes of `text`: the document, or the
/// parser's message.
pub uninterp spec fn json_from_text(text: Seq<char>) -> Result<serde_json::Value, Seq<char>>;

/// What checking `instance` against the schema document `schema` gives:
/// `jsonschema::validator_for` compiles the schema (or fails with the
/// compiler's message), then `Validator::iter_errors` reports each violation
/// as its message and the path of the offending value, in the order reported.
pub uninterp spec fn schema_verdict(schema: serde_json::Value, instance: serde_json::Value) -> Result<Seq<(Seq<char>, Seq<char>)>, Seq<char>>;

/// `serde_json::from_slice` into a `Value`; an error is kept as its
/// `Display` text. Claims only that the result is the one named.
#[verifier::external_body]
fn parse_json_bytes(bytes: &[u8]) -> (r: Result<serde_json::Value, String>)
    ensures
        match r {
            Ok(v) => json_from_bytes(bytes@) == Ok::<serde_json::Value, Seq<char>>(v),
            Err(e) => json_from_bytes(bytes@) == Err::<serde_json::Value, Seq<char>>(e@),
        },
{
    serde_json::from_slice(bytes).map_err(|e| format!("{e}"))
}

/// `serde_json::from_str` into a `Value`; an error is kept as its `Display`
/// text. Claims only that the result is the one named.
#[verifier::external_body]
fn parse_json_text(text: &str) -> (r: Result<serde_json::Value, String>)
    ensures
        match r {
            Ok(v) => json_from_text(text@) == Ok::<serde_json::Value, Seq<char>>(v),
            Err(e) => json_from_text(text@) == Err::<serde_json::Value, Seq<char>>(e@),
        },
{
    serde_json::from_str(text).map_err(|e| format!("{e}"))
}

/// `jsonschema::validator_for` on `schema`, then `Validator::iter_errors` on
/// `instance`, each violation handed out as its `Display` text and the
/// `Display` text of its instance path; a compile error is kept as its
/// `Display` text. Claims only that the result is the one named. (The
/// compiled `Validator` is not handed out: its type is generic over a
/// `jsonschema` trait that cannot be declared here.)
#[verifier::external_body]
fn check_against_schema(schema: &serde_json::Value, instance: &serde_json::Value) -> (r: Result<Vec<(String, String)>, String>)
    ensures
        match r {
            Ok(v) => schema_verdict(*schema, *instance) == Ok::<Seq<(Seq<char>, Seq<char>)>, Seq<char>>(
                v@.map_values(|e: (String, String)| (e.0@, e.1@)),
            ),
            Err(e) => schema_verdict(*schema, *instance) == Err::<Seq<(Seq<char>, Seq<char>)>, Seq<char>>(e@),
        },
{
    let validator = jsonschema::validator_for(schema).map_err(|e| format!("{e}"))?;
    Ok(validator.iter_errors(instance).map(|e| (format!("{e}"), format!("{}", e.instance_path()))).collect())
}

/// Which input of a schema check was not usable.
#[derive(Debug, Clone, Copy, PartialEq, Eq, Structural)]
pub enum SchemaFault {
    /// The document bytes are not JSON.
    NotJson,
    /// The schema text is not JSON.
    SchemaNotJson,
    /// The schema text is JSON but not a valid JSON Schema.
    SchemaInvalid,
}

/// What checking the JSON document `bytes` against the JSON Schema text
/// `schema` reports: the violations (message, path), or which input was
/// unusable and the parser's or compiler's message.
pub open spec fn schema_report(bytes: Seq<u8>, schema: Seq<char>) -> Result<Seq<(Seq<char>, Seq<char>)>, (SchemaFault, Seq<char>)> {
    match json_from_bytes(bytes) {
        Err(e) => Err((SchemaFault::NotJson, e)),
        Ok(doc) => match json_from_text(schema) {
            Err(e) => Err((SchemaFault::SchemaNotJson, e)),
            Ok(s) => match schema_verdict(s, doc) {
                Err(e) => Err((SchemaFault::SchemaInvalid, e)),
                Ok(v) => Ok(v),
            },
        },
    }
}

/// Checks the JSON document `bytes` against the JSON Schema text `schema`.
pub fn schema_violations(bytes: &[u8], schema: &str) -> (r: Result<Vec<(String, String)>, (SchemaFault, String)>)
    ensures
        match (r, schema_report(bytes@, schema@)) {
            (Ok(v), Ok(w)) => v@.map_values(|e: (String, String)| (e.0@, e.1@)) == w,
            (Err((f, m)), Err((g, n))) => f == g && m@ == n,
            _ => false,
        },
{
    let doc = match parse_json_bytes(bytes) {
        Ok(d) => d,
        Err(e) => return Err((SchemaFault::NotJson, e)),
    };
    let s = match parse_json_text(schema) {
        Ok(s) => s,
        Err(e) => return Err((SchemaFault::SchemaNotJson, e)),
    };
    match check_against_schema(&s, &doc) {
        Ok(v) => Ok(v),
        Err(e) => Err((SchemaFault::SchemaInvalid, e)),
    }
}

/// The message for an unusable input of a schema check.
pub open spec fn fault_message(fault: SchemaFault, msg: Seq<char>) -> Seq<char> {
    match fault {
        SchemaFault::NotJson => "JSON parse error: "@ + msg,
        SchemaFault::SchemaNotJson => "schema is not JSON: "@ + msg,
        SchemaFault::SchemaInvalid => "schema is invalid: "@ + msg,
    }
}

/// The message for an unusable input of a schema check.
pub fn fault_text(fault: SchemaFault, msg: &str) -> (r: String)
    ensures
        r@ == fault_message(fault, msg@),
{
    let mut m = String::new();
    match fault {
        SchemaFault::NotJson => m.append("JSON parse error: "),
        SchemaFault::SchemaNotJson => m.append("schema is not JSON: "),
        SchemaFault::SchemaInvalid => m.append("schema is invalid: "),
    }
    m.append(msg);
    m
}

/// `parts` joined with `sep` between neighbours.
pub open spec fn joined(parts: Seq<Seq<char>>, sep: Seq<char>) -> Seq<char>
    decreases parts.len(),
{
    if parts.len() == 0 {
        Seq::empty()
    } else if parts.len() == 1 {
        parts[0]
    } else {
        joined(parts.drop_last(), sep) + sep + parts.last()
    }
}

/// One violation as a line of text: `prefix`, the message, and where.
pub open spec fn violation_line(prefix: Seq<char>, v: (Seq<char>, Seq<char>)) -> Seq<char> {
    prefix + v.0 + " (at /"@ + v.1 + ")"@
}

/// The violations as lines joined by `sep`.
pub open spec fn report_text(vs: Seq<(Seq<char>, Seq<char>)>, prefix: Seq<char>, sep: Seq<char>) -> Seq<char> {
    joined(vs.map_values(|v: (Seq<char>, Seq<char>)| violation_line(prefix, v)), sep)
}

/// Renders violations, each as `prefix`, its message and " (at /path)",
/// joined by `sep`.
pub fn render_violations(vs: &Vec<(String, String)>, prefix: &str, sep: &str) -> (r: String)
    ensures
        r@ == report_text(vs@.map_values(|e: (String, String)| (e.0@, e.1@)), prefix@, sep@),
{
    let ghost views = vs@.map_values(|e: (String, String)| (e.0@, e.1@));
    let ghost lines = views.map_values(|v: (Seq<char>, Seq<char>)| violation_line(prefix@, v));
    let mut m = String::new();
    let mut i: usize = 0;
    while i < vs.len()
        invariant
            i <= vs@.len(),
            views == vs@.map_values(|e: (String, String)| (e.0@, e.1@)),
            lines == views.map_values(|v: (Seq<char>, Seq<char>)| violation_line(prefix@, v)),
            m@ == joined(lines.take(i as int), sep@),
        decreases vs@.len() - i,
    {
        assert(lines.take(i + 1).drop_last() =~= lines.take(i as int));
        if i > 0 {
            m.append(sep);
        } else {
            assert(lines.take(0) =~= Seq::<Seq<char>>::empty());
        }
        let ghost before = m@;
        m.append(prefix);
        m.append(vs[i].0.as_str());
        m.append(" (at /");
        m.append(vs[i].1.as_str());
        m.append(")");
        assert(m@ =~= before + lines[i as int]);
        i = i + 1;
    }
    assert(lines.take(vs@.len() as int) =~= lines);
    m
}

} // verus!
