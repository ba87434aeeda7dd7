//! Validate the conformance corpus through the embedded schema set. The
//! conformant example must pass Core (and Strict); every invalid fixture must
//! be rejected with the expected finding code.

use omir_validate::{parse_document, validate, Json, Level, Outcome, Report, SchemaFiles, Schemas};

/// The conformant example: all four resource types, every reference kind,
/// a `meta` block on every entry and an extension.
const MINIMAL_BUNDLE: &str = r##"{
  "@context": "https://omir.io/spec/R1/context.jsonld",
  "resourceType": "Bundle",
  "omirVersion": "R1",
  "id": "demo-bundle-001",
  "generatedAt": "2026-05-30T12:00:00Z",
  "source": "veld/0.7.6 (MIF adapter)",
  "entry": [
    {
      "resourceType": "Episode",
      "id": "ep-launch-chat",
      "meta": { "omirVersion": "R1" },
      "content": "Varun and the agent agreed OMIR should be positioned as the at-rest format MCP transports, not a competitor to it.",
      "source": "message",
      "eventTime": "2026-05-30T11:42:00Z",
      "createdAt": "2026-05-30T11:42:03Z",
      "entityRefs": [
        { "ref": "Entity/varun" },
        { "ref": "Entity/omir" }
      ]
    },
    {
      "resourceType": "Entity",
      "id": "varun",
      "meta": { "omirVersion": "R1" },
      "name": "Varun",
      "labels": ["person"],
      "salience": 0.91,
      "properNoun": true
    },
    {
      "resourceType": "Entity",
      "id": "omir",
      "meta": { "omirVersion": "R1" },
      "name": "OMIR",
      "labels": ["project", "concept"],
      "salience": 0.97,
      "properNoun": true
    },
    {
      "resourceType": "Relationship",
      "id": "rel-varun-omir",
      "meta": { "omirVersion": "R1" },
      "from": { "ref": "Entity/varun" },
      "to": { "ref": "Entity/omir" },
      "relationType": "maintains",
      "strength": 0.88,
      "sourceEpisode": { "ref": "Episode/ep-launch-chat" }
    },
    {
      "resourceType": "MemoryRecord",
      "id": "mem-positioning",
      "meta": { "omirVersion": "R1" },
      "content": "Position OMIR as the at-rest data format that MCP/A2A transport, not a competing protocol.",
      "kind": "learning",
      "experienceType": "decision",
      "tier": "longterm",
      "createdAt": "2026-05-30T11:42:05Z",
      "importance": 0.95,
      "confidence": { "alpha": 9.0, "beta": 1.0, "calibrated": 0.9 },
      "entityRefs": [
        { "ref": "Entity/omir" },
        { "ref": "Entity/varun" }
      ],
      "extension": [
        { "url": "https://veld.dev/omir/ext/recall-count", "valueNumber": 3 }
      ]
    }
  ]
}"##;

fn schemas() -> Schemas {
    Schemas::build(&SchemaFiles::embedded()).expect("embedded R1 schemas compile")
}

/// The conformant example with one edit.
fn variant(from: &str, to: &str) -> String {
    assert!(MINIMAL_BUNDLE.contains(from), "fixture edit does not apply: {from}");
    MINIMAL_BUNDLE.replacen(from, to, 1)
}

fn load(name: &str) -> Json {
    let text = match name {
        "minimal-bundle" => MINIMAL_BUNDLE.to_string(),
        "dangling-ref" => variant(r#""to": { "ref": "Entity/omir" }"#, r#""to": { "ref": "Entity/ghost" }"#),
        "score-out-of-range" => variant(r#""importance": 0.95"#, r#""importance": 1.5"#),
        "bad-enum" => variant(r#""tier": "longterm""#, r#""tier": "permanent""#),
        "unknown-field" => variant(r#""importance": 0.95,"#, r#""importance": 0.95, "vendorScore": 42,"#),
        "dangling-parent-id" => variant(r#""tier": "longterm","#, r#""tier": "longterm", "parentId": "mem-missing","#),
        "dangling-source-episode" => variant(
            r#""sourceEpisode": { "ref": "Episode/ep-launch-chat" }"#,
            r#""sourceEpisode": { "ref": "Episode/ep-missing" }"#,
        ),
        other => panic!("no fixture {other}"),
    };
    parse_document(&text).unwrap_or_else(|e| panic!("parse {name}: {e}"))
}

fn has_code(report: &Report, code: &str) -> bool {
    report.findings.iter().any(|f| f.code == code)
}

#[test]
fn minimal_bundle_is_core_conformant() {
    let report = validate("minimal", &load("minimal-bundle"), Level::Core, &schemas());
    assert_eq!(report.result, Outcome::Pass, "unexpected findings: {:?}", report.findings);
    assert!(report.core_conformant);
    assert!(report.badge_eligible);
    assert_eq!(report.summary.entries_total, 5);
    assert_eq!(report.refs_total, 7);
    assert_eq!(report.refs_resolved, 7);
}

#[test]
fn minimal_bundle_passes_strict() {
    let report = validate("minimal", &load("minimal-bundle"), Level::Strict, &schemas());
    assert_eq!(report.result, Outcome::Pass, "unexpected findings: {:?}", report.findings);
}

#[test]
fn dangling_reference_is_rejected() {
    let report = validate("dangling", &load("dangling-ref"), Level::Core, &schemas());
    assert_eq!(report.result, Outcome::Fail);
    assert!(!report.core_conformant);
    assert!(has_code(&report, "E200"), "expected E200, got: {:?}", report.findings);
}

#[test]
fn score_out_of_range_is_rejected() {
    let report = validate("score", &load("score-out-of-range"), Level::Core, &schemas());
    assert_eq!(report.result, Outcome::Fail);
    assert!(has_code(&report, "E120"), "expected E120, got: {:?}", report.findings);
}

#[test]
fn bad_enum_is_rejected() {
    let report = validate("enum", &load("bad-enum"), Level::Core, &schemas());
    assert_eq!(report.result, Outcome::Fail);
    assert!(has_code(&report, "E120"), "expected E120, got: {:?}", report.findings);
}

#[test]
fn unknown_top_level_field_is_rejected() {
    let report = validate("unknown", &load("unknown-field"), Level::Core, &schemas());
    assert_eq!(report.result, Outcome::Fail);
    assert!(has_code(&report, "E120"), "expected E120, got: {:?}", report.findings);
}

#[test]
fn dangling_parent_id_is_rejected() {
    let report = validate("parent", &load("dangling-parent-id"), Level::Core, &schemas());
    assert_eq!(report.result, Outcome::Fail);
    assert!(has_code(&report, "E200"), "expected E200, got: {:?}", report.findings);
}

#[test]
fn dangling_source_episode_is_rejected() {
    let report = validate("sourceEpisode", &load("dangling-source-episode"), Level::Core, &schemas());
    assert_eq!(report.result, Outcome::Fail);
    assert!(has_code(&report, "E200"), "expected E200, got: {:?}", report.findings);
}
