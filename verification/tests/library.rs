//! Finding codes, messages, counters, rendering and the helpers behind them.

use omir_validate::distance::levenshtein;
use omir_validate::json::Json;
use omir_validate::render::{dotted, sev_tag, status_word};
use omir_validate::schemas::neutralize;
use omir_validate::text::{lex_less, split_once_slash};
use omir_validate::{
    found, parse_document, render_human_quiet, validate, CheckStatus, Finding, Level, Outcome, Palette, Report,
    SchemaFiles, Schemas, Severity,
};

const BUNDLE: &str = r##"{
  "resourceType": "Bundle",
  "omirVersion": "R1",
  "entry": [
    {
      "resourceType": "Episode",
      "id": "ep-launch-chat",
      "meta": { "omirVersion": "R1" },
      "content": "Launch chat.",
      "source": "message",
      "createdAt": "2026-05-30T11:42:03Z",
      "entityRefs": [ { "ref": "Entity/varun" }, { "ref": "Entity/omir" } ]
    },
    {
      "resourceType": "Entity",
      "id": "varun",
      "meta": { "omirVersion": "R1" },
      "name": "Varun",
      "labels": ["person"]
    },
    {
      "resourceType": "Entity",
      "id": "omir",
      "meta": { "omirVersion": "R1" },
      "name": "OMIR",
      "labels": ["project"]
    },
    {
      "resourceType": "Relationship",
      "id": "rel-varun-omir",
      "meta": { "omirVersion": "R1" },
      "from": { "ref": "Entity/varun" },
      "to": { "ref": "Entity/omir" },
      "relationType": "maintains",
      "sourceEpisode": { "ref": "Episode/ep-launch-chat" }
    },
    {
      "resourceType": "MemoryRecord",
      "id": "mem-positioning",
      "meta": { "omirVersion": "R1" },
      "content": "Position OMIR as the at-rest format.",
      "tier": "longterm",
      "createdAt": "2026-05-30T11:42:05Z",
      "importance": 0.95,
      "entityRefs": [ { "ref": "Entity/omir" }, { "ref": "Entity/varun" } ]
    }
  ]
}"##;

fn schemas() -> Schemas {
    Schemas::build(&SchemaFiles::embedded()).expect("embedded R1 schemas compile")
}

fn edited(from: &str, to: &str) -> Json {
    assert!(BUNDLE.contains(from), "edit does not apply: {from}");
    parse_document(&BUNDLE.replacen(from, to, 1)).expect("edited bundle parses")
}

fn run(doc: &Json, level: Level) -> Report {
    validate("t", doc, level, &schemas())
}

fn with_code<'a>(r: &'a Report, code: &str) -> Vec<&'a Finding> {
    r.findings.iter().filter(|f| f.code == code).collect()
}

fn only(r: &Report, code: &str) -> Finding {
    let fs = with_code(r, code);
    assert_eq!(fs.len(), 1, "expected one {code}, got: {:?}", r.findings);
    fs[0].clone()
}

#[test]
fn levenshtein_values() {
    assert_eq!(levenshtein("kitten", "sitting"), 3);
    assert_eq!(levenshtein("", "abc"), 3);
    assert_eq!(levenshtein("abc", ""), 3);
    assert_eq!(levenshtein("omir", "omr"), 1);
    assert_eq!(levenshtein("flaw", "lawn"), 2);
    assert_eq!(levenshtein("same", "same"), 0);
    assert_eq!(levenshtein("ab", "ba"), levenshtein("ba", "ab"));
}

#[test]
fn found_renders_value_or_absence() {
    assert_eq!(found(Some("x")), " (found \"x\")");
    assert_eq!(found(None), " (absent)");
}

#[test]
fn dotted_pads_to_the_column() {
    assert_eq!(dotted("structural"), "structural ............");
    assert_eq!(dotted("reference integrity"), "reference integrity ...");
    assert_eq!(dotted("structural").chars().count(), 23);
    let long = "a label that is longer than the column";
    assert_eq!(dotted(long), format!("{long} "));
}

#[test]
fn palette_wraps_only_when_on() {
    assert_eq!(Palette::new(true).green("pass"), "\x1b[32mpass\x1b[0m");
    assert_eq!(Palette::new(true).bold("E200 "), "\x1b[1mE200 \x1b[0m");
    assert_eq!(Palette::new(true).wrap("7", "x"), "\x1b[7mx\x1b[0m");
    assert_eq!(Palette::new(false).red("x"), "x");
    assert_eq!(Palette::new(true).yellow("w"), "\x1b[33mw\x1b[0m");
    assert_eq!(Palette::new(true).blue("i"), "\x1b[34mi\x1b[0m");
    assert_eq!(Palette::new(true).dim("d"), "\x1b[2md\x1b[0m");
}

#[test]
fn status_words_and_severity_tags() {
    let plain = Palette::new(false);
    assert_eq!(status_word(CheckStatus::Pass, &plain), "pass");
    assert_eq!(status_word(CheckStatus::Fail, &plain), "FAIL");
    assert_eq!(status_word(CheckStatus::Skipped, &plain), "skipped");
    assert_eq!(sev_tag(Severity::Error, &plain), "error  ");
    assert_eq!(sev_tag(Severity::Warning, &plain), "warning");
    assert_eq!(sev_tag(Severity::Info, &plain), "info   ");
    assert_eq!(sev_tag(Severity::Error, &Palette::new(true)), "\x1b[31merror  \x1b[0m");
}

#[test]
fn level_names() {
    assert_eq!(Level::Core.to_string(), "core");
    assert_eq!(Level::Strict.to_string(), "strict");
    assert_eq!(Level::Profile.to_string(), "profile");
}

#[test]
fn clean_bundle_passes_every_level() {
    let doc = parse_document(BUNDLE).unwrap();
    for level in [Level::Core, Level::Strict, Level::Profile] {
        let r = run(&doc, level);
        assert_eq!(r.result, Outcome::Pass, "{:?}", r.findings);
        assert!(r.findings.is_empty());
        assert_eq!(r.refs_total, 7);
        assert_eq!(r.refs_resolved, 7);
        assert_eq!(r.entries_with_meta_version, 5);
        assert_eq!(r.bundle_version.as_deref(), Some("R1"));
        assert_eq!(r.checks.profile, CheckStatus::Skipped);
        assert_eq!(r.report, "OMIRConformanceReport");
        assert_eq!(r.schema_release, "R1");
        assert_eq!(r.omir_validate_version, "0.1.0");
    }
}

#[test]
fn entries_are_counted_by_type_in_name_order() {
    let r = run(&parse_document(BUNDLE).unwrap(), Level::Core);
    let names: Vec<(&str, usize)> = r.summary.entries_by_type.iter().map(|(k, n)| (k.as_str(), *n)).collect();
    assert_eq!(names, vec![("MemoryRecord", 1), ("Entity", 2), ("Relationship", 1), ("Episode", 1)]);
    assert_eq!(r.entries_by_type_desc(), "1 MemoryRecord, 2 Entity, 1 Relationship, 1 Episode");
    assert_eq!(r.summary.entries_total, 5);
}

#[test]
fn envelope_violation_is_e110_at_root() {
    let r = run(&edited(r#""omirVersion": "R1","#, r#""omirVersion": "R1", "bogus": 1,"#), Level::Core);
    let f = only(&r, "E110");
    assert_eq!(f.path, "/");
    assert!(f.message.starts_with("Bundle envelope: "), "{}", f.message);
    assert_eq!(f.check, omir_validate::Check::Structure);
    assert!(f.entry.is_none());
    assert_eq!(r.checks.structural, CheckStatus::Fail);
    assert_eq!(r.result, Outcome::Fail);
}

#[test]
fn wrong_bundle_type_is_e111() {
    let r = run(&edited(r#""resourceType": "Bundle""#, r#""resourceType": "Bundel""#), Level::Core);
    let f = only(&r, "E111");
    assert_eq!(f.path, "/resourceType");
    assert_eq!(f.value.as_deref(), Some("Bundel"));
    assert_eq!(f.message, "Bundle.resourceType MUST be \"Bundle\" (found \"Bundel\").");
    assert!(with_code(&r, "E110").is_empty(), "{:?}", r.findings);
}

#[test]
fn non_object_entry_is_e100() {
    let r = run(&edited(r#""entry": ["#, r#""entry": [ 42,"#), Level::Core);
    let f = only(&r, "E100");
    assert_eq!(f.path, "/entry/0");
    assert_eq!(f.message, "entry[0] is not a JSON object.");
    let e = f.entry.unwrap();
    assert_eq!((e.index, e.resource_type.as_str(), e.id.as_str()), (0, "", ""));
}

#[test]
fn unknown_resource_type_is_e101() {
    let r = run(&edited(r#""entry": ["#, r#""entry": [ { "resourceType": "Agent", "id": "a1" },"#), Level::Core);
    let f = only(&r, "E101");
    assert_eq!(f.path, "/entry/0/resourceType");
    assert_eq!(f.value.as_deref(), Some("Agent"));
    assert_eq!(
        f.message,
        "entry[0].resourceType  (found \"Agent\") is not one of the four R1 resource types (MemoryRecord, Entity, Relationship, Episode)."
    );
    let e = f.entry.unwrap();
    assert_eq!((e.index, e.resource_type.as_str(), e.id.as_str()), (0, "Agent", "a1"));
}

#[test]
fn schema_violation_is_e120_anchored_to_its_entry() {
    let r = run(&edited(r#""importance": 0.95"#, r#""importance": 1.5"#), Level::Core);
    let f = only(&r, "E120");
    assert_eq!(f.path, "/entry/4/importance");
    assert!(f.message.starts_with("MemoryRecord: "), "{}", f.message);
    let e = f.entry.unwrap();
    assert_eq!((e.index, e.resource_type.as_str(), e.id.as_str()), (4, "MemoryRecord", "mem-positioning"));
    assert!(!r.core_conformant);
}

#[test]
fn dangling_reference_gets_a_typo_hint() {
    let r = run(&edited(r#""to": { "ref": "Entity/omir" }"#, r#""to": { "ref": "Entity/omr" }"#), Level::Core);
    let f = only(&r, "E200");
    assert_eq!(f.path, "/entry/3/to/ref");
    assert_eq!(f.value.as_deref(), Some("Entity/omr"));
    assert_eq!(
        f.message,
        "Dangling reference: 'Entity/omr' does not resolve to any entry in the Bundle. Did you mean 'Entity/omir'?"
    );
    assert_eq!(f.severity, Severity::Error);
    assert_eq!(r.refs_total, 7);
    assert_eq!(r.refs_resolved, 6);
    assert_eq!(r.checks.reference_integrity, CheckStatus::Fail);
}

#[test]
fn dangling_reference_without_near_id_has_no_hint() {
    let r = run(&edited(r#""to": { "ref": "Entity/omir" }"#, r#""to": { "ref": "Entity/zzzzzz" }"#), Level::Core);
    let f = only(&r, "E200");
    assert_eq!(f.message, "Dangling reference: 'Entity/zzzzzz' does not resolve to any entry in the Bundle.");
}

#[test]
fn dangling_bare_parent_id_is_e200() {
    let r = run(&edited(r#""tier": "longterm","#, r#""tier": "longterm", "parentId": "mem-positionin","#), Level::Core);
    let f = only(&r, "E200");
    assert_eq!(f.path, "/entry/4/parentId");
    assert_eq!(f.value.as_deref(), Some("mem-positionin"));
    assert_eq!(
        f.message,
        "Dangling reference: 'MemoryRecord/mem-positionin' does not resolve to any entry in the Bundle. Did you mean 'MemoryRecord/mem-positioning'?"
    );
    assert_eq!(r.refs_total, 8);
}

#[test]
fn wrong_target_type_is_e201() {
    let r = run(
        &edited(r#""from": { "ref": "Entity/varun" }"#, r#""from": { "ref": "Episode/ep-launch-chat" }"#),
        Level::Core,
    );
    let f = only(&r, "E201");
    assert_eq!(f.path, "/entry/3/from/ref");
    assert_eq!(f.message, "Type mismatch: reference resolves to a Episode, but a Entity is required here.");
    assert_eq!(r.refs_resolved, r.refs_total - 1);
}

#[test]
fn duplicate_id_is_a_warning_at_core_and_an_error_at_strict() {
    let doc = edited(
        r#""entry": ["#,
        r#""entry": [ { "resourceType": "Entity", "id": "omir", "meta": { "omirVersion": "R1" }, "name": "Again" },"#,
    );
    let core = run(&doc, Level::Core);
    let f = only(&core, "W202");
    assert_eq!(f.severity, Severity::Warning);
    assert_eq!(f.path, "/entry/3/id");
    assert_eq!(f.value.as_deref(), Some("omir"));
    assert_eq!(f.message, "Duplicate id: more than one Entity shares id \"omir\"; references to it are ambiguous.");
    assert_eq!(core.result, Outcome::Pass);
    assert_eq!(core.summary.warnings, 1);
    assert_eq!(core.checks.reference_integrity, CheckStatus::Pass);
    assert_eq!(core.refs_resolved, core.refs_total);
    assert!(core.badge_eligible);

    let strict = run(&doc, Level::Strict);
    assert_eq!(only(&strict, "W202").severity, Severity::Error);
    assert_eq!(strict.result, Outcome::Fail);
    assert!(strict.core_conformant);
    assert_eq!(core.core_conformant, strict.core_conformant);
    assert_eq!(strict.checks.reference_integrity, CheckStatus::Fail);
    let text = strict.render_human(false);
    assert!(
        text.ends_with("RESULT: FAIL  —  1 error, 0 warnings  —  Core conformant, but failed at this level"),
        "{text}"
    );
}

#[test]
fn bundle_version_other_than_r1_is_e300() {
    let r = run(&edited(r#""omirVersion": "R1","#, r#""omirVersion": "R2","#), Level::Core);
    let f = only(&r, "E300");
    assert_eq!(f.path, "/omirVersion");
    assert_eq!(f.message, "Bundle.omirVersion MUST be \"R1\" (found \"R2\").");
    assert_eq!(r.bundle_version.as_deref(), Some("R2"));
    assert_eq!(r.checks.version_presence, CheckStatus::Fail);

    let absent = run(&edited(r#""omirVersion": "R1","#, ""), Level::Core);
    assert_eq!(only(&absent, "E300").message, "Bundle.omirVersion MUST be \"R1\" (absent).");
    assert_eq!(absent.bundle_version, None);
}

#[test]
fn meta_version_other_than_r1_is_e301() {
    let r = run(
        &edited(r#""id": "varun",
      "meta": { "omirVersion": "R1" },"#, r#""id": "varun",
      "meta": { "omirVersion": "R0" },"#),
        Level::Core,
    );
    let f = only(&r, "E301");
    assert_eq!(f.path, "/entry/1/meta/omirVersion");
    assert_eq!(f.value.as_deref(), Some("R0"));
    assert_eq!(f.message, "meta.omirVersion must be \"R1\" when meta is present (found \"R0\").");
    assert_eq!(r.entries_with_meta_version, 4);
}

#[test]
fn missing_meta_is_info_at_core_and_an_error_at_strict() {
    let doc = edited(r#""id": "varun",
      "meta": { "omirVersion": "R1" },"#, r#""id": "varun","#);
    let core = run(&doc, Level::Core);
    let f = only(&core, "I302");
    assert_eq!(f.severity, Severity::Info);
    assert_eq!(f.path, "/entry/1");
    assert_eq!(f.message, "No meta block; consider adding meta.omirVersion \"R1\" so the entry is self-describing.");
    assert_eq!(core.result, Outcome::Pass);
    assert_eq!(core.summary.info, 1);
    assert_eq!(core.entries_with_meta_version, 4);
    assert_eq!(core.checks.version_presence, CheckStatus::Pass);

    let strict = run(&doc, Level::Strict);
    let f = only(&strict, "E302");
    assert_eq!(f.path, "/entry/1/meta");
    assert_eq!(f.message, "At --level strict, every entry MUST carry a meta block with omirVersion \"R1\".");
    assert_eq!(strict.result, Outcome::Fail);
    assert!(strict.core_conformant);
    assert!(strict.badge_eligible);
    assert_eq!(strict.checks.version_presence, CheckStatus::Fail);
    assert_eq!(strict.checks.structural, CheckStatus::Pass);
}

#[test]
fn counts_add_up_and_groups_come_in_order() {
    let text = BUNDLE
        .replacen(r#""omirVersion": "R1","#, r#""omirVersion": "R2", "bogus": 1,"#, 1)
        .replacen(r#""to": { "ref": "Entity/omir" }"#, r#""to": { "ref": "Entity/nope" }"#, 1)
        .replacen(r#""importance": 0.95"#, r#""importance": 2"#, 1);
    let doc = parse_document(&text).unwrap();
    for level in [Level::Core, Level::Strict] {
        let r = run(&doc, level);
        assert_eq!(r.summary.errors + r.summary.warnings + r.summary.info, r.findings.len());
        let rank = |f: &Finding| match f.check {
            omir_validate::Check::Structure => 0,
            omir_validate::Check::ReferenceIntegrity => 1,
            omir_validate::Check::VersionPresence => 2,
            omir_validate::Check::Profile => 3,
        };
        let ranks: Vec<i32> = r.findings.iter().map(rank).collect();
        let mut sorted = ranks.clone();
        sorted.sort();
        assert_eq!(ranks, sorted);
        assert!(ranks.contains(&0) && ranks.contains(&1) && ranks.contains(&2));
        assert!(r.refs_resolved <= r.refs_total);
        assert_eq!(r.result, Outcome::Fail);
        assert!(!r.core_conformant && !r.badge_eligible);
    }
}

#[test]
fn human_rendering_of_a_passing_report() {
    let r = validate("minimal", &parse_document(BUNDLE).unwrap(), Level::Core, &schemas());
    let expected = "omir-validate 0.1.0 — OMIR R1 conformance
target: minimal   level: core

  structural ............ pass   (5 entries: 1 MemoryRecord, 2 Entity, 1 Relationship, 1 Episode)
  reference integrity ... pass   (7 references resolved)
  version presence ...... pass   (Bundle=R1, 5/5 entries meta.omirVersion=R1)
  profile ............... skipped (no --profile supplied)

RESULT: PASS  —  Core conformant  ✓  (badge-eligible)";
    assert_eq!(r.render_human(false), expected);
    assert_eq!(render_human_quiet(&r, false, false), expected);
    assert_eq!(render_human_quiet(&r, false, true), "RESULT: PASS  —  Core conformant  ✓  (badge-eligible)");
    assert_eq!(
        render_human_quiet(&r, true, true),
        "\x1b[32mRESULT: PASS  —  Core conformant  ✓  (badge-eligible)\x1b[0m"
    );
}

#[test]
fn human_rendering_lists_findings() {
    let r = run(&edited(r#""to": { "ref": "Entity/omir" }"#, r#""to": { "ref": "Entity/omr" }"#), Level::Core);
    let quiet = render_human_quiet(&r, false, true);
    assert_eq!(
        quiet,
        "findings:\n  error    E200   Relationship/rel-varun-omir (entry 3)\n        Dangling reference: 'Entity/omr' does not resolve to any entry in the Bundle. Did you mean 'Entity/omir'?\n        at /entry/3/to/ref\n\nRESULT: FAIL  —  1 error, 0 warnings  —  NOT Core conformant (badge withheld)"
    );
    let colored = r.render_human(true);
    assert!(colored.contains("\x1b[31mFAIL\x1b[0m"));
    assert!(colored.ends_with("\x1b[0m"));
    assert_eq!(r.result_line(&Palette::new(false)), "RESULT: FAIL  —  1 error, 0 warnings  —  NOT Core conformant (badge withheld)");
}

#[test]
fn bundle_level_findings_are_located_at_the_bundle() {
    let r = run(&edited(r#""omirVersion": "R1","#, r#""omirVersion": "R9","#), Level::Core);
    let text = r.render_human(false);
    assert!(text.contains("  error    E300   Bundle\n"), "{text}");
    assert!(text.contains("(Bundle=R9, 5/5 entries meta.omirVersion=R1)"), "{text}");
}

#[test]
fn schema_set_build_outcomes() {
    let bad_common = SchemaFiles { common: "{".to_string(), ..SchemaFiles::embedded() };
    match Schemas::try_build(&bad_common) {
        Some(Err(e)) => assert!(e.starts_with("invalid JSON in common.schema.json: "), "{e}"),
        _ => panic!("expected a parse error"),
    }
    let bad_bundle = SchemaFiles { bundle: "[1]".to_string(), ..SchemaFiles::embedded() };
    assert!(Schemas::try_build(&bad_bundle).is_none());
    let bad_entity = SchemaFiles { entity: "{\"type\": 5}".to_string(), ..SchemaFiles::embedded() };
    assert!(matches!(Schemas::try_build(&bad_entity), Some(Err(_))));
    let bad_episode = SchemaFiles { episode: "not json".to_string(), ..SchemaFiles::embedded() };
    match Schemas::try_build(&bad_episode) {
        Some(Err(e)) => assert!(e.starts_with("invalid JSON in Episode: "), "{e}"),
        _ => panic!("expected a parse error"),
    }
    assert!(matches!(Schemas::try_build(&SchemaFiles::embedded()), Some(Ok(_))));
}

#[test]
fn documents_parse_into_the_json_model() {
    assert!(parse_document("{").is_err());
    let doc = parse_document(r#"{"a": "1", "b": [true, null, 2.5], "c": {"d": "x"}}"#).unwrap();
    assert_eq!(doc.get_str("a"), Some("1"));
    assert!(doc.get("b").unwrap().as_array().unwrap().len() == 3);
    assert_eq!(doc.get("c").unwrap().get_str("d"), Some("x"));
    assert!(doc.get("zz").is_none());
    assert!(doc.is_object());
}

#[test]
fn object_lookup_takes_the_last_binding() {
    let obj = Json::Object(vec![
        ("a".to_string(), Json::Str("1".to_string())),
        ("a".to_string(), Json::Str("2".to_string())),
    ]);
    assert_eq!(obj.get_str("a"), Some("2"));
}

#[test]
fn envelope_schema_neutralizes_owned_parts() {
    let bundle = parse_document(
        r#"{"type": "object", "properties": {"resourceType": {"const": "Bundle"}, "entry": {"type": "array", "items": {"oneOf": []}}, "id": {"type": "string"}}}"#,
    )
    .unwrap();
    let env = neutralize(bundle);
    let props = env.get("properties").unwrap();
    assert_eq!(props.get("resourceType").unwrap().get_str("type"), Some("string"));
    assert_eq!(props.get("omirVersion").unwrap().get_str("type"), Some("string"));
    assert_eq!(props.get("entry").unwrap().get("items").unwrap().get_str("type"), Some("object"));
    assert_eq!(props.get("entry").unwrap().get_str("type"), Some("array"));
    assert_eq!(props.get("id").unwrap().get_str("type"), Some("string"));
    assert_eq!(env.get_str("type"), Some("object"));
    assert!(props.get("resourceType").unwrap().get("const").is_none());
}

#[test]
fn text_helpers() {
    assert!(lex_less("Entity", "Episode"));
    assert!(!lex_less("Episode", "Entity"));
    assert!(lex_less("Entity", "Entitys"));
    assert!(!lex_less("Entity", "Entity"));
    assert_eq!(split_once_slash("Entity/omir"), Some(("Entity", "omir")));
    assert_eq!(split_once_slash("a/b/c"), Some(("a", "b/c")));
    assert_eq!(split_once_slash("abc"), None);
}

#[test]
fn runs_are_deterministic() {
    let doc = edited(r#""to": { "ref": "Entity/omir" }"#, r#""to": { "ref": "Entity/omr" }"#);
    let a = run(&doc, Level::Strict);
    let b = run(&doc, Level::Strict);
    assert_eq!(format!("{:?}", a.findings), format!("{:?}", b.findings));
    assert_eq!(a.render_human(false), b.render_human(false));
}

#[test]
fn setting_a_member_reads_back() {
    let mut fields = vec![
        ("a".to_string(), Json::Str("1".to_string())),
        ("b".to_string(), Json::Str("2".to_string())),
    ];
    omir_validate::json::set_member(&mut fields, "a", Json::Str("3".to_string()));
    omir_validate::json::set_member(&mut fields, "c", Json::Str("4".to_string()));
    assert_eq!(fields.len(), 3);
    let obj = Json::Object(fields);
    assert_eq!(obj.get_str("a"), Some("3"));
    assert_eq!(obj.get_str("b"), Some("2"));
    assert_eq!(obj.get_str("c"), Some("4"));
}

#[test]
fn findings_are_listed_by_group_then_entry_then_path() {
    let text = BUNDLE
        .replacen(
            r#""entry": ["#,
            r#""entry": [ { "resourceType": "Entity", "id": "omir", "meta": { "omirVersion": "R1" }, "name": "Again" },"#,
            1,
        )
        .replacen(r#"{ "ref": "Entity/varun" }, { "ref": "Entity/omir" }"#, r#"{ "ref": "Entity/nope" }, { "ref": "Entity/omir" }"#, 1)
        .replacen(r#""importance": 0.95"#, r#""importance": 2"#, 1)
        .replacen(r#""tier": "longterm""#, r#""tier": "permanent""#, 1);
    let r = run(&parse_document(&text).unwrap(), Level::Core);
    let order: Vec<(&str, Option<usize>, &str)> =
        r.findings.iter().map(|f| (f.code, f.entry.as_ref().map(|e| e.index), f.path.as_str())).collect();
    assert_eq!(
        order,
        vec![
            ("E120", Some(5), "/entry/5/importance"),
            ("E120", Some(5), "/entry/5/tier"),
            ("E200", Some(1), "/entry/1/entityRefs/0/ref"),
            ("W202", Some(3), "/entry/3/id"),
        ]
    );
    assert_eq!(r.summary.errors + r.summary.warnings + r.summary.info, r.findings.len());
    assert_eq!(r.result_line(&Palette::new(false)), "RESULT: FAIL  —  3 errors, 1 warning  —  NOT Core conformant (badge withheld)");
}

#[test]
fn repeated_type_names_are_tallied_once() {
    let doc = parse_document(BUNDLE).unwrap();
    let entries = doc.get("entry").unwrap().as_array().unwrap();
    let r = Report::assemble(
        "t",
        Level::Core,
        entries.as_slice(),
        Vec::new(),
        0,
        0,
        0,
        None,
        &["Entity", "MemoryRecord", "Entity"],
    );
    let names: Vec<(&str, usize)> = r.summary.entries_by_type.iter().map(|(k, n)| (k.as_str(), *n)).collect();
    assert_eq!(names, vec![("Entity", 2), ("MemoryRecord", 1)]);
}

#[test]
fn entries_of_each_type_are_checked_against_their_own_schema() {
    // An Entity-shaped field on a MemoryRecord is a violation of the
    // MemoryRecord schema only; a non-object entry is checked by no schema.
    let r = run(
        &edited(r#""importance": 0.95"#, r#""importance": 0.95, "properNoun": true"#),
        Level::Core,
    );
    let fs = with_code(&r, "E120");
    assert_eq!(fs.len(), 1, "{:?}", r.findings);
    assert!(fs[0].message.starts_with("MemoryRecord: "));
    let r = run(&edited(r#""entry": ["#, r#""entry": [ "text","#), Level::Core);
    assert!(with_code(&r, "E120").is_empty(), "{:?}", r.findings);
    assert_eq!(with_code(&r, "E100").len(), 1);
}
