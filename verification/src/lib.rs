//! Conformance validation of OMIR R1 Bundles.
//!
//! Checks run as four ordered groups: structural (envelope and per-entry
//! schema dispatch), reference integrity, version presence, and profile
//! (reported as skipped).

pub mod json;
pub mod text;
pub mod distance;
pub mod report;
pub mod embedded;
pub mod schemas;
pub mod refs;
pub mod version;
pub mod structure;
pub mod render;
pub mod order;
pub mod laws;

use vstd::prelude::*;

pub use crate::json::{Json, JsonView};
pub use crate::render::{render_human_quiet, Palette};
pub use crate::report::{
    Check, CheckStatus, Checks, EntryRef, Finding, Level, Outcome, Report, Severity, Summary, VERSION,
};
pub use crate::schemas::{parse_document, SchemaFiles, Schemas, RESOURCE_TYPES};

use crate::json::items_view;
use crate::order::{sort_findings, sort_findings_vec};
use crate::refs::{reference_findings, reference_integrity, references_resolved, references_total};
use crate::report::{assembled, finding_views, FindingView};
use crate::structure::{doc_entries, structure, structure_findings};
use crate::version::{version_findings, version_presence, with_meta_version};

verus! {

/// The characters of an optional string slice.
pub open spec fn str_opt(v: Option<&str>) -> Option<Seq<char>> {
    match v {
        Some(s) => Some(s@),
        None => None,
    }
}

/// ` (found "x")` for a present value, ` (absent)` otherwise.
pub open spec fn found_text(v: Option<Seq<char>>) -> Seq<char> {
    match v {
        Some(s) => " (found \""@ + s + "\")"@,
        None => " (absent)"@,
    }
}

/// Render a found value for a message: ` (found "x")` or ` (absent)`.
pub fn found(v: Option<&str>) -> (r: String)
    ensures
        r@ == found_text(str_opt(v)),
{
    match v {
        Some(s) => {
            let mut r = " (found \"".to_owned();
            r.append(s);
            r.append("\")");
            r
        },
        None => " (absent)".to_owned(),
    }
}

/// Every finding of a run, in the order the checks produce them: structural,
/// reference integrity, version presence. A report lists them sorted (see
/// `order`).
pub open spec fn validation_findings(sch: Schemas, doc: JsonView, level: Level) -> Seq<FindingView> {
    let es = doc_entries(doc);
    structure_findings(sch, doc) + reference_findings(es, level) + version_findings(doc, es, level)
}

/// `r` is the report of validating `doc` at `level` against `sch`, with
/// `target` as its name.
pub open spec fn validated(r: Report, target: Seq<char>, doc: JsonView, level: Level, sch: Schemas) -> bool {
    let es = doc_entries(doc);
    assembled(
        r,
        target,
        level,
        es,
        sort_findings(validation_findings(sch, doc, level)),
        references_total(es),
        references_resolved(es),
        with_meta_version(es),
        doc.field_text("omirVersion"@),
        RESOURCE_TYPES@,
    )
}

/// Validate a parsed `.omir` document and produce a conformance report.
pub fn validate(target: &str, doc: &Json, level: Level, schemas: &Schemas) -> (r: Report)
    ensures
        validated(r, target@, doc@, level, *schemas),
{
    let mut findings: Vec<Finding> = Vec::new();
    let empty: Vec<Json> = Vec::new();
    let entries: &[Json] = match doc.get("entry") {
        Some(v) => match v.as_array() {
            Some(a) => a.as_slice(),
            None => empty.as_slice(),
        },
        None => empty.as_slice(),
    };
    proof {
        crate::json::lemma_items_view(empty@);
        assert(items_view(entries@) =~= doc_entries(doc@));
    }
    let ghost es = doc_entries(doc@);
    assert(finding_views(findings@) =~= Seq::<FindingView>::empty());
    structure(schemas, doc, entries, &mut findings);
    let (refs_total, refs_resolved) = reference_integrity(entries, level, &mut findings);
    let bundle_version = match doc.get_str("omirVersion") {
        Some(s) => Some(s.to_owned()),
        None => None,
    };
    let with_version = version_presence(doc, entries, level, &mut findings);
    assert(finding_views(findings@) =~= validation_findings(*schemas, doc@, level));
    let findings = sort_findings_vec(findings);
    let names = RESOURCE_TYPES.as_slice();
    assert(names@ == RESOURCE_TYPES@);
    Report::assemble(
        target,
        level,
        entries,
        findings,
        refs_total,
        refs_resolved,
        with_version,
        bundle_version,
        names,
    )
}

} // verus!
