//! What holds of every run: how the outcome, Core conformance, the levels,
//! the counters and the order of findings relate.

use vstd::prelude::*;

use crate::json::JsonView;
use crate::order::{group_rank, lemma_sort_keeps, occurs_in, lemma_sorted_in_order, listed_in_order, precedes, sort_findings};
use crate::refs::{
    all_sites, duplicate_findings, keys, reference_findings, references_resolved, references_total,
    resolved_count, resolves, severity_for_duplicate, site_findings, sites_findings, Site,
};
use crate::report::{breaks_core, count_severity, Check, FindingView, Level, Severity};
use crate::schemas::Schemas;
use crate::structure::{
    bundle_type_findings, doc_entries, entries_structure_findings, entry_schema_finding, entry_structure_findings,
    envelope_finding, structure_findings,
};
use crate::refs::{entry_type, is_resource_type};
use crate::report::{finding_views, group_status, CheckStatus, Outcome, Report};
use crate::schemas::violations;
use crate::version::with_meta_version;
use crate::{validated, validation_findings};
use crate::version::{
    bundle_version_findings, entries_version_findings, entry_version_findings, version_findings,
};

verus! {

/// Every finding of `fs` satisfies `p`.
pub open spec fn all_findings(fs: Seq<FindingView>, p: spec_fn(FindingView) -> bool) -> bool {
    forall|i: int| 0 <= i < fs.len() ==> #[trigger] p(fs[i])
}

proof fn lemma_all_concat(a: Seq<FindingView>, b: Seq<FindingView>, p: spec_fn(FindingView) -> bool)
    requires
        all_findings(a, p),
        all_findings(b, p),
    ensures
        all_findings(a + b, p),
{
    assert forall|i: int| 0 <= i < (a + b).len() implies #[trigger] p((a + b)[i]) by {
        if i < a.len() {
            assert((a + b)[i] == a[i]);
        } else {
            assert((a + b)[i] == b[i - a.len()]);
        }
    }
}

proof fn lemma_all_at(a: Seq<FindingView>, p: spec_fn(FindingView) -> bool, i: int)
    requires
        all_findings(a, p),
        0 <= i < a.len(),
    ensures
        p(a[i]),
{
}

proof fn lemma_all_weaken(a: Seq<FindingView>, p: spec_fn(FindingView) -> bool, q: spec_fn(FindingView) -> bool)
    requires
        all_findings(a, p),
        forall|f: FindingView| #[trigger] p(f) ==> q(f),
    ensures
        all_findings(a, q),
{
    assert forall|i: int| 0 <= i < a.len() implies #[trigger] q(a[i]) by {
        assert(p(a[i]));
    }
}

/// A structural error that breaks Core.
pub open spec fn structural_error(f: FindingView) -> bool {
    f.check == Check::Structure && f.severity == Severity::Error && f.breaks_core
}

/// A reference error that breaks Core.
pub open spec fn reference_error(f: FindingView) -> bool {
    f.check == Check::ReferenceIntegrity && f.severity == Severity::Error && f.breaks_core
}

proof fn lemma_entries_structure(sch: Schemas, es: Seq<JsonView>)
    ensures
        all_findings(entries_structure_findings(sch, es), |f: FindingView| structural_error(f)),
    decreases es.len(),
{
    let p = |f: FindingView| structural_error(f);
    if es.len() > 0 {
        lemma_entries_structure(sch, es.drop_last());
        let e = es.last();
        let i = (es.len() - 1) as nat;
        let b = entry_structure_findings(sch, e, i);
        assert forall|k: int| 0 <= k < b.len() implies #[trigger] p(b[k]) by {
            if e is Object {
                let id = crate::refs::or_empty(crate::refs::entry_id(e));
                match crate::refs::entry_type(e) {
                    Some(rt) => {
                        if crate::refs::is_resource_type(rt) {
                            let vs = crate::schemas::violations(sch.common_schema(), sch.schema_for(rt), e);
                            assert(b[k] == entry_schema_finding(i, rt, id, vs[k]));
                        }
                    },
                    None => {},
                }
            }
        }
        lemma_all_concat(entries_structure_findings(sch, es.drop_last()), b, p);
    }
}

/// Every structural finding is an error that breaks Core.
pub proof fn lemma_structure_errors(sch: Schemas, doc: JsonView)
    ensures
        all_findings(structure_findings(sch, doc), |f: FindingView| structural_error(f)),
{
    let p = |f: FindingView| structural_error(f);
    let vs = crate::schemas::violations(sch.common_schema(), sch.envelope_schema(), doc);
    let a = vs.map_values(|v: (Seq<char>, Seq<char>)| envelope_finding(v));
    assert forall|k: int| 0 <= k < a.len() implies #[trigger] p(a[k]) by {
        assert(a[k] == envelope_finding(vs[k]));
    }
    let b = bundle_type_findings(doc);
    assert forall|k: int| 0 <= k < b.len() implies #[trigger] p(b[k]) by {}
    lemma_all_concat(a, b, p);
    lemma_entries_structure(sch, doc_entries(doc));
    lemma_all_concat(a + b, entries_structure_findings(sch, doc_entries(doc)), p);
}

/// A duplicate-id finding: never breaks Core; a warning, or an error at Strict.
pub open spec fn duplicate_like(f: FindingView, level: Level) -> bool {
    f.check == Check::ReferenceIntegrity && f.severity == severity_for_duplicate(level) && !f.breaks_core
}

proof fn lemma_duplicates(es: Seq<JsonView>, level: Level)
    ensures
        all_findings(duplicate_findings(es, level), |f: FindingView| duplicate_like(f, level)),
    decreases es.len(),
{
    let p = |f: FindingView| duplicate_like(f, level);
    if es.len() > 0 {
        lemma_duplicates(es.drop_last(), level);
        let rest = duplicate_findings(es.drop_last(), level);
        assert forall|k: int| 0 <= k < duplicate_findings(es, level).len() implies #[trigger] p(
            duplicate_findings(es, level)[k],
        ) by {
            if k < rest.len() {
                assert(duplicate_findings(es, level)[k] == rest[k]);
            }
        }
    }
}

proof fn lemma_sites(ks: Seq<(Seq<char>, Seq<char>)>, sites: Seq<Site>)
    ensures
        all_findings(sites_findings(ks, sites), |f: FindingView| reference_error(f)),
        sites_findings(ks, sites).len() + resolved_count(ks, sites) == sites.len(),
    decreases sites.len(),
{
    let p = |f: FindingView| reference_error(f);
    if sites.len() > 0 {
        lemma_sites(ks, sites.drop_last());
        let b = site_findings(ks, sites.last());
        assert forall|k: int| 0 <= k < b.len() implies #[trigger] p(b[k]) by {}
        assert(b.len() == 0 <==> resolves(ks, sites.last()));
        lemma_all_concat(sites_findings(ks, sites.drop_last()), b, p);
    }
}

/// Every reference-integrity finding is a duplicate-id finding or an error
/// that breaks Core; each reference that does not resolve gives exactly one
/// finding.
pub proof fn lemma_reference_findings(es: Seq<JsonView>, level: Level)
    ensures
        all_findings(
            reference_findings(es, level),
            |f: FindingView| duplicate_like(f, level) || reference_error(f),
        ),
        all_findings(duplicate_findings(es, level), |f: FindingView| duplicate_like(f, level)),
        all_findings(sites_findings(keys(es), all_sites(es)), |f: FindingView| reference_error(f)),
        sites_findings(keys(es), all_sites(es)).len() + references_resolved(es) == references_total(es),
{
    let p = |f: FindingView| duplicate_like(f, level) || reference_error(f);
    lemma_duplicates(es, level);
    lemma_sites(keys(es), all_sites(es));
    lemma_all_weaken(duplicate_findings(es, level), |f: FindingView| duplicate_like(f, level), p);
    lemma_all_weaken(sites_findings(keys(es), all_sites(es)), |f: FindingView| reference_error(f), p);
    lemma_all_concat(duplicate_findings(es, level), sites_findings(keys(es), all_sites(es)), p);
}

/// A version finding: it breaks Core exactly when it is an error, except the
/// Strict-only requirement of a `meta` block, an error that does not.
pub open spec fn version_like(f: FindingView, level: Level) -> bool {
    &&& f.check == Check::VersionPresence
    &&& f.breaks_core ==> f.severity == Severity::Error
    &&& level != Level::Strict ==> (f.severity == Severity::Error ==> f.breaks_core)
}

proof fn lemma_entries_version(es: Seq<JsonView>, level: Level)
    ensures
        all_findings(entries_version_findings(es, level), |f: FindingView| version_like(f, level)),
    decreases es.len(),
{
    let p = |f: FindingView| version_like(f, level);
    if es.len() > 0 {
        lemma_entries_version(es.drop_last(), level);
        let b = entry_version_findings(es.last(), (es.len() - 1) as nat, level);
        assert forall|k: int| 0 <= k < b.len() implies #[trigger] p(b[k]) by {}
        lemma_all_concat(entries_version_findings(es.drop_last(), level), b, p);
    }
}

pub proof fn lemma_version_findings(doc: JsonView, es: Seq<JsonView>, level: Level)
    ensures
        all_findings(version_findings(doc, es, level), |f: FindingView| version_like(f, level)),
{
    let p = |f: FindingView| version_like(f, level);
    let a = bundle_version_findings(doc);
    assert forall|k: int| 0 <= k < a.len() implies #[trigger] p(a[k]) by {}
    lemma_entries_version(es, level);
    lemma_all_concat(a, entries_version_findings(es, level), p);
}

/// Breaking Core implies an error; below Strict, every error breaks Core.
pub open spec fn graded(f: FindingView, level: Level) -> bool {
    &&& f.breaks_core ==> f.severity == Severity::Error
    &&& level != Level::Strict ==> (f.severity == Severity::Error ==> f.breaks_core)
}

proof fn lemma_graded(sch: Schemas, doc: JsonView, level: Level)
    ensures
        all_findings(validation_findings(sch, doc, level), |f: FindingView| graded(f, level)),
{
    let es = doc_entries(doc);
    let g = |f: FindingView| graded(f, level);
    lemma_structure_errors(sch, doc);
    lemma_reference_findings(es, level);
    lemma_version_findings(doc, es, level);
    lemma_all_weaken(structure_findings(sch, doc), |f: FindingView| structural_error(f), g);
    lemma_all_weaken(
        reference_findings(es, level),
        |f: FindingView| duplicate_like(f, level) || reference_error(f),
        g,
    );
    lemma_all_weaken(version_findings(doc, es, level), |f: FindingView| version_like(f, level), g);
    lemma_all_concat(structure_findings(sch, doc), reference_findings(es, level), g);
    lemma_all_concat(
        structure_findings(sch, doc) + reference_findings(es, level),
        version_findings(doc, es, level),
        g,
    );
}

/// There is a finding of severity `s` exactly when their count is positive.
pub proof fn lemma_count_positive(fs: Seq<FindingView>, s: Severity)
    ensures
        (count_severity(fs, s) > 0) == (exists|i: int| 0 <= i < fs.len() && #[trigger] fs[i].severity == s),
    decreases fs.len(),
{
    if fs.len() > 0 {
        lemma_count_positive(fs.drop_last(), s);
        if exists|i: int| 0 <= i < fs.drop_last().len() && #[trigger] fs.drop_last()[i].severity == s {
            let i = choose|i: int| 0 <= i < fs.drop_last().len() && #[trigger] fs.drop_last()[i].severity == s;
            assert(fs[i].severity == s);
        }
        if exists|i: int| 0 <= i < fs.len() && #[trigger] fs[i].severity == s {
            let i = choose|i: int| 0 <= i < fs.len() && #[trigger] fs[i].severity == s;
            if i < fs.len() - 1 {
                assert(fs.drop_last()[i].severity == s);
            }
        }
    }
}

/// The three severity counts add up to the number of findings.
pub proof fn lemma_count_total(fs: Seq<FindingView>)
    ensures
        count_severity(fs, Severity::Error) + count_severity(fs, Severity::Warning) + count_severity(
            fs,
            Severity::Info,
        ) == fs.len(),
    decreases fs.len(),
{
    if fs.len() > 0 {
        lemma_count_total(fs.drop_last());
    }
}

proof fn lemma_breaks_concat(a: Seq<FindingView>, b: Seq<FindingView>)
    ensures
        breaks_core(a + b) == (breaks_core(a) || breaks_core(b)),
{
    if breaks_core(a + b) {
        let i = choose|i: int| 0 <= i < (a + b).len() && #[trigger] (a + b)[i].breaks_core;
        if i < a.len() {
            assert(a[i] == (a + b)[i]);
        } else {
            assert(b[i - a.len()] == (a + b)[i]);
        }
    }
    if breaks_core(a) {
        let i = choose|i: int| 0 <= i < a.len() && #[trigger] a[i].breaks_core;
        assert((a + b)[i] == a[i]);
    }
    if breaks_core(b) {
        let i = choose|i: int| 0 <= i < b.len() && #[trigger] b[i].breaks_core;
        assert((a + b)[a.len() + i] == b[i]);
    }
}

proof fn lemma_version_breaks(doc: JsonView, es: Seq<JsonView>, l1: Level, l2: Level)
    ensures
        breaks_core(entries_version_findings(es, l1)) == breaks_core(entries_version_findings(es, l2)),
    decreases es.len(),
{
    if es.len() > 0 {
        lemma_version_breaks(doc, es.drop_last(), l1, l2);
        let i = (es.len() - 1) as nat;
        lemma_breaks_concat(entries_version_findings(es.drop_last(), l1), entry_version_findings(es.last(), i, l1));
        lemma_breaks_concat(entries_version_findings(es.drop_last(), l2), entry_version_findings(es.last(), i, l2));
        let b1 = entry_version_findings(es.last(), i, l1);
        let b2 = entry_version_findings(es.last(), i, l2);
        if breaks_core(b1) {
            let k = choose|k: int| 0 <= k < b1.len() && #[trigger] b1[k].breaks_core;
            assert(b2[k] == b1[k]);
        }
        if breaks_core(b2) {
            let k = choose|k: int| 0 <= k < b2.len() && #[trigger] b2[k].breaks_core;
            assert(b1[k] == b2[k]);
        }
    }
}

/// Whether a run's findings break Core does not depend on the level.
pub proof fn lemma_breaks_level_independent(sch: Schemas, doc: JsonView, l1: Level, l2: Level)
    ensures
        breaks_core(validation_findings(sch, doc, l1)) == breaks_core(validation_findings(sch, doc, l2)),
{
    let es = doc_entries(doc);
    let s = structure_findings(sch, doc);
    let x = sites_findings(keys(es), all_sites(es));
    lemma_reference_findings(es, l1);
    lemma_reference_findings(es, l2);
    let d1 = duplicate_findings(es, l1);
    let d2 = duplicate_findings(es, l2);
    assert(!breaks_core(d1)) by {
        if breaks_core(d1) {
            let i = choose|i: int| 0 <= i < d1.len() && #[trigger] d1[i].breaks_core;
            lemma_all_at(d1, |f: FindingView| duplicate_like(f, l1), i);
        }
    }
    assert(!breaks_core(d2)) by {
        if breaks_core(d2) {
            let i = choose|i: int| 0 <= i < d2.len() && #[trigger] d2[i].breaks_core;
            lemma_all_at(d2, |f: FindingView| duplicate_like(f, l2), i);
        }
    }
    lemma_breaks_concat(d1, x);
    lemma_breaks_concat(d2, x);
    lemma_breaks_concat(s, d1 + x);
    lemma_breaks_concat(s, d2 + x);
    lemma_version_breaks(doc, es, l1, l2);
    lemma_breaks_concat(bundle_version_findings(doc), entries_version_findings(es, l1));
    lemma_breaks_concat(bundle_version_findings(doc), entries_version_findings(es, l2));
    lemma_breaks_concat(s + reference_findings(es, l1), version_findings(doc, es, l1));
    lemma_breaks_concat(s + reference_findings(es, l2), version_findings(doc, es, l2));
    assert(s + (d1 + x) == s + reference_findings(es, l1));
    assert(s + (d2 + x) == s + reference_findings(es, l2));
}

/// Below Strict, a run fails exactly when the document is not Core
/// conformant: Core conformance is a clean Core run.
pub proof fn law_fail_iff_not_core_conformant(r: Report, target: Seq<char>, doc: JsonView, level: Level, sch: Schemas)
    requires
        validated(r, target, doc, level, sch),
        level != Level::Strict,
    ensures
        (r.result == Outcome::Fail) == !r.core_conformant,
{
    lemma_sort_keeps(validation_findings(sch, doc, level));
    let fs = validation_findings(sch, doc, level);
    lemma_graded(sch, doc, level);
    lemma_count_positive(fs, Severity::Error);
    if breaks_core(fs) {
        let i = choose|i: int| 0 <= i < fs.len() && #[trigger] fs[i].breaks_core;
        lemma_all_at(fs, |f: FindingView| graded(f, level), i);
    }
    if count_severity(fs, Severity::Error) > 0 {
        let i = choose|i: int| 0 <= i < fs.len() && #[trigger] fs[i].severity == Severity::Error;
        lemma_all_at(fs, |f: FindingView| graded(f, level), i);
    }
}

/// A document that is not Core conformant fails at every level.
pub proof fn law_not_core_conformant_fails(r: Report, target: Seq<char>, doc: JsonView, level: Level, sch: Schemas)
    requires
        validated(r, target, doc, level, sch),
    ensures
        !r.core_conformant ==> r.result == Outcome::Fail,
{
    lemma_sort_keeps(validation_findings(sch, doc, level));
    let fs = validation_findings(sch, doc, level);
    lemma_graded(sch, doc, level);
    lemma_count_positive(fs, Severity::Error);
    if breaks_core(fs) {
        let i = choose|i: int| 0 <= i < fs.len() && #[trigger] fs[i].breaks_core;
        lemma_all_at(fs, |f: FindingView| graded(f, level), i);
        assert(fs[i].severity == Severity::Error);
    }
}

/// The badge goes exactly to Core-conformant documents; at Core, exactly to
/// the documents that pass.
pub proof fn law_badge(r: Report, target: Seq<char>, doc: JsonView, level: Level, sch: Schemas)
    requires
        validated(r, target, doc, level, sch),
    ensures
        r.badge_eligible == r.core_conformant,
        level == Level::Core ==> (r.badge_eligible == (r.result == Outcome::Pass)),
{
    if level == Level::Core {
        law_fail_iff_not_core_conformant(r, target, doc, level, sch);
    }
}

/// Whether a document is Core conformant does not depend on the level it is
/// graded at.
pub proof fn law_core_conformance_level_independent(
    r1: Report,
    r2: Report,
    t1: Seq<char>,
    t2: Seq<char>,
    doc: JsonView,
    l1: Level,
    l2: Level,
    sch: Schemas,
)
    requires
        validated(r1, t1, doc, l1, sch),
        validated(r2, t2, doc, l2, sch),
    ensures
        r1.core_conformant == r2.core_conformant,
{
    lemma_sort_keeps(validation_findings(sch, doc, l1));
    lemma_sort_keeps(validation_findings(sch, doc, l2));
    lemma_breaks_level_independent(sch, doc, l1, l2);
}

/// Strict is a super-set of every level: a document that passes at Strict
/// passes at every level.
pub proof fn law_strict_pass_passes_everywhere(
    r1: Report,
    r2: Report,
    t1: Seq<char>,
    t2: Seq<char>,
    doc: JsonView,
    level: Level,
    sch: Schemas,
)
    requires
        validated(r1, t1, doc, Level::Strict, sch),
        validated(r2, t2, doc, level, sch),
        r1.result == Outcome::Pass,
    ensures
        r2.result == Outcome::Pass,
{
    if level != Level::Strict {
        law_not_core_conformant_fails(r1, t1, doc, Level::Strict, sch);
        law_core_conformance_level_independent(r1, r2, t1, t2, doc, Level::Strict, level, sch);
        law_fail_iff_not_core_conformant(r2, t2, doc, level, sch);
    }
}

/// Errors, warnings and info add up to the number of findings.
pub proof fn law_severity_counts(r: Report, target: Seq<char>, doc: JsonView, level: Level, sch: Schemas)
    requires
        validated(r, target, doc, level, sch),
    ensures
        r.summary.errors + r.summary.warnings + r.summary.info == r.findings.len(),
{
    lemma_sort_keeps(validation_findings(sch, doc, level));
    lemma_count_total(validation_findings(sch, doc, level));
    assert(finding_views(r.findings@).len() == r.findings@.len());
}

/// No more references resolve than are walked, and each one that does not
/// resolve is reported once; below Strict the reference group passes exactly
/// when every reference resolves.
pub proof fn law_references(r: Report, target: Seq<char>, doc: JsonView, level: Level, sch: Schemas)
    requires
        validated(r, target, doc, level, sch),
    ensures
        r.refs_resolved <= r.refs_total,
        r.refs_total - r.refs_resolved == sites_findings(keys(doc_entries(doc)), all_sites(doc_entries(doc))).len(),
        level != Level::Strict ==> ((r.checks.reference_integrity == CheckStatus::Pass) == (r.refs_resolved
            == r.refs_total)),
        r.refs_resolved < r.refs_total ==> !r.core_conformant && r.result == Outcome::Fail,
{
    lemma_sort_keeps(validation_findings(sch, doc, level));
    let es = doc_entries(doc);
    let fs = validation_findings(sch, doc, level);
    let st = structure_findings(sch, doc);
    let d = duplicate_findings(es, level);
    let x = sites_findings(keys(es), all_sites(es));
    let v = version_findings(doc, es, level);
    lemma_structure_errors(sch, doc);
    lemma_reference_findings(es, level);
    lemma_version_findings(doc, es, level);
    assert(fs == st + d + x + v);
    if x.len() > 0 {
        let i: int = (st.len() + d.len()) as int;
        assert(fs[i] == x[0]);
        lemma_all_at(x, |f: FindingView| reference_error(f), 0);
        assert(fs[i].breaks_core);
        law_not_core_conformant_fails(r, target, doc, level, sch);
    }
    if level != Level::Strict {
        if exists|i: int| 0 <= i < fs.len() && #[trigger] fs[i].check == Check::ReferenceIntegrity && fs[i].severity
            == Severity::Error {
            let i = choose|i: int| 0 <= i < fs.len() && #[trigger] fs[i].check == Check::ReferenceIntegrity
                && fs[i].severity == Severity::Error;
            if i < st.len() {
                assert(fs[i] == st[i]);
                lemma_all_at(st, |f: FindingView| structural_error(f), i);
            } else if i < st.len() + d.len() {
                assert(fs[i] == d[i - st.len()]);
                lemma_all_at(d, |f: FindingView| duplicate_like(f, level), i - st.len());
            } else if i < st.len() + d.len() + x.len() {
            } else {
                assert(fs[i] == v[i - st.len() - d.len() - x.len()]);
                lemma_all_at(v, |f: FindingView| version_like(f, level), i - st.len() - d.len() - x.len());
            }
        }
        if x.len() > 0 {
            let i: int = (st.len() + d.len()) as int;
            assert(fs[i] == x[0]);
            lemma_all_at(x, |f: FindingView| reference_error(f), 0);
            assert(fs[i].check == Check::ReferenceIntegrity && fs[i].severity == Severity::Error);
        }
    }
}

/// A report lists its findings by check group, then entry index (Bundle-level
/// findings first), then path: no finding comes after one it precedes, so
/// in particular the check groups come in the order they run.
pub proof fn law_findings_in_order(r: Report, target: Seq<char>, doc: JsonView, level: Level, sch: Schemas)
    requires
        validated(r, target, doc, level, sch),
    ensures
        listed_in_order(finding_views(r.findings@)),
        forall|i: int, j: int|
            0 <= i < j < r.findings@.len() ==> group_rank(#[trigger] r.findings@[i].check) <= group_rank(
                #[trigger] r.findings@[j].check,
            ),
{
    let fs = finding_views(r.findings@);
    lemma_sorted_in_order(validation_findings(sch, doc, level));
    assert forall|i: int, j: int| 0 <= i < j < r.findings@.len() implies group_rank(
        #[trigger] r.findings@[i].check,
    ) <= group_rank(#[trigger] r.findings@[j].check) by {
        assert(fs[i] == r.findings@[i]@);
        assert(fs[j] == r.findings@[j]@);
        assert(!precedes(fs[j], fs[i]));
    }
}

proof fn lemma_with_meta_version(es: Seq<JsonView>)
    ensures
        with_meta_version(es) <= es.len(),
    decreases es.len(),
{
    if es.len() > 0 {
        lemma_with_meta_version(es.drop_last());
    }
}

/// No more entries declare `meta.omirVersion == "R1"` than there are entries.
pub proof fn law_meta_version_count(r: Report, target: Seq<char>, doc: JsonView, level: Level, sch: Schemas)
    requires
        validated(r, target, doc, level, sch),
    ensures
        r.entries_with_meta_version <= r.summary.entries_total,
{
    lemma_with_meta_version(doc_entries(doc));
}

/// Two runs on the same document, level and schemas report the same
/// findings in the same order, with the same outcome and counters.
pub proof fn law_deterministic(
    r1: Report,
    r2: Report,
    t1: Seq<char>,
    t2: Seq<char>,
    doc: JsonView,
    level: Level,
    sch: Schemas,
)
    requires
        validated(r1, t1, doc, level, sch),
        validated(r2, t2, doc, level, sch),
    ensures
        finding_views(r1.findings@) == finding_views(r2.findings@),
        r1.result == r2.result,
        r1.checks == r2.checks,
        r1.core_conformant == r2.core_conformant,
        r1.summary.errors == r2.summary.errors,
        r1.summary.warnings == r2.summary.warnings,
        r1.summary.info == r2.summary.info,
        r1.summary.entries_total == r2.summary.entries_total,
        r1.refs_total == r2.refs_total,
        r1.refs_resolved == r2.refs_resolved,
        r1.entries_with_meta_version == r2.entries_with_meta_version,
{
}

/// Some finding of `fs` is an error.
pub open spec fn has_error(fs: Seq<FindingView>) -> bool {
    exists|i: int| 0 <= i < fs.len() && #[trigger] fs[i].severity == Severity::Error
}

proof fn lemma_has_error_concat(a: Seq<FindingView>, b: Seq<FindingView>)
    ensures
        has_error(a + b) == (has_error(a) || has_error(b)),
{
    if has_error(a + b) {
        let i = choose|i: int| 0 <= i < (a + b).len() && #[trigger] (a + b)[i].severity == Severity::Error;
        if i < a.len() {
            assert(a[i] == (a + b)[i]);
        } else {
            assert(b[i - a.len()] == (a + b)[i]);
        }
    }
    if has_error(a) {
        let i = choose|i: int| 0 <= i < a.len() && #[trigger] a[i].severity == Severity::Error;
        assert((a + b)[i] == a[i]);
    }
    if has_error(b) {
        let i = choose|i: int| 0 <= i < b.len() && #[trigger] b[i].severity == Severity::Error;
        assert((a + b)[a.len() + i] == b[i]);
    }
}

/// Entry `e` breaks the version rule at `level`: its `meta` block does not
/// declare "R1", or, at Strict, it has none.
pub open spec fn entry_version_violated(e: JsonView, level: Level) -> bool {
    match e.field("meta"@) {
        None => level == Level::Strict,
        Some(meta) => meta.field_text("omirVersion"@) != Some("R1"@),
    }
}

proof fn lemma_entries_version_errors(es: Seq<JsonView>, level: Level)
    ensures
        has_error(entries_version_findings(es, level)) == exists|i: int|
            0 <= i < es.len() && #[trigger] entry_version_violated(es[i], level),
    decreases es.len(),
{
    if es.len() > 0 {
        let rest = es.drop_last();
        lemma_entries_version_errors(rest, level);
        let b = entry_version_findings(es.last(), (es.len() - 1) as nat, level);
        lemma_has_error_concat(entries_version_findings(rest, level), b);
        assert(has_error(b) == entry_version_violated(es.last(), level)) by {
            if entry_version_violated(es.last(), level) {
                assert(b[0].severity == Severity::Error);
            }
        }
        if exists|i: int| 0 <= i < rest.len() && #[trigger] entry_version_violated(rest[i], level) {
            let i = choose|i: int| 0 <= i < rest.len() && #[trigger] entry_version_violated(rest[i], level);
            assert(es[i] == rest[i]);
        }
        if exists|i: int| 0 <= i < es.len() && #[trigger] entry_version_violated(es[i], level) {
            let i = choose|i: int| 0 <= i < es.len() && #[trigger] entry_version_violated(es[i], level);
            if i < es.len() - 1 {
                assert(rest[i] == es[i]);
            }
        }
    }
}

/// The findings of the check group `c` that are errors: `c` fails exactly
/// when one of those is among the run's findings.
proof fn lemma_group_fail_in_part(
    st: Seq<FindingView>,
    rf: Seq<FindingView>,
    v: Seq<FindingView>,
    level: Level,
)
    requires
        all_findings(st, |f: FindingView| structural_error(f)),
        all_findings(rf, |f: FindingView| duplicate_like(f, level) || reference_error(f)),
        all_findings(v, |f: FindingView| version_like(f, level)),
    ensures
        (group_status(st + rf + v, Check::Structure) == CheckStatus::Fail) == has_error(st),
        (group_status(st + rf + v, Check::VersionPresence) == CheckStatus::Fail) == has_error(v),
{
    let fs = st + rf + v;
    assert forall|i: int| 0 <= i < fs.len() implies (#[trigger] fs[i].check == Check::Structure) == (i
        < st.len()) && (fs[i].check == Check::VersionPresence) == (i >= st.len() + rf.len()) by {
        if i < st.len() {
            assert(fs[i] == st[i]);
            lemma_all_at(st, |f: FindingView| structural_error(f), i);
        } else if i < st.len() + rf.len() {
            assert(fs[i] == rf[i - st.len()]);
            lemma_all_at(rf, |f: FindingView| duplicate_like(f, level) || reference_error(f), i - st.len());
        } else {
            assert(fs[i] == v[i - st.len() - rf.len()]);
            lemma_all_at(v, |f: FindingView| version_like(f, level), i - st.len() - rf.len());
        }
    }
    if has_error(st) {
        let i = choose|i: int| 0 <= i < st.len() && #[trigger] st[i].severity == Severity::Error;
        assert(fs[i] == st[i]);
        assert(fs[i].check == Check::Structure && fs[i].severity == Severity::Error);
    }
    if group_status(fs, Check::Structure) == CheckStatus::Fail {
        let i = choose|i: int| 0 <= i < fs.len() && #[trigger] fs[i].check == Check::Structure && fs[i].severity
            == Severity::Error;
        assert(fs[i] == st[i]);
        assert(st[i].severity == Severity::Error);
    }
    if has_error(v) {
        let i = choose|i: int| 0 <= i < v.len() && #[trigger] v[i].severity == Severity::Error;
        let k: int = st.len() + rf.len() + i;
        assert(fs[k] == v[i]);
        assert(fs[k].check == Check::VersionPresence && fs[k].severity == Severity::Error);
    }
    if group_status(fs, Check::VersionPresence) == CheckStatus::Fail {
        let i = choose|i: int| 0 <= i < fs.len() && #[trigger] fs[i].check == Check::VersionPresence
            && fs[i].severity == Severity::Error;
        assert(fs[i] == v[i - st.len() - rf.len()]);
        assert(v[i - st.len() - rf.len()].severity == Severity::Error);
    }
}

/// The version group fails exactly when the Bundle's `omirVersion` is not
/// "R1" or some entry breaks the version rule at the run's level.
pub proof fn law_version_group(r: Report, target: Seq<char>, doc: JsonView, level: Level, sch: Schemas)
    requires
        validated(r, target, doc, level, sch),
    ensures
        (r.checks.version_presence == CheckStatus::Fail) == (doc.field_text("omirVersion"@) != Some("R1"@)
            || exists|i: int|
            0 <= i < doc_entries(doc).len() && #[trigger] entry_version_violated(doc_entries(doc)[i], level)),
{
    lemma_sort_keeps(validation_findings(sch, doc, level));
    let es = doc_entries(doc);
    let st = structure_findings(sch, doc);
    let rf = reference_findings(es, level);
    let v = version_findings(doc, es, level);
    lemma_structure_errors(sch, doc);
    lemma_reference_findings(es, level);
    lemma_version_findings(doc, es, level);
    lemma_group_fail_in_part(st, rf, v, level);
    lemma_entries_version_errors(es, level);
    lemma_has_error_concat(bundle_version_findings(doc), entries_version_findings(es, level));
    let b = bundle_version_findings(doc);
    assert(has_error(b) == (doc.field_text("omirVersion"@) != Some("R1"@))) by {
        if doc.field_text("omirVersion"@) != Some("R1"@) {
            assert(b[0].severity == Severity::Error);
        }
    }
}

/// Entry `e` fails structural dispatch: it is not an object, its
/// `resourceType` is not one of the four, or it violates its schema.
pub open spec fn entry_structure_violated(sch: Schemas, e: JsonView) -> bool {
    ||| !(e is Object)
    ||| match entry_type(e) {
        Some(rt) => !is_resource_type(rt) || violations(sch.common_schema(), sch.schema_for(rt), e).len() > 0,
        None => true,
    }
}

proof fn lemma_entries_structure_len(sch: Schemas, es: Seq<JsonView>)
    ensures
        (entries_structure_findings(sch, es).len() > 0) == exists|i: int|
            0 <= i < es.len() && #[trigger] entry_structure_violated(sch, es[i]),
    decreases es.len(),
{
    if es.len() > 0 {
        let rest = es.drop_last();
        lemma_entries_structure_len(sch, rest);
        let e = es.last();
        let b = entry_structure_findings(sch, e, (es.len() - 1) as nat);
        assert((b.len() > 0) == entry_structure_violated(sch, e));
        if exists|i: int| 0 <= i < rest.len() && #[trigger] entry_structure_violated(sch, rest[i]) {
            let i = choose|i: int| 0 <= i < rest.len() && #[trigger] entry_structure_violated(sch, rest[i]);
            assert(es[i] == rest[i]);
        }
        if exists|i: int| 0 <= i < es.len() && #[trigger] entry_structure_violated(sch, es[i]) {
            let i = choose|i: int| 0 <= i < es.len() && #[trigger] entry_structure_violated(sch, es[i]);
            if i < es.len() - 1 {
                assert(rest[i] == es[i]);
            }
        }
    }
}

/// The structural group fails exactly when the document violates the
/// envelope schema, is not a "Bundle", or has an entry that fails dispatch.
pub proof fn law_structure_group(r: Report, target: Seq<char>, doc: JsonView, level: Level, sch: Schemas)
    requires
        validated(r, target, doc, level, sch),
    ensures
        (r.checks.structural == CheckStatus::Fail) == (violations(sch.common_schema(), sch.envelope_schema(), doc).len()
            > 0 || doc.field_text("resourceType"@) != Some("Bundle"@) || exists|i: int|
            0 <= i < doc_entries(doc).len() && #[trigger] entry_structure_violated(sch, doc_entries(doc)[i])),
{
    lemma_sort_keeps(validation_findings(sch, doc, level));
    let es = doc_entries(doc);
    let st = structure_findings(sch, doc);
    let rf = reference_findings(es, level);
    let v = version_findings(doc, es, level);
    lemma_structure_errors(sch, doc);
    lemma_reference_findings(es, level);
    lemma_version_findings(doc, es, level);
    lemma_group_fail_in_part(st, rf, v, level);
    lemma_entries_structure_len(sch, es);
    if st.len() > 0 {
        lemma_all_at(st, |f: FindingView| structural_error(f), 0);
        assert(has_error(st));
    }
    if has_error(st) {
        assert(st.len() > 0);
    }
}

/// A report lists exactly the findings its checks produced, only rearranged.
pub proof fn law_findings_rearranged(r: Report, target: Seq<char>, doc: JsonView, level: Level, sch: Schemas)
    requires
        validated(r, target, doc, level, sch),
    ensures
        r.findings@.len() == validation_findings(sch, doc, level).len(),
        forall|i: int|
            0 <= i < r.findings@.len() ==> occurs_in(validation_findings(sch, doc, level), #[trigger] r.findings@[i]@),
        forall|j: int|
            0 <= j < validation_findings(sch, doc, level).len() ==> occurs_in(
                finding_views(r.findings@),
                #[trigger] validation_findings(sch, doc, level)[j],
            ),
{
    crate::order::lemma_listing_rearranges(r.findings@, validation_findings(sch, doc, level));
}

} // verus!
