//! Conformance report types, the report assembly, and the human rendering.

use vstd::prelude::*;

use crate::json::{items_view, Json, JsonView};
use crate::text::str_eq;

verus! {

/// Validator version, surfaced in every report.
pub const VERSION: &'static str = "0.1.0";

/// Conformance level the document is graded against.
#[derive(Clone, Copy, PartialEq, Eq, Debug, Structural)]
pub enum Level {
    Core,
    Strict,
    Profile,
}

/// Severity of a single finding.
#[derive(Clone, Copy, PartialEq, Eq, Debug, Structural)]
pub enum Severity {
    Error,
    Warning,
    Info,
}

/// Which check group produced a finding.
#[derive(Clone, Copy, PartialEq, Eq, Debug, Structural)]
pub enum Check {
    /// The structural group (schema validation); named `structural` in reports.
    Structure,
    ReferenceIntegrity,
    VersionPresence,
    Profile,
}

/// Pass / fail / skipped status of a check group.
#[derive(Clone, Copy, PartialEq, Eq, Debug, Structural)]
pub enum CheckStatus {
    Pass,
    Fail,
    Skipped,
}

/// Overall outcome at the requested level.
#[derive(Clone, Copy, PartialEq, Eq, Debug, Structural)]
pub enum Outcome {
    Pass,
    Fail,
}

/// Locates the entry a finding belongs to.
#[derive(Clone, Debug)]
pub struct EntryRef {
    pub index: usize,
    pub resource_type: String,
    pub id: String,
}

pub struct EntryRefView {
    pub index: nat,
    pub resource_type: Seq<char>,
    pub id: Seq<char>,
}

impl View for EntryRef {
    type V = EntryRefView;

    open spec fn view(&self) -> EntryRefView {
        EntryRefView { index: self.index as nat, resource_type: self.resource_type@, id: self.id@ }
    }
}

/// A single conformance finding: a stable code, a severity, a JSON Pointer
/// locating the offending node, and a human message.
#[derive(Clone, Debug)]
pub struct Finding {
    pub code: &'static str,
    pub severity: Severity,
    pub check: Check,
    pub entry: Option<EntryRef>,
    pub path: String,
    /// The offending string value, when the finding is about one.
    pub value: Option<String>,
    pub message: String,
    /// Whether this finding fails Core conformance, whatever level the run
    /// was graded at.
    pub breaks_core: bool,
}

pub struct FindingView {
    pub code: Seq<char>,
    pub severity: Severity,
    pub check: Check,
    pub entry: Option<EntryRefView>,
    pub path: Seq<char>,
    pub value: Option<Seq<char>>,
    pub message: Seq<char>,
    pub breaks_core: bool,
}

pub open spec fn entry_view(e: Option<EntryRef>) -> Option<EntryRefView> {
    match e {
        Some(e) => Some(e@),
        None => None,
    }
}

pub open spec fn text_view(v: Option<String>) -> Option<Seq<char>> {
    match v {
        Some(s) => Some(s@),
        None => None,
    }
}

impl View for Finding {
    type V = FindingView;

    open spec fn view(&self) -> FindingView {
        FindingView {
            code: self.code@,
            severity: self.severity,
            check: self.check,
            entry: entry_view(self.entry),
            path: self.path@,
            value: text_view(self.value),
            message: self.message@,
            breaks_core: self.breaks_core,
        }
    }
}

/// The views of a sequence of findings.
pub open spec fn finding_views(fs: Seq<Finding>) -> Seq<FindingView> {
    fs.map_values(|f: Finding| f@)
}

impl Finding {
    pub fn new(
        code: &'static str,
        severity: Severity,
        check: Check,
        entry: Option<EntryRef>,
        path: String,
        value: Option<String>,
        message: String,
        breaks_core: bool,
    ) -> (r: Finding)
        ensures
            r.code == code,
            r.severity == severity,
            r.check == check,
            r.entry == entry,
            r.path == path,
            r.value == value,
            r.message == message,
            r.breaks_core == breaks_core,
    {
        Finding { code, severity, check, entry, path, value, message, breaks_core }
    }
}

#[derive(Clone, Debug)]
pub struct Summary {
    pub entries_total: usize,
    /// Entry counts per resource type, in the order of the resource types
    /// (R1 order: MemoryRecord, Entity, Relationship, Episode); only types
    /// that occur are listed, each once.
    pub entries_by_type: Vec<(String, usize)>,
    pub errors: usize,
    pub warnings: usize,
    pub info: usize,
}

#[derive(Clone, Copy, PartialEq, Eq, Debug, Structural)]
pub struct Checks {
    pub structural: CheckStatus,
    pub reference_integrity: CheckStatus,
    pub version_presence: CheckStatus,
    pub profile: CheckStatus,
}

/// The canonical conformance report.
#[derive(Clone, Debug)]
pub struct Report {
    pub report: &'static str,
    pub omir_validate_version: &'static str,
    pub schema_release: &'static str,
    pub target: String,
    pub level: Level,
    pub result: Outcome,
    pub summary: Summary,
    pub checks: Checks,
    pub findings: Vec<Finding>,
    pub core_conformant: bool,
    pub badge_eligible: bool,
    // Counters used by the human rendering only.
    pub refs_total: usize,
    pub refs_resolved: usize,
    pub entries_with_meta_version: usize,
    pub bundle_version: Option<String>,
}

/// Number of findings of severity `s`.
pub open spec fn count_severity(fs: Seq<FindingView>, s: Severity) -> nat
    decreases fs.len(),
{
    if fs.len() == 0 {
        0
    } else {
        count_severity(fs.drop_last(), s) + if fs.last().severity == s { 1nat } else { 0nat }
    }
}

/// A check group fails exactly when it produced an error.
pub open spec fn group_status(fs: Seq<FindingView>, c: Check) -> CheckStatus {
    if exists|i: int| 0 <= i < fs.len() && #[trigger] fs[i].check == c && fs[i].severity == Severity::Error {
        CheckStatus::Fail
    } else {
        CheckStatus::Pass
    }
}

/// Some finding breaks Core conformance.
pub open spec fn breaks_core(fs: Seq<FindingView>) -> bool {
    exists|i: int| 0 <= i < fs.len() && #[trigger] fs[i].breaks_core
}

/// Any error fails; at Strict any warning fails too.
pub open spec fn outcome_of(level: Level, errors: nat, warnings: nat) -> Outcome {
    if errors > 0 || (level == Level::Strict && warnings > 0) {
        Outcome::Fail
    } else {
        Outcome::Pass
    }
}

/// How many entries declare `resourceType == t`.
pub open spec fn count_type(entries: Seq<JsonView>, t: Seq<char>) -> nat
    decreases entries.len(),
{
    if entries.len() == 0 {
        0
    } else {
        count_type(entries.drop_last(), t) + if entries.last().field_text("resourceType"@) == Some(t) {
            1nat
        } else {
            0nat
        }
    }
}

/// `t` is one of the listed names.
pub open spec fn listed(names: Seq<&str>, t: Seq<char>) -> bool {
    exists|i: int| 0 <= i < names.len() && #[trigger] names[i]@ == t
}

pub open spec fn counts_view(bt: Seq<(String, usize)>) -> Seq<(Seq<char>, nat)> {
    bt.map_values(|p: (String, usize)| (p.0@, p.1 as nat))
}

/// For each listed type, in list order and once (at its first listing), the
/// number of entries that declare it, when there are any.
pub open spec fn type_counts(entries: Seq<JsonView>, names: Seq<&str>) -> Seq<(Seq<char>, nat)>
    decreases names.len(),
{
    if names.len() == 0 {
        Seq::empty()
    } else {
        let rest = type_counts(entries, names.drop_last());
        let t = names.last()@;
        let n = count_type(entries, t);
        if n > 0 && !listed(names.drop_last(), t) {
            rest.push((t, n))
        } else {
            rest
        }
    }
}

/// `t` is one of `names`.
pub fn is_listed(names: &[&str], t: &str) -> (r: bool)
    ensures
        r == listed(names@, t@),
{
    let mut i: usize = 0;
    while i < names.len()
        invariant
            i <= names@.len(),
            forall|k: int| 0 <= k < i ==> names@[k]@ != t@,
        decreases names@.len() - i,
    {
        if str_eq(names[i], t) {
            return true;
        }
        i = i + 1;
    }
    false
}

/// The number of entries that declare `resourceType == t`.
fn count_entries(entries: &[Json], t: &str) -> (r: usize)
    ensures
        r == count_type(items_view(entries@), t@),
{
    let ghost es = items_view(entries@);
    proof {
        crate::json::lemma_items_view(entries@);
    }
    let mut n: usize = 0;
    let mut i: usize = 0;
    while i < entries.len()
        invariant
            i <= entries@.len(),
            es == items_view(entries@),
            es.len() == entries@.len(),
            forall|k: int| 0 <= k < entries@.len() ==> #[trigger] es[k] == entries@[k]@,
            n == count_type(es.take(i as int), t@),
            n <= i,
        decreases entries@.len() - i,
    {
        let ghost after = es.take(i + 1);
        assert(after.drop_last() =~= es.take(i as int));
        assert(after.last() == entries@[i as int]@);
        let hit = match entries[i].get_str("resourceType") {
            Some(rt) => str_eq(rt, t),
            None => false,
        };
        if hit {
            n = n + 1;
        }
        i = i + 1;
    }
    assert(es.take(entries@.len() as int) =~= es);
    n
}

/// Whether `names[k]` already occurs among the first `k` names.
fn seen_before(names: &[&str], k: usize) -> (r: bool)
    requires
        k < names@.len(),
    ensures
        r == listed(names@.take(k as int), names@[k as int]@),
{
    let ghost pre = names@.take(k as int);
    let mut j: usize = 0;
    while j < k
        invariant
            k < names@.len(),
            j <= k,
            pre == names@.take(k as int),
            forall|i: int| 0 <= i < j ==> pre[i]@ != names@[k as int]@,
        decreases k - j,
    {
        if str_eq(names[j], names[k]) {
            assert(pre[j as int]@ == names@[k as int]@);
            return true;
        }
        j = j + 1;
    }
    false
}

/// Tally of entries per listed resource type, in the order of `names`, each
/// type once.
fn tally_types(entries: &[Json], names: &[&str]) -> (r: Vec<(String, usize)>)
    ensures
        counts_view(r@) == type_counts(items_view(entries@), names@),
{
    let ghost es = items_view(entries@);
    let mut by: Vec<(String, usize)> = Vec::new();
    let mut k: usize = 0;
    assert(names@.take(0) =~= Seq::<&str>::empty());
    assert(counts_view(by@) =~= Seq::<(Seq<char>, nat)>::empty());
    while k < names.len()
        invariant
            k <= names@.len(),
            es == items_view(entries@),
            counts_view(by@) == type_counts(es, names@.take(k as int)),
        decreases names@.len() - k,
    {
        let ghost after = names@.take(k + 1);
        assert(after.drop_last() =~= names@.take(k as int));
        assert(after.last() == names@[k as int]);
        let ghost before = counts_view(by@);
        let n = count_entries(entries, names[k]);
        let seen = seen_before(names, k);
        if n > 0 && !seen {
            by.push((names[k].to_owned(), n));
            assert(counts_view(by@) =~= before.push((names@[k as int]@, n as nat)));
        }
        k = k + 1;
    }
    assert(names@.take(names@.len() as int) =~= names@);
    by
}

/// The report fields as functions of the inputs of an assembly.
pub open spec fn assembled(
    r: Report,
    target: Seq<char>,
    level: Level,
    entries: Seq<JsonView>,
    fs: Seq<FindingView>,
    refs_total: nat,
    refs_resolved: nat,
    with_version: nat,
    bundle_version: Option<Seq<char>>,
    names: Seq<&str>,
) -> bool {
    let errors = count_severity(fs, Severity::Error);
    let warnings = count_severity(fs, Severity::Warning);
    &&& r.report@ == "OMIRConformanceReport"@
    &&& r.omir_validate_version@ == VERSION@
    &&& r.schema_release@ == "R1"@
    &&& r.target@ == target
    &&& r.level == level
    &&& finding_views(r.findings@) == fs
    &&& r.summary.entries_total == entries.len()
    &&& counts_view(r.summary.entries_by_type@) == type_counts(entries, names)
    &&& r.summary.errors == errors
    &&& r.summary.warnings == warnings
    &&& r.summary.info == count_severity(fs, Severity::Info)
    &&& r.checks == Checks {
        structural: group_status(fs, Check::Structure),
        reference_integrity: group_status(fs, Check::ReferenceIntegrity),
        version_presence: group_status(fs, Check::VersionPresence),
        profile: CheckStatus::Skipped,
    }
    &&& r.result == outcome_of(level, errors, warnings)
    &&& r.core_conformant == !breaks_core(fs)
    &&& r.badge_eligible == r.core_conformant
    &&& r.refs_total == refs_total
    &&& r.refs_resolved == refs_resolved
    &&& r.entries_with_meta_version == with_version
    &&& text_view(r.bundle_version) == bundle_version
}

/// The number of findings of severity `s`.
fn count_of(findings: &Vec<Finding>, s: Severity) -> (r: usize)
    ensures
        r == count_severity(finding_views(findings@), s),
{
    let ghost fs = finding_views(findings@);
    let mut n: usize = 0;
    let mut i: usize = 0;
    while i < findings.len()
        invariant
            i <= findings@.len(),
            fs == finding_views(findings@),
            n == count_severity(fs.take(i as int), s),
            n <= i,
        decreases findings@.len() - i,
    {
        assert(fs.take(i + 1).drop_last() =~= fs.take(i as int));
        if findings[i].severity == s {
            n = n + 1;
        }
        i = i + 1;
    }
    assert(fs.take(findings@.len() as int) =~= fs);
    n
}

/// The status of check group `c`: failed exactly when it produced an error.
fn status_of(findings: &Vec<Finding>, c: Check) -> (r: CheckStatus)
    ensures
        r == group_status(finding_views(findings@), c),
{
    let ghost fs = finding_views(findings@);
    let mut i: usize = 0;
    while i < findings.len()
        invariant
            i <= findings@.len(),
            fs == finding_views(findings@),
            forall|k: int| 0 <= k < i ==> !(#[trigger] fs[k].check == c && fs[k].severity == Severity::Error),
        decreases findings@.len() - i,
    {
        if findings[i].check == c && findings[i].severity == Severity::Error {
            assert(fs[i as int].check == c && fs[i as int].severity == Severity::Error);
            return CheckStatus::Fail;
        }
        i = i + 1;
    }
    CheckStatus::Pass
}

/// Whether any finding breaks Core conformance.
fn any_breaks_core(findings: &Vec<Finding>) -> (r: bool)
    ensures
        r == breaks_core(finding_views(findings@)),
{
    let ghost fs = finding_views(findings@);
    let mut i: usize = 0;
    while i < findings.len()
        invariant
            i <= findings@.len(),
            fs == finding_views(findings@),
            forall|k: int| 0 <= k < i ==> !#[trigger] fs[k].breaks_core,
        decreases findings@.len() - i,
    {
        if findings[i].breaks_core {
            assert(fs[i as int].breaks_core);
            return true;
        }
        i = i + 1;
    }
    false
}

impl Report {
    /// Assemble a report from the raw findings produced by the check groups.
    pub fn assemble(
        target: &str,
        level: Level,
        entries: &[Json],
        findings: Vec<Finding>,
        refs_total: usize,
        refs_resolved: usize,
        entries_with_meta_version: usize,
        bundle_version: Option<String>,
        resource_types: &[&str],
    ) -> (r: Report)
        ensures
            assembled(
                r,
                target@,
                level,
                items_view(entries@),
                finding_views(findings@),
                refs_total as nat,
                refs_resolved as nat,
                entries_with_meta_version as nat,
                text_view(bundle_version),
                resource_types@,
            ),
    {
        let by_type = tally_types(entries, resource_types);
        proof {
            crate::json::lemma_items_view(entries@);
        }
        let errors = count_of(&findings, Severity::Error);
        let warnings = count_of(&findings, Severity::Warning);
        let info = count_of(&findings, Severity::Info);
        let checks = Checks {
            structural: status_of(&findings, Check::Structure),
            reference_integrity: status_of(&findings, Check::ReferenceIntegrity),
            version_presence: status_of(&findings, Check::VersionPresence),
            profile: CheckStatus::Skipped,
        };
        let fail = errors > 0 || (level == Level::Strict && warnings > 0);
        let result = if fail { Outcome::Fail } else { Outcome::Pass };
        let core_conformant = !any_breaks_core(&findings);
        proof {
            reveal_strlit("OMIRConformanceReport");
            reveal_strlit("R1");
        }
        Report {
            report: "OMIRConformanceReport",
            omir_validate_version: VERSION,
            schema_release: "R1",
            target: target.to_owned(),
            level,
            result,
            summary: Summary { entries_total: entries.len(), entries_by_type: by_type, errors, warnings, info },
            checks,
            findings,
            core_conformant,
            badge_eligible: core_conformant,
            refs_total,
            refs_resolved,
            entries_with_meta_version,
            bundle_version,
        }
    }
}

} // verus!
