//! Version presence: `omirVersion == "R1"` on the Bundle and on every entry
//! that carries a `meta` block.

use vstd::prelude::*;

use crate::json::{items_view, lemma_items_view, Json, JsonView};
use crate::refs::{holder, holder_of};
use crate::report::{finding_views, Check, Finding, FindingView, Level, Severity};
use crate::text::{entry_path, entry_path_string, str_eq};
use crate::{found, found_text, str_opt};

verus! {

/// E300, when the Bundle's `omirVersion` is not the string "R1".
pub open spec fn bundle_version_findings(doc: JsonView) -> Seq<FindingView> {
    let v = doc.field_text("omirVersion"@);
    if v == Some("R1"@) {
        Seq::empty()
    } else {
        seq![
            FindingView {
                code: "E300"@,
                severity: Severity::Error,
                check: Check::VersionPresence,
                entry: None,
                path: "/omirVersion"@,
                value: v,
                message: "Bundle.omirVersion MUST be \"R1\""@ + found_text(v) + "."@,
                breaks_core: true,
            },
        ]
    }
}

/// What the version check says of entry `i`.
pub open spec fn entry_version_findings(e: JsonView, i: nat, level: Level) -> Seq<FindingView> {
    match e.field("meta"@) {
        None => if level == Level::Strict {
            seq![
                FindingView {
                    code: "E302"@,
                    severity: Severity::Error,
                    check: Check::VersionPresence,
                    entry: Some(holder(e, i)),
                    path: entry_path(i) + "/meta"@,
                    value: None,
                    message: "At --level strict, every entry MUST carry a meta block with omirVersion \"R1\"."@,
                    breaks_core: false,
                },
            ]
        } else {
            seq![
                FindingView {
                    code: "I302"@,
                    severity: Severity::Info,
                    check: Check::VersionPresence,
                    entry: Some(holder(e, i)),
                    path: entry_path(i),
                    value: None,
                    message: "No meta block; consider adding meta.omirVersion \"R1\" so the entry is self-describing."@,
                    breaks_core: false,
                },
            ]
        },
        Some(meta) => {
            let v = meta.field_text("omirVersion"@);
            if v == Some("R1"@) {
                Seq::empty()
            } else {
                seq![
                    FindingView {
                        code: "E301"@,
                        severity: Severity::Error,
                        check: Check::VersionPresence,
                        entry: Some(holder(e, i)),
                        path: entry_path(i) + "/meta/omirVersion"@,
                        value: v,
                        message: "meta.omirVersion must be \"R1\" when meta is present"@ + found_text(v) + "."@,
                        breaks_core: true,
                    },
                ]
            }
        },
    }
}

/// The per-entry version findings, in entry order.
pub open spec fn entries_version_findings(es: Seq<JsonView>, level: Level) -> Seq<FindingView>
    decreases es.len(),
{
    if es.len() == 0 {
        Seq::empty()
    } else {
        entries_version_findings(es.drop_last(), level) + entry_version_findings(
            es.last(),
            (es.len() - 1) as nat,
            level,
        )
    }
}

/// The entry declares `meta.omirVersion == "R1"`.
pub open spec fn declares_r1(e: JsonView) -> bool {
    match e.field("meta"@) {
        Some(meta) => meta.field_text("omirVersion"@) == Some("R1"@),
        None => false,
    }
}

/// How many entries declare `meta.omirVersion == "R1"`.
pub open spec fn with_meta_version(es: Seq<JsonView>) -> nat
    decreases es.len(),
{
    if es.len() == 0 {
        0
    } else {
        with_meta_version(es.drop_last()) + if declares_r1(es.last()) { 1nat } else { 0nat }
    }
}

/// The version-presence findings: the Bundle's, then each entry's.
pub open spec fn version_findings(doc: JsonView, es: Seq<JsonView>, level: Level) -> Seq<FindingView> {
    bundle_version_findings(doc) + entries_version_findings(es, level)
}

/// The entry's `meta` block holds `omirVersion` equal to the string "R1".
pub open spec fn meta_version_is_r1(e: JsonView) -> bool {
    match e.field("meta"@) {
        Some(m) => m.field("omirVersion"@) == Some(JsonView::Str("R1"@)),
        None => false,
    }
}

proof fn lemma_entry_counted(e: JsonView, i: nat, level: Level)
    ensures
        (entry_version_findings(e, i, level).len() == 0) == meta_version_is_r1(e),
        declares_r1(e) == meta_version_is_r1(e),
{
    match e.field("meta"@) {
        Some(m) => {
            match m.field("omirVersion"@) {
                Some(v) => {
                    if v.text() == Some("R1"@) {
                        assert(v == JsonView::Str("R1"@));
                    }
                },
                None => {},
            }
        },
        None => {},
    }
}

/// The count of entries declaring the version is the number of entries whose
/// `meta.omirVersion` is the string "R1"; an entry gets no version finding
/// exactly when it is counted, so no entry with E301 (or I302/E302) is
/// counted.
pub proof fn law_meta_version_count(es: Seq<JsonView>, level: Level)
    ensures
        with_meta_version(es) == es.filter(|e: JsonView| meta_version_is_r1(e)).len(),
        forall|i: int|
            0 <= i < es.len() ==> (entry_version_findings(#[trigger] es[i], i as nat, level).len() == 0)
                == meta_version_is_r1(es[i]),
    decreases es.len(),
{
    assert forall|i: int|
        0 <= i < es.len() implies (entry_version_findings(#[trigger] es[i], i as nat, level).len() == 0)
            == meta_version_is_r1(es[i]) by {
        lemma_entry_counted(es[i], i as nat, level);
    }
    if es.len() > 0 {
        let p = |e: JsonView| meta_version_is_r1(e);
        reveal(Seq::filter);
        law_meta_version_count(es.drop_last(), level);
        lemma_entry_counted(es.last(), 0, level);
        assert(es.filter(p).len() == es.drop_last().filter(p).len() + if p(es.last()) { 1int } else { 0int });
    }
}

fn entry_version(e: &Json, i: usize, level: Level, findings: &mut Vec<Finding>) -> (declared: bool)
    ensures
        finding_views(final(findings)@) == finding_views(old(findings)@) + entry_version_findings(
            e@,
            i as nat,
            level,
        ),
        declared == declares_r1(e@),
{
    let ghost start = finding_views(findings@);
    match e.get("meta") {
        None => {
            if level == Level::Strict {
                let mut path = entry_path_string(i);
                path.append("/meta");
                let f = Finding {
                    code: "E302",
                    severity: Severity::Error,
                    check: Check::VersionPresence,
                    entry: Some(holder_of(e, i)),
                    path,
                    value: None,
                    message: "At --level strict, every entry MUST carry a meta block with omirVersion \"R1\".".to_owned(),
                    breaks_core: false,
                };
                findings.push(f);
                assert(finding_views(findings@) =~= start + entry_version_findings(e@, i as nat, level));
            } else {
                let f = Finding {
                    code: "I302",
                    severity: Severity::Info,
                    check: Check::VersionPresence,
                    entry: Some(holder_of(e, i)),
                    path: entry_path_string(i),
                    value: None,
                    message: "No meta block; consider adding meta.omirVersion \"R1\" so the entry is self-describing.".to_owned(),
                    breaks_core: false,
                };
                findings.push(f);
                assert(finding_views(findings@) =~= start + entry_version_findings(e@, i as nat, level));
            }
            false
        },
        Some(meta) => {
            let v = meta.get_str("omirVersion");
            let is_r1 = match v {
                Some(s) => str_eq(s, "R1"),
                None => false,
            };
            if is_r1 {
                assert(finding_views(findings@) =~= start + entry_version_findings(e@, i as nat, level));
                true
            } else {
                let mut path = entry_path_string(i);
                path.append("/meta/omirVersion");
                let mut message = "meta.omirVersion must be \"R1\" when meta is present".to_owned();
                let tail = found(v);
                message.append(tail.as_str());
                message.append(".");
                let value = match v {
                    Some(s) => Some(s.to_owned()),
                    None => None,
                };
                let f = Finding {
                    code: "E301",
                    severity: Severity::Error,
                    check: Check::VersionPresence,
                    entry: Some(holder_of(e, i)),
                    path,
                    value,
                    message,
                    breaks_core: true,
                };
                findings.push(f);
                assert(f@.value == str_opt(v));
                assert(f@.message =~= entry_version_findings(e@, i as nat, level)[0].message);
                assert(finding_views(findings@) =~= start + entry_version_findings(e@, i as nat, level));
                false
            }
        },
    }
}

/// `omirVersion == "R1"` at the Bundle level and on every entry that carries
/// a `meta`. Returns how many entries declare `meta.omirVersion == "R1"`.
pub fn version_presence(doc: &Json, entries: &[Json], level: Level, findings: &mut Vec<Finding>) -> (r: usize)
    ensures
        finding_views(final(findings)@) == finding_views(old(findings)@) + version_findings(
            doc@,
            items_view(entries@),
            level,
        ),
        r == with_meta_version(items_view(entries@)),
{
    let ghost es = items_view(entries@);
    let ghost start = finding_views(findings@);
    let v = doc.get_str("omirVersion");
    let is_r1 = match v {
        Some(s) => str_eq(s, "R1"),
        None => false,
    };
    if !is_r1 {
        let mut message = "Bundle.omirVersion MUST be \"R1\"".to_owned();
        let tail = found(v);
        message.append(tail.as_str());
        message.append(".");
        let value = match v {
            Some(s) => Some(s.to_owned()),
            None => None,
        };
        let f = Finding {
            code: "E300",
            severity: Severity::Error,
            check: Check::VersionPresence,
            entry: None,
            path: "/omirVersion".to_owned(),
            value,
            message,
            breaks_core: true,
        };
        findings.push(f);
        assert(f@.value == str_opt(v));
        assert(f@.message =~= bundle_version_findings(doc@)[0].message);
    }
    let ghost mid = start + bundle_version_findings(doc@);
    assert(finding_views(findings@) =~= mid);
    proof {
        lemma_items_view(entries@);
    }
    let mut with_version: usize = 0;
    let mut i: usize = 0;
    assert(es.take(0) =~= Seq::<JsonView>::empty());
    assert(mid + entries_version_findings(es.take(0), level) =~= mid);
    while i < entries.len()
        invariant
            i <= entries@.len(),
            es == items_view(entries@),
            es.len() == entries@.len(),
            forall|k: int| 0 <= k < entries@.len() ==> #[trigger] es[k] == entries@[k]@,
            finding_views(findings@) == mid + entries_version_findings(es.take(i as int), level),
            with_version == with_meta_version(es.take(i as int)),
            with_version <= i,
        decreases entries@.len() - i,
    {
        let ghost before = es.take(i as int);
        let ghost after = es.take(i + 1);
        assert(after.drop_last() =~= before);
        assert(after.last() == entries@[i as int]@);
        let ghost fv = finding_views(findings@);
        let declared = entry_version(&entries[i], i, level, findings);
        assert(finding_views(findings@) =~= mid + entries_version_findings(after, level));
        if declared {
            with_version = with_version + 1;
        }
        i = i + 1;
    }
    assert(es.take(entries@.len() as int) =~= es);
    with_version
}

} // verus!
