//! Structural validation: the Bundle envelope, then each entry dispatched to
//! the schema of its resource type.

use vstd::prelude::*;

use crate::json::{items_view, lemma_items_view, Json, JsonView};
use crate::refs::{entry_id, entry_type, holder, holder_of, is_resource_type, or_empty};
use crate::report::{finding_views, is_listed, Check, EntryRef, EntryRefView, Finding, FindingView, Severity};
use crate::schemas::{type_slot, type_slot_of, violation_views, violations, Schemas, Violation, RESOURCE_TYPES};
use crate::text::{decimal, entry_path, entry_path_string, push_decimal, str_eq};
use crate::{found, found_text, str_opt};

verus! {

/// The entry is dispatched to the schema of its resource type: an object
/// whose `resourceType` is one of the four.
pub open spec fn dispatched(e: JsonView) -> bool {
    &&& e is Object
    &&& entry_type(e) matches Some(rt)
    &&& is_resource_type(rt)
}

/// The `t`-th of four groups.
pub open spec fn group<A>(t: int, a: Seq<A>, b: Seq<A>, c: Seq<A>, d: Seq<A>) -> Seq<A> {
    if t == 0 {
        a
    } else if t == 1 {
        b
    } else if t == 2 {
        c
    } else {
        d
    }
}

/// The entries of a document: its `entry` array, or none.
pub open spec fn doc_entries(doc: JsonView) -> Seq<JsonView> {
    match doc.field("entry"@) {
        Some(JsonView::Array(a)) => a,
        _ => Seq::empty(),
    }
}

/// E110 for one envelope violation (instance path, message).
pub open spec fn envelope_finding(v: (Seq<char>, Seq<char>)) -> FindingView {
    FindingView {
        code: "E110"@,
        severity: Severity::Error,
        check: Check::Structure,
        entry: None,
        path: if v.0.len() == 0 { "/"@ } else { v.0 },
        value: None,
        message: "Bundle envelope: "@ + v.1,
        breaks_core: true,
    }
}

/// E111, when the Bundle's `resourceType` is not the string "Bundle".
pub open spec fn bundle_type_findings(doc: JsonView) -> Seq<FindingView> {
    let v = doc.field_text("resourceType"@);
    if v == Some("Bundle"@) {
        Seq::empty()
    } else {
        seq![
            FindingView {
                code: "E111"@,
                severity: Severity::Error,
                check: Check::Structure,
                entry: None,
                path: "/resourceType"@,
                value: v,
                message: "Bundle.resourceType MUST be \"Bundle\""@ + found_text(v) + "."@,
                breaks_core: true,
            },
        ]
    }
}

/// E120 for one violation of its resource schema by entry `i`.
pub open spec fn entry_schema_finding(i: nat, rt: Seq<char>, id: Seq<char>, v: (Seq<char>, Seq<char>)) -> FindingView {
    FindingView {
        code: "E120"@,
        severity: Severity::Error,
        check: Check::Structure,
        entry: Some(EntryRefView { index: i, resource_type: rt, id }),
        path: entry_path(i) + v.0,
        value: None,
        message: rt + ": "@ + v.1,
        breaks_core: true,
    }
}

/// What structural dispatch says of entry `i`: E100 for a non-object, E120
/// for each violation of the schema of a known resource type, E101 for any
/// other `resourceType`.
pub open spec fn entry_structure_findings(sch: Schemas, e: JsonView, i: nat) -> Seq<FindingView> {
    if !(e is Object) {
        seq![
            FindingView {
                code: "E100"@,
                severity: Severity::Error,
                check: Check::Structure,
                entry: Some(holder(e, i)),
                path: entry_path(i),
                value: None,
                message: "entry["@ + decimal(i) + "] is not a JSON object."@,
                breaks_core: true,
            },
        ]
    } else {
        let id = or_empty(entry_id(e));
        let t = entry_type(e);
        match t {
            Some(rt) if is_resource_type(rt) => violations(sch.common_schema(), sch.schema_for(rt), e).map_values(
                |v: (Seq<char>, Seq<char>)| entry_schema_finding(i, rt, id, v),
            ),
            _ => seq![
                FindingView {
                    code: "E101"@,
                    severity: Severity::Error,
                    check: Check::Structure,
                    entry: Some(EntryRefView { index: i, resource_type: or_empty(t), id }),
                    path: entry_path(i) + "/resourceType"@,
                    value: t,
                    message: "entry["@ + decimal(i) + "].resourceType "@ + found_text(t)
                        + " is not one of the four R1 resource types (MemoryRecord, Entity, Relationship, Episode)."@,
                    breaks_core: true,
                },
            ],
        }
    }
}

/// The per-entry structural findings, in entry order.
pub open spec fn entries_structure_findings(sch: Schemas, es: Seq<JsonView>) -> Seq<FindingView>
    decreases es.len(),
{
    if es.len() == 0 {
        Seq::empty()
    } else {
        entries_structure_findings(sch, es.drop_last()) + entry_structure_findings(
            sch,
            es.last(),
            (es.len() - 1) as nat,
        )
    }
}

/// The structural findings: envelope violations, the Bundle type, then the
/// entries.
pub open spec fn structure_findings(sch: Schemas, doc: JsonView) -> Seq<FindingView> {
    violations(sch.common_schema(), sch.envelope_schema(), doc).map_values(
        |v: (Seq<char>, Seq<char>)| envelope_finding(v),
    ) + bundle_type_findings(doc) + entries_structure_findings(sch, doc_entries(doc))
}

fn push_envelope_findings(vs: &Vec<Violation>, findings: &mut Vec<Finding>)
    ensures
        finding_views(final(findings)@) == finding_views(old(findings)@) + violation_views(vs@).map_values(
            |v: (Seq<char>, Seq<char>)| envelope_finding(v),
        ),
{
    let ghost start = finding_views(findings@);
    let ghost all = violation_views(vs@).map_values(|v: (Seq<char>, Seq<char>)| envelope_finding(v));
    let mut k: usize = 0;
    assert(all.take(0) =~= Seq::<FindingView>::empty());
    assert(start + all.take(0) =~= start);
    while k < vs.len()
        invariant
            k <= vs@.len(),
            all == violation_views(vs@).map_values(|v: (Seq<char>, Seq<char>)| envelope_finding(v)),
            all.len() == vs@.len(),
            finding_views(findings@) == start + all.take(k as int),
        decreases vs@.len() - k,
    {
        let v = &vs[k];
        let path = if v.path.as_str().is_empty() { "/".to_owned() } else { v.path.clone() };
        let mut message = "Bundle envelope: ".to_owned();
        message.append(v.message.as_str());
        let f = Finding {
            code: "E110",
            severity: Severity::Error,
            check: Check::Structure,
            entry: None,
            path,
            value: None,
            message,
            breaks_core: true,
        };
        let ghost fv = finding_views(findings@);
        findings.push(f);
        assert(violation_views(vs@)[k as int] == (v.path@, v.message@));
        assert(f@ == all[k as int]);
        assert(all.take(k + 1) =~= all.take(k as int).push(all[k as int]));
        assert(finding_views(findings@) =~= fv.push(f@));
        k = k + 1;
    }
    assert(all.take(vs@.len() as int) =~= all);
}

fn push_schema_findings(vs: &Vec<Violation>, i: usize, rt: &str, id: &str, findings: &mut Vec<Finding>)
    ensures
        finding_views(final(findings)@) == finding_views(old(findings)@) + violation_views(vs@).map_values(
            |v: (Seq<char>, Seq<char>)| entry_schema_finding(i as nat, rt@, id@, v),
        ),
{
    let ghost start = finding_views(findings@);
    let ghost all = violation_views(vs@).map_values(
        |v: (Seq<char>, Seq<char>)| entry_schema_finding(i as nat, rt@, id@, v),
    );
    let mut k: usize = 0;
    assert(all.take(0) =~= Seq::<FindingView>::empty());
    assert(start + all.take(0) =~= start);
    while k < vs.len()
        invariant
            k <= vs@.len(),
            all == violation_views(vs@).map_values(
                |v: (Seq<char>, Seq<char>)| entry_schema_finding(i as nat, rt@, id@, v),
            ),
            all.len() == vs@.len(),
            finding_views(findings@) == start + all.take(k as int),
        decreases vs@.len() - k,
    {
        let v = &vs[k];
        let mut path = entry_path_string(i);
        path.append(v.path.as_str());
        let mut message = rt.to_owned();
        message.append(": ");
        message.append(v.message.as_str());
        let f = Finding {
            code: "E120",
            severity: Severity::Error,
            check: Check::Structure,
            entry: Some(EntryRef { index: i, resource_type: rt.to_owned(), id: id.to_owned() }),
            path,
            value: None,
            message,
            breaks_core: true,
        };
        let ghost fv = finding_views(findings@);
        findings.push(f);
        assert(violation_views(vs@)[k as int] == (v.path@, v.message@));
        assert(f@.path =~= all[k as int].path);
        assert(f@.message =~= all[k as int].message);
        assert(f@ == all[k as int]);
        assert(all.take(k + 1) =~= all.take(k as int).push(all[k as int]));
        assert(finding_views(findings@) =~= fv.push(f@));
        k = k + 1;
    }
    assert(all.take(vs@.len() as int) =~= all);
}

/// Dispatches entry `i` to the schema of its resource type.
fn entry_structure(
    schemas: &Schemas,
    e: &Json,
    i: usize,
    vs: &Vec<Violation>,
    findings: &mut Vec<Finding>,
)
    requires
        dispatched(e@) ==> violation_views(vs@) == violations(
            schemas.common_schema(),
            schemas.schema_for(or_empty(entry_type(e@))),
            e@,
        ),
    ensures
        finding_views(final(findings)@) == finding_views(old(findings)@) + entry_structure_findings(
            *schemas,
            e@,
            i as nat,
        ),
{
    let ghost start = finding_views(findings@);
    if !e.is_object() {
        let mut message = "entry[".to_owned();
        push_decimal(&mut message, i);
        message.append("] is not a JSON object.");
        let f = Finding {
            code: "E100",
            severity: Severity::Error,
            check: Check::Structure,
            entry: Some(holder_of(e, i)),
            path: entry_path_string(i),
            value: None,
            message,
            breaks_core: true,
        };
        findings.push(f);
        assert(f@.message =~= entry_structure_findings(*schemas, e@, i as nat)[0].message);
        assert(finding_views(findings@) =~= start + entry_structure_findings(*schemas, e@, i as nat));
        return;
    }
    let id: &str = match e.get_str("id") {
        Some(s) => s,
        None => {
            proof {
                reveal_strlit("");
            }
            ""
        },
    };
    assert(id@ == or_empty(entry_id(e@)));
    let t = e.get_str("resourceType");
    let known = match t {
        Some(rt) => is_listed(RESOURCE_TYPES.as_slice(), rt),
        None => false,
    };
    match t {
        Some(rt) if known => {
            push_schema_findings(vs, i, rt, id, findings);
        },
        _ => {
            let rt_text: &str = match t {
                Some(s) => s,
                None => {
                    proof {
                        reveal_strlit("");
                    }
                    ""
                },
            };
            let mut message = "entry[".to_owned();
            push_decimal(&mut message, i);
            message.append("].resourceType ");
            let tail = found(t);
            message.append(tail.as_str());
            message.append(" is not one of the four R1 resource types (MemoryRecord, Entity, Relationship, Episode).");
            let mut path = entry_path_string(i);
            path.append("/resourceType");
            let value = match t {
                Some(s) => Some(s.to_owned()),
                None => None,
            };
            let f = Finding {
                code: "E101",
                severity: Severity::Error,
                check: Check::Structure,
                entry: Some(EntryRef { index: i, resource_type: rt_text.to_owned(), id: id.to_owned() }),
                path,
                value,
                message,
                breaks_core: true,
            };
            findings.push(f);
            assert(f@.value == str_opt(t));
            assert(f@.message =~= entry_structure_findings(*schemas, e@, i as nat)[0].message);
            assert(f@.path =~= entry_structure_findings(*schemas, e@, i as nat)[0].path);
            assert(t matches Some(rt) ==> !is_resource_type(rt@));
            assert(rt_text@ == or_empty(str_opt(t)));
            assert(f@.entry == entry_structure_findings(*schemas, e@, i as nat)[0].entry);
            assert(f@ == entry_structure_findings(*schemas, e@, i as nat)[0]);
            assert(finding_views(findings@) =~= start + entry_structure_findings(*schemas, e@, i as nat));
        },
    }
}

/// Structural validation of a document whose entries are `entries`.
pub fn structure(schemas: &Schemas, doc: &Json, entries: &[Json], findings: &mut Vec<Finding>)
    requires
        items_view(entries@) == doc_entries(doc@),
    ensures
        finding_views(final(findings)@) == finding_views(old(findings)@) + structure_findings(*schemas, doc@),
{
    let ghost start = finding_views(findings@);
    let env = schemas.envelope_violations(doc);
    push_envelope_findings(&env, findings);
    let v = doc.get_str("resourceType");
    let is_bundle = match v {
        Some(s) => str_eq(s, "Bundle"),
        None => false,
    };
    let ghost fv = finding_views(findings@);
    if !is_bundle {
        let mut message = "Bundle.resourceType MUST be \"Bundle\"".to_owned();
        let tail = found(v);
        message.append(tail.as_str());
        message.append(".");
        let value = match v {
            Some(s) => Some(s.to_owned()),
            None => None,
        };
        let f = Finding {
            code: "E111",
            severity: Severity::Error,
            check: Check::Structure,
            entry: None,
            path: "/resourceType".to_owned(),
            value,
            message,
            breaks_core: true,
        };
        findings.push(f);
        assert(f@.value == str_opt(v));
        assert(f@.message =~= bundle_type_findings(doc@)[0].message);
    }
    let ghost mid = fv + bundle_type_findings(doc@);
    assert(finding_views(findings@) =~= mid);
    let ghost es = items_view(entries@);
    proof {
        lemma_items_view(entries@);
    }
    // Each entry of a known resource type joins the group of its type, at
    // position slot[i]; each group is then checked against its schema, which
    // is compiled once.
    let mut g0: Vec<&Json> = Vec::new();
    let mut g1: Vec<&Json> = Vec::new();
    let mut g2: Vec<&Json> = Vec::new();
    let mut g3: Vec<&Json> = Vec::new();
    let mut slot: Vec<usize> = Vec::new();
    let mut j: usize = 0;
    while j < entries.len()
        invariant
            j <= entries@.len(),
            es == items_view(entries@),
            forall|k: int| 0 <= k < entries@.len() ==> #[trigger] es[k] == entries@[k]@,
            slot@.len() == j,
            forall|n: int|
                0 <= n < j && dispatched(#[trigger] es[n]) ==> slot@[n] < group(
                    type_slot(or_empty(entry_type(es[n]))),
                    g0@,
                    g1@,
                    g2@,
                    g3@,
                ).len() && group(type_slot(or_empty(entry_type(es[n]))), g0@, g1@, g2@, g3@)[slot@[n] as int]@ == es[n],
        decreases entries@.len() - j,
    {
        let e = &entries[j];
        let ghost o0 = g0@;
        let ghost o1 = g1@;
        let ghost o2 = g2@;
        let ghost o3 = g3@;
        let k: usize = match e.get_str("resourceType") {
            Some(rt) => if e.is_object() && is_listed(RESOURCE_TYPES.as_slice(), rt) {
                type_slot_of(rt)
            } else {
                4
            },
            None => 4,
        };
        if k == 0 {
            slot.push(g0.len());
            g0.push(e);
        } else if k == 1 {
            slot.push(g1.len());
            g1.push(e);
        } else if k == 2 {
            slot.push(g2.len());
            g2.push(e);
        } else if k == 3 {
            slot.push(g3.len());
            g3.push(e);
        } else {
            slot.push(0);
        }
        proof {
            assert forall|n: int|
                0 <= n < j + 1 && dispatched(#[trigger] es[n]) implies slot@[n] < group(
                    type_slot(or_empty(entry_type(es[n]))),
                    g0@,
                    g1@,
                    g2@,
                    g3@,
                ).len() && group(type_slot(or_empty(entry_type(es[n]))), g0@, g1@, g2@, g3@)[slot@[n] as int]@ == es[n] by {
                if n < j {
                    let t = type_slot(or_empty(entry_type(es[n])));
                    let old_g = group(t, o0, o1, o2, o3);
                    assert(old_g.is_prefix_of(group(t, g0@, g1@, g2@, g3@)));
                    assert(group(t, g0@, g1@, g2@, g3@)[slot@[n] as int] == old_g[slot@[n] as int]);
                }
            }
        }
        j = j + 1;
    }
    let mut table: Vec<Vec<Vec<Violation>>> = Vec::new();
    let r0 = if g0.len() > 0 { schemas.type_violations(0, &g0) } else { Vec::new() };
    let r1 = if g1.len() > 0 { schemas.type_violations(1, &g1) } else { Vec::new() };
    let r2 = if g2.len() > 0 { schemas.type_violations(2, &g2) } else { Vec::new() };
    let r3 = if g3.len() > 0 { schemas.type_violations(3, &g3) } else { Vec::new() };
    table.push(r0);
    table.push(r1);
    table.push(r2);
    table.push(r3);
    proof {
        assert forall|t: int, m: int|
            0 <= t < 4 && 0 <= m < group(t, g0@, g1@, g2@, g3@).len() implies m < (#[trigger] table@[t])@.len()
                && violation_views(table@[t]@[m]@) == violations(
                schemas.common_schema(),
                schemas.type_schemas()[t],
                #[trigger] group(t, g0@, g1@, g2@, g3@)[m]@,
            ) by {
            if t == 0 {
                assert(table@[t] == r0);
            } else if t == 1 {
                assert(table@[t] == r1);
            } else if t == 2 {
                assert(table@[t] == r2);
            } else {
                assert(table@[t] == r3);
            }
        }
    }
    let empty: Vec<Violation> = Vec::new();
    let mut i: usize = 0;
    assert(es.take(0) =~= Seq::<JsonView>::empty());
    assert(mid + entries_structure_findings(*schemas, es.take(0)) =~= mid);
    while i < entries.len()
        invariant
            i <= entries@.len(),
            es == items_view(entries@),
            es.len() == entries@.len(),
            forall|k: int| 0 <= k < entries@.len() ==> #[trigger] es[k] == entries@[k]@,
            finding_views(findings@) == mid + entries_structure_findings(*schemas, es.take(i as int)),
            table@.len() == 4,
            slot@.len() == entries@.len(),
            forall|n: int|
                0 <= n < entries@.len() && dispatched(#[trigger] es[n]) ==> slot@[n] < group(
                    type_slot(or_empty(entry_type(es[n]))),
                    g0@,
                    g1@,
                    g2@,
                    g3@,
                ).len() && group(type_slot(or_empty(entry_type(es[n]))), g0@, g1@, g2@, g3@)[slot@[n] as int]@ == es[n],
            forall|t: int, m: int|
                0 <= t < 4 && 0 <= m < group(t, g0@, g1@, g2@, g3@).len() ==> m < (#[trigger] table@[t])@.len()
                    && violation_views(table@[t]@[m]@) == violations(
                    schemas.common_schema(),
                    schemas.type_schemas()[t],
                    #[trigger] group(t, g0@, g1@, g2@, g3@)[m]@,
                ),
            empty@.len() == 0,
        decreases entries@.len() - i,
    {
        let ghost before = es.take(i as int);
        let ghost after = es.take(i + 1);
        assert(after.drop_last() =~= before);
        assert(after.last() == entries@[i as int]@);
        let e = &entries[i];
        let k: usize = match e.get_str("resourceType") {
            Some(rt) => if e.is_object() && is_listed(RESOURCE_TYPES.as_slice(), rt) {
                type_slot_of(rt)
            } else {
                4
            },
            None => 4,
        };
        let vs: &Vec<Violation> = if k < 4 {
            proof {
                assert(dispatched(es[i as int]));
                let g = group(k as int, g0@, g1@, g2@, g3@);
                assert(g[slot@[i as int] as int]@ == es[i as int]);
            }
            &table[k][slot[i]]
        } else {
            &empty
        };
        entry_structure(schemas, e, i, vs, findings);
        assert(finding_views(findings@) =~= mid + entries_structure_findings(*schemas, after));
        i = i + 1;
    }
    assert(es.take(entries@.len() as int) =~= es);
    assert(finding_views(findings@) =~= start + structure_findings(*schemas, doc@));
}

} // verus!
