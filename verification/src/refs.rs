//! Reference integrity: every typed `ResourceType/id` reference resolves to an
//! entry of the right type in the same Bundle.

use vstd::prelude::*;

use crate::distance::{edit_distance, levenshtein};
use crate::json::{items_view, lemma_items_view, Json, JsonView};
use crate::report::{
    finding_views, listed, Check, EntryRef, EntryRefView, Finding, FindingView, Level,
    Severity,
};
use crate::schemas::RESOURCE_TYPES;
use crate::text::{decimal, entry_path, join, push_decimal, split_once_slash, split_slash, str_eq};

verus! {

/// Shape of a reference-bearing field.
#[derive(Clone, Copy, PartialEq, Eq, Debug, Structural)]
pub enum RefShape {
    /// `{ "ref": "Type/id" }`
    ObjectSingle,
    /// `[ { "ref": "Type/id" }, ... ]`
    ObjectArray,
    /// a bare local id string whose target type is implied (e.g. `parentId`)
    BareId,
}

/// One closed-world reference rule: a field on a resource type, its shape, and
/// the resource types its target may have.
pub struct RefRule {
    pub rt: &'static str,
    pub field: &'static str,
    pub shape: RefShape,
    pub targets: Vec<&'static str>,
}

pub struct RuleView {
    pub rt: Seq<char>,
    pub field: Seq<char>,
    pub shape: RefShape,
    pub targets: Seq<Seq<char>>,
}

impl View for RefRule {
    type V = RuleView;

    open spec fn view(&self) -> RuleView {
        RuleView {
            rt: self.rt@,
            field: self.field@,
            shape: self.shape,
            targets: self.targets@.map_values(|t: &str| t@),
        }
    }
}

/// The R1 reference rules, in the order the walk applies them.
pub open spec fn rule_table() -> Seq<RuleView> {
    seq![
        RuleView { rt: "MemoryRecord"@, field: "entityRefs"@, shape: RefShape::ObjectArray, targets: seq!["Entity"@] },
        RuleView { rt: "MemoryRecord"@, field: "parentId"@, shape: RefShape::BareId, targets: seq!["MemoryRecord"@] },
        RuleView { rt: "Episode"@, field: "entityRefs"@, shape: RefShape::ObjectArray, targets: seq!["Entity"@] },
        RuleView { rt: "Relationship"@, field: "from"@, shape: RefShape::ObjectSingle, targets: seq!["Entity"@] },
        RuleView { rt: "Relationship"@, field: "to"@, shape: RefShape::ObjectSingle, targets: seq!["Entity"@] },
        RuleView { rt: "Relationship"@, field: "sourceEpisode"@, shape: RefShape::ObjectSingle, targets: seq!["Episode"@] },
    ]
}

pub open spec fn or_empty(v: Option<Seq<char>>) -> Seq<char> {
    match v {
        Some(s) => s,
        None => Seq::empty(),
    }
}

pub open spec fn entry_type(e: JsonView) -> Option<Seq<char>> {
    e.field_text("resourceType"@)
}

pub open spec fn entry_id(e: JsonView) -> Option<Seq<char>> {
    e.field_text("id"@)
}

pub open spec fn is_resource_type(t: Seq<char>) -> bool {
    listed(RESOURCE_TYPES@, t)
}

/// The (resourceType, id) under which an entry is indexed, when it is.
pub open spec fn entry_key(e: JsonView) -> Option<(Seq<char>, Seq<char>)> {
    match (entry_type(e), entry_id(e)) {
        (Some(t), Some(id)) => if is_resource_type(t) {
            Some((t, id))
        } else {
            None
        },
        _ => None,
    }
}

/// The keys of the indexed entries, in entry order (duplicates included).
pub open spec fn keys(es: Seq<JsonView>) -> Seq<(Seq<char>, Seq<char>)>
    decreases es.len(),
{
    if es.len() == 0 {
        Seq::empty()
    } else {
        match entry_key(es.last()) {
            Some(k) => keys(es.drop_last()).push(k),
            None => keys(es.drop_last()),
        }
    }
}

/// The entry a finding about entry `i` is anchored to.
pub open spec fn holder(e: JsonView, i: nat) -> EntryRefView {
    EntryRefView { index: i, resource_type: or_empty(entry_type(e)), id: or_empty(entry_id(e)) }
}

pub open spec fn severity_for_duplicate(level: Level) -> Severity {
    if level == Level::Strict {
        Severity::Error
    } else {
        Severity::Warning
    }
}

/// W202: entry `i` repeats the key `k` of an earlier entry.
pub open spec fn duplicate_finding(i: nat, k: (Seq<char>, Seq<char>), level: Level) -> FindingView {
    FindingView {
        code: "W202"@,
        severity: severity_for_duplicate(level),
        check: Check::ReferenceIntegrity,
        entry: Some(EntryRefView { index: i, resource_type: k.0, id: k.1 }),
        path: entry_path(i) + "/id"@,
        value: Some(k.1),
        message: "Duplicate id: more than one "@ + k.0 + " shares id \""@ + k.1
            + "\"; references to it are ambiguous."@,
        breaks_core: false,
    }
}

/// The duplicate-id findings over the entries, in entry order.
pub open spec fn duplicate_findings(es: Seq<JsonView>, level: Level) -> Seq<FindingView>
    decreases es.len(),
{
    if es.len() == 0 {
        Seq::empty()
    } else {
        let rest = duplicate_findings(es.drop_last(), level);
        match entry_key(es.last()) {
            Some(k) => if keys(es.drop_last()).contains(k) {
                rest.push(duplicate_finding((es.len() - 1) as nat, k, level))
            } else {
                rest
            },
            None => rest,
        }
    }
}

/// Finding `f` is anchored to entry `i`.
pub open spec fn anchored_at(f: FindingView, i: int) -> bool {
    f.entry matches Some(e) && e.index == i
}

/// Entry `i` is indexed under the same (resourceType, id) as an earlier entry.
pub open spec fn repeats_key(es: Seq<JsonView>, i: int) -> bool {
    &&& entry_key(es[i]) is Some
    &&& exists|j: int| 0 <= j < i && #[trigger] entry_key(es[j]) == entry_key(es[i])
}

proof fn lemma_keys_contains(es: Seq<JsonView>, k: (Seq<char>, Seq<char>))
    ensures
        keys(es).contains(k) == exists|j: int| 0 <= j < es.len() && #[trigger] entry_key(es[j]) == Some(k),
    decreases es.len(),
{
    if es.len() > 0 {
        let d = es.drop_last();
        lemma_keys_contains(d, k);
        if exists|j: int| 0 <= j < d.len() && #[trigger] entry_key(d[j]) == Some(k) {
            let j = choose|j: int| 0 <= j < d.len() && #[trigger] entry_key(d[j]) == Some(k);
            assert(es[j] == d[j]);
            let m = choose|m: int| 0 <= m < keys(d).len() && keys(d)[m] == k;
            match entry_key(es.last()) {
                Some(x) => assert(keys(es)[m] == keys(d).push(x)[m]),
                None => {},
            }
        }
        if exists|j: int| 0 <= j < es.len() && #[trigger] entry_key(es[j]) == Some(k) {
            let j = choose|j: int| 0 <= j < es.len() && #[trigger] entry_key(es[j]) == Some(k);
            if j < es.len() - 1 {
                assert(entry_key(d[j]) == Some(k));
            } else {
                assert(keys(es) == keys(d).push(k));
                assert(keys(es)[keys(d).len() as int] == k);
            }
        }
        if keys(es).contains(k) {
            let m = choose|m: int| 0 <= m < keys(es).len() && keys(es)[m] == k;
            match entry_key(es.last()) {
                Some(x) => {
                    if m < keys(d).len() {
                        assert(keys(d)[m] == k);
                    } else {
                        assert(entry_key(es[es.len() - 1]) == Some(k));
                    }
                },
                None => {
                    assert(keys(d)[m] == k);
                },
            }
        }
    }
}

/// The duplicate-id findings: each is a W202 anchored to an entry that
/// repeats the (resourceType, id) of an earlier entry, under that key, and
/// every such entry gets one. Entries of different resource types never
/// collide.
pub proof fn law_duplicates(es: Seq<JsonView>, level: Level)
    ensures
        forall|k: int|
            0 <= k < duplicate_findings(es, level).len() ==> {
                let f = #[trigger] duplicate_findings(es, level)[k];
                &&& f.code == "W202"@
                &&& f.severity == severity_for_duplicate(level)
                &&& f.entry matches Some(e) && 0 <= e.index < es.len() && repeats_key(es, e.index as int)
                    && entry_key(es[e.index as int]) == Some((e.resource_type, e.id))
            },
        forall|i: int|
            0 <= i < es.len() && #[trigger] repeats_key(es, i) ==> exists|k: int|
                0 <= k < duplicate_findings(es, level).len() && anchored_at(#[trigger] duplicate_findings(es, level)[k], i),
    decreases es.len(),
{
    if es.len() > 0 {
        let d = es.drop_last();
        let n = es.len() - 1;
        let rest = duplicate_findings(d, level);
        let all = duplicate_findings(es, level);
        law_duplicates(d, level);
        assert forall|i: int| 0 <= i < n && repeats_key(d, i) implies repeats_key(es, i) by {
            let j = choose|j: int| 0 <= j < i && #[trigger] entry_key(d[j]) == entry_key(d[i]);
            assert(es[j] == d[j]);
            assert(es[i] == d[i]);
        }
        assert forall|i: int| 0 <= i < n && repeats_key(es, i) implies repeats_key(d, i) by {
            let j = choose|j: int| 0 <= j < i && #[trigger] entry_key(es[j]) == entry_key(es[i]);
            assert(es[j] == d[j]);
            assert(es[i] == d[i]);
        }
        match entry_key(es.last()) {
            Some(key) => lemma_keys_contains(d, key),
            None => {},
        }
        assert(all.len() >= rest.len());
        assert forall|k: int| 0 <= k < rest.len() implies #[trigger] all[k] == rest[k] by {}
        assert forall|k: int|
            0 <= k < all.len() implies {
                let f = #[trigger] all[k];
                &&& f.code == "W202"@
                &&& f.severity == severity_for_duplicate(level)
                &&& f.entry matches Some(e) && 0 <= e.index < es.len() && repeats_key(es, e.index as int)
                    && entry_key(es[e.index as int]) == Some((e.resource_type, e.id))
            } by {
            if k < rest.len() {
                let f = rest[k];
                let e = f.entry->Some_0;
                assert(es[e.index as int] == d[e.index as int]);
            } else {
                let key = entry_key(es.last())->Some_0;
                let j = choose|j: int| 0 <= j < d.len() && #[trigger] entry_key(d[j]) == Some(key);
                assert(es[j] == d[j]);
                assert(entry_key(es[n]) == Some(key));
            }
        }
        assert forall|i: int|
            0 <= i < es.len() && #[trigger] repeats_key(es, i) implies exists|k: int|
                0 <= k < all.len() && anchored_at(#[trigger] all[k], i) by {
            if i < n {
                assert(repeats_key(d, i));
                let k = choose|k: int| 0 <= k < rest.len() && anchored_at(#[trigger] rest[k], i);
                assert(all[k] == rest[k]);
            } else {
                let key = entry_key(es[i])->Some_0;
                let j = choose|j: int| 0 <= j < i && #[trigger] entry_key(es[j]) == entry_key(es[i]);
                assert(d[j] == es[j]);
                assert(keys(d).contains(key));
                assert(anchored_at(all[rest.len() as int], i));
            }
        }
    }
}

/// One reference occurrence met by the walk.
pub struct Site {
    pub holder: EntryRefView,
    /// Index of the rule in `rule_table()`.
    pub rule: int,
    pub ref_type: Seq<char>,
    pub ref_id: Seq<char>,
    pub path: Seq<char>,
    pub raw: Seq<char>,
}

/// `"/entry/<i>/<field>"`
pub open spec fn field_path(i: nat, field: Seq<char>) -> Seq<char> {
    entry_path(i) + "/"@ + field
}

/// The site of item `j` of an array-shaped field, when it holds a typed reference.
pub open spec fn item_sites(item: JsonView, j: nat, h: EntryRefView, ri: int, field: Seq<char>) -> Seq<Site> {
    match item.field_text("ref"@) {
        Some(s) => match split_slash(s) {
            Some((t, id)) => seq![
                Site {
                    holder: h,
                    rule: ri,
                    ref_type: t,
                    ref_id: id,
                    path: field_path(h.index, field) + "/"@ + decimal(j) + "/ref"@,
                    raw: s,
                },
            ],
            None => Seq::empty(),
        },
        None => Seq::empty(),
    }
}

/// The sites of the first items of an array-shaped field.
pub open spec fn array_sites(items: Seq<JsonView>, h: EntryRefView, ri: int, field: Seq<char>) -> Seq<Site>
    decreases items.len(),
{
    if items.len() == 0 {
        Seq::empty()
    } else {
        array_sites(items.drop_last(), h, ri, field) + item_sites(
            items.last(),
            (items.len() - 1) as nat,
            h,
            ri,
            field,
        )
    }
}

/// The sites that rule `ri` finds in entry `e` (anchored as `h`).
pub open spec fn rule_sites(e: JsonView, h: EntryRefView, ri: int) -> Seq<Site> {
    let rule = rule_table()[ri];
    if h.resource_type != rule.rt {
        Seq::empty()
    } else {
        match e.field(rule.field) {
            None => Seq::empty(),
            Some(v) => match rule.shape {
                RefShape::ObjectSingle => match v.field_text("ref"@) {
                    Some(s) => match split_slash(s) {
                        Some((t, id)) => seq![
                            Site {
                                holder: h,
                                rule: ri,
                                ref_type: t,
                                ref_id: id,
                                path: field_path(h.index, rule.field) + "/ref"@,
                                raw: s,
                            },
                        ],
                        None => Seq::empty(),
                    },
                    None => Seq::empty(),
                },
                RefShape::ObjectArray => match v.items() {
                    Some(items) => array_sites(items, h, ri, rule.field),
                    None => Seq::empty(),
                },
                RefShape::BareId => match v.text() {
                    Some(s) => seq![
                        Site {
                            holder: h,
                            rule: ri,
                            ref_type: rule.targets[0],
                            ref_id: s,
                            path: field_path(h.index, rule.field),
                            raw: s,
                        },
                    ],
                    None => Seq::empty(),
                },
            },
        }
    }
}

/// The sites of entry `e` under the first `n` rules.
pub open spec fn entry_sites(e: JsonView, h: EntryRefView, n: nat) -> Seq<Site>
    decreases n,
{
    if n == 0 {
        Seq::empty()
    } else {
        entry_sites(e, h, (n - 1) as nat) + rule_sites(e, h, n - 1)
    }
}

/// Every reference site of the entries, in walk order.
pub open spec fn all_sites(es: Seq<JsonView>) -> Seq<Site>
    decreases es.len(),
{
    if es.len() == 0 {
        Seq::empty()
    } else {
        let i = (es.len() - 1) as nat;
        all_sites(es.drop_last()) + entry_sites(es.last(), holder(es.last(), i), 6)
    }
}

/// The ids indexed under type `t`, in entry order.
pub open spec fn ids_of(ks: Seq<(Seq<char>, Seq<char>)>, t: Seq<char>) -> Seq<Seq<char>>
    decreases ks.len(),
{
    if ks.len() == 0 {
        Seq::empty()
    } else if ks.last().0 == t {
        ids_of(ks.drop_last(), t).push(ks.last().1)
    } else {
        ids_of(ks.drop_last(), t)
    }
}

pub open spec fn max_nat(a: nat, b: nat) -> nat {
    if a >= b { a } else { b }
}

/// `id` is a plausible typo for `target`: at edit distance 1 or 2, and closer
/// than the longer byte length.
pub open spec fn near(id: Seq<char>, target: Seq<char>) -> bool {
    let d = edit_distance(id, target);
    &&& 0 < d <= 2
    &&& d < max_nat(
        (vstd::utf8::encode_utf8(id).len() as usize) as nat,
        (vstd::utf8::encode_utf8(target).len() as usize) as nat,
    )
}

/// The first of the nearest plausible ids, if any.
pub open spec fn closest(ids: Seq<Seq<char>>, target: Seq<char>) -> Option<Seq<char>>
    decreases ids.len(),
{
    if ids.len() == 0 {
        None
    } else {
        let before = closest(ids.drop_last(), target);
        let x = ids.last();
        if !near(x, target) {
            before
        } else {
            match before {
                None => Some(x),
                Some(y) => if edit_distance(x, target) < edit_distance(y, target) {
                    Some(x)
                } else {
                    Some(y)
                },
            }
        }
    }
}

pub open spec fn expected_text(targets: Seq<Seq<char>>) -> Seq<char> {
    if targets.len() == 1 {
        "a "@ + targets[0]
    } else {
        "one of "@ + join(targets, ", "@)
    }
}

pub open spec fn hint(ks: Seq<(Seq<char>, Seq<char>)>, expected: Seq<char>, id: Seq<char>) -> Seq<char> {
    match closest(ids_of(ks, expected), id) {
        Some(s) => " Did you mean '"@ + expected + "/"@ + s + "'?"@,
        None => Seq::empty(),
    }
}

/// What resolving one site yields: nothing, a type mismatch, or a dangling reference.
pub open spec fn site_findings(ks: Seq<(Seq<char>, Seq<char>)>, s: Site) -> Seq<FindingView> {
    let targets = rule_table()[s.rule].targets;
    if ks.contains((s.ref_type, s.ref_id)) {
        if targets.contains(s.ref_type) {
            Seq::empty()
        } else {
            seq![
                FindingView {
                    code: "E201"@,
                    severity: Severity::Error,
                    check: Check::ReferenceIntegrity,
                    entry: Some(s.holder),
                    path: s.path,
                    value: Some(s.raw),
                    message: "Type mismatch: reference resolves to a "@ + s.ref_type + ", but "@
                        + expected_text(targets) + " is required here."@,
                    breaks_core: true,
                },
            ]
        }
    } else {
        seq![
            FindingView {
                code: "E200"@,
                severity: Severity::Error,
                check: Check::ReferenceIntegrity,
                entry: Some(s.holder),
                path: s.path,
                value: Some(s.raw),
                message: "Dangling reference: '"@ + s.ref_type + "/"@ + s.ref_id
                    + "' does not resolve to any entry in the Bundle."@ + hint(ks, targets[0], s.ref_id),
                breaks_core: true,
            },
        ]
    }
}

pub open spec fn resolves(ks: Seq<(Seq<char>, Seq<char>)>, s: Site) -> bool {
    ks.contains((s.ref_type, s.ref_id)) && rule_table()[s.rule].targets.contains(s.ref_type)
}

/// The findings of resolving the sites in turn.
pub open spec fn sites_findings(ks: Seq<(Seq<char>, Seq<char>)>, sites: Seq<Site>) -> Seq<FindingView>
    decreases sites.len(),
{
    if sites.len() == 0 {
        Seq::empty()
    } else {
        sites_findings(ks, sites.drop_last()) + site_findings(ks, sites.last())
    }
}

/// How many of the sites resolve.
pub open spec fn resolved_count(ks: Seq<(Seq<char>, Seq<char>)>, sites: Seq<Site>) -> nat
    decreases sites.len(),
{
    if sites.len() == 0 {
        0
    } else {
        resolved_count(ks, sites.drop_last()) + if resolves(ks, sites.last()) { 1nat } else { 0nat }
    }
}

/// The reference-integrity findings: duplicate ids, then each reference site
/// that does not resolve, in walk order.
pub open spec fn reference_findings(es: Seq<JsonView>, level: Level) -> Seq<FindingView> {
    duplicate_findings(es, level) + sites_findings(keys(es), all_sites(es))
}

/// References walked.
pub open spec fn references_total(es: Seq<JsonView>) -> nat {
    all_sites(es).len()
}

/// References that resolve to an entry of an admitted type.
pub open spec fn references_resolved(es: Seq<JsonView>) -> nat {
    resolved_count(keys(es), all_sites(es))
}

/// Every R1 rule admits exactly one target type.
pub proof fn lemma_rule_table()
    ensures
        rule_table().len() == 6,
        forall|i: int| 0 <= i < 6 ==> #[trigger] rule_table()[i].targets.len() == 1,
{
    let t = rule_table();
    assert(t[0].targets.len() == 1);
    assert(t[1].targets.len() == 1);
    assert(t[2].targets.len() == 1);
    assert(t[3].targets.len() == 1);
    assert(t[4].targets.len() == 1);
    assert(t[5].targets.len() == 1);
}

proof fn lemma_array_sites_rule(items: Seq<JsonView>, h: EntryRefView, ri: int, field: Seq<char>)
    ensures
        forall|k: int| 0 <= k < array_sites(items, h, ri, field).len() ==> #[trigger] array_sites(items, h, ri, field)[k].rule == ri,
    decreases items.len(),
{
    if items.len() > 0 {
        lemma_array_sites_rule(items.drop_last(), h, ri, field);
        let a = array_sites(items.drop_last(), h, ri, field);
        let b = item_sites(items.last(), (items.len() - 1) as nat, h, ri, field);
        assert forall|k: int| 0 <= k < (a + b).len() implies #[trigger] (a + b)[k].rule == ri by {
            if k >= a.len() {
                assert((a + b)[k] == b[k - a.len()]);
            } else {
                assert((a + b)[k] == a[k]);
            }
        }
    }
}

proof fn lemma_entry_sites_rule(e: JsonView, h: EntryRefView, n: nat)
    requires
        n <= 6,
    ensures
        forall|k: int| 0 <= k < entry_sites(e, h, n).len() ==> 0 <= #[trigger] entry_sites(e, h, n)[k].rule < 6,
    decreases n,
{
    if n > 0 {
        lemma_entry_sites_rule(e, h, (n - 1) as nat);
        let a = entry_sites(e, h, (n - 1) as nat);
        let b = rule_sites(e, h, n - 1);
        let rule = rule_table()[n - 1];
        if h.resource_type == rule.rt {
            if let Some(v) = e.field(rule.field) {
                if let Some(items) = v.items() {
                    lemma_array_sites_rule(items, h, n - 1, rule.field);
                }
            }
        }
        assert forall|k: int| 0 <= k < (a + b).len() implies 0 <= #[trigger] (a + b)[k].rule < 6 by {
            if k >= a.len() {
                assert((a + b)[k] == b[k - a.len()]);
                assert(b[k - a.len()].rule == n - 1);
            } else {
                assert((a + b)[k] == a[k]);
            }
        }
    }
}

/// Every site names one of the rules.
proof fn lemma_all_sites_rule(es: Seq<JsonView>)
    ensures
        forall|k: int| 0 <= k < all_sites(es).len() ==> 0 <= #[trigger] all_sites(es)[k].rule < 6,
    decreases es.len(),
{
    if es.len() > 0 {
        lemma_all_sites_rule(es.drop_last());
        let i = (es.len() - 1) as nat;
        lemma_entry_sites_rule(es.last(), holder(es.last(), i), 6);
        let a = all_sites(es.drop_last());
        let b = entry_sites(es.last(), holder(es.last(), i), 6);
        assert forall|k: int| 0 <= k < (a + b).len() implies 0 <= #[trigger] (a + b)[k].rule < 6 by {
            if k >= a.len() {
                assert((a + b)[k] == b[k - a.len()]);
            } else {
                assert((a + b)[k] == a[k]);
            }
        }
    }
}

fn rule(rt: &'static str, field: &'static str, shape: RefShape, target: &'static str) -> (r: RefRule)
    ensures
        r@ == (RuleView { rt: rt@, field: field@, shape, targets: seq![target@] }),
{
    let mut targets: Vec<&'static str> = Vec::new();
    targets.push(target);
    let r = RefRule { rt, field, shape, targets };
    assert(r@.targets =~= seq![target@]);
    r
}

/// The R1 reference rules.
pub fn ref_rules() -> (r: Vec<RefRule>)
    ensures
        r@.map_values(|x: RefRule| x@) == rule_table(),
{
    let mut v: Vec<RefRule> = Vec::new();
    v.push(rule("MemoryRecord", "entityRefs", RefShape::ObjectArray, "Entity"));
    v.push(rule("MemoryRecord", "parentId", RefShape::BareId, "MemoryRecord"));
    v.push(rule("Episode", "entityRefs", RefShape::ObjectArray, "Entity"));
    v.push(rule("Relationship", "from", RefShape::ObjectSingle, "Entity"));
    v.push(rule("Relationship", "to", RefShape::ObjectSingle, "Entity"));
    v.push(rule("Relationship", "sourceEpisode", RefShape::ObjectSingle, "Episode"));
    assert(v@.map_values(|x: RefRule| x@) =~= rule_table());
    v
}

/// The key under which `e` is indexed, when it is.
fn key_of(e: &Json) -> (r: Option<(String, String)>)
    ensures
        match r {
            Some(k) => entry_key(e@) == Some((k.0@, k.1@)),
            None => entry_key(e@) is None,
        },
{
    match (e.get_str("resourceType"), e.get_str("id")) {
        (Some(t), Some(id)) => {
            if crate::report::is_listed(RESOURCE_TYPES.as_slice(), t) {
                Some((t.to_owned(), id.to_owned()))
            } else {
                None
            }
        },
        _ => None,
    }
}

pub open spec fn keys_view(ks: Seq<(String, String)>) -> Seq<(Seq<char>, Seq<char>)> {
    ks.map_values(|k: (String, String)| (k.0@, k.1@))
}

/// Whether `(t, id)` is among the keys.
fn has_key(ks: &Vec<(String, String)>, t: &str, id: &str) -> (r: bool)
    ensures
        r == keys_view(ks@).contains((t@, id@)),
{
    let ghost kv = keys_view(ks@);
    let mut i: usize = 0;
    while i < ks.len()
        invariant
            i <= ks@.len(),
            kv == keys_view(ks@),
            forall|j: int| 0 <= j < i ==> kv[j] != (t@, id@),
        decreases ks@.len() - i,
    {
        if str_eq(ks[i].0.as_str(), t) && str_eq(ks[i].1.as_str(), id) {
            assert(kv[i as int] == (t@, id@));
            return true;
        }
        i = i + 1;
    }
    false
}

/// The entry anchor for entry `i`.
pub(crate) fn holder_of(e: &Json, i: usize) -> (r: EntryRef)
    ensures
        r@ == holder(e@, i as nat),
{
    let rt = match e.get_str("resourceType") {
        Some(s) => s.to_owned(),
        None => String::new(),
    };
    let id = match e.get_str("id") {
        Some(s) => s.to_owned(),
        None => String::new(),
    };
    EntryRef { index: i, resource_type: rt, id }
}

/// Builds the W202 finding.
fn duplicate_finding_of(i: usize, t: &str, id: &str, level: Level) -> (r: Finding)
    ensures
        r@ == duplicate_finding(i as nat, (t@, id@), level),
{
    let severity = if level == Level::Strict { Severity::Error } else { Severity::Warning };
    let mut path = crate::text::entry_path_string(i);
    path.append("/id");
    let mut message = "Duplicate id: more than one ".to_owned();
    message.append(t);
    message.append(" shares id \"");
    message.append(id);
    message.append("\"; references to it are ambiguous.");
    let r = Finding {
        code: "W202",
        severity,
        check: Check::ReferenceIntegrity,
        entry: Some(EntryRef { index: i, resource_type: t.to_owned(), id: id.to_owned() }),
        path,
        value: Some(id.to_owned()),
        message,
        breaks_core: false,
    };
    assert(r@.message =~= duplicate_finding(i as nat, (t@, id@), level).message);
    assert(r@.path =~= duplicate_finding(i as nat, (t@, id@), level).path);
    r
}

/// Index the entries by key, reporting each repeated key.
fn index_entries(entries: &[Json], level: Level, findings: &mut Vec<Finding>) -> (ks: Vec<(String, String)>)
    ensures
        keys_view(ks@) == keys(items_view(entries@)),
        finding_views(final(findings)@) == finding_views(old(findings)@) + duplicate_findings(
            items_view(entries@),
            level,
        ),
{
    let ghost es = items_view(entries@);
    let ghost start = finding_views(findings@);
    proof {
        lemma_items_view(entries@);
    }
    let mut ks: Vec<(String, String)> = Vec::new();
    let mut i: usize = 0;
    assert(es.take(0) =~= Seq::<JsonView>::empty());
    assert(start + duplicate_findings(es.take(0), level) =~= start);
    while i < entries.len()
        invariant
            i <= entries@.len(),
            es == items_view(entries@),
            es.len() == entries@.len(),
            forall|k: int| 0 <= k < entries@.len() ==> #[trigger] es[k] == entries@[k]@,
            keys_view(ks@) == keys(es.take(i as int)),
            finding_views(findings@) == start + duplicate_findings(es.take(i as int), level),
        decreases entries@.len() - i,
    {
        let ghost before = es.take(i as int);
        let ghost after = es.take(i + 1);
        assert(after.drop_last() =~= before);
        assert(after.last() == entries@[i as int]@);
        let ghost fv = finding_views(findings@);
        match key_of(&entries[i]) {
            Some(k) => {
                if has_key(&ks, k.0.as_str(), k.1.as_str()) {
                    let f = duplicate_finding_of(i, k.0.as_str(), k.1.as_str(), level);
                    findings.push(f);
                    assert(finding_views(findings@) =~= fv.push(f@));
                }
                let ghost kv = keys_view(ks@);
                ks.push(k);
                assert(keys_view(ks@) =~= kv.push((k.0@, k.1@)));
            },
            None => {},
        }
        i = i + 1;
    }
    assert(es.take(entries@.len() as int) =~= es);
    ks
}

/// One reference occurrence met by the walk.
pub struct SiteRec {
    pub holder: EntryRef,
    pub rule: usize,
    pub ref_type: String,
    pub ref_id: String,
    pub path: String,
    pub raw: String,
}

impl View for SiteRec {
    type V = Site;

    open spec fn view(&self) -> Site {
        Site {
            holder: self.holder@,
            rule: self.rule as int,
            ref_type: self.ref_type@,
            ref_id: self.ref_id@,
            path: self.path@,
            raw: self.raw@,
        }
    }
}

pub open spec fn sites_view(ss: Seq<SiteRec>) -> Seq<Site> {
    ss.map_values(|x: SiteRec| x@)
}

/// Records the sites of the items of an array-shaped field.
fn push_array_sites(sites: &mut Vec<SiteRec>, e: &Json, i: usize, ri: usize, field: &str, items: &Vec<Json>)
    ensures
        sites_view(final(sites)@) == sites_view(old(sites)@) + array_sites(
            items_view(items@),
            holder(e@, i as nat),
            ri as int,
            field@,
        ),
{
    let ghost h = holder(e@, i as nat);
    let ghost iv = items_view(items@);
    let ghost start = sites_view(sites@);
    proof {
        lemma_items_view(items@);
    }
    let mut j: usize = 0;
    assert(iv.take(0) =~= Seq::<JsonView>::empty());
    assert(start + array_sites(iv.take(0), h, ri as int, field@) =~= start);
    while j < items.len()
        invariant
            j <= items@.len(),
            iv == items_view(items@),
            iv.len() == items@.len(),
            forall|k: int| 0 <= k < items@.len() ==> #[trigger] iv[k] == items@[k]@,
            h == holder(e@, i as nat),
            sites_view(sites@) == start + array_sites(iv.take(j as int), h, ri as int, field@),
        decreases items@.len() - j,
    {
        let ghost before = iv.take(j as int);
        let ghost after = iv.take(j + 1);
        assert(after.drop_last() =~= before);
        assert(after.last() == items@[j as int]@);
        let ghost sv = sites_view(sites@);
        match items[j].get_str("ref") {
            Some(s) => match split_once_slash(s) {
                Some((t, id)) => {
                    let mut path = crate::text::entry_path_string(i);
                    path.append("/");
                    path.append(field);
                    path.append("/");
                    push_decimal(&mut path, j);
                    path.append("/ref");
                    let rec = SiteRec {
                        holder: holder_of(e, i),
                        rule: ri,
                        ref_type: t.to_owned(),
                        ref_id: id.to_owned(),
                        path,
                        raw: s.to_owned(),
                    };
                    sites.push(rec);
                    assert(rec@.path =~= field_path(i as nat, field@) + "/"@ + decimal(j as nat) + "/ref"@);
                    assert(sites_view(sites@) =~= sv + item_sites(items@[j as int]@, j as nat, h, ri as int, field@));
                },
                None => {
                    assert(item_sites(items@[j as int]@, j as nat, h, ri as int, field@) =~= Seq::<Site>::empty());
                },
            },
            None => {
                assert(item_sites(items@[j as int]@, j as nat, h, ri as int, field@) =~= Seq::<Site>::empty());
            },
        }
        j = j + 1;
    }
    assert(iv.take(items@.len() as int) =~= iv);
}

/// Records the sites that rule `ri` finds in entry `i`.
fn push_rule_sites(sites: &mut Vec<SiteRec>, e: &Json, i: usize, ri: usize, rule: &RefRule)
    requires
        ri < 6,
        rule@ == rule_table()[ri as int],
    ensures
        sites_view(final(sites)@) == sites_view(old(sites)@) + rule_sites(e@, holder(e@, i as nat), ri as int),
{
    let ghost h = holder(e@, i as nat);
    let ghost start = sites_view(sites@);
    assert(start + Seq::<Site>::empty() =~= start);
    let self_rt: &str = match e.get_str("resourceType") {
        Some(s) => s,
        None => {
            proof {
                reveal_strlit("");
            }
            ""
        },
    };
    assert(self_rt@ == h.resource_type);
    if !str_eq(self_rt, rule.rt) {
        return;
    }
    match e.get(rule.field) {
        None => {},
        Some(v) => match rule.shape {
            RefShape::ObjectSingle => {
                match v.get_str("ref") {
                    Some(s) => match split_once_slash(s) {
                        Some((t, id)) => {
                            let mut path = crate::text::entry_path_string(i);
                            path.append("/");
                            path.append(rule.field);
                            path.append("/ref");
                            let rec = SiteRec {
                                holder: holder_of(e, i),
                                rule: ri,
                                ref_type: t.to_owned(),
                                ref_id: id.to_owned(),
                                path,
                                raw: s.to_owned(),
                            };
                            sites.push(rec);
                            assert(rec@.path =~= field_path(i as nat, rule@.field) + "/ref"@);
                            assert(sites_view(sites@) =~= start + rule_sites(e@, h, ri as int));
                        },
                        None => {},
                    },
                    None => {},
                }
            },
            RefShape::ObjectArray => {
                match v.as_array() {
                    Some(items) => {
                        push_array_sites(sites, e, i, ri, rule.field, items);
                    },
                    None => {},
                }
            },
            RefShape::BareId => {
                match v.as_str() {
                    Some(s) => {
                        let path0 = crate::text::entry_path_string(i);
                        let mut path = path0;
                        path.append("/");
                        path.append(rule.field);
                        proof {
                            lemma_rule_table();
                            assert(rule@.targets.len() == rule.targets@.len());
                        }
                        assert(rule.targets@.len() == 1);
                        let rec = SiteRec {
                            holder: holder_of(e, i),
                            rule: ri,
                            ref_type: rule.targets[0].to_owned(),
                            ref_id: s.to_owned(),
                            path,
                            raw: s.to_owned(),
                        };
                        sites.push(rec);
                        assert(rec@.path =~= field_path(i as nat, rule@.field));
                        assert(rec@.ref_type == rule@.targets[0]);
                        assert(sites_view(sites@) =~= start + rule_sites(e@, h, ri as int));
                    },
                    None => {},
                }
            },
        },
    }
}

/// Records every reference site of the entries, in walk order.
fn collect_sites(entries: &[Json], rules: &Vec<RefRule>) -> (r: Vec<SiteRec>)
    requires
        rules@.map_values(|x: RefRule| x@) == rule_table(),
    ensures
        sites_view(r@) == all_sites(items_view(entries@)),
{
    let ghost es = items_view(entries@);
    proof {
        lemma_items_view(entries@);
    }
    let mut sites: Vec<SiteRec> = Vec::new();
    let mut i: usize = 0;
    assert(rule_table().len() == 6);
    assert(rules@.map_values(|x: RefRule| x@).len() == rules@.len());
    assert(es.take(0) =~= Seq::<JsonView>::empty());
    assert(sites_view(sites@) =~= Seq::<Site>::empty());
    while i < entries.len()
        invariant
            i <= entries@.len(),
            es == items_view(entries@),
            es.len() == entries@.len(),
            forall|k: int| 0 <= k < entries@.len() ==> #[trigger] es[k] == entries@[k]@,
            rules@.map_values(|x: RefRule| x@) == rule_table(),
            rules@.len() == 6,
            sites_view(sites@) == all_sites(es.take(i as int)),
        decreases entries@.len() - i,
    {
        let ghost before = es.take(i as int);
        let ghost after = es.take(i + 1);
        assert(after.drop_last() =~= before);
        assert(after.last() == entries@[i as int]@);
        let ghost h = holder(entries@[i as int]@, i as nat);
        let mut ri: usize = 0;
        assert(all_sites(before) + entry_sites(entries@[i as int]@, h, 0) =~= all_sites(before));
        while ri < 6
            invariant
                i < entries@.len(),
                ri <= 6,
                h == holder(entries@[i as int]@, i as nat),
                rules@.map_values(|x: RefRule| x@) == rule_table(),
                rules@.len() == 6,
                sites_view(sites@) == all_sites(before) + entry_sites(entries@[i as int]@, h, ri as nat),
            decreases 6 - ri,
        {
            assert(rules@.map_values(|x: RefRule| x@)[ri as int] == rules@[ri as int]@);
            let ghost sv = sites_view(sites@);
            push_rule_sites(&mut sites, &entries[i], i, ri, &rules[ri]);
            assert(sv + rule_sites(entries@[i as int]@, h, ri as int) =~= all_sites(before) + entry_sites(
                entries@[i as int]@,
                h,
                (ri + 1) as nat,
            ));
            ri = ri + 1;
        }
        i = i + 1;
    }
    assert(es.take(entries@.len() as int) =~= es);
    sites
}

/// The first of the nearest plausible ids indexed under `expected`.
fn suggest(ks: &Vec<(String, String)>, expected: &str, target: &str) -> (r: Option<String>)
    ensures
        crate::report::text_view(r) == closest(ids_of(keys_view(ks@), expected@), target@),
{
    let ghost kv = keys_view(ks@);
    let mut best: Option<String> = None;
    let mut best_d: usize = 0;
    let mut n: usize = 0;
    assert(kv.take(0) =~= Seq::<(Seq<char>, Seq<char>)>::empty());
    while n < ks.len()
        invariant
            n <= ks@.len(),
            kv == keys_view(ks@),
            kv.len() == ks@.len(),
            crate::report::text_view(best) == closest(ids_of(kv.take(n as int), expected@), target@),
            best matches Some(b) ==> best_d == edit_distance(b@, target@),
        decreases ks@.len() - n,
    {
        let ghost before = kv.take(n as int);
        let ghost after = kv.take(n + 1);
        assert(after.drop_last() =~= before);
        assert(after.last() == kv[n as int]);
        if str_eq(ks[n].0.as_str(), expected) {
            let id = &ks[n].1;
            let d = levenshtein(id.as_str(), target);
            let id_len = id.as_str().len();
            let target_len = target.len();
            let longer = if id_len >= target_len { id_len } else { target_len };
            let ghost ids = ids_of(after, expected@);
            assert(ids == ids_of(before, expected@).push(id@));
            assert(ids.drop_last() =~= ids_of(before, expected@));
            if 0 < d && d <= 2 && d < longer {
                let better = match &best {
                    None => true,
                    Some(_) => d < best_d,
                };
                if better {
                    best = Some(id.clone());
                    best_d = d;
                }
            }
        }
        n = n + 1;
    }
    assert(kv.take(ks@.len() as int) =~= kv);
    best
}

/// `items` joined with `sep`.
fn join_strs(items: &Vec<&str>, sep: &str) -> (r: String)
    ensures
        r@ == join(items@.map_values(|t: &str| t@), sep@),
{
    let ghost iv = items@.map_values(|t: &str| t@);
    let mut out = String::new();
    let mut i: usize = 0;
    assert(iv.take(0) =~= Seq::<Seq<char>>::empty());
    while i < items.len()
        invariant
            i <= items@.len(),
            iv == items@.map_values(|t: &str| t@),
            out@ == join(iv.take(i as int), sep@),
        decreases items@.len() - i,
    {
        let ghost after = iv.take(i + 1);
        assert(after.drop_last() =~= iv.take(i as int));
        if i > 0 {
            out.append(sep);
        } else {
            assert(out@ =~= Seq::<char>::empty());
        }
        out.append(items[i]);
        assert(after.last() == items@[i as int]@);
        if i == 0 {
            assert(after.len() == 1);
            assert(out@ =~= after[0]);
        }
        i = i + 1;
    }
    assert(iv.take(items@.len() as int) =~= iv);
    out
}

/// "a X" for one admitted type, "one of X, Y" for several.
fn expected_string(targets: &Vec<&str>) -> (r: String)
    ensures
        r@ == expected_text(targets@.map_values(|t: &str| t@)),
{
    if targets.len() == 1 {
        let mut s = "a ".to_owned();
        s.append(targets[0]);
        s
    } else {
        let mut s = "one of ".to_owned();
        let j = join_strs(targets, ", ");
        s.append(j.as_str());
        s
    }
}

/// Resolves one site against the index: `None` when it resolves to an entry
/// of an admitted type, else the mismatch or dangling-reference finding.
fn resolve(ks: &Vec<(String, String)>, site: &SiteRec, rules: &Vec<RefRule>) -> (r: Option<Finding>)
    requires
        rules@.map_values(|x: RefRule| x@) == rule_table(),
        0 <= site.rule < 6,
    ensures
        match r {
            Some(f) => site_findings(keys_view(ks@), site@) == seq![f@],
            None => site_findings(keys_view(ks@), site@) == Seq::<FindingView>::empty(),
        },
        r is None <==> resolves(keys_view(ks@), site@),
{
    proof {
        lemma_rule_table();
    }
    let rule = &rules[site.rule];
    assert(rules@.map_values(|x: RefRule| x@)[site.rule as int] == rules@[site.rule as int]@);
    let ghost targets = rule@.targets;
    assert(targets.len() == rule.targets@.len());
    let exists = has_key(ks, site.ref_type.as_str(), site.ref_id.as_str());
    if exists {
        if crate::report::is_listed(rule.targets.as_slice(), site.ref_type.as_str()) {
            proof {
                assert(targets.contains(site@.ref_type) == crate::report::listed(rule.targets@, site@.ref_type)) by {
                    if targets.contains(site@.ref_type) {
                        let k = choose|k: int| 0 <= k < targets.len() && targets[k] == site@.ref_type;
                        assert(rule.targets@[k]@ == site@.ref_type);
                    }
                    if crate::report::listed(rule.targets@, site@.ref_type) {
                        let k = choose|k: int| 0 <= k < rule.targets@.len() && #[trigger] rule.targets@[k]@ == site@.ref_type;
                        assert(targets[k] == site@.ref_type);
                    }
                }
            }
            None
        } else {
            proof {
                if targets.contains(site@.ref_type) {
                    let k = choose|k: int| 0 <= k < targets.len() && targets[k] == site@.ref_type;
                    assert(rule.targets@[k]@ == site@.ref_type);
                }
            }
            let mut message = "Type mismatch: reference resolves to a ".to_owned();
            message.append(site.ref_type.as_str());
            message.append(", but ");
            let expected = expected_string(&rule.targets);
            message.append(expected.as_str());
            message.append(" is required here.");
            let f = Finding {
                code: "E201",
                severity: Severity::Error,
                check: Check::ReferenceIntegrity,
                entry: Some(copy_entry(&site.holder)),
                path: site.path.clone(),
                value: Some(site.raw.clone()),
                message,
                breaks_core: true,
            };
            assert(f@.message =~= site_findings(keys_view(ks@), site@)[0].message);
            assert(seq![f@] =~= site_findings(keys_view(ks@), site@));
            Some(f)
        }
    } else {
        let expected = rule.targets[0];
        let hint_text = match suggest(ks, expected, site.ref_id.as_str()) {
            Some(s) => {
                let mut h = " Did you mean '".to_owned();
                h.append(expected);
                h.append("/");
                h.append(s.as_str());
                h.append("'?");
                h
            },
            None => String::new(),
        };
        assert(hint_text@ =~= hint(keys_view(ks@), targets[0], site@.ref_id));
        let mut message = "Dangling reference: '".to_owned();
        message.append(site.ref_type.as_str());
        message.append("/");
        message.append(site.ref_id.as_str());
        message.append("' does not resolve to any entry in the Bundle.");
        message.append(hint_text.as_str());
        let f = Finding {
            code: "E200",
            severity: Severity::Error,
            check: Check::ReferenceIntegrity,
            entry: Some(copy_entry(&site.holder)),
            path: site.path.clone(),
            value: Some(site.raw.clone()),
            message,
            breaks_core: true,
        };
        assert(f@.message =~= site_findings(keys_view(ks@), site@)[0].message);
        assert(seq![f@] =~= site_findings(keys_view(ks@), site@));
        Some(f)
    }
}

/// A copy of an entry anchor.
fn copy_entry(e: &EntryRef) -> (r: EntryRef)
    ensures
        r@ == e@,
{
    EntryRef { index: e.index, resource_type: e.resource_type.clone(), id: e.id.clone() }
}

/// Build the (resourceType, id) index, flag duplicates, then confirm every
/// typed reference resolves to an entry of an admitted type. Returns
/// (references walked, references resolved).
pub fn reference_integrity(entries: &[Json], level: Level, findings: &mut Vec<Finding>) -> (r: (usize, usize))
    ensures
        finding_views(final(findings)@) == finding_views(old(findings)@) + reference_findings(
            items_view(entries@),
            level,
        ),
        r.0 == references_total(items_view(entries@)),
        r.1 == references_resolved(items_view(entries@)),
{
    let ghost es = items_view(entries@);
    let ghost start = finding_views(findings@);
    let ks = index_entries(entries, level, findings);
    let rules = ref_rules();
    let sites = collect_sites(entries, &rules);
    let ghost kv = keys_view(ks@);
    let ghost sv = sites_view(sites@);
    let ghost mid = finding_views(findings@);
    proof {
        lemma_all_sites_rule(es);
        assert forall|k: int| 0 <= k < sites@.len() implies 0 <= #[trigger] sites@[k].rule < 6 by {
            assert(sv.len() == sites@.len());
            assert(sv[k] == sites@[k]@);
            assert(sv == all_sites(es));
            assert(all_sites(es)[k] == sv[k]);
            assert(0 <= sv[k].rule < 6);
        }
    }
    let mut resolved: usize = 0;
    let mut n: usize = 0;
    assert(sv.take(0) =~= Seq::<Site>::empty());
    assert(mid + sites_findings(kv, sv.take(0)) =~= mid);
    while n < sites.len()
        invariant
            n <= sites@.len(),
            kv == keys_view(ks@),
            sv == sites_view(sites@),
            sv.len() == sites@.len(),
            rules@.map_values(|x: RefRule| x@) == rule_table(),
            forall|k: int| 0 <= k < sites@.len() ==> 0 <= #[trigger] sites@[k].rule < 6,
            finding_views(findings@) == mid + sites_findings(kv, sv.take(n as int)),
            resolved == resolved_count(kv, sv.take(n as int)),
            resolved <= n,
        decreases sites@.len() - n,
    {
        let ghost before = sv.take(n as int);
        let ghost after = sv.take(n + 1);
        assert(after.drop_last() =~= before);
        assert(after.last() == sites@[n as int]@);
        let ghost fv = finding_views(findings@);
        match resolve(&ks, &sites[n], &rules) {
            Some(f) => {
                findings.push(f);
                assert(finding_views(findings@) =~= fv + seq![f@]);
            },
            None => {
                resolved = resolved + 1;
                assert(fv + Seq::<FindingView>::empty() =~= fv);
            },
        }
        n = n + 1;
    }
    assert(sv.take(sites@.len() as int) =~= sv);
    (sites.len(), resolved)
}

proof fn lemma_ids_of(ks: Seq<(Seq<char>, Seq<char>)>, t: Seq<char>, id: Seq<char>)
    ensures
        ids_of(ks, t).contains(id) == ks.contains((t, id)),
    decreases ks.len(),
{
    if ks.len() > 0 {
        let rest = ks.drop_last();
        let r = ids_of(rest, t);
        lemma_ids_of(rest, t, id);
        if ks.contains((t, id)) {
            let k = choose|k: int| 0 <= k < ks.len() && ks[k] == (t, id);
            if k < ks.len() - 1 {
                assert(rest[k] == (t, id));
                let j = choose|j: int| 0 <= j < r.len() && r[j] == id;
                if ks.last().0 == t {
                    assert(r.push(ks.last().1)[j] == id);
                }
            } else {
                assert(ids_of(ks, t) == r.push(id));
                assert(r.push(id)[r.len() as int] == id);
            }
        }
        if ids_of(ks, t).contains(id) {
            let j = choose|j: int| 0 <= j < ids_of(ks, t).len() && ids_of(ks, t)[j] == id;
            if ks.last().0 == t && j == r.len() {
                assert(ks[ks.len() - 1] == (t, id));
            } else {
                assert(r[j] == id);
                let k = choose|k: int| 0 <= k < rest.len() && rest[k] == (t, id);
                assert(ks[k] == (t, id));
            }
        }
    }
}

proof fn lemma_closest(ids: Seq<Seq<char>>, target: Seq<char>)
    ensures
        match closest(ids, target) {
            Some(s) => ids.contains(s) && near(s, target) && forall|id: Seq<char>|
                #[trigger] ids.contains(id) && near(id, target) ==> edit_distance(s, target) <= edit_distance(
                    id,
                    target,
                ),
            None => forall|id: Seq<char>| #[trigger] ids.contains(id) ==> !near(id, target),
        },
    decreases ids.len(),
{
    if ids.len() > 0 {
        let rest = ids.drop_last();
        lemma_closest(rest, target);
        assert forall|id: Seq<char>| #[trigger] ids.contains(id) implies rest.contains(id) || id == ids.last() by {
            let k = choose|k: int| 0 <= k < ids.len() && ids[k] == id;
            if k < ids.len() - 1 {
                assert(rest[k] == id);
            }
        }
        assert(ids.contains(ids.last())) by {
            assert(ids[ids.len() - 1] == ids.last());
        }
        assert forall|id: Seq<char>| #[trigger] rest.contains(id) implies ids.contains(id) by {
            let k = choose|k: int| 0 <= k < rest.len() && rest[k] == id;
            assert(ids[k] == id);
        }
    }
}

/// The "did you mean" hint names an entry of the expected type at edit
/// distance 1 or 2 from the dangling id, as near as any; no hint means no
/// entry of that type is that near.
pub proof fn law_suggestion(ks: Seq<(Seq<char>, Seq<char>)>, expected: Seq<char>, id: Seq<char>)
    ensures
        match closest(ids_of(ks, expected), id) {
            Some(s) => ks.contains((expected, s)) && 0 < edit_distance(s, id) <= 2 && forall|other: Seq<char>|
                #[trigger] ks.contains((expected, other)) && near(other, id) ==> edit_distance(s, id)
                    <= edit_distance(other, id),
            None => forall|other: Seq<char>| #[trigger] ks.contains((expected, other)) ==> !near(other, id),
        },
{
    lemma_closest(ids_of(ks, expected), id);
    match closest(ids_of(ks, expected), id) {
        Some(s) => {
            lemma_ids_of(ks, expected, s);
            assert forall|other: Seq<char>| #[trigger] ks.contains((expected, other)) && near(other, id) implies edit_distance(
                s,
                id,
            ) <= edit_distance(other, id) by {
                lemma_ids_of(ks, expected, other);
            }
        },
        None => {
            assert forall|other: Seq<char>| #[trigger] ks.contains((expected, other)) implies !near(other, id) by {
                lemma_ids_of(ks, expected, other);
            }
        },
    }
}

/// The reference of site `s` names an entry in the index.
pub open spec fn indexed(ks: Seq<(Seq<char>, Seq<char>)>, s: Site) -> bool {
    ks.contains((s.ref_type, s.ref_id))
}

/// The reference of site `s` names a type its rule admits.
pub open spec fn admitted(s: Site) -> bool {
    rule_table()[s.rule].targets.contains(s.ref_type)
}

/// Some finding of `x` has code `code`, the path of site `s`, and its anchor.
pub open spec fn reported(x: Seq<FindingView>, code: Seq<char>, s: Site) -> bool {
    exists|k: int| 0 <= k < x.len() && (#[trigger] x[k]).code == code && x[k].path == s.path && x[k].entry == Some(s.holder)
}

/// Some site of `sites` that does not resolve has the path of finding `f`.
pub open spec fn about_failing_site(ks: Seq<(Seq<char>, Seq<char>)>, sites: Seq<Site>, f: FindingView) -> bool {
    exists|m: int| 0 <= m < sites.len() && (#[trigger] sites[m]).path == f.path && !(indexed(ks, sites[m]) && admitted(sites[m]))
}

#[verifier::spinoff_prover]
proof fn lemma_resolved_filter(ks: Seq<(Seq<char>, Seq<char>)>, sites: Seq<Site>)
    ensures
        resolved_count(ks, sites) == sites.filter(|s: Site| indexed(ks, s) && admitted(s)).len(),
    decreases sites.len(),
{
    reveal(Seq::filter);
    if sites.len() > 0 {
        lemma_resolved_filter(ks, sites.drop_last());
    }
}

#[verifier::spinoff_prover]
proof fn lemma_failing_sites_reported(ks: Seq<(Seq<char>, Seq<char>)>, sites: Seq<Site>)
    ensures
        forall|m: int|
            0 <= m < sites.len() && indexed(ks, #[trigger] sites[m]) && !admitted(sites[m]) ==> reported(
                sites_findings(ks, sites),
                "E201"@,
                sites[m],
            ),
        forall|m: int|
            0 <= m < sites.len() && !indexed(ks, #[trigger] sites[m]) ==> reported(
                sites_findings(ks, sites),
                "E200"@,
                sites[m],
            ),
    decreases sites.len(),
{
    if sites.len() > 0 {
        let d = sites.drop_last();
        lemma_failing_sites_reported(ks, d);
        let xd = sites_findings(ks, d);
        let b = site_findings(ks, sites.last());
        let x = sites_findings(ks, sites);
        assert(x == xd + b);
        assert forall|m: int| 0 <= m < sites.len() && indexed(ks, #[trigger] sites[m]) && !admitted(sites[m]) implies reported(
            x,
            "E201"@,
            sites[m],
        ) by {
            if m < d.len() {
                assert(sites[m] == d[m]);
                assert(reported(xd, "E201"@, d[m]));
                let k = choose|k: int|
                    0 <= k < xd.len() && (#[trigger] xd[k]).code == "E201"@ && xd[k].path == d[m].path && xd[k].entry
                        == Some(d[m].holder);
                assert(x[k] == xd[k]);
            } else {
                assert(x[xd.len() as int] == b[0]);
            }
        }
        assert forall|m: int| 0 <= m < sites.len() && !indexed(ks, #[trigger] sites[m]) implies reported(
            x,
            "E200"@,
            sites[m],
        ) by {
            if m < d.len() {
                assert(sites[m] == d[m]);
                assert(reported(xd, "E200"@, d[m]));
                let k = choose|k: int|
                    0 <= k < xd.len() && (#[trigger] xd[k]).code == "E200"@ && xd[k].path == d[m].path && xd[k].entry
                        == Some(d[m].holder);
                assert(x[k] == xd[k]);
            } else {
                assert(x[xd.len() as int] == b[0]);
            }
        }
    }
}

#[verifier::spinoff_prover]
proof fn lemma_findings_from_failing_sites(ks: Seq<(Seq<char>, Seq<char>)>, sites: Seq<Site>)
    ensures
        forall|k: int|
            0 <= k < sites_findings(ks, sites).len() ==> about_failing_site(
                ks,
                sites,
                #[trigger] sites_findings(ks, sites)[k],
            ),
    decreases sites.len(),
{
    if sites.len() > 0 {
        let d = sites.drop_last();
        lemma_findings_from_failing_sites(ks, d);
        let xd = sites_findings(ks, d);
        let b = site_findings(ks, sites.last());
        let x = sites_findings(ks, sites);
        assert(x == xd + b);
        assert forall|k: int| 0 <= k < x.len() implies about_failing_site(ks, sites, #[trigger] x[k]) by {
            if k < xd.len() {
                assert(x[k] == xd[k]);
                assert(about_failing_site(ks, d, xd[k]));
                let m = choose|m: int|
                    0 <= m < d.len() && (#[trigger] d[m]).path == xd[k].path && !(indexed(ks, d[m]) && admitted(d[m]));
                assert(sites[m] == d[m]);
            } else {
                assert(x[k] == b[k - xd.len()]);
                assert(sites[sites.len() - 1] == sites.last());
            }
        }
    }
}

/// Reference resolution, per site, whatever the shape of the field: a
/// reference counts as resolved exactly when its (type, id) is indexed and
/// its type is one its rule admits; one to an indexed entry of another type
/// gives an E201, one to nothing an E200, each at the site's path and
/// anchored to its entry; and every reference finding is about a site that
/// does not resolve.
pub proof fn law_reference_resolution(es: Seq<JsonView>)
    ensures
        references_resolved(es) == all_sites(es).filter(|s: Site| indexed(keys(es), s) && admitted(s)).len(),
        forall|m: int|
            0 <= m < all_sites(es).len() && indexed(keys(es), #[trigger] all_sites(es)[m]) && !admitted(
                all_sites(es)[m],
            ) ==> reported(sites_findings(keys(es), all_sites(es)), "E201"@, all_sites(es)[m]),
        forall|m: int|
            0 <= m < all_sites(es).len() && !indexed(keys(es), #[trigger] all_sites(es)[m]) ==> reported(
                sites_findings(keys(es), all_sites(es)),
                "E200"@,
                all_sites(es)[m],
            ),
        forall|k: int|
            0 <= k < sites_findings(keys(es), all_sites(es)).len() ==> about_failing_site(
                keys(es),
                all_sites(es),
                #[trigger] sites_findings(keys(es), all_sites(es))[k],
            ),
{
    lemma_resolved_filter(keys(es), all_sites(es));
    lemma_failing_sites_reported(keys(es), all_sites(es));
    lemma_findings_from_failing_sites(keys(es), all_sites(es));
}

} // verus!
