//! The R1 JSON Schemas and their compilation and use through `jsonschema`.

use vstd::prelude::*;

use crate::embedded::{
    BUNDLE_SCHEMA, COMMON_SCHEMA, ENTITY_SCHEMA, EPISODE_SCHEMA, MEMORY_RECORD_SCHEMA,
    RELATIONSHIP_SCHEMA,
};
use crate::json::{
    assign, lemma_members_view, member, members_view, set_member, take_member, Json, JsonView,
};

verus! {

/// The four closed R1 resource types that may appear in `Bundle.entry[]`.
pub const RESOURCE_TYPES: [&'static str; 4] = ["MemoryRecord", "Entity", "Relationship", "Episode"];

/// Canonical `$id` of the shared definitions schema; relative `$ref`s in every
/// resource schema resolve against it.
pub const COMMON_ID: &'static str = "https://omir.io/spec/R1/schemas/common.schema.json";

/// `serde_json::Value`, opaque to the proofs: it only carries a document
/// between the conversions below and the `jsonschema` calls.
#[verifier::external_type_specification]
#[verifier::external_body]
pub struct ExJsonValue(serde_json::Value);

// ---------------------------------------------------------------------------
// Conversions between the library's JSON model and `serde_json::Value`.
// ---------------------------------------------------------------------------

/// Builds the `serde_json::Value` that `j` describes; a `Json::Number` whose
/// text is not a JSON number becomes null.
#[verifier::external_body]
fn to_value(j: &Json) -> serde_json::Value {
    match j {
        Json::Null => serde_json::Value::Null,
        Json::Bool(b) => serde_json::Value::Bool(*b),
        Json::Number(n) => n.parse::<serde_json::Number>().map(serde_json::Value::Number).unwrap_or(serde_json::Value::Null),
        Json::Str(s) => serde_json::Value::String(s.clone()),
        Json::Array(a) => serde_json::Value::Array(a.iter().map(to_value).collect()),
        Json::Object(m) => serde_json::Value::Object(m.iter().map(|(k, v)| (k.clone(), to_value(v))).collect()),
    }
}

/// Describes a `serde_json::Value` in the library's JSON model.
#[verifier::external_body]
fn from_value(v: &serde_json::Value) -> Json {
    match v {
        serde_json::Value::Null => Json::Null,
        serde_json::Value::Bool(b) => Json::Bool(*b),
        serde_json::Value::Number(n) => Json::Number(n.to_string()),
        serde_json::Value::String(s) => Json::Str(s.clone()),
        serde_json::Value::Array(a) => Json::Array(a.iter().map(from_value).collect()),
        serde_json::Value::Object(m) => Json::Object(m.iter().map(|(k, v)| (k.clone(), from_value(v))).collect()),
    }
}

// ---------------------------------------------------------------------------
// Names for what the outside crates compute.
// ---------------------------------------------------------------------------

/// What `serde_json::from_str` makes of a text: the value, or the message of
/// its error.
pub uninterp spec fn parsed_json(text: Seq<char>) -> Result<JsonView, Seq<char>>;

/// Whether a `jsonschema` registry refuses `common` as the shared-definitions
/// resource (at `add` or at `prepare`).
pub uninterp spec fn registry_rejects(common: JsonView) -> bool;

/// Whether `jsonschema` refuses to compile `schema`, offline, against a
/// registry holding `common`.
pub uninterp spec fn schema_rejected(common: JsonView, schema: JsonView) -> bool;

/// The violations, each as (instance path, message), that `jsonschema` reports
/// for `instance` under `schema` compiled offline against `common`, in its
/// order.
pub uninterp spec fn violations(common: JsonView, schema: JsonView, instance: JsonView) -> Seq<
    (Seq<char>, Seq<char>),
>;

/// One schema violation: where in the instance, and what.
pub struct Violation {
    pub path: String,
    pub message: String,
}

pub open spec fn violation_views(vs: Seq<Violation>) -> Seq<(Seq<char>, Seq<char>)> {
    vs.map_values(|v: Violation| (v.path@, v.message@))
}

/// Parses JSON text with `serde_json::from_str`; the contract claims that the
/// result is the named `parsed_json` of the text.
#[verifier::external_body]
fn parse_json(text: &str) -> (r: Result<Json, String>)
    ensures
        match r {
            Ok(j) => parsed_json(text@) == Ok::<JsonView, Seq<char>>(j@),
            Err(e) => parsed_json(text@) == Err::<JsonView, Seq<char>>(e@),
        },
{
    match serde_json::from_str::<serde_json::Value>(text) {
        Ok(v) => Ok(from_value(&v)),
        Err(e) => Err(e.to_string()),
    }
}

/// Parses the text of a `.omir` document.
pub fn parse_document(text: &str) -> (r: Result<Json, String>)
    ensures
        match r {
            Ok(j) => parsed_json(text@) == Ok::<JsonView, Seq<char>>(j@),
            Err(e) => parsed_json(text@) == Err::<JsonView, Seq<char>>(e@),
        },
{
    parse_json(text)
}

/// The step at which a registry refused the shared definitions.
pub enum RegistryStep {
    Add,
    Prepare,
}

/// Registers `common` with `jsonschema::Registry` under `COMMON_ID` (`add`,
/// then `prepare`, whose default retriever fetches nothing). The contract
/// claims only whether that fails, as the named `registry_rejects`; the step
/// (though `add` cannot fail on the constant URI) and the error text are left
/// unsaid (the text of a `prepare`
/// failure names whichever unretrievable reference the registry met first,
/// in an order that varies between runs).
#[verifier::external_body]
fn check_registry(common: &Json) -> (r: Option<(RegistryStep, String)>)
    ensures
        r is Some <==> registry_rejects(common@),
{
    match jsonschema::Registry::new().add(COMMON_ID, to_value(common)) {
        Ok(builder) => match builder.prepare() {
            Ok(_) => None,
            Err(e) => Some((RegistryStep::Prepare, e.to_string())),
        },
        Err(e) => Some((RegistryStep::Add, e.to_string())),
    }
}

/// Compiles `schema` with `jsonschema::options().build`, offline (no
/// reference is fetched from the network or from disk), formats asserted,
/// and `common` registered under `COMMON_ID`. The contract claims only
/// whether compilation fails, as the named `schema_rejected`; the error text
/// is left unsaid (it can name whichever unresolved reference was met first,
/// which varies between runs).
#[verifier::external_body]
fn check_compile(common: &Json, schema: &Json) -> (r: Option<String>)
    requires
        !registry_rejects(common@),
    ensures
        r is Some <==> schema_rejected(common@, schema@),
{
    let registry = match jsonschema::Registry::new().add(COMMON_ID, to_value(common)).and_then(|b| b.prepare()) {
        Ok(r) => r,
        Err(e) => return Some(e.to_string()),
    };
    match jsonschema::options().offline().should_validate_formats(true).with_registry(&registry).build(&to_value(schema)) {
        Ok(_) => None,
        Err(e) => Some(e.to_string()),
    }
}

/// Compiles `schema` once, as `check_compile` does (offline, formats
/// asserted, `common` registered under `COMMON_ID`), and runs
/// `Validator::iter_errors` on each instance; the contract claims that the
/// (instance path, message) pairs for each instance are the named
/// `violations`.
#[verifier::external_body]
fn check_instances(common: &Json, schema: &Json, instances: &Vec<&Json>) -> (r: Vec<Vec<Violation>>)
    requires
        !registry_rejects(common@),
        !schema_rejected(common@, schema@),
    ensures
        r@.len() == instances@.len(),
        forall|k: int| 0 <= k < instances@.len() ==> violation_views(#[trigger] r@[k]@) == violations(common@, schema@, instances@[k]@),
{
    let registry = match jsonschema::Registry::new().add(COMMON_ID, to_value(common)).and_then(|b| b.prepare()) {
        Ok(r) => r,
        Err(_) => return Vec::new(),
    };
    let validator = match jsonschema::options().offline().should_validate_formats(true).with_registry(&registry).build(&to_value(schema)) {
        Ok(v) => v,
        Err(_) => return Vec::new(),
    };
    instances.iter().map(|i| to_value(i)).map(|v| validator.iter_errors(&v).map(|e| Violation { path: e.instance_path().to_string(), message: e.to_string() }).collect()).collect()
}

// ---------------------------------------------------------------------------
// The Bundle envelope.
// ---------------------------------------------------------------------------

pub open spec fn objectish(v: JsonView) -> bool {
    v is Null || v is Object
}

pub open spec fn or_null(v: Option<JsonView>) -> JsonView {
    match v {
        Some(x) => x,
        None => JsonView::Null,
    }
}

/// An object's members; none for anything else.
pub open spec fn members_of(v: JsonView) -> Seq<(Seq<char>, JsonView)> {
    match v {
        JsonView::Object(f) => f,
        _ => Seq::empty(),
    }
}

/// The schema `{ "type": t }`.
pub open spec fn type_only(t: Seq<char>) -> JsonView {
    JsonView::Object(seq![("type"@, JsonView::Str(t))])
}

/// The Bundle schema can be edited as an object at `properties` and
/// `properties.entry` (absent and null members count as empty objects).
pub open spec fn envelope_editable(b: JsonView) -> bool {
    let props = or_null(b.field("properties"@));
    &&& objectish(b)
    &&& objectish(props)
    &&& objectish(or_null(props.field("entry"@)))
}

/// The Bundle schema with the parts owned by dedicated checks neutralized:
/// `properties.entry.items` becomes `{"type":"object"}` (entries are checked one
/// by one), `properties.resourceType` and `properties.omirVersion` become
/// `{"type":"string"}` (their own checks give clearer messages).
pub open spec fn neutralized(b: JsonView) -> JsonView {
    let props = or_null(b.field("properties"@));
    let entry = or_null(props.field("entry"@));
    let entry2 = JsonView::Object(assign(members_of(entry), "items"@, type_only("object"@)));
    let p1 = assign(members_of(props), "entry"@, entry2);
    let p2 = assign(p1, "resourceType"@, type_only("string"@));
    let p3 = assign(p2, "omirVersion"@, type_only("string"@));
    JsonView::Object(assign(members_of(b), "properties"@, JsonView::Object(p3)))
}

/// The envelope is the Bundle schema with exactly the three parts owned by
/// dedicated checks replaced: `properties.resourceType` and
/// `properties.omirVersion` accept any string, `properties.entry.items` any
/// object; every other member, at the top and among `properties` and
/// `properties.entry`, reads as before.
pub proof fn law_neutralized(b: JsonView, k: Seq<char>)
    requires
        envelope_editable(b),
    ensures
        or_null(neutralized(b).field("properties"@)).field("resourceType"@) == Some(type_only("string"@)),
        or_null(neutralized(b).field("properties"@)).field("omirVersion"@) == Some(type_only("string"@)),
        or_null(or_null(neutralized(b).field("properties"@)).field("entry"@)).field("items"@) == Some(
            type_only("object"@),
        ),
        k != "properties"@ ==> neutralized(b).field(k) == b.field(k),
        k != "entry"@ && k != "resourceType"@ && k != "omirVersion"@ ==> or_null(
            neutralized(b).field("properties"@),
        ).field(k) == or_null(b.field("properties"@)).field(k),
        k != "items"@ ==> or_null(or_null(neutralized(b).field("properties"@)).field("entry"@)).field(k) == or_null(
            or_null(b.field("properties"@)).field("entry"@),
        ).field(k),
{
    reveal_strlit("properties");
    reveal_strlit("entry");
    reveal_strlit("resourceType");
    reveal_strlit("omirVersion");
    reveal_strlit("items");
    let props = or_null(b.field("properties"@));
    let entry = or_null(props.field("entry"@));
    let e2 = assign(members_of(entry), "items"@, type_only("object"@));
    let p1 = assign(members_of(props), "entry"@, JsonView::Object(e2));
    let p2 = assign(p1, "resourceType"@, type_only("string"@));
    let p3 = assign(p2, "omirVersion"@, type_only("string"@));
    let top = assign(members_of(b), "properties"@, JsonView::Object(p3));
    crate::json::law_assign_member(members_of(b), "properties"@, JsonView::Object(p3), k);
    crate::json::law_assign_member(p2, "omirVersion"@, type_only("string"@), "resourceType"@);
    crate::json::law_assign_member(p1, "resourceType"@, type_only("string"@), "resourceType"@);
    crate::json::law_assign_member(p2, "omirVersion"@, type_only("string"@), "entry"@);
    crate::json::law_assign_member(p1, "resourceType"@, type_only("string"@), "entry"@);
    crate::json::law_assign_member(members_of(props), "entry"@, JsonView::Object(e2), "entry"@);
    crate::json::law_assign_member(members_of(entry), "items"@, type_only("object"@), k);
    crate::json::law_assign_member(members_of(entry), "items"@, type_only("object"@), "items"@);
    assert(neutralized(b).field("properties"@) == Some(JsonView::Object(p3)));
    assert("entry"@.len() == 5);
    assert("omirVersion"@.len() == 11);
    assert("resourceType"@.len() == 12);
    assert("entry"@ != "omirVersion"@);
    assert("entry"@ != "resourceType"@);
    assert(member(p1, "entry"@) == Some(JsonView::Object(e2)));
    assert(member(p2, "entry"@) == Some(JsonView::Object(e2)));
    assert(member(p3, "entry"@) == Some(JsonView::Object(e2)));
    assert(members_of(entry) == match entry {
        JsonView::Object(f) => f,
        _ => Seq::<(Seq<char>, JsonView)>::empty(),
    });
    crate::json::law_assign_member(p2, "omirVersion"@, type_only("string"@), k);
    crate::json::law_assign_member(p1, "resourceType"@, type_only("string"@), k);
    crate::json::law_assign_member(members_of(props), "entry"@, JsonView::Object(e2), k);
    assert(members_of(props) == match props {
        JsonView::Object(f) => f,
        _ => Seq::<(Seq<char>, JsonView)>::empty(),
    });
}

fn type_only_json(t: &str) -> (r: Json)
    ensures
        r@ == type_only(t@),
{
    let mut f: Vec<(String, Json)> = Vec::new();
    f.push(("type".to_owned(), Json::Str(t.to_owned())));
    proof {
        lemma_members_view(f@);
        assert(members_view(f@) =~= seq![("type"@, JsonView::Str(t@))]);
    }
    Json::Object(f)
}

fn object_members(v: Json) -> (r: Vec<(String, Json)>)
    requires
        objectish(v@),
    ensures
        members_view(r@) == members_of(v@),
{
    match v {
        Json::Object(f) => f,
        _ => {
            let e: Vec<(String, Json)> = Vec::new();
            proof {
                lemma_members_view(e@);
                assert(members_view(e@) =~= Seq::<(Seq<char>, JsonView)>::empty());
            }
            e
        },
    }
}

/// Edits the Bundle schema into the envelope schema.
pub fn neutralize(b: Json) -> (r: Json)
    requires
        envelope_editable(b@),
    ensures
        r@ == neutralized(b@),
{
    let ghost bv = b@;
    let mut top = object_members(b);
    let props = take_member(&mut top, "properties");
    let mut pf = object_members(props);
    let entry = take_member(&mut pf, "entry");
    let mut ef = object_members(entry);
    set_member(&mut ef, "items", type_only_json("object"));
    set_member(&mut pf, "entry", Json::Object(ef));
    set_member(&mut pf, "resourceType", type_only_json("string"));
    set_member(&mut pf, "omirVersion", type_only_json("string"));
    set_member(&mut top, "properties", Json::Object(pf));
    Json::Object(top)
}

/// Whether `b` is null or an object.
fn is_objectish(b: &Json) -> (r: bool)
    ensures
        r == objectish(b@),
{
    match b {
        Json::Null => true,
        Json::Object(_) => true,
        _ => false,
    }
}

/// Whether the Bundle schema can be edited into the envelope schema.
pub fn is_envelope_editable(b: &Json) -> (r: bool)
    ensures
        r == envelope_editable(b@),
{
    if !is_objectish(b) {
        return false;
    }
    match b.get("properties") {
        None => true,
        Some(props) => {
            if !is_objectish(props) {
                return false;
            }
            match props.get("entry") {
                None => true,
                Some(entry) => is_objectish(entry),
            }
        },
    }
}

// ---------------------------------------------------------------------------
// Schema documents and the compiled set.
// ---------------------------------------------------------------------------

/// The six R1 schema documents as text.
pub struct SchemaFiles {
    pub common: String,
    pub bundle: String,
    pub memory_record: String,
    pub entity: String,
    pub relationship: String,
    pub episode: String,
}

impl SchemaFiles {
    /// The schemas pinned into the library.
    pub fn embedded() -> (r: SchemaFiles)
        ensures
            r.common@ == COMMON_SCHEMA@,
            r.bundle@ == BUNDLE_SCHEMA@,
            r.memory_record@ == MEMORY_RECORD_SCHEMA@,
            r.entity@ == ENTITY_SCHEMA@,
            r.relationship@ == RELATIONSHIP_SCHEMA@,
            r.episode@ == EPISODE_SCHEMA@,
    {
        SchemaFiles {
            common: COMMON_SCHEMA.to_owned(),
            bundle: BUNDLE_SCHEMA.to_owned(),
            memory_record: MEMORY_RECORD_SCHEMA.to_owned(),
            entity: ENTITY_SCHEMA.to_owned(),
            relationship: RELATIONSHIP_SCHEMA.to_owned(),
            episode: EPISODE_SCHEMA.to_owned(),
        }
    }
}

/// The schemas a run validates against, in mathematical form.
pub struct SchemaSet {
    pub common: JsonView,
    pub envelope: JsonView,
    /// Resource schemas in the order of `RESOURCE_TYPES`.
    pub types: Seq<JsonView>,
}

pub open spec fn invalid_json(what: Seq<char>, e: Seq<char>) -> Seq<char> {
    "invalid JSON in "@ + what + ": "@ + e
}

/// Why building the schema set failed: a document that is not JSON (with the
/// message reported), the registry refusing the shared definitions, or a
/// schema that does not compile.
pub enum BuildFailure {
    BadJson(Seq<char>),
    Registry,
    Compile,
}

/// The reported message `e` fits failure `f`: the exact text for a document
/// that is not JSON, the step's prefix for a refused registry, anything
/// (the outside crate's text) for a schema that does not compile.
pub open spec fn reports(f: BuildFailure, e: Seq<char>) -> bool {
    match f {
        BuildFailure::BadJson(m) => e == m,
        BuildFailure::Registry => "registering common.schema.json: "@.is_prefix_of(e)
            || "preparing schema registry: "@.is_prefix_of(e),
        BuildFailure::Compile => true,
    }
}

/// Parsing and compiling one resource schema.
pub open spec fn type_outcome(c: JsonView, text: Seq<char>, name: Seq<char>) -> Result<JsonView, BuildFailure> {
    match parsed_json(text) {
        Err(e) => Err(BuildFailure::BadJson(invalid_json(name, e))),
        Ok(s) => if schema_rejected(c, s) {
            Err(BuildFailure::Compile)
        } else {
            Ok(s)
        },
    }
}

/// Parsing and compiling resource schemas in turn; the first failure stops.
pub open spec fn types_outcome(c: JsonView, texts: Seq<(Seq<char>, Seq<char>)>) -> Result<Seq<JsonView>, BuildFailure>
    decreases texts.len(),
{
    if texts.len() == 0 {
        Ok(Seq::empty())
    } else {
        match type_outcome(c, texts[0].0, texts[0].1) {
            Err(e) => Err(e),
            Ok(s) => match types_outcome(c, texts.drop_first()) {
                Err(e) => Err(e),
                Ok(rest) => Ok(seq![s] + rest),
            },
        }
    }
}

pub open spec fn type_texts(f: SchemaFiles) -> Seq<(Seq<char>, Seq<char>)> {
    seq![
        (f.memory_record@, "MemoryRecord"@),
        (f.entity@, "Entity"@),
        (f.relationship@, "Relationship"@),
        (f.episode@, "Episode"@),
    ]
}

/// Parsing the shared definitions, registering them, parsing and
/// neutralizing the Bundle schema, compiling it, then each resource schema.
pub open spec fn build_outcome(f: SchemaFiles) -> Result<SchemaSet, BuildFailure> {
    match parsed_json(f.common@) {
        Err(e) => Err(BuildFailure::BadJson(invalid_json("common.schema.json"@, e))),
        Ok(c) => if registry_rejects(c) {
            Err(BuildFailure::Registry)
        } else {
            match parsed_json(f.bundle@) {
                Err(e) => Err(BuildFailure::BadJson(invalid_json("Bundle.schema.json"@, e))),
                Ok(b) => {
                    let env = neutralized(b);
                    if schema_rejected(c, env) {
                        Err(BuildFailure::Compile)
                    } else {
                        match types_outcome(c, type_texts(f)) {
                            Err(e) => Err(e),
                            Ok(ts) => Ok(SchemaSet { common: c, envelope: env, types: ts }),
                        }
                    }
                },
            }
        },
    }
}

/// `r` is what building from `f` gives: the compiled set on success, else a
/// message that fits the failure.
pub open spec fn build_result(f: SchemaFiles, r: Result<Schemas, String>) -> bool {
    match r {
        Ok(s) => build_outcome(f) == Ok::<SchemaSet, BuildFailure>(s.set()),
        Err(e) => build_outcome(f) matches Err(fl) && reports(fl, e@),
    }
}

/// The build reaches the envelope edit with a Bundle schema that cannot be
/// edited as an object.
pub open spec fn envelope_stuck(f: SchemaFiles) -> bool {
    &&& parsed_json(f.common@) matches Ok(c)
    &&& !registry_rejects(c)
    &&& parsed_json(f.bundle@) matches Ok(b)
    &&& !envelope_editable(b)
}

/// The position of resource type `rt` in `RESOURCE_TYPES` (the last for any
/// other name).
pub open spec fn type_slot(rt: Seq<char>) -> int {
    if rt == RESOURCE_TYPES@[0]@ {
        0
    } else if rt == RESOURCE_TYPES@[1]@ {
        1
    } else if rt == RESOURCE_TYPES@[2]@ {
        2
    } else {
        3
    }
}

/// The position of resource type `rt` in `RESOURCE_TYPES`.
pub fn type_slot_of(rt: &str) -> (k: usize)
    ensures
        k == type_slot(rt@),
{
    if crate::text::str_eq(rt, RESOURCE_TYPES[0]) {
        0
    } else if crate::text::str_eq(rt, RESOURCE_TYPES[1]) {
        1
    } else if crate::text::str_eq(rt, RESOURCE_TYPES[2]) {
        2
    } else {
        3
    }
}

/// The schema set of a run: the shared definitions, the envelope, and one
/// schema per resource type, held as parsed JSON, each known to compile; a
/// check compiles the schema it needs (once per call).
pub struct Schemas {
    common: Json,
    envelope: Json,
    by_type: Vec<(String, Json)>,
}

fn compile_type(common: &Json, text: &str, name: &str) -> (r: Result<Json, String>)
    requires
        !registry_rejects(common@),
    ensures
        match r {
            Ok(s) => type_outcome(common@, text@, name@) == Ok::<JsonView, BuildFailure>(s@),
            Err(e) => type_outcome(common@, text@, name@) matches Err(fl) && reports(fl, e@),
        },
{
    match parse_json(text) {
        Err(e) => {
            let mut m = "invalid JSON in ".to_owned();
            m.append(name);
            m.append(": ");
            m.append(e.as_str());
            proof {
                reveal_strlit("invalid JSON in ");
                reveal_strlit(": ");
            }
            Err(m)
        },
        Ok(s) => match check_compile(common, &s) {
            Some(e) => Err(e),
            None => Ok(s),
        },
    }
}

impl Schemas {
    #[verifier::type_invariant]
    spec fn well_formed(self) -> bool {
        &&& !registry_rejects(self.common@)
        &&& !schema_rejected(self.common@, self.envelope@)
        &&& self.by_type@.len() == 4
        &&& forall|i: int| 0 <= i < 4 ==> !schema_rejected(self.common@, #[trigger] self.by_type@[i].1@)
        &&& forall|i: int| 0 <= i < 4 ==> #[trigger] self.by_type@[i].0@ == RESOURCE_TYPES@[i]@
    }

    /// The shared definitions.
    pub closed spec fn common_schema(self) -> JsonView {
        self.common@
    }

    /// The Bundle envelope schema.
    pub closed spec fn envelope_schema(self) -> JsonView {
        self.envelope@
    }

    /// The resource schemas, in the order of `RESOURCE_TYPES`.
    pub closed spec fn type_schemas(self) -> Seq<JsonView> {
        self.by_type@.map_values(|p: (String, Json)| p.1@)
    }

    /// The schema that entries of resource type `rt` are checked against.
    pub open spec fn schema_for(self, rt: Seq<char>) -> JsonView {
        self.type_schemas()[type_slot(rt)]
    }

    pub closed spec fn set(self) -> SchemaSet {
        SchemaSet { common: self.common_schema(), envelope: self.envelope_schema(), types: self.type_schemas() }
    }

    /// Compile the schema set from its documents.
    pub fn build(files: &SchemaFiles) -> (r: Result<Schemas, String>)
        requires
            !envelope_stuck(*files),
        ensures
            build_result(*files, r),
    {
        proof {
            reveal_strlit("invalid JSON in ");
            reveal_strlit(": ");
            reveal_with_fuel(types_outcome, 5);
        }
        let common = match parse_json(files.common.as_str()) {
            Err(e) => {
                let mut m = "invalid JSON in common.schema.json: ".to_owned();
                m.append(e.as_str());
                proof {
                    reveal_strlit("invalid JSON in common.schema.json: ");
                    reveal_strlit("common.schema.json");
                    assert(m@ =~= invalid_json("common.schema.json"@, e@));
                }
                return Err(m);
            },
            Ok(c) => c,
        };
        if let Some((step, e)) = check_registry(&common) {
            let mut m = match step {
                RegistryStep::Add => "registering common.schema.json: ".to_owned(),
                RegistryStep::Prepare => "preparing schema registry: ".to_owned(),
            };
            m.append(e.as_str());
            proof {
                reveal_strlit("registering common.schema.json: ");
                reveal_strlit("preparing schema registry: ");
                assert("registering common.schema.json: "@.is_prefix_of(m@) || "preparing schema registry: "@.is_prefix_of(m@)) by {
                    assert(m@.subrange(0, "registering common.schema.json: "@.len() as int) =~= "registering common.schema.json: "@ || m@.subrange(0, "preparing schema registry: "@.len() as int) =~= "preparing schema registry: "@);
                }
            }
            return Err(m);
        }
        let bundle = match parse_json(files.bundle.as_str()) {
            Err(e) => {
                let mut m = "invalid JSON in Bundle.schema.json: ".to_owned();
                m.append(e.as_str());
                proof {
                    reveal_strlit("invalid JSON in Bundle.schema.json: ");
                    reveal_strlit("Bundle.schema.json");
                    assert(m@ =~= invalid_json("Bundle.schema.json"@, e@));
                }
                return Err(m);
            },
            Ok(b) => b,
        };
        let envelope = neutralize(bundle);
        if let Some(e) = check_compile(&common, &envelope) {
            return Err(e);
        }
        let mr = match compile_type(&common, files.memory_record.as_str(), "MemoryRecord") {
            Err(e) => return Err(e),
            Ok(s) => s,
        };
        let en = match compile_type(&common, files.entity.as_str(), "Entity") {
            Err(e) => return Err(e),
            Ok(s) => s,
        };
        let rel = match compile_type(&common, files.relationship.as_str(), "Relationship") {
            Err(e) => return Err(e),
            Ok(s) => s,
        };
        let ep = match compile_type(&common, files.episode.as_str(), "Episode") {
            Err(e) => return Err(e),
            Ok(s) => s,
        };
        let mut by_type: Vec<(String, Json)> = Vec::new();
        by_type.push((RESOURCE_TYPES[0].to_owned(), mr));
        by_type.push((RESOURCE_TYPES[1].to_owned(), en));
        by_type.push((RESOURCE_TYPES[2].to_owned(), rel));
        by_type.push((RESOURCE_TYPES[3].to_owned(), ep));
        let r = Schemas { common, envelope, by_type };
        proof {
            assert(r.type_schemas() =~= seq![mr@, en@, rel@, ep@]);
            let t = type_texts(*files);
            let t1 = t.drop_first();
            let t2 = t1.drop_first();
            let t3 = t2.drop_first();
            let t4 = t3.drop_first();
            assert(t4.len() == 0);
            assert(types_outcome(common@, t4) == Ok::<Seq<JsonView>, BuildFailure>(Seq::empty()));
            assert(seq![ep@] + Seq::<JsonView>::empty() =~= seq![ep@]);
            assert(types_outcome(common@, t3) == Ok::<Seq<JsonView>, BuildFailure>(seq![ep@]));
            assert(seq![rel@] + seq![ep@] =~= seq![rel@, ep@]);
            assert(seq![en@] + seq![rel@, ep@] =~= seq![en@, rel@, ep@]);
            assert(seq![mr@] + seq![en@, rel@, ep@] =~= seq![mr@, en@, rel@, ep@]);
            assert(types_outcome(common@, t2) == Ok::<Seq<JsonView>, BuildFailure>(seq![rel@, ep@]));
            assert(types_outcome(common@, t1) == Ok::<Seq<JsonView>, BuildFailure>(seq![en@, rel@, ep@]));
            assert(types_outcome(common@, t) == Ok::<Seq<JsonView>, BuildFailure>(seq![mr@, en@, rel@, ep@]));
        }
        Ok(r)
    }

    /// Compile the schema set, or `None` when the Bundle schema cannot be
    /// edited into the envelope (where `build` may not be called).
    pub fn try_build(files: &SchemaFiles) -> (r: Option<Result<Schemas, String>>)
        ensures
            r is None <==> envelope_stuck(*files),
            match r {
                Some(b) => build_result(*files, b),
                None => true,
            },
    {
        if let Ok(c) = parse_json(files.common.as_str()) {
            if check_registry(&c).is_none() {
                if let Ok(b) = parse_json(files.bundle.as_str()) {
                    if !is_envelope_editable(&b) {
                        return None;
                    }
                }
            }
        }
        Some(Schemas::build(files))
    }

    /// The violations of the Bundle envelope schema by `doc`.
    pub fn envelope_violations(&self, doc: &Json) -> (r: Vec<Violation>)
        ensures
            violation_views(r@) == violations(self.common_schema(), self.envelope_schema(), doc@),
    {
        proof {
            use_type_invariant(self);
        }
        let mut one: Vec<&Json> = Vec::new();
        one.push(doc);
        let mut all = check_instances(&self.common, &self.envelope, &one);
        all.remove(0)
    }

    /// The violations of the `k`-th resource schema (in the order of
    /// `RESOURCE_TYPES`) by each of `entries`, the schema compiled once.
    pub fn type_violations(&self, k: usize, entries: &Vec<&Json>) -> (r: Vec<Vec<Violation>>)
        requires
            k < 4,
        ensures
            r@.len() == entries@.len(),
            forall|n: int|
                0 <= n < entries@.len() ==> violation_views(#[trigger] r@[n]@) == violations(
                    self.common_schema(),
                    self.type_schemas()[k as int],
                    entries@[n]@,
                ),
    {
        proof {
            use_type_invariant(self);
            assert(self.type_schemas()[k as int] == self.by_type@[k as int].1@);
        }
        check_instances(&self.common, &self.by_type[k].1, entries)
    }
}

} // verus!
