//! Choosing a schema for a workflow file and reporting what it rejects.
use vstd::prelude::*;
use vstd::string::*;
use crate::text::texts;
use crate::reading::{
    json_document, json_shaped, json_syntax_error, read_json, read_yaml_as_json, yaml_json_document,
    yaml_of_tree, yaml_to_json_error,
};
use crate::schema_refs::{has_descending_refs, refs_descend};
use crate::yaml::{well_formed, Yaml, YamlValue};

verus! {

/// The two kinds of workflow file that can be checked against a schema.
#[derive(Debug, Clone, Copy, PartialEq, Eq, Structural)]
pub enum SchemaType {
    GitHub,
    GitLab,
}

/// `s` ends with `suffix`.
pub open spec fn ends_with(s: Seq<char>, suffix: Seq<char>) -> bool {
    suffix.len() <= s.len() && s.subrange(s.len() - suffix.len(), s.len() as int) == suffix
}

/// A file name that marks a GitLab CI pipeline.
pub open spec fn is_gitlab_file_name(name: Seq<char>) -> bool {
    ends_with(name, ".gitlab-ci.yml"@) || ends_with(name, ".gitlab-ci.yaml"@)
}

/// The schema that a file of this name is checked against.
pub open spec fn schema_type_of(name: Seq<char>) -> SchemaType {
    if is_gitlab_file_name(name) {
        SchemaType::GitLab
    } else {
        SchemaType::GitHub
    }
}

/// How a schema is named in a report.
pub open spec fn schema_label(t: SchemaType) -> Seq<char> {
    match t {
        SchemaType::GitHub => "GitHub workflow"@,
        SchemaType::GitLab => "GitLab CI"@,
    }
}

/// One line `- <error>` per violation, in order.
pub open spec fn violation_lines(errors: Seq<Seq<char>>) -> Seq<char>
    decreases errors.len(),
{
    if errors.len() == 0 {
        Seq::empty()
    } else {
        violation_lines(errors.drop_last()) + "- "@ + errors.last() + "\n"@
    }
}

/// The report for a document that the schema rejects.
pub open spec fn violation_report(t: SchemaType, errors: Seq<Seq<char>>) -> Seq<char> {
    schema_label(t) + " validation failed:\n"@ + violation_lines(errors)
}

/// `s` begins with `prefix`.
pub open spec fn starts_with(s: Seq<char>, prefix: Seq<char>) -> bool {
    prefix.len() <= s.len() && s.subrange(0, prefix.len() as int) == prefix
}

pub fn text_ends_with(s: &str, suffix: &str) -> (r: bool)
    ensures
        r == ends_with(s@, suffix@),
{
    let n = s.unicode_len();
    let m = suffix.unicode_len();
    if m > n {
        return false;
    }
    let off = n - m;
    let mut i: usize = 0;
    while i < m
        invariant
            n == s@.len(),
            m == suffix@.len(),
            off == n - m,
            i <= m,
            forall|j: int| 0 <= j < i ==> s@[off + j] == suffix@[j],
        decreases m - i,
    {
        if s.get_char(off + i) != suffix.get_char(i) {
            proof {
                assert(s@.subrange(off as int, n as int)[i as int] != suffix@[i as int]);
            }
            return false;
        }
        i = i + 1;
    }
    assert(s@.subrange(off as int, n as int) =~= suffix@);
    true
}

/// Picks the schema by the file's name: GitLab CI for `*.gitlab-ci.yml` and
/// `*.gitlab-ci.yaml`, GitHub workflow otherwise (also for an empty name).
pub fn schema_type_for_file_name(file_name: &str) -> (t: SchemaType)
    ensures
        t == schema_type_of(file_name@),
{
    if text_ends_with(file_name, ".gitlab-ci.yml") || text_ends_with(file_name, ".gitlab-ci.yaml") {
        SchemaType::GitLab
    } else {
        SchemaType::GitHub
    }
}

/// Every name of the form `<anything>.gitlab-ci.yml` or `<anything>.gitlab-ci.yaml`
/// (the bare `.gitlab-ci.yml` included, with an empty prefix) is checked against the
/// GitLab CI schema.
pub proof fn law_gitlab_suffix_selects_gitlab(prefix: Seq<char>)
    ensures
        schema_type_of(prefix + ".gitlab-ci.yml"@) == SchemaType::GitLab,
        schema_type_of(prefix + ".gitlab-ci.yaml"@) == SchemaType::GitLab,
{
    let a = prefix + ".gitlab-ci.yml"@;
    let b = prefix + ".gitlab-ci.yaml"@;
    assert(a.subrange(a.len() - ".gitlab-ci.yml"@.len(), a.len() as int) =~= ".gitlab-ci.yml"@);
    assert(b.subrange(b.len() - ".gitlab-ci.yaml"@.len(), b.len() as int) =~= ".gitlab-ci.yaml"@);
}

/// A name selects the GitLab CI schema exactly when it is some prefix followed by
/// `.gitlab-ci.yml` or `.gitlab-ci.yaml`; every other name selects the GitHub workflow schema.
pub proof fn law_schema_choice_by_suffix(name: Seq<char>)
    ensures
        (schema_type_of(name) == SchemaType::GitLab) <==> (
            (exists|p: Seq<char>| name == p + ".gitlab-ci.yml"@)
            || (exists|p: Seq<char>| name == p + ".gitlab-ci.yaml"@)),
        (schema_type_of(name) == SchemaType::GitHub) <==> !(
            (exists|p: Seq<char>| name == p + ".gitlab-ci.yml"@)
            || (exists|p: Seq<char>| name == p + ".gitlab-ci.yaml"@)),
{
    let yml = ".gitlab-ci.yml"@;
    let yaml = ".gitlab-ci.yaml"@;
    if ends_with(name, yml) {
        let p = name.subrange(0, name.len() - yml.len());
        assert(name =~= p + yml);
    }
    if ends_with(name, yaml) {
        let p = name.subrange(0, name.len() - yaml.len());
        assert(name =~= p + yaml);
    }
    if exists|p: Seq<char>| name == p + yml {
        let p = choose|p: Seq<char>| name == p + yml;
        law_gitlab_suffix_selects_gitlab(p);
    }
    if exists|p: Seq<char>| name == p + yaml {
        let p = choose|p: Seq<char>| name == p + yaml;
        law_gitlab_suffix_selects_gitlab(p);
    }
}

fn label_of(t: SchemaType) -> (r: &'static str)
    ensures
        r@ == schema_label(t),
{
    match t {
        SchemaType::GitHub => "GitHub workflow",
        SchemaType::GitLab => "GitLab CI",
    }
}

/// Turns the violations that a schema reported into the validator's answer:
/// `Ok` when there are none, else one report that lists each of them.
pub fn validation_outcome(schema_type: SchemaType, errors: &Vec<String>) -> (r: Result<(), String>)
    ensures
        r is Ok <==> errors@.len() == 0,
        r is Err ==> r->Err_0@ == violation_report(schema_type, texts(errors@)),
{
    if errors.len() == 0 {
        return Ok(());
    }
    let mut msg = String::from_str(label_of(schema_type));
    msg.append(" validation failed:\n");
    let ghost tv = texts(errors@);
    let ghost head = schema_label(schema_type) + " validation failed:\n"@;
    assert(tv.take(0) =~= Seq::<Seq<char>>::empty());
    let mut i: usize = 0;
    while i < errors.len()
        invariant
            i <= errors.len(),
            tv == texts(errors@),
            msg@ == head + violation_lines(tv.take(i as int)),
        decreases errors.len() - i,
    {
        assert(tv.take(i + 1).drop_last() =~= tv.take(i as int));
        assert(tv[i as int] == errors@[i as int]@);
        msg.append("- ");
        msg.append(errors[i].as_str());
        msg.append("\n");
        i = i + 1;
    }
    assert(tv.take(errors@.len() as int) =~= tv);
    Err(msg)
}

/// What `jsonschema::JSONSchema::compile` reports for the JSON form of a
/// JSON-shaped schema that it does not compile.
pub uninterp spec fn schema_compile_error(schema: Yaml) -> Option<Seq<char>>;

/// The texts of the violations that `jsonschema::JSONSchema::validate` reports,
/// in order, for an instance checked against a schema (both JSON-shaped).
pub uninterp spec fn schema_violation_texts(schema: Yaml, instance: Yaml) -> Seq<Seq<char>>;

/// Compiles a JSON-shaped schema with `jsonschema::JSONSchema::compile` (after
/// writing it as a `serde_json` value with `serde_json::to_value`, which cannot
/// fail for JSON-shaped trees). The contract claims that the outcome is a
/// function of the schema, named by `schema_compile_error`.
#[verifier::external_body]
fn schema_compile_failure(schema: &YamlValue) -> (r: Option<String>)
    requires
        json_shaped(schema@),
    ensures
        match r {
            Some(m) => schema_compile_error(schema@) == Some(m@),
            None => schema_compile_error(schema@) is None,
        },
{
    match serde_json::to_value(yaml_of_tree(schema)) {
        Ok(v) => jsonschema::JSONSchema::compile(&v).err().map(|e| e.to_string()),
        Err(e) => Some(e.to_string()),
    }
}

/// Checks an instance against a schema with `jsonschema::JSONSchema::validate`
/// (both written as `serde_json` values) and gives the text of each violation,
/// in order. The contract claims that they are `schema_violation_texts` of the
/// two. It is admitted only for a schema that compiles, whose objects have
/// distinct keys, and whose `$ref` links descend (`refs_descend`): `jsonschema`
/// resolves a `$ref` afresh on each check, so a chain of references that comes
/// back to where it started without descending into the instance, such as
/// `{"$ref": "#"}`, would never return.
#[verifier::external_body]
fn schema_violations(schema: &YamlValue, instance: &YamlValue) -> (r: Vec<String>)
    requires
        json_shaped(schema@),
        json_shaped(instance@),
        schema_compile_error(schema@) is None,
        well_formed(schema@),
        refs_descend(schema@),
    ensures
        texts(r@) == schema_violation_texts(schema@, instance@),
{
    let s = serde_json::to_value(yaml_of_tree(schema)).unwrap_or_default();
    let i = serde_json::to_value(yaml_of_tree(instance)).unwrap_or_default();
    match jsonschema::JSONSchema::compile(&s) {
        Ok(c) => c.validate(&i).map_or_else(|errors| errors.map(|e| e.to_string()).collect(), |_| Vec::new()),
        Err(_) => Vec::new(),
    }
}

/// The answer for an instance checked against a schema of the given kind: `Ok`
/// when the schema reports no violation, else the report that lists them.
pub open spec fn checked_against(r: Result<(), String>, t: SchemaType, schema: Yaml, instance: Yaml) -> bool {
    let v = schema_violation_texts(schema, instance);
    &&& (r is Ok <==> v.len() == 0)
    &&& (r is Err ==> r->Err_0@ == violation_report(t, v))
}

/// Holds the GitHub workflow and GitLab CI schemas, each JSON-shaped and one
/// that compiles.
pub struct SchemaValidator {
    github_schema: YamlValue,
    gitlab_schema: YamlValue,
}

/// `prefix` followed by `msg`, as one string.
fn prefixed(prefix: &str, msg: &String) -> (r: String)
    ensures
        r@ == prefix@ + msg@,
{
    let mut s = String::from_str(prefix);
    s.append(msg.as_str());
    s
}

impl SchemaValidator {
    #[verifier::type_invariant]
    spec fn schemas_compile(self) -> bool {
        &&& json_shaped(self.github_schema@)
        &&& json_shaped(self.gitlab_schema@)
        &&& well_formed(self.github_schema@)
        &&& well_formed(self.gitlab_schema@)
        &&& schema_compile_error(self.github_schema@) is None
        &&& schema_compile_error(self.gitlab_schema@) is None
    }

    /// The schema of the given kind.
    pub closed spec fn schema(&self, t: SchemaType) -> Yaml {
        match t {
            SchemaType::GitHub => self.github_schema@,
            SchemaType::GitLab => self.gitlab_schema@,
        }
    }

    /// Builds a validator from the JSON text of the GitHub workflow schema and
    /// of the GitLab CI schema. Each text is read first, in that order, then
    /// each schema compiled; the first failure is reported with its prefix.
    pub fn new(github_schema_text: &str, gitlab_schema_text: &str) -> (r: Result<Self, String>)
        ensures
            json_syntax_error(github_schema_text@) is Some ==> r is Err && r->Err_0@
                == "Failed to parse GitHub workflow schema: "@ + json_syntax_error(github_schema_text@)->0,
            json_syntax_error(github_schema_text@) is None && json_syntax_error(gitlab_schema_text@) is Some
                ==> r is Err && r->Err_0@ == "Failed to parse GitLab CI schema: "@ + json_syntax_error(
                gitlab_schema_text@,
            )->0,
            json_document(github_schema_text@) matches Some(gh) ==> json_document(gitlab_schema_text@) matches Some(gl)
                ==> {
                &&& schema_compile_error(gh) is Some ==> r is Err && r->Err_0@
                    == "Failed to compile GitHub JSON schema: "@ + schema_compile_error(gh)->0
                &&& schema_compile_error(gh) is None && schema_compile_error(gl) is Some ==> r is Err
                    && r->Err_0@ == "Failed to compile GitLab JSON schema: "@ + schema_compile_error(gl)->0
                &&& schema_compile_error(gh) is None && schema_compile_error(gl) is None ==> r is Ok
                    && r->Ok_0.schema(SchemaType::GitHub) == gh && r->Ok_0.schema(SchemaType::GitLab) == gl
            },
    {
        let github_json = match read_json(github_schema_text) {
            Ok(v) => v,
            Err(e) => {
                return Err(prefixed("Failed to parse GitHub workflow schema: ", &e));
            },
        };
        let gitlab_json = match read_json(gitlab_schema_text) {
            Ok(v) => v,
            Err(e) => {
                return Err(prefixed("Failed to parse GitLab CI schema: ", &e));
            },
        };
        match schema_compile_failure(&github_json) {
            Some(e) => {
                return Err(prefixed("Failed to compile GitHub JSON schema: ", &e));
            },
            None => {},
        }
        match schema_compile_failure(&gitlab_json) {
            Some(e) => {
                return Err(prefixed("Failed to compile GitLab JSON schema: ", &e));
            },
            None => {},
        }
        Ok(SchemaValidator { github_schema: github_json, gitlab_schema: gitlab_json })
    }

    /// Whether the `$ref` links of the schema of the given kind descend, as
    /// checking against it requires.
    pub fn has_descending_refs(&self, schema_type: SchemaType) -> (r: bool)
        ensures
            r == refs_descend(self.schema(schema_type)),
    {
        match schema_type {
            SchemaType::GitHub => has_descending_refs(&self.github_schema),
            SchemaType::GitLab => has_descending_refs(&self.gitlab_schema),
        }
    }

    /// Checks a JSON value against the schema of the given kind: `Ok` when the
    /// schema reports nothing, else the report that lists what it reported.
    pub fn validate_json_value(&self, json: &YamlValue, schema_type: SchemaType) -> (r: Result<(), String>)
        requires
            json_shaped(json@),
            refs_descend(self.schema(schema_type)),
        ensures
            checked_against(r, schema_type, self.schema(schema_type), json@),
    {
        proof {
            use_type_invariant(self);
        }
        let errors = match schema_type {
            SchemaType::GitHub => schema_violations(&self.github_schema, json),
            SchemaType::GitLab => schema_violations(&self.gitlab_schema, json),
        };
        validation_outcome(schema_type, &errors)
    }

    /// Reads YAML text and checks it against the schema of the given kind.
    /// Text that does not read is reported as `Failed to parse YAML: <error>`.
    pub fn validate_with_specific_schema(&self, content: &str, schema_type: SchemaType) -> (r: Result<(), String>)
        requires
            refs_descend(self.schema(schema_type)),
        ensures
            yaml_to_json_error(content@) is Some ==> r is Err && r->Err_0@ == "Failed to parse YAML: "@
                + yaml_to_json_error(content@)->0,
            yaml_json_document(content@) matches Some(doc) ==> checked_against(
                r,
                schema_type,
                self.schema(schema_type),
                doc,
            ),
    {
        let json = match read_yaml_as_json(content) {
            Ok(v) => v,
            Err(e) => {
                return Err(prefixed("Failed to parse YAML: ", &e));
            },
        };
        self.validate_json_value(&json, schema_type)
    }

    /// Checks the text of a workflow file, choosing the schema by the file's
    /// name (see `schema_type_for_file_name`). Text that does not read is
    /// reported as `Failed to parse workflow YAML: <error>`.
    pub fn validate_workflow_content(&self, file_name: &str, content: &str) -> (r: Result<(), String>)
        requires
            refs_descend(self.schema(schema_type_of(file_name@))),
        ensures
            yaml_to_json_error(content@) is Some ==> r is Err && r->Err_0@ == "Failed to parse workflow YAML: "@
                + yaml_to_json_error(content@)->0,
            yaml_json_document(content@) matches Some(doc) ==> checked_against(
                r,
                schema_type_of(file_name@),
                self.schema(schema_type_of(file_name@)),
                doc,
            ),
    {
        let schema_type = schema_type_for_file_name(file_name);
        let json = match read_yaml_as_json(content) {
            Ok(v) => v,
            Err(e) => {
                return Err(prefixed("Failed to parse workflow YAML: ", &e));
            },
        };
        self.validate_json_value(&json, schema_type)
    }
}

} // verus!
