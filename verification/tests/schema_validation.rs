use wrkflw_parser::schema::{
    schema_type_for_file_name, text_ends_with, validation_outcome, SchemaType, SchemaValidator,
};
use wrkflw_parser::schema_refs::has_descending_refs;
use wrkflw_parser::yaml::YamlValue;

fn sv_tree(v: &serde_json::Value) -> YamlValue {
    match v {
        serde_json::Value::Null => YamlValue::Null,
        serde_json::Value::Bool(b) => YamlValue::Bool(*b),
        serde_json::Value::Number(n) => YamlValue::Number(n.to_string()),
        serde_json::Value::String(s) => YamlValue::String(s.clone()),
        serde_json::Value::Array(a) => YamlValue::Sequence(a.iter().map(sv_tree).collect()),
        serde_json::Value::Object(m) => {
            YamlValue::Mapping(m.iter().map(|(k, v)| (YamlValue::String(k.clone()), sv_tree(v))).collect())
        }
    }
}

fn sv_json(text: &str) -> YamlValue {
    sv_tree(&serde_json::from_str::<serde_json::Value>(text).unwrap())
}

const GITHUB_SCHEMA: &str = r#"{
  "type": "object",
  "required": ["on", "jobs"],
  "properties": { "jobs": { "type": "object" } }
}"#;

const GITLAB_SCHEMA: &str = r#"{
  "type": "object",
  "properties": { "stages": { "type": "array", "items": { "type": "string" } } }
}"#;

fn sv_validator() -> SchemaValidator {
    match SchemaValidator::new(GITHUB_SCHEMA, GITLAB_SCHEMA) {
        Ok(v) => v,
        Err(e) => panic!("schemas should compile: {}", e),
    }
}

#[test]
fn file_names_choose_the_schema() {
    assert_eq!(schema_type_for_file_name(".gitlab-ci.yml"), SchemaType::GitLab);
    assert_eq!(schema_type_for_file_name("ci/my.gitlab-ci.yaml"), SchemaType::GitLab);
    assert_eq!(schema_type_for_file_name("build.yml"), SchemaType::GitHub);
    assert_eq!(schema_type_for_file_name("gitlab-ci.yml"), SchemaType::GitHub);
    assert_eq!(schema_type_for_file_name(""), SchemaType::GitHub);
}

#[test]
fn suffix_test_is_exact() {
    assert!(text_ends_with("abc", "bc"));
    assert!(text_ends_with("abc", ""));
    assert!(text_ends_with("abc", "abc"));
    assert!(!text_ends_with("bc", "abc"));
    assert!(!text_ends_with("abc", "ab"));
}

#[test]
fn outcome_without_violations_is_ok() {
    assert!(validation_outcome(SchemaType::GitHub, &Vec::new()).is_ok());
}

#[test]
fn outcome_lists_each_violation() {
    let errors = vec!["first".to_string(), "second".to_string()];
    assert_eq!(
        validation_outcome(SchemaType::GitLab, &errors),
        Err("GitLab CI validation failed:\n- first\n- second\n".to_string())
    );
    assert_eq!(
        validation_outcome(SchemaType::GitHub, &vec!["x".to_string()]),
        Err("GitHub workflow validation failed:\n- x\n".to_string())
    );
}

#[test]
fn schema_text_that_is_not_json_is_reported() {
    let github = SchemaValidator::new("{ not json", GITLAB_SCHEMA).err().unwrap();
    assert!(github.starts_with("Failed to parse GitHub workflow schema: "), "{}", github);
    let gitlab = SchemaValidator::new(GITHUB_SCHEMA, "[1,").err().unwrap();
    assert!(gitlab.starts_with("Failed to parse GitLab CI schema: "), "{}", gitlab);
    let both = SchemaValidator::new("nope", "nope").err().unwrap();
    assert!(both.starts_with("Failed to parse GitHub workflow schema: "), "{}", both);
}

#[test]
fn schema_that_does_not_compile_is_reported() {
    let github = SchemaValidator::new(r#"{"type": 12}"#, GITLAB_SCHEMA).err().unwrap();
    assert!(github.starts_with("Failed to compile GitHub JSON schema: "), "{}", github);
    let gitlab = SchemaValidator::new(GITHUB_SCHEMA, r#"{"type": 12}"#).err().unwrap();
    assert!(gitlab.starts_with("Failed to compile GitLab JSON schema: "), "{}", gitlab);
}

#[test]
fn valid_documents_pass() {
    let v = sv_validator();
    assert!(v.validate_with_specific_schema("on: push\njobs: {}\n", SchemaType::GitHub).is_ok());
    assert!(v.validate_with_specific_schema("stages: [build, test]\n", SchemaType::GitLab).is_ok());
}

#[test]
fn rejected_document_is_reported_per_violation() {
    let v = sv_validator();
    let err = v.validate_with_specific_schema("jobs: []\n", SchemaType::GitHub).err().unwrap();
    assert!(err.starts_with("GitHub workflow validation failed:\n- "), "{}", err);
    assert!(err.ends_with('\n'));
    assert_eq!(err.matches("\n- ").count(), 2, "{}", err);
    let gl = v.validate_with_specific_schema("stages: [1]\n", SchemaType::GitLab).err().unwrap();
    assert!(gl.starts_with("GitLab CI validation failed:\n- "), "{}", gl);
}

#[test]
fn yaml_that_does_not_read_is_reported() {
    let v = sv_validator();
    let err = v.validate_with_specific_schema("key: [unclosed\n", SchemaType::GitLab).err().unwrap();
    assert!(err.starts_with("Failed to parse YAML: "), "{}", err);
    let wf = v.validate_workflow_content("ci.yml", "key: [unclosed\n").err().unwrap();
    assert!(wf.starts_with("Failed to parse workflow YAML: "), "{}", wf);
}

#[test]
fn workflow_content_uses_the_schema_of_its_file_name() {
    let v = sv_validator();
    assert!(v.validate_workflow_content(".gitlab-ci.yml", "stages: [build]\n").is_ok());
    let err = v.validate_workflow_content("build.yml", "stages: [build]\n").err().unwrap();
    assert!(err.starts_with("GitHub workflow validation failed:\n"), "{}", err);
}

#[test]
fn json_values_are_checked_directly() {
    let v = sv_validator();
    let good = sv_json(r#"{"on": "push", "jobs": {}}"#);
    assert!(v.validate_json_value(&good, SchemaType::GitHub).is_ok());
    let bad = sv_json(r#"{"stages": "build"}"#);
    let err = v.validate_json_value(&bad, SchemaType::GitLab).err().unwrap();
    assert!(err.starts_with("GitLab CI validation failed:\n- "), "{}", err);
}

const REF_SCHEMA: &str = r##"{
  "$id": "https://example.com/ci.json",
  "type": "object",
  "properties": {
    "stages": { "$ref": "#/definitions/list" },
    "jobs": { "type": "object", "additionalProperties": { "$ref": "#/definitions/job" } }
  },
  "definitions": {
    "list": { "type": "array", "items": { "type": "string" } },
    "job": {
      "type": "object",
      "properties": {
        "needs": { "$ref": "#/definitions/list" },
        "child": { "$ref": "#/definitions/job" }
      },
      "allOf": [ { "$ref": "#/definitions/named" } ]
    },
    "named": { "required": ["script"] }
  }
}"##;

#[test]
fn ref_chains_that_descend_are_accepted() {
    assert!(has_descending_refs(&sv_json(REF_SCHEMA)));
    assert!(has_descending_refs(&sv_json(GITHUB_SCHEMA)));
    assert!(has_descending_refs(&sv_json(r##"{"properties": {"child": {"$ref": "#"}}}"##)));
    assert!(has_descending_refs(&sv_json(r##"{"items": [{"$ref": "#"}], "definitions": {"x": {"$ref": "#/items/0"}}}"##)));
}

#[test]
fn ref_chains_that_come_back_are_refused() {
    assert!(!has_descending_refs(&sv_json(r##"{"$ref": "#"}"##)));
    assert!(!has_descending_refs(&sv_json(r##"{"items": [{"$ref": "#/items/0"}]}"##)));
    assert!(!has_descending_refs(&sv_json(
        r##"{"$ref": "#/definitions/a", "definitions": {"a": {"$ref": "#/definitions/b"}, "b": {"allOf": [{"$ref": "#/definitions/a"}]}}}"##
    )));
    assert!(!has_descending_refs(&sv_json(
        r##"{"dependencies": {"items": {"$ref": "#"}}}"##
    )));
    assert!(!has_descending_refs(&sv_json(r##"{"properties": {"a": {"$id": "other.json", "type": "string"}}}"##)));
    assert!(!has_descending_refs(&sv_json(r##"{"properties": {"a": {"$ref": "other.json#/x"}}}"##)));
    assert!(!has_descending_refs(&sv_json(r##"{"properties": {"a": {"$ref": "#/a~1b"}}}"##)));
    let v = SchemaValidator::new(r##"{"$ref": "#"}"##, GITLAB_SCHEMA).unwrap();
    assert!(!v.has_descending_refs(SchemaType::GitHub));
    assert!(v.has_descending_refs(SchemaType::GitLab));
}

#[test]
fn schema_with_refs_checks_documents() {
    let v = SchemaValidator::new(GITHUB_SCHEMA, REF_SCHEMA).unwrap();
    assert!(v.has_descending_refs(SchemaType::GitLab));
    assert!(v
        .validate_with_specific_schema("stages: [build]\njobs:\n  build:\n    script: make\n    needs: [x]\n", SchemaType::GitLab)
        .is_ok());
    let err = v
        .validate_with_specific_schema("stages: [1]\njobs:\n  build:\n    needs: [2]\n", SchemaType::GitLab)
        .err()
        .unwrap();
    assert!(err.starts_with("GitLab CI validation failed:\n- "), "{}", err);
    assert_eq!(err.matches("\n- ").count(), 3, "{}", err);
    let nested = v
        .validate_with_specific_schema("jobs:\n  build:\n    script: a\n    child:\n      needs: x\n", SchemaType::GitLab)
        .err()
        .unwrap();
    assert!(nested.starts_with("GitLab CI validation failed:\n- "), "{}", nested);
}
