use wrkflw_parser::gitlab::{
    check_parsed_pipeline, check_pipeline_schema, filter_root_for_deserialization, has_tagged_reference,
    load_pipeline_document, prepare_pipeline, reference_fallback, scan_tagged_extends, splice_reference_lists,
    validate_pipeline_structure, GitlabParserError,
};
use wrkflw_parser::schema::SchemaValidator;
use wrkflw_parser::includes::{local_include_paths, resolve_includes, ResolvedPipeline};
use wrkflw_parser::models::{Job, NamedMap, Pipeline, Rule};
use wrkflw_parser::yaml::YamlValue;

fn gl_conv(v: &serde_yaml::Value) -> YamlValue {
    match v {
        serde_yaml::Value::Null => YamlValue::Null,
        serde_yaml::Value::Bool(b) => YamlValue::Bool(*b),
        serde_yaml::Value::Number(n) => YamlValue::Number(n.to_string()),
        serde_yaml::Value::String(s) => YamlValue::String(s.clone()),
        serde_yaml::Value::Sequence(items) => YamlValue::Sequence(items.iter().map(gl_conv).collect()),
        serde_yaml::Value::Mapping(m) => {
            YamlValue::Mapping(m.iter().map(|(k, v)| (gl_conv(k), gl_conv(v))).collect())
        }
        serde_yaml::Value::Tagged(t) => YamlValue::Tagged(t.tag.to_string(), Box::new(gl_conv(&t.value))),
    }
}

fn gl_parse(text: &str) -> YamlValue {
    gl_conv(&serde_yaml::from_str::<serde_yaml::Value>(text).unwrap())
}

fn gl_field<'a>(v: &'a YamlValue, key: &str) -> Option<&'a YamlValue> {
    match v {
        YamlValue::Mapping(pairs) => pairs
            .iter()
            .find(|(k, _)| matches!(k, YamlValue::String(s) if s == key))
            .map(|(_, v)| v),
        _ => None,
    }
}

fn gl_str(v: &YamlValue) -> Option<String> {
    match v {
        YamlValue::String(s) => Some(s.clone()),
        _ => None,
    }
}

/// A field written as one string or as a list of strings.
fn gl_strings(v: Option<&YamlValue>) -> Option<Vec<String>> {
    match v? {
        YamlValue::String(s) => Some(vec![s.clone()]),
        YamlValue::Sequence(items) => Some(items.iter().map(|i| gl_str(i).unwrap()).collect()),
        _ => panic!("not a string list"),
    }
}

fn gl_empty_job() -> Job {
    Job {
        stage: None,
        image: None,
        script: None,
        before_script: None,
        after_script: None,
        when: None,
        allow_failure: None,
        services: None,
        tags: None,
        variables: None,
        dependencies: None,
        artifacts: None,
        cache: None,
        rules: None,
        only: None,
        except: None,
        retry: None,
        timeout: None,
        parallel: None,
        template: None,
        extends: None,
        needs: None,
        interruptible: None,
        trigger: None,
    }
}

fn gl_rule(v: &YamlValue) -> Rule {
    match v {
        YamlValue::Mapping(_) => Rule::Structured {
            if_: gl_field(v, "if").and_then(gl_str),
            when: gl_field(v, "when").and_then(gl_str),
            variables: None,
        },
        other => Rule::Raw(other.clone()),
    }
}

/// The fields of a job that these scenarios look at.
fn gl_job(v: &YamlValue) -> Job {
    let mut job = gl_empty_job();
    job.stage = gl_field(v, "stage").and_then(gl_str);
    job.script = gl_strings(gl_field(v, "script"));
    job.before_script = gl_strings(gl_field(v, "before_script"));
    job.after_script = gl_strings(gl_field(v, "after_script"));
    job.extends = gl_strings(gl_field(v, "extends"));
    job.dependencies = gl_strings(gl_field(v, "dependencies"));
    job.template = match gl_field(v, "template") {
        Some(YamlValue::Bool(b)) => Some(*b),
        _ => None,
    };
    job.trigger = gl_field(v, "trigger").cloned();
    job.rules = match gl_field(v, "rules") {
        Some(YamlValue::Sequence(items)) => Some(items.iter().map(gl_rule).collect()),
        _ => None,
    };
    job
}

fn gl_pipeline(typed_input: &YamlValue) -> Pipeline {
    let mut jobs: NamedMap<Job> = NamedMap::new();
    let fields = ["image", "variables", "stages", "before_script", "after_script", "default", "workflow", "include"];
    if let YamlValue::Mapping(pairs) = typed_input {
        for (k, v) in pairs {
            let name = gl_str(k).unwrap();
            if !fields.contains(&name.as_str()) {
                jobs.insert(name, gl_job(v));
            }
        }
    }
    Pipeline {
        image: None,
        variables: None,
        stages: gl_strings(gl_field(typed_input, "stages")),
        before_script: None,
        after_script: None,
        default: None,
        jobs,
        workflow: None,
        includes: None,
        has_unresolved_includes: false,
    }
}

/// The library's steps of parsing a pipeline document without include files
/// on disk: reading, includes, pre-scan, reference resolution, preparation,
/// the typed fields used here, then the checks on the parsed pipeline.
/// A GitLab CI schema for these scenarios: stages are strings, and every other
/// root entry is an object or a list, reached through `$ref`.
const GL_SCHEMA: &str = r##"{
  "type": "object",
  "properties": { "stages": { "$ref": "#/definitions/names" } },
  "additionalProperties": { "$ref": "#/definitions/entry" },
  "definitions": {
    "names": { "type": "array", "items": { "type": "string" } },
    "entry": { "type": ["object", "array"] }
  }
}"##;

fn gl_run(text: &str) -> Result<Pipeline, GitlabParserError> {
    let yaml = load_pipeline_document(text)?;
    let contents: Vec<Option<String>> = local_include_paths(&yaml).iter().map(|_| None).collect();
    let includes: ResolvedPipeline = resolve_includes(&yaml, &contents);
    let prepared = prepare_pipeline(&includes.merged_yaml);
    let validator = SchemaValidator::new(r#"{"type": "object"}"#, GL_SCHEMA).unwrap();
    assert!(validator.has_descending_refs(wrkflw_parser::schema::SchemaType::GitLab));
    check_pipeline_schema(&validator, &prepared.resolved_yaml)?;
    let pipeline = gl_pipeline(&prepared.typed_input);
    check_parsed_pipeline(pipeline, &prepared.tagged_extends_jobs, &prepared.reference_issues, &includes)
}

fn gl_structure_message(r: Result<Pipeline, GitlabParserError>) -> String {
    match r {
        Err(GitlabParserError::InvalidStructure(m)) => m,
        Err(other) => panic!("unexpected error {:?}", other),
        Ok(_) => panic!("expected the pipeline to be rejected"),
    }
}

#[test]
fn test_parse_simple_pipeline() {
    let pipeline = gl_run(
        r#"
stages:
  - build
  - test

build_job:
  stage: build
  script:
    - echo "Building..."
    - make build

test_job:
  stage: test
  script:
    - echo "Testing..."
    - make test
"#,
    )
    .unwrap();
    assert_eq!(pipeline.stages.as_ref().unwrap().len(), 2);
    assert_eq!(pipeline.jobs.len(), 2);
    let build_job = pipeline.jobs.get("build_job").unwrap();
    assert_eq!(build_job.stage.as_ref().unwrap(), "build");
    assert_eq!(build_job.script.as_ref().unwrap().len(), 2);
    let test_job = pipeline.jobs.get("test_job").unwrap();
    assert_eq!(test_job.stage.as_ref().unwrap(), "test");
    assert_eq!(test_job.script.as_ref().unwrap().len(), 2);
}

#[test]
fn test_parse_pipeline_with_references() {
    let pipeline = gl_run(
        r#"
.rules:
  rules:
    - if: $CI_COMMIT_BRANCH == "main"
      when: always
    - if: $CI_PIPELINE_SOURCE == "merge_request_event"
      when: manual

build:
  stage: build
  script:
    - echo "Building..."
  rules: !reference [.rules, rules]
"#,
    )
    .unwrap();
    let rules = pipeline.jobs.get("build").unwrap().rules.as_ref().unwrap();
    assert_eq!(rules.len(), 2);
    if let Rule::Structured { if_, when, variables } = &rules[0] {
        assert_eq!(if_.as_deref(), Some("$CI_COMMIT_BRANCH == \"main\""));
        assert_eq!(when.as_deref(), Some("always"));
        assert!(variables.is_none());
    } else {
        panic!("Expected Rule::Structured for rules[0]");
    }
    if let Rule::Structured { if_, when, variables } = &rules[1] {
        assert_eq!(if_.as_deref(), Some("$CI_PIPELINE_SOURCE == \"merge_request_event\""));
        assert_eq!(when.as_deref(), Some("manual"));
        assert!(variables.is_none());
    } else {
        panic!("Expected Rule::Structured for rules[1]");
    }
}

#[test]
fn test_parse_pipeline_with_external_references() {
    let pipeline = gl_run(
        r#"
stages:
  - build

build:
  stage: build
  script:
    - echo "Building..."
  rules:
    - !reference [.rules, except_config]
"#,
    )
    .unwrap();
    let rules = pipeline.jobs.get("build").unwrap().rules.as_ref().unwrap();
    assert_eq!(rules.len(), 2);
    match &rules[0] {
        Rule::Raw(value) => assert!(matches!(value, YamlValue::String(s) if s == ".rules")),
        _ => panic!("Expected Rule::Raw for unresolved reference"),
    }
    match &rules[1] {
        Rule::Raw(value) => assert!(matches!(value, YamlValue::String(s) if s == "except_config")),
        _ => panic!("Expected Rule::Raw for unresolved reference"),
    }
}

#[test]
fn test_parse_pipeline_reference_in_script() {
    let pipeline = gl_run(
        r#"
.scripts:
  script:
    - echo "build step 1"
    - echo "build step 2"

build:
  stage: build
  script: !reference [.scripts, script]

test:
  stage: test
  script: !reference [.nonexistent, script]
"#,
    )
    .unwrap();
    let build_script = pipeline.jobs.get("build").unwrap().script.as_ref().unwrap();
    assert_eq!(build_script.len(), 2);
    assert_eq!(build_script[0], "echo \"build step 1\"");
    assert_eq!(build_script[1], "echo \"build step 2\"");
    let test_script = pipeline.jobs.get("test").unwrap().script.as_ref().unwrap();
    assert_eq!(test_script.len(), 2);
    assert_eq!(test_script[0], ".nonexistent");
    assert_eq!(test_script[1], "script");
}

#[test]
fn test_parse_pipeline_reference_in_before_after_script() {
    let pipeline = gl_run(
        r#"
.templates:
  before_script:
    - export VAR=hello
  after_script:
    - echo "Cleanup"

build:
  stage: build
  script:
    - echo "Building..."
  before_script: !reference [.templates, before_script]
  after_script: !reference [.templates, after_script]
"#,
    )
    .unwrap();
    let build_job = pipeline.jobs.get("build").unwrap();
    let before_script = build_job.before_script.as_ref().unwrap();
    assert_eq!(before_script.len(), 1);
    assert_eq!(before_script[0], "export VAR=hello");
    let after_script = build_job.after_script.as_ref().unwrap();
    assert_eq!(after_script.len(), 1);
    assert_eq!(after_script[0], "echo \"Cleanup\"");
}

#[test]
fn test_parse_pipeline_reference_in_extends() {
    let pipeline = gl_run(
        r#"
.templates:
  extends:
    - .base-job
    - .default-job

stages:
  - build

build:
  stage: build
  script:
    - echo "Building..."
  extends: !reference [.templates, extends]
"#,
    )
    .unwrap();
    let extends = pipeline.jobs.get("build").unwrap().extends.as_ref().unwrap();
    assert_eq!(extends.len(), 2);
    assert_eq!(extends[0], ".base-job");
    assert_eq!(extends[1], ".default-job");
}

#[test]
fn test_parse_pipeline_reference_in_dependencies() {
    let pipeline = gl_run(
        r#"
.deps:
  dependencies:
    - build
    - test

stages:
  - build
  - test
  - deploy

build:
  stage: build
  script:
    - echo "Building..."

test:
  stage: test
  script:
    - echo "Testing..."

deploy:
  stage: deploy
  script:
    - echo "Deploying..."
  dependencies: !reference [.deps, dependencies]
"#,
    )
    .unwrap();
    let dependencies = pipeline.jobs.get("deploy").unwrap().dependencies.as_ref().unwrap();
    assert_eq!(dependencies.len(), 2);
    assert_eq!(dependencies[0], "build");
    assert_eq!(dependencies[1], "test");
}

#[test]
fn test_parse_pipeline_extends_reference_undeclared_target() {
    let pipeline = gl_run(
        r#"
stages:
  - build

build:
  stage: build
  script:
    - echo "Building..."
  extends: !reference [.templates, build_job]
"#,
    )
    .unwrap();
    let extends = pipeline.jobs.get("build").unwrap().extends.as_ref().unwrap();
    assert_eq!(extends.len(), 2);
    assert_eq!(extends[0], ".templates");
    assert_eq!(extends[1], "build_job");
}

#[test]
fn test_validate_regular_extends_still_validates() {
    let result = gl_run(
        r#"
stages:
  - build

build:
  stage: build
  script:
    - echo "Building..."
  extends: nonexistent_job
"#,
    );
    assert!(result.is_err());
    let err = gl_structure_message(result);
    assert!(err.contains("extends undefined"));
    assert!(err.contains("nonexistent_job"));
}

#[test]
fn all_structural_issues_are_joined_in_order() {
    let err = gl_structure_message(gl_run(
        r#"
stages:
  - build

lint:
  stage: check

deploy:
  stage: build
  script: ./deploy.sh
  dependencies: [compile]
  extends: .missing
"#,
    ));
    assert_eq!(
        err,
        "Job 'lint' must have a script section, extend another job, or define a trigger; \
         Job 'lint' references undefined stage 'check'; \
         Job 'deploy' depends on undefined job 'compile'; \
         Job 'deploy' extends undefined job '.missing'"
    );
}

#[test]
fn pipeline_without_jobs_is_rejected() {
    let err = gl_structure_message(gl_run("stages:\n  - build\n"));
    assert_eq!(err, "Pipeline must contain at least one job");
}

#[test]
fn hidden_and_template_jobs_need_no_script() {
    let pipeline = gl_run(
        r#"
.hidden:
  stage: nowhere
tmpl:
  template: true
build:
  script: make
"#,
    )
    .unwrap();
    assert_eq!(pipeline.jobs.len(), 3);
}

#[test]
fn trigger_job_needs_no_script_and_builtin_stages_are_known() {
    let pipeline = gl_run(
        r#"
stages: [build]
downstream:
  stage: .pre
  trigger: group/project
cleanup:
  stage: .post
  script: rm -rf out
"#,
    );
    assert!(pipeline.is_ok());
}

#[test]
fn unresolved_include_skips_dependency_and_extends_checks() {
    let text = r#"
include:
  - project: group/templates
    file: base.yml
build:
  script: make
  extends: .from-project
  dependencies: [prepare]
"#;
    let pipeline = gl_run(text).unwrap();
    assert!(pipeline.has_unresolved_includes);
}

#[test]
fn failed_local_include_is_reported_after_structural_issues() {
    let err = gl_structure_message(gl_run(
        r#"
include:
  - local: missing.yml
lint:
  stage: check
"#,
    ));
    assert_eq!(
        err,
        "Job 'lint' must have a script section, extend another job, or define a trigger; \
         Failed to resolve local include 'missing.yml': file not found or invalid"
    );
}

#[test]
fn has_tagged_reference_looks_into_sequences_only() {
    assert!(has_tagged_reference(&gl_parse("!reference [a, b]")));
    assert!(has_tagged_reference(&gl_parse("[x, !reference [a, b]]")));
    assert!(!has_tagged_reference(&gl_parse("[x, y]")));
    assert!(!has_tagged_reference(&gl_parse("{k: !reference [a, b]}")));
    assert!(!has_tagged_reference(&gl_parse("!other [a, b]")));
}

#[test]
fn scan_tagged_extends_lists_visible_jobs_in_order() {
    let doc = gl_parse(
        r#"
.hidden:
  extends: !reference [a, b]
one:
  extends: !reference [a, b]
two:
  extends: plain
three:
  extends:
    - x
    - !reference [c, d]
four: [1, 2]
"#,
    );
    assert_eq!(scan_tagged_extends(&doc), vec!["one", "three"]);
    assert!(scan_tagged_extends(&gl_parse("[1, 2]")).is_empty());
}

#[test]
fn filter_root_keeps_pipeline_fields_and_mappings() {
    let doc = gl_parse(
        r#"
stages: [build]
.anchor_list: [a, b]
variables:
  A: "1"
build:
  script: make
note: just text
"#,
    );
    let filtered = filter_root_for_deserialization(&doc);
    let keys: Vec<String> = match &filtered {
        YamlValue::Mapping(pairs) => pairs.iter().map(|(k, _)| gl_str(k).unwrap()).collect(),
        _ => panic!("not a mapping"),
    };
    assert_eq!(keys, vec!["stages", "variables", "build"]);
}

#[test]
fn splice_flattens_nested_lists_in_reference_fields_only() {
    let doc = gl_parse(
        r#"
build:
  script:
    - [a, b]
    - c
  tags:
    - [x, y]
"#,
    );
    let spliced = splice_reference_lists(&doc);
    let build = gl_field(&spliced, "build").unwrap();
    assert_eq!(gl_strings(gl_field(build, "script")).unwrap(), vec!["a", "b", "c"]);
    match gl_field(build, "tags").unwrap() {
        YamlValue::Sequence(items) => {
            assert_eq!(items.len(), 1);
            assert!(matches!(&items[0], YamlValue::Sequence(inner) if inner.len() == 2));
        }
        _ => panic!("tags is a list"),
    }
}

#[test]
fn prepare_pipeline_reports_tagged_extends_before_resolution() {
    let doc = gl_parse(
        r#"
.base:
  script: make
build:
  extends: !reference [.base, script]
"#,
    );
    let prepared = prepare_pipeline(&doc);
    assert_eq!(prepared.tagged_extends_jobs, vec!["build"]);
    let build = gl_field(&prepared.resolved_yaml, "build").unwrap();
    assert!(matches!(gl_field(build, "extends"), Some(YamlValue::String(s)) if s == "make"));
}

#[test]
fn validate_structure_marks_validity() {
    let mut jobs: NamedMap<Job> = NamedMap::new();
    let mut job = gl_empty_job();
    job.extends = Some(vec!["ghost".to_string()]);
    jobs.insert("build".to_string(), job);
    let pipeline = Pipeline {
        image: None,
        variables: None,
        stages: None,
        before_script: None,
        after_script: None,
        default: None,
        jobs,
        workflow: None,
        includes: None,
        has_unresolved_includes: false,
    };
    let checked = validate_pipeline_structure(&pipeline, &Vec::new(), false);
    assert!(!checked.is_valid);
    assert_eq!(checked.issues, vec!["Job 'build' extends undefined job 'ghost'"]);
    let skipped = validate_pipeline_structure(&pipeline, &vec!["build".to_string()], false);
    assert!(skipped.is_valid);
    assert!(skipped.issues.is_empty());
    let unresolved = validate_pipeline_structure(&pipeline, &Vec::new(), true);
    assert!(unresolved.is_valid);
}

#[test]
fn reference_of_the_wrong_type_keeps_its_path_and_is_reported() {
    let text = r#"
stages: [build]
.tmpl:
  script:
    a: 1
build:
  stage: build
  script: !reference [.tmpl, script]
"#;
    let doc = load_pipeline_document(text).unwrap();
    let prepared = prepare_pipeline(&doc);
    let build = gl_field(&prepared.resolved_yaml, "build").unwrap();
    assert_eq!(gl_strings(gl_field(build, "script")).unwrap(), vec![".tmpl", "script"]);
    assert_eq!(
        prepared.reference_issues,
        vec!["Job 'build': !reference in 'script' resolves to a value of the wrong type; its path is kept"]
    );
    let tmpl = gl_field(&prepared.resolved_yaml, ".tmpl").unwrap();
    assert!(matches!(gl_field(tmpl, "script"), Some(YamlValue::Mapping(_))));
}

#[test]
fn reference_of_the_right_type_is_not_reported() {
    let doc = gl_parse(
        r#"
.tmpl:
  rules:
    - when: always
build:
  script: !reference [.tmpl, rules]
  rules: !reference [.tmpl, rules]
"#,
    );
    let prepared = prepare_pipeline(&doc);
    assert_eq!(
        prepared.reference_issues,
        vec!["Job 'build': !reference in 'script' resolves to a value of the wrong type; its path is kept"]
    );
    let build = gl_field(&prepared.resolved_yaml, "build").unwrap();
    assert!(matches!(gl_field(build, "rules"), Some(YamlValue::Sequence(items)) if items.len() == 1));
    let (same, none) = reference_fallback(&gl_parse("a: 1"), &gl_parse("a: 1"));
    assert!(none.is_empty());
    assert!(wrkflw_parser::yaml::yaml_eq(&same, &gl_parse("a: 1")));
}

#[test]
fn wrong_type_reference_makes_the_pipeline_invalid() {
    let err = gl_structure_message(gl_run(
        r#"
.tmpl:
  settings:
    script:
      a: 1
build:
  script: !reference [.tmpl, settings, script]
"#,
    ));
    assert_eq!(err, "Job 'build': !reference in 'script' resolves to a value of the wrong type; its path is kept");
}

#[test]
fn pipeline_text_that_is_not_yaml_is_a_yaml_error() {
    match load_pipeline_document("key: [unclosed\n") {
        Err(GitlabParserError::YamlError(m)) => assert!(!m.is_empty()),
        other => panic!("unexpected {:?}", other),
    }
}

#[test]
fn resolved_document_is_checked_against_the_gitlab_schema() {
    let validator = SchemaValidator::new(
        r#"{"type": "object"}"#,
        r#"{"type": "object", "properties": {"stages": {"type": "array"}}}"#,
    )
    .unwrap();
    assert!(validator.has_descending_refs(wrkflw_parser::schema::SchemaType::GitLab));
    assert!(check_pipeline_schema(&validator, &gl_parse("stages: [build]\n")).is_ok());
    match check_pipeline_schema(&validator, &gl_parse("stages: build\n")) {
        Err(GitlabParserError::SchemaValidationError(m)) => {
            assert!(m.starts_with("GitLab CI validation failed:\n- "), "{}", m)
        }
        other => panic!("unexpected {:?}", other),
    }
    match check_pipeline_schema(&validator, &gl_parse("? [a, b]\n: 1\n")) {
        Err(GitlabParserError::InvalidStructure(m)) => {
            assert!(m.starts_with("Failed to convert YAML to JSON: "), "{}", m)
        }
        other => panic!("unexpected {:?}", other),
    }
}

#[test]
fn schema_violation_stops_the_parse() {
    match gl_run("stages: [1]\nbuild:\n  script: make\n") {
        Err(GitlabParserError::SchemaValidationError(m)) => {
            assert!(m.starts_with("GitLab CI validation failed:\n- "), "{}", m)
        }
        other => panic!("unexpected {:?}", other),
    }
}
