use wrkflw_parser::includes::{local_include_paths, resolve_includes, ResolvedPipeline};
use wrkflw_parser::yaml::YamlValue;

fn inc_conv(v: &serde_yaml::Value) -> YamlValue {
    match v {
        serde_yaml::Value::Null => YamlValue::Null,
        serde_yaml::Value::Bool(b) => YamlValue::Bool(*b),
        serde_yaml::Value::Number(n) => YamlValue::Number(n.to_string()),
        serde_yaml::Value::String(s) => YamlValue::String(s.clone()),
        serde_yaml::Value::Sequence(items) => YamlValue::Sequence(items.iter().map(inc_conv).collect()),
        serde_yaml::Value::Mapping(m) => {
            YamlValue::Mapping(m.iter().map(|(k, v)| (inc_conv(k), inc_conv(v))).collect())
        }
        serde_yaml::Value::Tagged(t) => YamlValue::Tagged(t.tag.to_string(), Box::new(inc_conv(&t.value))),
    }
}

fn inc_parse(text: &str) -> YamlValue {
    inc_conv(&serde_yaml::from_str::<serde_yaml::Value>(text).unwrap())
}

/// Resolves the includes of `main`, where `files` stands for the files next
/// to the pipeline file: a path that is not listed cannot be read.
fn inc_resolve(main: &str, files: &[(&str, &str)]) -> ResolvedPipeline {
    let yaml = inc_parse(main);
    let paths = local_include_paths(&yaml);
    let contents: Vec<Option<String>> = paths
        .iter()
        .map(|p| files.iter().find(|(name, _)| name == p).map(|(_, content)| content.to_string()))
        .collect();
    resolve_includes(&yaml, &contents)
}

fn inc_root_keys(v: &YamlValue) -> Vec<String> {
    match v {
        YamlValue::Mapping(pairs) => pairs
            .iter()
            .filter_map(|(k, _)| match k {
                YamlValue::String(s) => Some(s.clone()),
                _ => None,
            })
            .collect(),
        _ => panic!("not a mapping"),
    }
}

fn inc_has_key(v: &YamlValue, key: &str) -> bool {
    inc_root_keys(v).iter().any(|k| k == key)
}

fn inc_get<'a>(v: &'a YamlValue, key: &str) -> &'a YamlValue {
    match v {
        YamlValue::Mapping(pairs) => pairs
            .iter()
            .find(|(k, _)| matches!(k, YamlValue::String(s) if s == key))
            .map(|(_, v)| v)
            .unwrap(),
        _ => panic!("not a mapping"),
    }
}

#[test]
fn test_resolve_local_include() {
    let resolved = inc_resolve(
        r#"
stages:
  - build

include:
  - local: .gitlab/ci/templates/.deps.yml

build:
  stage: build
  script: echo "building"
  extends: .dependencies_cache
"#,
        &[(
            ".gitlab/ci/templates/.deps.yml",
            r#"
.dependencies_cache:
  cache:
    key: node_modules
    paths:
      - node_modules/
"#,
        )],
    );
    assert!(inc_has_key(&resolved.merged_yaml, ".dependencies_cache"));
    assert!(!resolved.has_unresolved_includes);
}

#[test]
fn test_resolve_multiple_local_includes() {
    let resolved = inc_resolve(
        r#"
stages:
  - test

include:
  - local: templates/cache.yml
  - local: jobs/unit.yml
"#,
        &[
            (
                "templates/cache.yml",
                "\n.dependencies_cache:\n  cache:\n    key: node_modules\n",
            ),
            ("jobs/unit.yml", "\nunit-test:\n  stage: test\n  script: npm test\n"),
        ],
    );
    assert!(inc_has_key(&resolved.merged_yaml, ".dependencies_cache"));
    assert!(inc_has_key(&resolved.merged_yaml, "unit-test"));
    assert!(!resolved.has_unresolved_includes);
}

#[test]
fn test_project_include_marked_unresolved() {
    let resolved = inc_resolve(
        r#"
stages:
  - build

include:
  - project: technology/templates
    file: build.yml

build:
  stage: build
  script: echo "building"
"#,
        &[],
    );
    assert!(resolved.has_unresolved_includes);
}

#[test]
fn test_remote_include_marked_unresolved() {
    let resolved = inc_resolve(
        r#"
include:
  - remote: https://example.com/templates.yml

build:
  script: echo "building"
"#,
        &[],
    );
    assert!(resolved.has_unresolved_includes);
}

#[test]
fn test_template_include_marked_unresolved() {
    let resolved = inc_resolve(
        r#"
include:
  - template: Jobs/SAST.gitlab-ci.yml

build:
  script: echo "building"
"#,
        &[],
    );
    assert!(resolved.has_unresolved_includes);
}

#[test]
fn test_component_include_marked_unresolved() {
    let resolved = inc_resolve(
        r#"
include:
  - component: example.com/my-component@1.0

build:
  script: echo "building"
"#,
        &[],
    );
    assert!(resolved.has_unresolved_includes);
}

#[test]
fn test_artifact_include_marked_unresolved() {
    let resolved = inc_resolve(
        r#"
include:
  - artifact: pipeline-config.yml
    job: generate-config

build:
  script: echo "building"
"#,
        &[],
    );
    assert!(resolved.has_unresolved_includes);
}

#[test]
fn test_no_includes() {
    let resolved = inc_resolve(
        "\nstages:\n  - build\n\nbuild:\n  stage: build\n  script: echo \"building\"\n",
        &[],
    );
    assert!(!resolved.has_unresolved_includes);
    assert!(inc_has_key(&resolved.merged_yaml, "build"));
}

#[test]
fn test_string_include() {
    let resolved = inc_resolve(
        "\ninclude: child.yml\n\nparent-job:\n  script: echo \"from parent\"\n",
        &[("child.yml", "\nchild-job:\n  script: echo \"from child\"\n")],
    );
    assert!(inc_has_key(&resolved.merged_yaml, "child-job"));
    assert!(inc_has_key(&resolved.merged_yaml, "parent-job"));
}

#[test]
fn test_include_with_missing_local_file() {
    let resolved = inc_resolve(
        "\ninclude:\n  - local: nonexistent.yml\n\nbuild:\n  script: echo \"building\"\n",
        &[],
    );
    assert!(resolved.has_unresolved_includes);
    assert_eq!(resolved.failed_local_includes, vec!["nonexistent.yml"]);
    assert!(inc_has_key(&resolved.merged_yaml, "build"));
}

#[test]
fn test_mixed_local_and_project_includes() {
    let resolved = inc_resolve(
        r#"
include:
  - local: local-template.yml
  - project: technology/shared
    file: shared.yml

build:
  script: echo "building"
"#,
        &[("local-template.yml", "\n.local_template:\n  script: echo \"template\"\n")],
    );
    assert!(inc_has_key(&resolved.merged_yaml, ".local_template"));
    assert!(resolved.has_unresolved_includes);
}

#[test]
fn test_duplicate_key_override() {
    let resolved = inc_resolve(
        r#"
stages:
  - build
  - deploy

include:
  - local: override.yml

build:
  stage: build
  script: echo "original"
"#,
        &[("override.yml", "\nbuild:\n  script: echo \"overridden\"\n  stage: deploy\n")],
    );
    let build = inc_get(&resolved.merged_yaml, "build");
    assert!(matches!(inc_get(build, "script"), YamlValue::String(s) if s == "echo \"overridden\""));
}

#[test]
fn invalid_included_yaml_is_a_failed_include() {
    let resolved = inc_resolve(
        "\ninclude:\n  - local: broken.yml\n\nbuild:\n  script: make\n",
        &[("broken.yml", "key: [unclosed\n")],
    );
    assert!(resolved.has_unresolved_includes);
    assert_eq!(resolved.failed_local_includes, vec!["broken.yml"]);
}

#[test]
fn included_file_that_is_not_a_mapping_adds_nothing() {
    let resolved = inc_resolve(
        "\ninclude:\n  - local: list.yml\n\nbuild:\n  script: make\n",
        &[("list.yml", "- a\n- b\n")],
    );
    assert!(!resolved.has_unresolved_includes);
    assert!(resolved.failed_local_includes.is_empty());
    assert_eq!(inc_root_keys(&resolved.merged_yaml), vec!["include", "build"]);
}

#[test]
fn later_includes_override_earlier_and_new_keys_come_last() {
    let resolved = inc_resolve(
        "\ninclude:\n  - local: a.yml\n  - local: b.yml\n\nbuild:\n  script: main\n",
        &[("a.yml", "x:\n  script: a\nbuild:\n  script: a\n"), ("b.yml", "x:\n  script: b\n")],
    );
    assert_eq!(inc_root_keys(&resolved.merged_yaml), vec!["include", "build", "x"]);
    let x = inc_get(&resolved.merged_yaml, "x");
    assert!(matches!(inc_get(x, "script"), YamlValue::String(s) if s == "b"));
    let build = inc_get(&resolved.merged_yaml, "build");
    assert!(matches!(inc_get(build, "script"), YamlValue::String(s) if s == "a"));
}

#[test]
fn local_include_paths_lists_local_entries_in_order() {
    let yaml = inc_parse(
        r#"
include:
  - local: one.yml
  - project: group/repo
    file: x.yml
  - two.yml
  - local: 3
  - remote: https://example.com/x.yml
"#,
    );
    assert_eq!(local_include_paths(&yaml), vec!["one.yml", "two.yml"]);
    let none = inc_parse("build:\n  script: make\n");
    assert!(local_include_paths(&none).is_empty());
}

#[test]
fn non_mapping_document_is_returned_unchanged() {
    let resolved = inc_resolve("- a\n- b\n", &[]);
    assert!(matches!(resolved.merged_yaml, YamlValue::Sequence(ref items) if items.len() == 2));
    assert!(!resolved.has_unresolved_includes);
}

#[test]
fn include_of_an_unexpected_kind_is_ignored() {
    let resolved = inc_resolve("include: 42\nbuild:\n  script: make\n", &[]);
    assert!(!resolved.has_unresolved_includes);
    assert_eq!(inc_root_keys(&resolved.merged_yaml), vec!["include", "build"]);
}
