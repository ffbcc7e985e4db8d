use wrkflw_parser::reference::{extract_path, resolve_references, walk_path, MAX_RESOLVE_DEPTH};
use wrkflw_parser::yaml::YamlValue;

fn ref_conv(v: &serde_yaml::Value) -> YamlValue {
    match v {
        serde_yaml::Value::Null => YamlValue::Null,
        serde_yaml::Value::Bool(b) => YamlValue::Bool(*b),
        serde_yaml::Value::Number(n) => YamlValue::Number(n.to_string()),
        serde_yaml::Value::String(s) => YamlValue::String(s.clone()),
        serde_yaml::Value::Sequence(items) => YamlValue::Sequence(items.iter().map(ref_conv).collect()),
        serde_yaml::Value::Mapping(m) => {
            YamlValue::Mapping(m.iter().map(|(k, v)| (ref_conv(k), ref_conv(v))).collect())
        }
        serde_yaml::Value::Tagged(t) => YamlValue::Tagged(t.tag.to_string(), Box::new(ref_conv(&t.value))),
    }
}

fn ref_parse(text: &str) -> YamlValue {
    ref_conv(&serde_yaml::from_str::<serde_yaml::Value>(text).unwrap())
}

fn ref_get<'a>(v: &'a YamlValue, key: &str) -> &'a YamlValue {
    match v {
        YamlValue::Mapping(pairs) => {
            for (k, val) in pairs {
                if let YamlValue::String(s) = k {
                    if s == key {
                        return val;
                    }
                }
            }
            panic!("key {} not found", key)
        }
        _ => panic!("not a mapping"),
    }
}

fn ref_seq(v: &YamlValue) -> &Vec<YamlValue> {
    match v {
        YamlValue::Sequence(items) => items,
        _ => panic!("not a sequence"),
    }
}

fn ref_is_str(v: &YamlValue, expected: &str) -> bool {
    matches!(v, YamlValue::String(s) if s == expected)
}

fn ref_is_tagged(v: &YamlValue) -> bool {
    matches!(v, YamlValue::Tagged(_, _))
}

fn ref_is_path_array(v: &YamlValue, expected: &[&str]) -> bool {
    match v {
        YamlValue::Sequence(seq) => {
            seq.len() == expected.len() && seq.iter().zip(expected).all(|(a, b)| ref_is_str(a, b))
        }
        _ => false,
    }
}

#[test]
fn test_resolve_simple_reference() {
    let yaml = ref_parse(
        r#"
.rules:
  rules:
    - if: '$CI_COMMIT_BRANCH == "main"'
      when: always

build:
  script: echo "hello"
  rules: !reference [.rules, rules]
"#,
    );
    let resolved = resolve_references(&yaml);
    let rules = ref_seq(ref_get(ref_get(&resolved, "build"), "rules"));
    assert_eq!(rules.len(), 1);
    assert!(ref_is_str(ref_get(&rules[0], "if"), "$CI_COMMIT_BRANCH == \"main\""));
    assert!(ref_is_str(ref_get(&rules[0], "when"), "always"));
}

#[test]
fn test_resolve_nested_path_reference() {
    let yaml = ref_parse(
        r#"
.templates:
  .jobs:
    build:
      script: echo "build"

build:
  script: !reference [.templates, .jobs, build, script]
"#,
    );
    let resolved = resolve_references(&yaml);
    let script = ref_get(ref_get(&resolved, "build"), "script");
    assert!(ref_is_str(script, "echo \"build\""));
}

#[test]
fn test_resolve_missing_target_graceful() {
    let yaml = ref_parse(
        r#"
build:
  script: echo "hello"
  rules:
    - !reference [.nonexistent, rules]
"#,
    );
    let resolved = resolve_references(&yaml);
    let rules = ref_seq(ref_get(ref_get(&resolved, "build"), "rules"));
    assert!(ref_is_path_array(&rules[0], &[".nonexistent", "rules"]));
}

#[test]
fn test_resolve_circular_reference_no_infinite_loop() {
    let yaml = ref_parse(
        r#"
job_a:
  script: !reference [job_b, script]

job_b:
  script: !reference [job_a, script]
"#,
    );
    let resolved = resolve_references(&yaml);
    let script_a = ref_get(ref_get(&resolved, "job_a"), "script");
    assert!(ref_is_path_array(script_a, &["job_b", "script"]));
    let script_b = ref_get(ref_get(&resolved, "job_b"), "script");
    assert!(ref_is_path_array(script_b, &["job_a", "script"]));
}

#[test]
fn test_resolve_malformed_tag_no_crash() {
    let yaml = ref_parse(
        r#"
build:
  script: !reference "not-an-array"
"#,
    );
    let resolved = resolve_references(&yaml);
    let script = ref_get(ref_get(&resolved, "build"), "script");
    assert!(ref_is_tagged(script));
}

#[test]
fn test_resolve_empty_path_no_crash() {
    let yaml = ref_parse(
        r#"
build:
  script: !reference []
"#,
    );
    let resolved = resolve_references(&yaml);
    let script = ref_get(ref_get(&resolved, "build"), "script");
    assert!(ref_is_tagged(script));
}

#[test]
fn test_resolve_transitive_reference() {
    let yaml = ref_parse(
        r#"
.ref:
  rules:
    - if: '$CI_COMMIT_BRANCH == "main"'
      when: always

.template:
  rules: !reference [.ref, rules]

build:
  script: echo "build"
  rules: !reference [.template, rules]
"#,
    );
    let resolved = resolve_references(&yaml);
    let rules = ref_seq(ref_get(ref_get(&resolved, "build"), "rules"));
    assert_eq!(rules.len(), 1);
    assert!(ref_is_str(ref_get(&rules[0], "if"), "$CI_COMMIT_BRANCH == \"main\""));
}

#[test]
fn test_resolve_max_depth_safety() {
    let yaml = ref_parse(
        r#"
job_0:
  script: !reference [job_1, script]
job_1:
  script: !reference [job_2, script]
job_2:
  script: !reference [job_3, script]
job_3:
  script: echo "leaf"
"#,
    );
    let resolved = resolve_references(&yaml);
    let script_0 = ref_get(ref_get(&resolved, "job_0"), "script");
    assert!(ref_is_str(script_0, "echo \"leaf\""));
}

#[test]
fn test_resolve_self_reference_cycle() {
    let yaml = ref_parse(
        r#"
job:
  script: !reference [job, script]
"#,
    );
    let resolved = resolve_references(&yaml);
    let script = ref_get(ref_get(&resolved, "job"), "script");
    assert!(ref_is_path_array(script, &["job", "script"]));
}

#[test]
fn document_without_references_is_unchanged() {
    let yaml = ref_parse(
        r#"
stages: [build, test]
build:
  stage: build
  script:
    - make
    - make check
  retry: 2
  allow_failure: true
  variables:
    A: "1"
"#,
    );
    let resolved = resolve_references(&yaml);
    assert!(wrkflw_parser::yaml::yaml_eq(&resolved, &yaml));
}

#[test]
fn other_tags_are_left_alone() {
    let yaml = ref_parse(
        r#"
build:
  script: !custom [build, script]
"#,
    );
    let resolved = resolve_references(&yaml);
    match ref_get(ref_get(&resolved, "build"), "script") {
        YamlValue::Tagged(tag, inner) => {
            assert_eq!(tag, "!custom");
            assert!(ref_is_path_array(inner, &["build", "script"]));
        }
        _ => panic!("expected the tagged node"),
    }
}

#[test]
fn reference_path_with_a_number_is_malformed() {
    let yaml = ref_parse(
        r#"
build:
  script: !reference [job, 1]
"#,
    );
    let resolved = resolve_references(&yaml);
    assert!(ref_is_tagged(ref_get(ref_get(&resolved, "build"), "script")));
}

#[test]
fn reference_into_a_sequence_item_is_not_followed() {
    let yaml = ref_parse(
        r#"
.list:
  - a
build:
  script: !reference [.list, a]
"#,
    );
    let resolved = resolve_references(&yaml);
    assert!(ref_is_path_array(ref_get(ref_get(&resolved, "build"), "script"), &[".list", "a"]));
}

#[test]
fn references_inside_sequences_and_keys_resolve() {
    let yaml = ref_parse(
        r#"
.setup:
  script: setup.sh
build:
  script:
    - !reference [.setup, script]
    - run.sh
"#,
    );
    let resolved = resolve_references(&yaml);
    let script = ref_seq(ref_get(ref_get(&resolved, "build"), "script"));
    assert_eq!(script.len(), 2);
    assert!(ref_is_str(&script[0], "setup.sh"));
    assert!(ref_is_str(&script[1], "run.sh"));
}

#[test]
fn chain_longer_than_the_depth_limit_stops() {
    let n = MAX_RESOLVE_DEPTH + 5;
    let mut text = String::new();
    for i in 0..n {
        text.push_str(&format!("job_{}:\n  script: !reference [job_{}, script]\n", i, i + 1));
    }
    text.push_str(&format!("job_{}:\n  script: echo \"leaf\"\n", n));
    let yaml = ref_parse(&text);
    let resolved = resolve_references(&yaml);
    let script_0 = ref_get(ref_get(&resolved, "job_0"), "script");
    assert!(!ref_is_str(script_0, "echo \"leaf\""));
}

#[test]
fn extract_path_reads_strings_only() {
    let good = ref_parse("[a, b, c]");
    let path = extract_path(&good).unwrap();
    assert_eq!(path, vec!["a".to_string(), "b".to_string(), "c".to_string()]);
    assert!(extract_path(&ref_parse("[a, 2]")).is_none());
    assert!(extract_path(&ref_parse("just-a-string")).is_none());
    assert_eq!(extract_path(&ref_parse("[]")).unwrap().len(), 0);
}

#[test]
fn walk_path_follows_mapping_keys() {
    let doc = ref_parse(
        r#"
a:
  b:
    c: found
"#,
    );
    let hit = walk_path(&doc, &vec!["a".to_string(), "b".to_string(), "c".to_string()]).unwrap();
    assert!(ref_is_str(hit, "found"));
    assert!(walk_path(&doc, &vec!["a".to_string(), "x".to_string()]).is_none());
    assert!(walk_path(&doc, &vec!["a".to_string(), "b".to_string(), "c".to_string(), "d".to_string()]).is_none());
    let whole = walk_path(&doc, &Vec::new()).unwrap();
    assert!(matches!(whole, YamlValue::Mapping(_)));
}

#[test]
fn resolving_twice_changes_nothing() {
    let yaml = ref_parse(
        r#"
.ref:
  rules:
    - if: '$CI_COMMIT_BRANCH == "main"'
.template:
  rules: !reference [.ref, rules]
build:
  rules: !reference [.template, rules]
  script: !reference [.missing, script]
  after_script: !reference "not-an-array"
"#,
    );
    let once = resolve_references(&yaml);
    let twice = resolve_references(&once);
    assert!(wrkflw_parser::yaml::yaml_eq(&once, &twice));
}
