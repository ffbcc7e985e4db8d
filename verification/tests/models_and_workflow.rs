use wrkflw_parser::models::{
    string_or_vec, variable_text, Job, NamedMap, Pipeline, Service, StringOrVec, ValidationResult,
};
use wrkflw_parser::workflow::{convert_to_workflow_format, decimal_string, Step};
use wrkflw_parser::yaml::YamlValue;

fn mw_job() -> Job {
    Job {
        stage: None,
        image: None,
        script: None,
        before_script: None,
        after_script: None,
        when: None,
        allow_failure: None,
        services: None,
        tags: None,
        variables: None,
        dependencies: None,
        artifacts: None,
        cache: None,
        rules: None,
        only: None,
        except: None,
        retry: None,
        timeout: None,
        parallel: None,
        template: None,
        extends: None,
        needs: None,
        interruptible: None,
        trigger: None,
    }
}

fn mw_pipeline(jobs: NamedMap<Job>, variables: Option<NamedMap<String>>) -> Pipeline {
    Pipeline {
        image: None,
        variables,
        stages: None,
        before_script: None,
        after_script: None,
        default: None,
        jobs,
        workflow: None,
        includes: None,
        has_unresolved_includes: false,
    }
}

fn mw_vars(pairs: &[(&str, &str)]) -> NamedMap<String> {
    let mut m = NamedMap::new();
    for (k, v) in pairs {
        m.insert(k.to_string(), v.to_string());
    }
    m
}

fn mw_strings(items: &[&str]) -> Vec<String> {
    items.iter().map(|s| s.to_string()).collect()
}

#[test]
fn new_validation_result_is_valid_and_empty() {
    let r = ValidationResult::new();
    assert!(r.is_valid);
    assert!(r.issues.is_empty());
    let d = ValidationResult::default();
    assert!(d.is_valid);
    assert!(d.issues.is_empty());
}

#[test]
fn adding_an_issue_invalidates_and_keeps_order() {
    let mut r = ValidationResult::new();
    r.add_issue("first".to_string());
    r.add_issue("second".to_string());
    assert!(!r.is_valid);
    assert_eq!(r.issues, vec!["first", "second"]);
}

#[test]
fn named_map_insert_replaces_in_place_and_appends_new_names() {
    let mut m = mw_vars(&[("a", "1"), ("b", "2")]);
    m.insert("a".to_string(), "3".to_string());
    m.insert("c".to_string(), "4".to_string());
    let names: Vec<&str> = m.entries.iter().map(|(k, _)| k.as_str()).collect();
    assert_eq!(names, vec!["a", "b", "c"]);
    assert_eq!(m.get("a").unwrap(), "3");
    assert_eq!(m.len(), 3);
    assert!(m.contains_key("b"));
    assert!(!m.contains_key("z"));
    assert!(m.get("z").is_none());
    m.insert_if_absent("b".to_string(), "9".to_string());
    m.insert_if_absent("d".to_string(), "5".to_string());
    assert_eq!(m.get("b").unwrap(), "2");
    assert_eq!(m.get("d").unwrap(), "5");
    assert_eq!(m.position("d"), Some(3));
    assert!(!m.is_empty());
    assert!(NamedMap::<String>::new().is_empty());
}

#[test]
fn string_or_vec_makes_a_list() {
    assert_eq!(string_or_vec(Some(StringOrVec::String("x".to_string()))), Some(vec!["x".to_string()]));
    assert_eq!(string_or_vec(Some(StringOrVec::Vec(mw_strings(&["a", "b"])))), Some(mw_strings(&["a", "b"])));
    assert_eq!(string_or_vec(None), None);
}

#[test]
fn variable_text_of_scalars() {
    assert_eq!(variable_text(&YamlValue::String("v".to_string())), "v");
    assert_eq!(variable_text(&YamlValue::Number("42".to_string())), "42");
    assert_eq!(variable_text(&YamlValue::Bool(true)), "true");
    assert_eq!(variable_text(&YamlValue::Bool(false)), "false");
    assert_eq!(variable_text(&YamlValue::Null), "");
}

#[test]
fn variable_text_of_other_values_is_their_yaml() {
    let list = YamlValue::Sequence(vec![YamlValue::String("a".to_string()), YamlValue::Number("1".to_string())]);
    assert_eq!(variable_text(&list), "- a\n- 1");
    let map = YamlValue::Mapping(vec![(YamlValue::String("k".to_string()), YamlValue::Bool(true))]);
    assert_eq!(variable_text(&map), "k: true");
}

#[test]
fn decimal_text_of_numbers() {
    assert_eq!(decimal_string(0), "0");
    assert_eq!(decimal_string(7), "7");
    assert_eq!(decimal_string(42), "42");
    assert_eq!(decimal_string(1000), "1000");
    assert_eq!(decimal_string(90817), "90817");
}

#[test]
fn step_with_run_sets_name_and_command() {
    let s = Step::with_run("Build".to_string(), "make".to_string());
    assert_eq!(s.name.as_deref(), Some("Build"));
    assert_eq!(s.run.as_deref(), Some("make"));
    assert!(s.uses.is_none());
    assert!(s.continue_on_error.is_none());
}

#[test]
fn conversion_makes_numbered_steps_and_services() {
    let mut job = mw_job();
    job.before_script = Some(mw_strings(&["setup"]));
    job.script = Some(mw_strings(&["make", "make test"]));
    job.after_script = Some(mw_strings(&["cleanup"]));
    job.services = Some(vec![
        Service::Simple("postgres:15".to_string()),
        Service::Detailed { name: "redis:7".to_string(), command: None, entrypoint: None },
    ]);
    let mut jobs = NamedMap::new();
    jobs.insert("build".to_string(), job);
    let w = convert_to_workflow_format(&mw_pipeline(jobs, None));
    assert_eq!(w.name, "Converted GitLab CI Pipeline");
    assert_eq!(w.on, vec!["push"]);
    assert!(matches!(&w.on_raw, YamlValue::String(s) if s == "push"));
    assert!(w.env.is_empty());
    let build = w.jobs.get("build").unwrap();
    assert_eq!(build.runs_on, Some(vec!["ubuntu-latest".to_string()]));
    let steps: Vec<(String, String, Option<bool>)> = build
        .steps
        .iter()
        .map(|s| (s.name.clone().unwrap(), s.run.clone().unwrap(), s.continue_on_error))
        .collect();
    assert_eq!(
        steps,
        vec![
            ("Before script 1".to_string(), "setup".to_string(), None),
            ("Run script line 1".to_string(), "make".to_string(), None),
            ("Run script line 2".to_string(), "make test".to_string(), None),
            ("After script 1".to_string(), "cleanup".to_string(), Some(true)),
        ]
    );
    assert_eq!(build.services.get("service-0").unwrap().image, "postgres:15");
    assert_eq!(build.services.get("service-1").unwrap().image, "redis:7");
    assert_eq!(build.services.len(), 2);
}

#[test]
fn conversion_skips_templates_and_job_variables_win() {
    let mut build = mw_job();
    build.script = Some(mw_strings(&["make"]));
    build.variables = Some(mw_vars(&[("MODE", "job"), ("ONLY_JOB", "1")]));
    let mut tmpl = mw_job();
    tmpl.template = Some(true);
    let mut jobs = NamedMap::new();
    jobs.insert("build".to_string(), build);
    jobs.insert("tmpl".to_string(), tmpl);
    let globals = mw_vars(&[("MODE", "global"), ("SHARED", "yes")]);
    let w = convert_to_workflow_format(&mw_pipeline(jobs, Some(globals)));
    assert!(w.jobs.get("tmpl").is_none());
    assert_eq!(w.jobs.len(), 1);
    let env = &w.jobs.get("build").unwrap().env;
    assert_eq!(env.get("MODE").unwrap(), "job");
    assert_eq!(env.get("ONLY_JOB").unwrap(), "1");
    assert_eq!(env.get("SHARED").unwrap(), "yes");
    assert_eq!(env.len(), 3);
}
