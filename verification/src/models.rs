//! The pipeline model: validation results and the typed GitLab CI pipeline.
use vstd::prelude::*;
use vstd::string::*;
use crate::yaml::{Yaml, YamlValue};
use crate::reading::{trim_text, trimmed, write_yaml, yaml_text};

verus! {

/// The outcome of a validation: valid until an issue is added.
#[derive(Debug, Clone)]
pub struct ValidationResult {
    pub is_valid: bool,
    pub issues: Vec<String>,
}

impl ValidationResult {
    pub fn new() -> (r: ValidationResult)
        ensures
            r.is_valid,
            r.issues@.len() == 0,
    {
        ValidationResult { is_valid: true, issues: Vec::new() }
    }

    pub fn add_issue(&mut self, issue: String)
        ensures
            !final(self).is_valid,
            final(self).issues@ == old(self).issues@.push(issue),
    {
        self.is_valid = false;
        self.issues.push(issue);
    }
}

impl Default for ValidationResult {
    fn default() -> (r: ValidationResult)
        ensures
            r.is_valid,
            r.issues@.len() == 0,
    {
        ValidationResult::new()
    }
}

/// A map from names to values that keeps insertion order.
#[derive(Debug, Clone)]
pub struct NamedMap<V> {
    pub entries: Vec<(String, V)>,
}

/// The names of the entries, in order.
pub open spec fn names_of<V>(entries: Seq<(String, V)>) -> Seq<Seq<char>> {
    Seq::new(entries.len(), |i: int| entries[i].0@)
}

/// No two entries have the same name.
pub open spec fn distinct_names<V>(entries: Seq<(String, V)>) -> bool {
    forall|i: int, j: int| 0 <= i < j < entries.len() ==> (#[trigger] entries[i]).0@ != (#[trigger] entries[j]).0@
}

/// The value of the first entry named `k`.
pub open spec fn value_of<V>(entries: Seq<(String, V)>, k: Seq<char>) -> V {
    entries[choose|i: int| 0 <= i < entries.len() && entries[i].0@ == k && forall|j: int| 0 <= j < i ==> #[trigger] entries[j].0@ != k].1
}

/// The entries as a map from names to values (the first entry of a name wins).
pub open spec fn map_of<V>(entries: Seq<(String, V)>) -> Map<Seq<char>, V> {
    Map::new(|k: Seq<char>| names_of(entries).contains(k), |k: Seq<char>| value_of(entries, k))
}

/// The first entry named `k` is at `i`.
pub open spec fn first_named<V>(entries: Seq<(String, V)>, k: Seq<char>, i: int) -> bool {
    0 <= i < entries.len() && entries[i].0@ == k && forall|j: int| 0 <= j < i ==> #[trigger] entries[j].0@ != k
}

pub proof fn lemma_value_of<V>(entries: Seq<(String, V)>, k: Seq<char>, i: int)
    requires
        first_named(entries, k, i),
    ensures
        value_of(entries, k) == entries[i].1,
{
    let c = choose|c: int| 0 <= c < entries.len() && entries[c].0@ == k && forall|j: int| 0 <= j < c ==> #[trigger] entries[j].0@ != k;
    assert(first_named(entries, k, c));
    if c < i {
        assert(entries[c].0@ != k);
    } else if i < c {
        assert(entries[i].0@ != k);
    }
}

/// Every name present has a first entry.
pub proof fn lemma_first_named_exists<V>(entries: Seq<(String, V)>, k: Seq<char>, i: int)
    requires
        0 <= i < entries.len(),
        entries[i].0@ == k,
    ensures
        exists|f: int| first_named(entries, k, f),
    decreases i,
{
    if forall|j: int| 0 <= j < i ==> #[trigger] entries[j].0@ != k {
        assert(first_named(entries, k, i));
    } else {
        let j = choose|j: int| 0 <= j < i && !(#[trigger] entries[j].0@ != k);
        lemma_first_named_exists(entries, k, j);
    }
}

/// Inserting into the entries keeps the map view in step with `Map::insert`.
pub proof fn lemma_map_of_update<V>(entries: Seq<(String, V)>, p: int, v: V)
    requires
        0 <= p < entries.len(),
        forall|j: int| 0 <= j < p ==> #[trigger] entries[j].0@ != entries[p].0@,
    ensures
        map_of(entries.update(p, (entries[p].0, v))) == map_of(entries).insert(entries[p].0@, v),
{
    let k = entries[p].0@;
    let e2 = entries.update(p, (entries[p].0, v));
    assert(names_of(e2) =~= names_of(entries));
    assert forall|n: Seq<char>| #[trigger] map_of(e2).dom().contains(n) implies map_of(e2)[n] == map_of(entries).insert(k, v)[n] by {
        let i = choose|i: int| 0 <= i < names_of(e2).len() && names_of(e2)[i] == n;
        lemma_first_named_exists(e2, n, i);
        let f = choose|f: int| first_named(e2, n, f);
        lemma_value_of(e2, n, f);
        assert(first_named(entries, n, f)) by {
            assert forall|j: int| 0 <= j < f implies #[trigger] entries[j].0@ != n by {
                assert(e2[j].0@ == entries[j].0@);
            }
        }
        lemma_value_of(entries, n, f);
        if n == k {
            assert(first_named(entries, k, p));
            lemma_value_of(entries, k, p);
            if f < p {
                assert(entries[f].0@ != k);
            } else if p < f {
                assert(e2[p].0@ == k);
            }
        } else {
            assert(f != p);
        }
    }
    assert(names_of(entries)[p] == k);
    assert(map_of(e2).dom() =~= map_of(entries).insert(k, v).dom());
    assert(map_of(e2) =~= map_of(entries).insert(k, v));
}

pub proof fn lemma_map_of_push<V>(entries: Seq<(String, V)>, name: String, v: V)
    requires
        !names_of(entries).contains(name@),
    ensures
        map_of(entries.push((name, v))) == map_of(entries).insert(name@, v),
        distinct_names(entries) ==> distinct_names(entries.push((name, v))),
{
    let e2 = entries.push((name, v));
    assert(names_of(e2) =~= names_of(entries).push(name@));
    assert forall|n: Seq<char>| #[trigger] map_of(e2).dom().contains(n) implies map_of(e2)[n] == map_of(entries).insert(name@, v)[n] by {
        if n == name@ {
            assert forall|j: int| 0 <= j < entries.len() implies #[trigger] e2[j].0@ != n by {
                assert(names_of(entries)[j] == entries[j].0@);
            }
            assert(first_named(e2, n, entries.len() as int));
            lemma_value_of(e2, n, entries.len() as int);
        } else {
            let i = choose|i: int| 0 <= i < names_of(e2).len() && names_of(e2)[i] == n;
            lemma_first_named_exists(e2, n, i);
            let f = choose|f: int| first_named(e2, n, f);
            lemma_value_of(e2, n, f);
            assert(f < entries.len());
            assert(first_named(entries, n, f)) by {
                assert forall|j: int| 0 <= j < f implies #[trigger] entries[j].0@ != n by {
                    assert(e2[j] == entries[j]);
                }
            }
            lemma_value_of(entries, n, f);
        }
    }
    assert forall|n: Seq<char>| map_of(entries).insert(name@, v).dom().contains(n) implies #[trigger] map_of(e2).dom().contains(n) by {
        if n == name@ {
            assert(names_of(e2)[entries.len() as int] == n);
        } else {
            let i = choose|i: int| 0 <= i < names_of(entries).len() && names_of(entries)[i] == n;
            assert(names_of(e2)[i] == n);
        }
    }
    assert(map_of(e2).dom() =~= map_of(entries).insert(name@, v).dom());
    assert(map_of(e2) =~= map_of(entries).insert(name@, v));
    if distinct_names(entries) {
        assert forall|i: int, j: int| 0 <= i < j < e2.len() implies (#[trigger] e2[i]).0@ != (#[trigger] e2[j]).0@ by {
            if j == entries.len() {
                assert(names_of(entries)[i] == entries[i].0@);
            } else {
                assert(e2[i] == entries[i] && e2[j] == entries[j]);
            }
        }
    }
}

impl<V> NamedMap<V> {
    /// Well-formedness: no two entries share a name, as in the hash maps a
    /// pipeline document is read into. `new` gives a well-formed map and
    /// `insert` and `insert_if_absent` keep it so.
    pub open spec fn wf(&self) -> bool {
        distinct_names(self.entries@)
    }

    /// The entries as a map from names to values.
    pub open spec fn map_view(&self) -> Map<Seq<char>, V> {
        map_of(self.entries@)
    }

    pub fn new() -> (r: NamedMap<V>)
        ensures
            r.entries@.len() == 0,
            r.wf(),
    {
        NamedMap { entries: Vec::new() }
    }

    pub open spec fn names(&self) -> Seq<Seq<char>> {
        names_of(self.entries@)
    }

    pub open spec fn has(&self, name: Seq<char>) -> bool {
        self.names().contains(name)
    }

    pub fn len(&self) -> (r: usize)
        ensures
            r == self.entries@.len(),
    {
        self.entries.len()
    }

    pub fn is_empty(&self) -> (r: bool)
        ensures
            r == (self.entries@.len() == 0),
    {
        self.entries.len() == 0
    }

    /// The position of the first entry named `name`.
    pub fn position(&self, name: &str) -> (r: Option<usize>)
        ensures
            match r {
                Some(i) => i < self.entries@.len() && self.entries@[i as int].0@ == name@ && forall|j: int|
                    0 <= j < i ==> #[trigger] self.entries@[j].0@ != name@,
                None => !self.has(name@),
            },
    {
        let key = String::from_str(name);
        let mut i: usize = 0;
        while i < self.entries.len()
            invariant
                i <= self.entries@.len(),
                key@ == name@,
                forall|j: int| 0 <= j < i ==> #[trigger] self.entries@[j].0@ != name@,
            decreases self.entries@.len() - i,
        {
            if self.entries[i].0.eq(&key) {
                return Some(i);
            }
            i = i + 1;
        }
        proof {
            if self.has(name@) {
                let k = choose|k: int| 0 <= k < self.names().len() && self.names()[k] == name@;
                assert(self.entries@[k].0@ != name@);
            }
        }
        None
    }

    pub fn contains_key(&self, name: &str) -> (r: bool)
        ensures
            r == self.has(name@),
    {
        let p = self.position(name);
        proof {
            if let Some(i) = p {
                assert(self.names()[i as int] == name@);
            }
        }
        p.is_some()
    }

    /// The value of the first entry named `name`.
    pub fn get(&self, name: &str) -> (r: Option<&V>)
        ensures
            match r {
                Some(v) => exists|i: int|
                    0 <= i < self.entries@.len() && self.entries@[i].0@ == name@ && *v == (#[trigger] self.entries@[i]).1,
                None => !self.has(name@),
            },
    {
        match self.position(name) {
            Some(i) => Some(&self.entries[i].1),
            None => None,
        }
    }

    /// Sets the value of the entry named `name`, appending a new entry when
    /// there is none.
    pub fn insert(&mut self, name: String, value: V)
        ensures
            final(self).map_view() == old(self).map_view().insert(name@, value),
            old(self).wf() ==> final(self).wf(),
    {
        let p = self.position(name.as_str());
        match p {
            Some(i) => {
                let ghost before = self.entries@;
                let k = self.entries[i].0.clone();
                self.entries.set(i, (k, value));
                proof {
                    assert(self.entries@ == before.update(i as int, (before[i as int].0, value)));
                    lemma_map_of_update(before, i as int, value);
                    if distinct_names(before) {
                        assert forall|a: int, b: int| 0 <= a < b < self.entries@.len() implies (#[trigger] self.entries@[a]).0@
                            != (#[trigger] self.entries@[b]).0@ by {
                            assert(self.entries@[a].0@ == before[a].0@);
                            assert(self.entries@[b].0@ == before[b].0@);
                        }
                    }
                }
            },
            None => {
                let ghost before = self.entries@;
                let ghost nm = name;
                self.entries.push((name, value));
                proof {
                    lemma_map_of_push(before, nm, value);
                }
            },
        }
    }

    /// Adds an entry named `name` unless there is one already.
    pub fn insert_if_absent(&mut self, name: String, value: V)
        ensures
            final(self).map_view() == if old(self).map_view().dom().contains(name@) {
                old(self).map_view()
            } else {
                old(self).map_view().insert(name@, value)
            },
            old(self).wf() ==> final(self).wf(),
    {
        if !self.contains_key(name.as_str()) {
            self.insert(name, value);
        }
    }
}

/// Docker image configuration.
#[derive(Debug, Clone)]
pub enum Image {
    /// Simple image name as string
    Simple(String),
    /// Detailed image configuration
    Detailed { name: String, entrypoint: Option<Vec<String>> },
}

/// Service container to run alongside a job.
#[derive(Debug, Clone)]
pub enum Service {
    /// Simple service name as string
    Simple(String),
    /// Detailed service configuration
    Detailed { name: String, command: Option<Vec<String>>, entrypoint: Option<Vec<String>> },
}

/// Artifacts configuration.
#[derive(Debug, Clone)]
pub struct Artifacts {
    pub paths: Option<Vec<String>>,
    pub expire_in: Option<String>,
    pub when: Option<String>,
    pub reports: Option<YamlValue>,
}

/// Cache key configuration.
#[derive(Debug, Clone)]
pub enum CacheKey {
    /// Simple string key
    Simple(String),
    /// Structured key with files and optional prefix
    Structured { files: Vec<String>, prefix: Option<String> },
}

/// Cache configuration.
#[derive(Debug, Clone)]
pub struct Cache {
    pub key: Option<CacheKey>,
    pub paths: Option<Vec<String>>,
    pub when: Option<String>,
    pub policy: Option<String>,
}

/// Rule for conditional job execution.
#[derive(Debug, Clone)]
pub enum Rule {
    /// Normal structured rule with if/when/variables
    Structured { if_: Option<String>, when: Option<String>, variables: Option<NamedMap<String>> },
    /// Anything else, such as an unresolved `!reference` path, kept as written
    Raw(YamlValue),
}

/// Only configuration.
#[derive(Debug, Clone)]
pub enum Only {
    /// Simple list of refs
    Refs(Vec<String>),
    /// Detailed configuration
    Complex {
        refs: Option<Vec<String>>,
        branches: Option<Vec<String>>,
        tags: Option<Vec<String>>,
        variables: Option<Vec<String>>,
        changes: Option<Vec<String>>,
    },
}

/// Except configuration.
#[derive(Debug, Clone)]
pub enum Except {
    /// Simple list of refs
    Refs(Vec<String>),
    /// Detailed configuration
    Complex {
        refs: Option<Vec<String>>,
        branches: Option<Vec<String>>,
        tags: Option<Vec<String>>,
        variables: Option<Vec<String>>,
        changes: Option<Vec<String>>,
    },
}

/// Workflow configuration.
#[derive(Debug, Clone)]
pub struct Workflow {
    pub rules: Vec<Rule>,
}

/// Retry configuration.
#[derive(Debug, Clone)]
pub enum Retry {
    /// Simple max attempts
    MaxAttempts(u32),
    /// Detailed retry configuration
    Detailed { max: u32, when: Option<Vec<String>> },
}

/// Include configuration for external pipeline files.
#[derive(Debug, Clone)]
pub enum Include {
    /// Simple string include
    Local(String),
    /// Detailed include configuration
    Detailed {
        local: Option<String>,
        remote: Option<String>,
        project: Option<String>,
        file: Option<String>,
        template: Option<String>,
        ref_: Option<String>,
    },
}

/// A job in a GitLab CI/CD pipeline.
#[derive(Debug, Clone)]
pub struct Job {
    pub stage: Option<String>,
    pub image: Option<Image>,
    pub script: Option<Vec<String>>,
    pub before_script: Option<Vec<String>>,
    pub after_script: Option<Vec<String>>,
    pub when: Option<String>,
    pub allow_failure: Option<bool>,
    pub services: Option<Vec<Service>>,
    pub tags: Option<Vec<String>>,
    pub variables: Option<NamedMap<String>>,
    pub dependencies: Option<Vec<String>>,
    pub artifacts: Option<Artifacts>,
    pub cache: Option<Cache>,
    pub rules: Option<Vec<Rule>>,
    pub only: Option<Only>,
    pub except: Option<Except>,
    pub retry: Option<Retry>,
    pub timeout: Option<String>,
    pub parallel: Option<usize>,
    pub template: Option<bool>,
    pub extends: Option<Vec<String>>,
    pub needs: Option<YamlValue>,
    pub interruptible: Option<bool>,
    pub trigger: Option<YamlValue>,
}

/// A GitLab CI/CD pipeline configuration.
#[derive(Debug, Clone)]
pub struct Pipeline {
    pub image: Option<Image>,
    pub variables: Option<NamedMap<String>>,
    pub stages: Option<Vec<String>>,
    pub before_script: Option<Vec<String>>,
    pub after_script: Option<Vec<String>>,
    pub default: Option<YamlValue>,
    /// Job definitions (name => job), in document order
    pub jobs: NamedMap<Job>,
    pub workflow: Option<Workflow>,
    pub includes: Option<Vec<Include>>,
    /// Whether some include could not be resolved locally
    pub has_unresolved_includes: bool,
}

/// A field written either as one string or as a list of strings.
#[derive(Debug, Clone)]
pub enum StringOrVec {
    String(String),
    Vec(Vec<String>),
}

/// A field written as one string stands for the list holding that string.
pub fn string_or_vec(value: Option<StringOrVec>) -> (r: Option<Vec<String>>)
    ensures
        match value {
            Some(StringOrVec::String(s)) => r matches Some(v) && v@ == seq![s],
            Some(StringOrVec::Vec(v)) => r == Some(v),
            None => r is None,
        },
{
    match value {
        Some(StringOrVec::String(s)) => {
            let mut v: Vec<String> = Vec::new();
            v.push(s);
            Some(v)
        },
        Some(StringOrVec::Vec(v)) => Some(v),
        None => None,
    }
}

/// The text that a scalar variable value stands for: a string as it is, a
/// number by its text, a boolean as `true` or `false`, null as the empty
/// string. Other values (sequences, mappings, tagged values) have none.
pub open spec fn spec_variable_text(value: Yaml) -> Option<Seq<char>> {
    match value {
        Yaml::Str(s) => Some(s),
        Yaml::Number(n) => Some(n),
        Yaml::Bool(b) => Some(if b { "true"@ } else { "false"@ }),
        Yaml::Null => Some(Seq::empty()),
        _ => None,
    }
}

/// The text of a variable's value: a scalar's text, else its YAML text
/// without surrounding white space (empty when it cannot be written).
pub open spec fn variable_value_text(value: Yaml) -> Seq<char> {
    match spec_variable_text(value) {
        Some(t) => t,
        None => match yaml_text(value) {
            Some(t) => trimmed(t),
            None => Seq::empty(),
        },
    }
}

pub fn variable_text(value: &YamlValue) -> (r: String)
    ensures
        r@ == variable_value_text(value@),
{
    match value {
        YamlValue::String(s) => s.clone(),
        YamlValue::Number(n) => n.clone(),
        YamlValue::Bool(b) => {
            if *b {
                String::from_str("true")
            } else {
                String::from_str("false")
            }
        },
        YamlValue::Null => String::new(),
        _ => {
            match write_yaml(value) {
                Some(t) => trim_text(t.as_str()),
                None => String::new(),
            }
        },
    }
}

} // verus!
