//! The GitLab CI pipeline checks: the pre-scan for `!reference` in `extends`,
//! the preparation of a resolved document for typed deserialization, and the
//! structural validation of a parsed pipeline.
use vstd::prelude::*;
use vstd::string::*;
use crate::models::{names_of, Job, NamedMap, Pipeline, ValidationResult};
use crate::reference::{extract_path, reference_tag, resolve_references, spec_extract_path, spec_resolve_references};
use crate::text::{
    concat3, concat5, contains_string, extend_strings, flat_map, is_hidden, join, join_strings,
    lemma_flat_map_all, lemma_flat_map_contains, lemma_flat_map_forall, lemma_flat_map_step, lemma_flat_map_sub, lemma_flat_map_sub_multiset, starts_with_dot, texts,
};
use crate::yaml::{
    clone_value, distinct_keys, get_str, lemma_lookup_insert, lemma_mapping_from_distinct, lookup,
    mapping_from_pairs, mapping_insert, untag, untag_ref, view_items,
    view_pairs, Yaml, YamlValue,
};
use crate::includes::ResolvedPipeline;
use crate::reading::{json_form, json_form_error, read_yaml, to_json_form, yaml_document, yaml_syntax_error};
use crate::schema_refs::refs_descend;
use crate::schema::{schema_violation_texts, violation_report, SchemaType, SchemaValidator};

verus! {

/// Errors of pipeline parsing, each with its message.
#[derive(Debug, Clone)]
pub enum GitlabParserError {
    IoError(String),
    YamlError(String),
    InvalidStructure(String),
    SchemaValidationError(String),
}

// ---------------------------------------------------------------------------
// Pre-scan for `!reference` in `extends`

/// The node is a `!reference` tag, or a sequence holding one (at any depth
/// of nested sequences).
pub open spec fn spec_has_tagged_reference(v: Yaml) -> bool
    decreases v, 0int,
{
    match v {
        Yaml::Tagged(tag, _) => tag == reference_tag(),
        Yaml::Sequence(items) => any_has_tagged_reference(items, items.len() as int),
        _ => false,
    }
}

/// One of the first `n` items has a `!reference` tag.
pub open spec fn any_has_tagged_reference(items: Seq<Yaml>, n: int) -> bool
    decreases items, n,
{
    if n <= 0 || n > items.len() {
        false
    } else {
        any_has_tagged_reference(items, n - 1) || spec_has_tagged_reference(items[n - 1])
    }
}

proof fn lemma_any_has_monotonic(items: Seq<Yaml>, n: int, m: int)
    requires
        0 <= n <= m <= items.len(),
        any_has_tagged_reference(items, n),
    ensures
        any_has_tagged_reference(items, m),
    decreases m - n,
{
    if n < m {
        lemma_any_has_monotonic(items, n, m - 1);
    }
}

/// Check if a value (or any element in a sequence) is a `!reference` tag.
pub fn has_tagged_reference(val: &YamlValue) -> (r: bool)
    ensures
        r == spec_has_tagged_reference(val@),
    decreases val,
{
    match val {
        YamlValue::Tagged(tag, _) => {
            let reference = String::from_str("!reference");
            assert(reference@ == reference_tag());
            assert(val@ is Tagged && val@->Tagged_0 == tag@);
            tag.eq(&reference)
        },
        YamlValue::Sequence(items) => {
            assert(val@ == Yaml::Sequence(view_items(items@)));
            any_tagged_reference(items)
        },
        _ => false,
    }
}

fn any_tagged_reference(items: &Vec<YamlValue>) -> (r: bool)
    ensures
        r == any_has_tagged_reference(view_items(items@), items@.len() as int),
    decreases items,
{
    let ghost iv = view_items(items@);
    let mut i: usize = 0;
    while i < items.len()
        invariant
            i <= items.len(),
            iv == view_items(items@),
            !any_has_tagged_reference(iv, i as int),
        decreases items.len() - i,
    {
        assert(iv[i as int] == items@[i as int]@);
        assert(decreases_to!(items => items@[i as int]));
        if has_tagged_reference(&items[i]) {
            proof {
                assert(any_has_tagged_reference(iv, i + 1));
                lemma_any_has_monotonic(iv, i + 1, iv.len() as int);
            }
            return true;
        }
        i = i + 1;
    }
    false
}

/// The job named by a root entry whose `extends` holds a `!reference` tag:
/// its key is a string not starting with `.`, and its value is a mapping.
pub open spec fn tagged_extends_entry(entry: (Yaml, Yaml)) -> Seq<Seq<char>> {
    match (untag(entry.0), untag(entry.1)) {
        (Yaml::Str(name), Yaml::Mapping(job)) => {
            if !is_hidden(name) && (lookup(job, Yaml::Str("extends"@)) matches Some(ext)
                && spec_has_tagged_reference(ext)) {
                seq![name]
            } else {
                Seq::empty()
            }
        },
        _ => Seq::empty(),
    }
}

/// The jobs whose `extends` field contains a `!reference` tag, in document order.
pub open spec fn spec_scan_tagged_extends(raw: Yaml) -> Seq<Seq<char>> {
    match untag(raw) {
        Yaml::Mapping(pairs) => flat_map(pairs, |e: (Yaml, Yaml)| tagged_extends_entry(e)),
        _ => Seq::empty(),
    }
}

/// Scan raw YAML for jobs whose `extends` field contains a `!reference` tag.
///
/// These jobs will have their extends replaced by a path array after
/// resolution, so downstream validators must skip "extends undefined"
/// checks for them.
pub fn scan_tagged_extends(raw: &YamlValue) -> (r: Vec<String>)
    ensures
        texts(r@) == spec_scan_tagged_extends(raw@),
{
    let mut result: Vec<String> = Vec::new();
    let pairs = match untag_ref(raw) {
        YamlValue::Mapping(p) => p,
        _ => {
            assert(texts(result@) =~= Seq::<Seq<char>>::empty());
            return result;
        },
    };
    let ghost pv = view_pairs(pairs@);
    let ghost f = |e: (Yaml, Yaml)| tagged_extends_entry(e);
    let extends_key = String::from_str("extends");
    let mut i: usize = 0;
    assert(texts(result@) =~= flat_map(pv.take(0), f));
    while i < pairs.len()
        invariant
            i <= pairs.len(),
            pv == view_pairs(pairs@),
            untag(raw@) == Yaml::Mapping(pv),
            f == (|e: (Yaml, Yaml)| tagged_extends_entry(e)),
            extends_key@ == "extends"@,
            texts(result@) == flat_map(pv.take(i as int), f),
        decreases pairs.len() - i,
    {
        proof {
            lemma_flat_map_step(pv, f, i as int);
        }
        assert(pv[i as int] == (pairs@[i as int].0@, pairs@[i as int].1@));
        let ghost before = result@;
        let key = untag_ref(&pairs[i].0);
        let value = untag_ref(&pairs[i].1);
        match (key, value) {
            (YamlValue::String(name), YamlValue::Mapping(job)) => {
                if !starts_with_dot(name) {
                    match get_str(job, &extends_key) {
                        Some(ext) => {
                            if has_tagged_reference(ext) {
                                result.push(name.clone());
                            }
                        },
                        None => {},
                    }
                }
            },
            _ => {},
        }
        assert(texts(result@) =~= texts(before) + f(pv[i as int]));
        i = i + 1;
    }
    proof {
        lemma_flat_map_all(pv, f);
    }
    result
}

// ---------------------------------------------------------------------------
// Preparation for typed deserialization

/// Root-level keys that belong to Pipeline (not jobs).
/// Everything else is treated as a job.
pub open spec fn pipeline_fields() -> Seq<Seq<char>> {
    seq!["image"@, "variables"@, "stages"@, "before_script"@, "after_script"@, "default"@, "workflow"@, "include"@]
}

/// A root entry can be deserialized as part of a pipeline: its key is a string
/// that is either a pipeline field or names a mapping (a potential job).
pub open spec fn keep_root_entry(entry: (Yaml, Yaml)) -> bool {
    match untag(entry.0) {
        Yaml::Str(k) => pipeline_fields().contains(k) || untag(entry.1) is Mapping,
        _ => false,
    }
}

pub open spec fn spec_filter_root(yaml: Yaml) -> Yaml {
    match untag(yaml) {
        Yaml::Mapping(pairs) => Yaml::Mapping(mapping_from_pairs(pairs.filter(|e: (Yaml, Yaml)| keep_root_entry(e)))),
        _ => yaml,
    }
}

/// Filtering entries keeps every entry with `key` when the filter keeps that key
/// whatever its value: the mapping built from the kept entries then holds, under
/// `key`, what the mapping built from all entries holds.
proof fn lemma_filter_keeps_key(pairs: Seq<(Yaml, Yaml)>, pred: spec_fn((Yaml, Yaml)) -> bool, key: Yaml)
    requires
        forall|j: int| 0 <= j < pairs.len() && (#[trigger] pairs[j]).0 == key ==> pred(pairs[j]),
    ensures
        lookup(mapping_from_pairs(pairs.filter(pred)), key) == lookup(mapping_from_pairs(pairs), key),
    decreases pairs.len(),
{
    reveal(Seq::filter);
    if pairs.len() > 0 {
        let front = pairs.drop_last();
        let last = pairs.last();
        assert forall|j: int| 0 <= j < front.len() && (#[trigger] front[j]).0 == key implies pred(front[j]) by {
            assert(front[j] == pairs[j]);
        }
        lemma_filter_keeps_key(front, pred, key);
        lemma_lookup_insert(mapping_from_pairs(front), last.0, last.1, key);
        assert(last == pairs[pairs.len() - 1]);
        if pred(last) {
            assert(pairs.filter(pred) == front.filter(pred).push(last));
            assert(front.filter(pred).push(last).drop_last() =~= front.filter(pred));
            lemma_lookup_insert(mapping_from_pairs(front.filter(pred)), last.0, last.1, key);
        } else {
            assert(pairs.filter(pred) == front.filter(pred));
        }
    }
}

/// The root filter keeps each Pipeline field, whatever its value (a string
/// `image`, a list of `stages`, a mapping `default`, ...): for a mapping
/// document with distinct keys, the filtered root holds under `image`,
/// `variables`, `stages`, `before_script`, `after_script`, `default`,
/// `workflow` and `include` exactly what the document holds there.
pub proof fn law_root_filter_keeps_pipeline_fields(doc: Yaml)
    requires
        untag(doc) is Mapping,
        distinct_keys(untag(doc)->Mapping_0),
    ensures
        spec_filter_root(doc) is Mapping,
        lookup(spec_filter_root(doc)->Mapping_0, Yaml::Str("image"@)) == lookup(untag(doc)->Mapping_0, Yaml::Str("image"@)),
        lookup(spec_filter_root(doc)->Mapping_0, Yaml::Str("variables"@)) == lookup(untag(doc)->Mapping_0, Yaml::Str("variables"@)),
        lookup(spec_filter_root(doc)->Mapping_0, Yaml::Str("stages"@)) == lookup(untag(doc)->Mapping_0, Yaml::Str("stages"@)),
        lookup(spec_filter_root(doc)->Mapping_0, Yaml::Str("before_script"@)) == lookup(untag(doc)->Mapping_0, Yaml::Str("before_script"@)),
        lookup(spec_filter_root(doc)->Mapping_0, Yaml::Str("after_script"@)) == lookup(untag(doc)->Mapping_0, Yaml::Str("after_script"@)),
        lookup(spec_filter_root(doc)->Mapping_0, Yaml::Str("default"@)) == lookup(untag(doc)->Mapping_0, Yaml::Str("default"@)),
        lookup(spec_filter_root(doc)->Mapping_0, Yaml::Str("workflow"@)) == lookup(untag(doc)->Mapping_0, Yaml::Str("workflow"@)),
        lookup(spec_filter_root(doc)->Mapping_0, Yaml::Str("include"@)) == lookup(untag(doc)->Mapping_0, Yaml::Str("include"@)),
{
    let pairs = untag(doc)->Mapping_0;
    let pred = |e: (Yaml, Yaml)| keep_root_entry(e);
    assert(spec_filter_root(doc) == Yaml::Mapping(mapping_from_pairs(pairs.filter(pred))));
    lemma_mapping_from_distinct(pairs);
    let fields = pipeline_fields();
    assert forall|i: int, j: int| 0 <= i < 8 && 0 <= j < pairs.len() && (#[trigger] pairs[j]).0 == Yaml::Str(
        #[trigger] fields[i],
    ) implies pred(pairs[j]) by {
        assert(untag(Yaml::Str(fields[i])) == Yaml::Str(fields[i]));
        assert(fields.contains(fields[i]));
    }
    assert(fields[0] == "image"@);
    assert(fields[1] == "variables"@);
    assert(fields[2] == "stages"@);
    assert(fields[3] == "before_script"@);
    assert(fields[4] == "after_script"@);
    assert(fields[5] == "default"@);
    assert(fields[6] == "workflow"@);
    assert(fields[7] == "include"@);
    lemma_filter_keeps_key(pairs, pred, Yaml::Str(fields[0]));
    lemma_filter_keeps_key(pairs, pred, Yaml::Str(fields[1]));
    lemma_filter_keeps_key(pairs, pred, Yaml::Str(fields[2]));
    lemma_filter_keeps_key(pairs, pred, Yaml::Str(fields[3]));
    lemma_filter_keeps_key(pairs, pred, Yaml::Str(fields[4]));
    lemma_filter_keeps_key(pairs, pred, Yaml::Str(fields[5]));
    lemma_filter_keeps_key(pairs, pred, Yaml::Str(fields[6]));
    lemma_filter_keeps_key(pairs, pred, Yaml::Str(fields[7]));
}

/// Filtering out every entry with `key` leaves a mapping without `key`.
proof fn lemma_filter_drops_key(pairs: Seq<(Yaml, Yaml)>, pred: spec_fn((Yaml, Yaml)) -> bool, key: Yaml)
    requires
        forall|j: int| 0 <= j < pairs.len() && (#[trigger] pairs[j]).0 == key ==> !pred(pairs[j]),
    ensures
        lookup(mapping_from_pairs(pairs.filter(pred)), key) is None,
    decreases pairs.len(),
{
    reveal(Seq::filter);
    if pairs.len() > 0 {
        let front = pairs.drop_last();
        let last = pairs.last();
        assert forall|j: int| 0 <= j < front.len() && (#[trigger] front[j]).0 == key implies !pred(front[j]) by {
            assert(front[j] == pairs[j]);
        }
        lemma_filter_drops_key(front, pred, key);
        assert(last == pairs[pairs.len() - 1]);
        if pred(last) {
            assert(pairs.filter(pred) == front.filter(pred).push(last));
            assert(front.filter(pred).push(last).drop_last() =~= front.filter(pred));
            lemma_lookup_insert(mapping_from_pairs(front.filter(pred)), last.0, last.1, key);
        } else {
            assert(pairs.filter(pred) == front.filter(pred));
        }
    }
}

/// Every other root entry is kept exactly when it can be a job: for a mapping
/// document with distinct keys, an entry whose key is a string and whose value
/// is a mapping is kept as it is; one whose key is not a string, or whose key
/// is a string other than the Pipeline fields and whose value is not a mapping,
/// is dropped.
pub proof fn law_root_filter_keeps_jobs_drops_the_rest(doc: Yaml, key: Yaml, value: Yaml)
    requires
        untag(doc) is Mapping,
        distinct_keys(untag(doc)->Mapping_0),
        lookup(untag(doc)->Mapping_0, key) == Some(value),
    ensures
        spec_filter_root(doc) is Mapping,
        untag(key) is Str && untag(value) is Mapping ==> lookup(spec_filter_root(doc)->Mapping_0, key) == Some(value),
        !(untag(key) is Str) ==> lookup(spec_filter_root(doc)->Mapping_0, key) is None,
        (untag(key) is Str && !(untag(value) is Mapping) && untag(key)->Str_0 != "image"@
            && untag(key)->Str_0 != "variables"@ && untag(key)->Str_0 != "stages"@
            && untag(key)->Str_0 != "before_script"@ && untag(key)->Str_0 != "after_script"@
            && untag(key)->Str_0 != "default"@ && untag(key)->Str_0 != "workflow"@
            && untag(key)->Str_0 != "include"@) ==> lookup(spec_filter_root(doc)->Mapping_0, key) is None,
{
    let pairs = untag(doc)->Mapping_0;
    let pred = |e: (Yaml, Yaml)| keep_root_entry(e);
    assert(spec_filter_root(doc) == Yaml::Mapping(mapping_from_pairs(pairs.filter(pred))));
    lemma_mapping_from_distinct(pairs);
    crate::yaml::lemma_key_position_range(pairs, key);
    let pos = crate::yaml::key_position(pairs, key);
    assert(pairs[pos] == (key, value));
    assert forall|j: int| 0 <= j < pairs.len() && (#[trigger] pairs[j]).0 == key implies pairs[j] == (key, value) by {
        if j != pos {
            if j < pos {
                assert(pairs[j].0 != pairs[pos].0);
            } else {
                assert(pairs[pos].0 != pairs[j].0);
            }
        }
    }
    let fields = pipeline_fields();
    assert(fields[0] == "image"@);
    assert(fields[1] == "variables"@);
    assert(fields[2] == "stages"@);
    assert(fields[3] == "before_script"@);
    assert(fields[4] == "after_script"@);
    assert(fields[5] == "default"@);
    assert(fields[6] == "workflow"@);
    assert(fields[7] == "include"@);
    if pred((key, value)) {
        lemma_filter_keeps_key(pairs, pred, key);
    } else {
        lemma_filter_drops_key(pairs, pred, key);
    }
}

fn is_pipeline_field(k: &String) -> (r: bool)
    ensures
        r == pipeline_fields().contains(k@),
{
    let names = [
        "image",
        "variables",
        "stages",
        "before_script",
        "after_script",
        "default",
        "workflow",
        "include",
    ];
    let ghost fields = pipeline_fields();
    assert(fields.len() == 8);
    let mut i: usize = 0;
    while i < 8
        invariant
            i <= 8,
            fields == pipeline_fields(),
            names@ == seq!["image", "variables", "stages", "before_script", "after_script", "default", "workflow", "include"],
            forall|j: int| 0 <= j < i ==> fields[j] != k@,
        decreases 8 - i,
    {
        let candidate = String::from_str(names[i]);
        proof {
            assert(fields[0] == names@[0]@);
            assert(fields[1] == names@[1]@);
            assert(fields[2] == names@[2]@);
            assert(fields[3] == names@[3]@);
            assert(fields[4] == names@[4]@);
            assert(fields[5] == names@[5]@);
            assert(fields[6] == names@[6]@);
            assert(fields[7] == names@[7]@);
        }
        if candidate.eq(k) {
            return true;
        }
        i = i + 1;
    }
    false
}

/// Filter root-level YAML values to only keep entries that can be safely
/// deserialized as part of `Pipeline`: known pipeline fields and mappings
/// (potential jobs). Other entries, such as YAML anchor definitions that are
/// arrays, would fail deserialization as a job.
pub fn filter_root_for_deserialization(yaml: &YamlValue) -> (r: YamlValue)
    ensures
        r@ == spec_filter_root(yaml@),
{
    let pairs = match untag_ref(yaml) {
        YamlValue::Mapping(p) => p,
        _ => {
            return clone_value(yaml);
        },
    };
    let ghost pv = view_pairs(pairs@);
    let ghost keep = |e: (Yaml, Yaml)| keep_root_entry(e);
    let mut out: Vec<(YamlValue, YamlValue)> = Vec::new();
    let mut i: usize = 0;
    proof {
        assert(pv.take(0).filter(keep) =~= Seq::<(Yaml, Yaml)>::empty());
        assert(view_pairs(out@) =~= Seq::<(Yaml, Yaml)>::empty());
    }
    while i < pairs.len()
        invariant
            i <= pairs.len(),
            pv == view_pairs(pairs@),
            keep == (|e: (Yaml, Yaml)| keep_root_entry(e)),
            view_pairs(out@) == mapping_from_pairs(pv.take(i as int).filter(keep)),
        decreases pairs.len() - i,
    {
        assert(pv[i as int] == (pairs@[i as int].0@, pairs@[i as int].1@));
        assert(pv.take(i + 1).drop_last() =~= pv.take(i as int));
        assert(pv.take(i + 1).last() == pv[i as int]);
        proof {
            reveal(Seq::filter);
        }
        let kept = match untag_ref(&pairs[i].0) {
            YamlValue::String(k) => {
                if is_pipeline_field(k) {
                    true
                } else {
                    match untag_ref(&pairs[i].1) {
                        YamlValue::Mapping(_) => true,
                        _ => false,
                    }
                }
            },
            _ => false,
        };
        if kept {
            let k = clone_value(&pairs[i].0);
            let v = clone_value(&pairs[i].1);
            mapping_insert(&mut out, k, v);
            assert(pv.take(i + 1).filter(keep) =~= pv.take(i as int).filter(keep).push(pv[i as int]));
            assert(pv.take(i + 1).filter(keep).drop_last() =~= pv.take(i as int).filter(keep));
        } else {
            assert(pv.take(i + 1).filter(keep) =~= pv.take(i as int).filter(keep));
        }
        i = i + 1;
    }
    assert(pv.take(pairs@.len() as int) =~= pv);
    YamlValue::Mapping(out)
}

} // verus!

verus! {

// ---------------------------------------------------------------------------
// Nested lists written through `!reference`

/// The job fields whose lists may hold references that stand for lists.
pub open spec fn reference_list_fields() -> Seq<Seq<char>> {
    seq!["rules"@, "script"@, "before_script"@, "after_script"@, "extends"@, "dependencies"@]
}

/// A sequence item stands for its own items when it is itself a sequence.
pub open spec fn splice_item(item: Yaml) -> Seq<Yaml> {
    match item {
        Yaml::Sequence(xs) => xs,
        _ => seq![item],
    }
}

/// The items with each nested sequence spliced into its place.
pub open spec fn splice_nested(items: Seq<Yaml>) -> Seq<Yaml>
    decreases items.len(),
{
    if items.len() == 0 {
        Seq::empty()
    } else {
        splice_nested(items.drop_last()) + splice_item(items.last())
    }
}

pub open spec fn splice_field(e: (Yaml, Yaml)) -> (Yaml, Yaml) {
    match (e.0, e.1) {
        (Yaml::Str(k), Yaml::Sequence(items)) => {
            if reference_list_fields().contains(k) {
                (e.0, Yaml::Sequence(splice_nested(items)))
            } else {
                e
            }
        },
        _ => e,
    }
}

pub open spec fn splice_job(v: Yaml) -> Yaml {
    match v {
        Yaml::Mapping(fields) => Yaml::Mapping(Seq::new(fields.len(), |i: int| splice_field(fields[i]))),
        _ => v,
    }
}

/// In every mapping at the root of the document (the jobs, `default` and
/// `workflow`), the list fields that `!reference` is written in (`rules`,
/// `script`, `before_script`, `after_script`, `extends`, `dependencies`) have
/// their nested sequences spliced into place, as GitLab does with a reference
/// written as one item of a list.
pub open spec fn spec_splice_reference_lists(doc: Yaml) -> Yaml {
    match doc {
        Yaml::Mapping(pairs) => Yaml::Mapping(Seq::new(pairs.len(), |i: int| (pairs[i].0, splice_job(pairs[i].1)))),
        _ => doc,
    }
}

fn is_reference_list_field(k: &String) -> (r: bool)
    ensures
        r == reference_list_fields().contains(k@),
{
    let names = ["rules", "script", "before_script", "after_script", "extends", "dependencies"];
    let ghost fields = reference_list_fields();
    assert(fields.len() == 6);
    let mut i: usize = 0;
    while i < 6
        invariant
            i <= 6,
            fields == reference_list_fields(),
            names@ == seq!["rules", "script", "before_script", "after_script", "extends", "dependencies"],
            forall|j: int| 0 <= j < i ==> fields[j] != k@,
        decreases 6 - i,
    {
        let candidate = String::from_str(names[i]);
        proof {
            assert(fields[0] == names@[0]@);
            assert(fields[1] == names@[1]@);
            assert(fields[2] == names@[2]@);
            assert(fields[3] == names@[3]@);
            assert(fields[4] == names@[4]@);
            assert(fields[5] == names@[5]@);
        }
        if candidate.eq(k) {
            return true;
        }
        i = i + 1;
    }
    false
}

fn splice_items(items: &Vec<YamlValue>) -> (r: Vec<YamlValue>)
    ensures
        view_items(r@) == splice_nested(view_items(items@)),
{
    let ghost iv = view_items(items@);
    let mut out: Vec<YamlValue> = Vec::new();
    let mut i: usize = 0;
    assert(iv.take(0) =~= Seq::<Yaml>::empty());
    assert(view_items(out@) =~= Seq::<Yaml>::empty());
    while i < items.len()
        invariant
            i <= items.len(),
            iv == view_items(items@),
            view_items(out@) == splice_nested(iv.take(i as int)),
        decreases items.len() - i,
    {
        assert(iv[i as int] == items@[i as int]@);
        assert(iv.take(i + 1).drop_last() =~= iv.take(i as int));
        assert(iv.take(i + 1).last() == iv[i as int]);
        let ghost before = view_items(out@);
        match &items[i] {
            YamlValue::Sequence(xs) => {
                let ghost xv = view_items(xs@);
                let mut j: usize = 0;
                let ghost start = out@;
                assert(view_items(out@) =~= before + xv.take(0));
                while j < xs.len()
                    invariant
                        j <= xs.len(),
                        xv == view_items(xs@),
                        view_items(out@) == before + xv.take(j as int),
                    decreases xs.len() - j,
                {
                    assert(xv[j as int] == xs@[j as int]@);
                    let ghost prev = out@;
                    out.push(clone_value(&xs[j]));
                    assert(view_items(out@) =~= view_items(prev).push(xv[j as int]));
                    assert(xv.take(j + 1) =~= xv.take(j as int).push(xv[j as int]));
                    j = j + 1;
                }
                assert(xv.take(xs@.len() as int) =~= xv);
            },
            _ => {
                out.push(clone_value(&items[i]));
                assert(view_items(out@) =~= before + seq![iv[i as int]]);
            },
        }
        i = i + 1;
    }
    assert(iv.take(items@.len() as int) =~= iv);
    out
}

fn splice_job_value(v: &YamlValue) -> (r: YamlValue)
    ensures
        r@ == splice_job(v@),
{
    match v {
        YamlValue::Mapping(fields) => {
            let ghost fv = view_pairs(fields@);
            let mut out: Vec<(YamlValue, YamlValue)> = Vec::new();
            let mut i: usize = 0;
            while i < fields.len()
                invariant
                    i <= fields.len(),
                    fv == view_pairs(fields@),
                    out@.len() == i,
                    forall|j: int| 0 <= j < i ==> #[trigger] view_pairs(out@)[j] == splice_field(fv[j]),
                decreases fields.len() - i,
            {
                assert(fv[i as int] == (fields@[i as int].0@, fields@[i as int].1@));
                let k = clone_value(&fields[i].0);
                let spliced = match (&fields[i].0, &fields[i].1) {
                    (YamlValue::String(name), YamlValue::Sequence(items)) => {
                        if is_reference_list_field(name) {
                            let s = splice_items(items);
                            YamlValue::Sequence(s)
                        } else {
                            clone_value(&fields[i].1)
                        }
                    },
                    _ => clone_value(&fields[i].1),
                };
                let ghost prev = out@;
                out.push((k, spliced));
                proof {
                    assert forall|j: int| 0 <= j < i + 1 implies #[trigger] view_pairs(out@)[j] == splice_field(fv[j]) by {
                        if j < i {
                            assert(out@[j] == prev[j]);
                            assert(view_pairs(prev)[j] == splice_field(fv[j]));
                        }
                    }
                }
                i = i + 1;
            }
            assert(view_pairs(out@) =~= Seq::new(fv.len(), |i: int| splice_field(fv[i])));
            YamlValue::Mapping(out)
        },
        _ => clone_value(v),
    }
}

/// Splices nested lists in the reference list fields of the root mappings
/// (see `spec_splice_reference_lists`).
pub fn splice_reference_lists(doc: &YamlValue) -> (r: YamlValue)
    ensures
        r@ == spec_splice_reference_lists(doc@),
{
    match doc {
        YamlValue::Mapping(pairs) => {
            let ghost pv = view_pairs(pairs@);
            let mut out: Vec<(YamlValue, YamlValue)> = Vec::new();
            let mut i: usize = 0;
            while i < pairs.len()
                invariant
                    i <= pairs.len(),
                    pv == view_pairs(pairs@),
                    out@.len() == i,
                    forall|j: int| 0 <= j < i ==> #[trigger] view_pairs(out@)[j] == (pv[j].0, splice_job(pv[j].1)),
                decreases pairs.len() - i,
            {
                assert(pv[i as int] == (pairs@[i as int].0@, pairs@[i as int].1@));
                let k = clone_value(&pairs[i].0);
                let v = splice_job_value(&pairs[i].1);
                let ghost prev = out@;
                out.push((k, v));
                proof {
                    assert forall|j: int| 0 <= j < i + 1 implies #[trigger] view_pairs(out@)[j] == (pv[j].0, splice_job(pv[j].1)) by {
                        if j < i {
                            assert(out@[j] == prev[j]);
                            assert(view_pairs(prev)[j] == (pv[j].0, splice_job(pv[j].1)));
                        }
                    }
                }
                i = i + 1;
            }
            assert(view_pairs(out@) =~= Seq::new(pv.len(), |i: int| (pv[i].0, splice_job(pv[i].1))));
            YamlValue::Mapping(out)
        },
        _ => clone_value(doc),
    }
}

} // verus!

verus! {

// ---------------------------------------------------------------------------
// Structural validation

pub open spec fn no_jobs_issue() -> Seq<char> {
    "Pipeline must contain at least one job"@
}

pub open spec fn script_issue(name: Seq<char>) -> Seq<char> {
    "Job '"@ + name + "' must have a script section, extend another job, or define a trigger"@
}

pub open spec fn stage_issue(name: Seq<char>, stage: Seq<char>) -> Seq<char> {
    "Job '"@ + name + "' references undefined stage '"@ + stage + "'"@
}

pub open spec fn dependency_issue(name: Seq<char>, dependency: Seq<char>) -> Seq<char> {
    "Job '"@ + name + "' depends on undefined job '"@ + dependency + "'"@
}

pub open spec fn extends_issue(name: Seq<char>, extend: Seq<char>) -> Seq<char> {
    "Job '"@ + name + "' extends undefined job '"@ + extend + "'"@
}

/// A job that is not hidden and not a template must have a script, extend
/// another job, or define a trigger.
pub open spec fn script_issues_of(e: (String, Job)) -> Seq<Seq<char>> {
    if !is_hidden(e.0@) && e.1.template != Some(true) && e.1.script is None && e.1.extends is None
        && e.1.trigger is None {
        seq![script_issue(e.0@)]
    } else {
        Seq::empty()
    }
}

/// A job that is not hidden must name a declared stage, or `.pre` or `.post`.
pub open spec fn stage_issues_of(e: (String, Job), stages: Seq<Seq<char>>) -> Seq<Seq<char>> {
    if is_hidden(e.0@) {
        Seq::empty()
    } else {
        match e.1.stage {
            Some(stage) => {
                if stage@ == ".pre"@ || stage@ == ".post"@ || stages.contains(stage@) {
                    Seq::empty()
                } else {
                    seq![stage_issue(e.0@, stage@)]
                }
            },
            None => Seq::empty(),
        }
    }
}

/// The names in `list` that are not among `names`, each as an issue.
pub open spec fn undefined_issues(list: Seq<String>, names: Seq<Seq<char>>, issue: spec_fn(Seq<char>) -> Seq<char>) -> Seq<Seq<char>> {
    flat_map(list, |d: String| if names.contains(d@) { Seq::empty() } else { seq![issue(d@)] })
}

/// A job that is not hidden may only depend on defined jobs.
pub open spec fn dependency_issues_of(e: (String, Job), names: Seq<Seq<char>>) -> Seq<Seq<char>> {
    if is_hidden(e.0@) {
        Seq::empty()
    } else {
        match e.1.dependencies {
            Some(ds) => undefined_issues(ds@, names, |d: Seq<char>| dependency_issue(e.0@, d)),
            None => Seq::empty(),
        }
    }
}

/// A job that is not hidden, and whose `extends` was not written with
/// `!reference`, may only extend defined jobs.
pub open spec fn extends_issues_of(e: (String, Job), names: Seq<Seq<char>>, tagged: Seq<Seq<char>>) -> Seq<Seq<char>> {
    if is_hidden(e.0@) || tagged.contains(e.0@) {
        Seq::empty()
    } else {
        match e.1.extends {
            Some(xs) => undefined_issues(xs@, names, |x: Seq<char>| extends_issue(e.0@, x)),
            None => Seq::empty(),
        }
    }
}

/// Every issue of the structural validation, in order: a pipeline without
/// jobs; jobs without script, extends or trigger; jobs with undefined stages
/// (when stages are declared); and, unless some include is unresolved, jobs
/// depending on or extending undefined jobs.
pub open spec fn spec_structure_issues(p: &Pipeline, tagged: Seq<Seq<char>>, has_unresolved: bool) -> Seq<Seq<char>> {
    let js = p.jobs.entries@;
    let names = names_of(js);
    (if js.len() == 0 {
        seq![no_jobs_issue()]
    } else {
        Seq::empty()
    }) + flat_map(js, |e: (String, Job)| script_issues_of(e)) + (match p.stages {
        Some(st) => flat_map(js, |e: (String, Job)| stage_issues_of(e, texts(st@))),
        None => Seq::empty(),
    }) + (if has_unresolved {
        Seq::empty()
    } else {
        flat_map(js, |e: (String, Job)| dependency_issues_of(e, names))
    }) + (if has_unresolved {
        Seq::empty()
    } else {
        flat_map(js, |e: (String, Job)| extends_issues_of(e, names, tagged))
    })
}

fn script_issues(jobs: &NamedMap<Job>) -> (r: Vec<String>)
    ensures
        texts(r@) == flat_map(jobs.entries@, |e: (String, Job)| script_issues_of(e)),
{
    let ghost js = jobs.entries@;
    let ghost f = |e: (String, Job)| script_issues_of(e);
    let mut out: Vec<String> = Vec::new();
    let mut i: usize = 0;
    assert(texts(out@) =~= flat_map(js.take(0), f));
    while i < jobs.entries.len()
        invariant
            i <= js.len(),
            js == jobs.entries@,
            f == (|e: (String, Job)| script_issues_of(e)),
            texts(out@) == flat_map(js.take(i as int), f),
        decreases js.len() - i,
    {
        proof {
            lemma_flat_map_step(js, f, i as int);
        }
        let ghost before = out@;
        let entry = &jobs.entries[i];
        let job = &entry.1;
        let skip = starts_with_dot(&entry.0) || match job.template {
            Some(t) => t,
            None => false,
        };
        if !skip && job.script.is_none() && job.extends.is_none() && job.trigger.is_none() {
            out.push(concat3("Job '", entry.0.as_str(), "' must have a script section, extend another job, or define a trigger"));
        }
        assert(texts(out@) =~= texts(before) + f(js[i as int]));
        i = i + 1;
    }
    proof {
        lemma_flat_map_all(js, f);
    }
    out
}

fn stage_issues(jobs: &NamedMap<Job>, stages: &Vec<String>) -> (r: Vec<String>)
    ensures
        texts(r@) == flat_map(jobs.entries@, |e: (String, Job)| stage_issues_of(e, texts(stages@))),
{
    let ghost js = jobs.entries@;
    let ghost f = |e: (String, Job)| stage_issues_of(e, texts(stages@));
    let pre = String::from_str(".pre");
    let post = String::from_str(".post");
    let mut out: Vec<String> = Vec::new();
    let mut i: usize = 0;
    assert(texts(out@) =~= flat_map(js.take(0), f));
    while i < jobs.entries.len()
        invariant
            i <= js.len(),
            js == jobs.entries@,
            f == (|e: (String, Job)| stage_issues_of(e, texts(stages@))),
            pre@ == ".pre"@,
            post@ == ".post"@,
            texts(out@) == flat_map(js.take(i as int), f),
        decreases js.len() - i,
    {
        proof {
            lemma_flat_map_step(js, f, i as int);
        }
        let ghost before = out@;
        let entry = &jobs.entries[i];
        if !starts_with_dot(&entry.0) {
            match &entry.1.stage {
                Some(stage) => {
                    if !stage.eq(&pre) && !stage.eq(&post) && !contains_string(stages, stage) {
                        out.push(
                            concat5(
                                "Job '",
                                entry.0.as_str(),
                                "' references undefined stage '",
                                stage.as_str(),
                                "'",
                            ),
                        );
                    }
                },
                None => {},
            }
        }
        assert(texts(out@) =~= texts(before) + f(js[i as int]));
        i = i + 1;
    }
    proof {
        lemma_flat_map_all(js, f);
    }
    out
}

/// The issues for the names in `list` that are not jobs of `jobs`, each
/// written as `prefix`, the job name, `middle`, the name, and `'`.
fn undefined_names(
    jobs: &NamedMap<Job>,
    job_name: &String,
    list: &Vec<String>,
    middle: &str,
    issue: Ghost<spec_fn(Seq<char>) -> Seq<char>>,
) -> (r: Vec<String>)
    requires
        forall|d: Seq<char>| #[trigger] issue@(d) == "Job '"@ + job_name@ + middle@ + d + "'"@,
    ensures
        texts(r@) == undefined_issues(list@, jobs.names(), issue@),
{
    let ghost names = jobs.names();
    let ghost g = |d: String| if names.contains(d@) { Seq::<Seq<char>>::empty() } else { seq![issue@(d@)] };
    let mut out: Vec<String> = Vec::new();
    let mut i: usize = 0;
    assert(texts(out@) =~= flat_map(list@.take(0), g));
    while i < list.len()
        invariant
            i <= list@.len(),
            names == jobs.names(),
            g == (|d: String| if names.contains(d@) { Seq::<Seq<char>>::empty() } else { seq![issue@(d@)] }),
            forall|d: Seq<char>| #[trigger] issue@(d) == "Job '"@ + job_name@ + middle@ + d + "'"@,
            texts(out@) == flat_map(list@.take(i as int), g),
        decreases list@.len() - i,
    {
        proof {
            lemma_flat_map_step(list@, g, i as int);
        }
        let ghost before = out@;
        if !jobs.contains_key(list[i].as_str()) {
            out.push(concat5("Job '", job_name.as_str(), middle, list[i].as_str(), "'"));
            assert(out@.last()@ == issue@(list@[i as int]@));
        }
        assert(texts(out@) =~= texts(before) + g(list@[i as int]));
        i = i + 1;
    }
    proof {
        lemma_flat_map_all(list@, g);
    }
    out
}

fn dependency_issues(jobs: &NamedMap<Job>) -> (r: Vec<String>)
    ensures
        texts(r@) == flat_map(jobs.entries@, |e: (String, Job)| dependency_issues_of(e, names_of(jobs.entries@))),
{
    let ghost js = jobs.entries@;
    let ghost f = |e: (String, Job)| dependency_issues_of(e, names_of(js));
    let mut out: Vec<String> = Vec::new();
    let mut i: usize = 0;
    assert(texts(out@) =~= flat_map(js.take(0), f));
    while i < jobs.entries.len()
        invariant
            i <= js.len(),
            js == jobs.entries@,
            f == (|e: (String, Job)| dependency_issues_of(e, names_of(js))),
            texts(out@) == flat_map(js.take(i as int), f),
        decreases js.len() - i,
    {
        proof {
            lemma_flat_map_step(js, f, i as int);
        }
        let ghost before = out@;
        let entry = &jobs.entries[i];
        if !starts_with_dot(&entry.0) {
            match &entry.1.dependencies {
                Some(ds) => {
                    let ghost issue = |d: Seq<char>| dependency_issue(entry.0@, d);
                    let more = undefined_names(jobs, &entry.0, ds, "' depends on undefined job '", Ghost(issue));
                    extend_strings(&mut out, more);
                },
                None => {},
            }
        }
        assert(texts(out@) =~= texts(before) + f(js[i as int]));
        i = i + 1;
    }
    proof {
        lemma_flat_map_all(js, f);
    }
    out
}

fn extends_issues(jobs: &NamedMap<Job>, tagged_extends_jobs: &Vec<String>) -> (r: Vec<String>)
    ensures
        texts(r@) == flat_map(
            jobs.entries@,
            |e: (String, Job)| extends_issues_of(e, names_of(jobs.entries@), texts(tagged_extends_jobs@)),
        ),
{
    let ghost js = jobs.entries@;
    let ghost tagged = texts(tagged_extends_jobs@);
    let ghost f = |e: (String, Job)| extends_issues_of(e, names_of(js), tagged);
    let mut out: Vec<String> = Vec::new();
    let mut i: usize = 0;
    assert(texts(out@) =~= flat_map(js.take(0), f));
    while i < jobs.entries.len()
        invariant
            i <= js.len(),
            js == jobs.entries@,
            tagged == texts(tagged_extends_jobs@),
            f == (|e: (String, Job)| extends_issues_of(e, names_of(js), tagged)),
            texts(out@) == flat_map(js.take(i as int), f),
        decreases js.len() - i,
    {
        proof {
            lemma_flat_map_step(js, f, i as int);
        }
        let ghost before = out@;
        let entry = &jobs.entries[i];
        if !starts_with_dot(&entry.0) && !contains_string(tagged_extends_jobs, &entry.0) {
            match &entry.1.extends {
                Some(xs) => {
                    let ghost issue = |x: Seq<char>| extends_issue(entry.0@, x);
                    let more = undefined_names(jobs, &entry.0, xs, "' extends undefined job '", Ghost(issue));
                    extend_strings(&mut out, more);
                },
                None => {},
            }
        }
        assert(texts(out@) =~= texts(before) + f(js[i as int]));
        i = i + 1;
    }
    proof {
        lemma_flat_map_all(js, f);
    }
    out
}

/// Adds every string of `more` as an issue.
fn add_issues(result: &mut ValidationResult, more: Vec<String>)
    ensures
        texts(final(result).issues@) == texts(old(result).issues@) + texts(more@),
        final(result).is_valid == (old(result).is_valid && more@.len() == 0),
        final(result).issues@.len() == old(result).issues@.len() + more@.len(),
{
    let mut i: usize = 0;
    let ghost start = result.issues@;
    let ghost start_valid = result.is_valid;
    assert(texts(result.issues@) =~= texts(start) + texts(more@.take(0)));
    while i < more.len()
        invariant
            i <= more@.len(),
            texts(result.issues@) == texts(start) + texts(more@.take(i as int)),
            result.is_valid == (start_valid && i == 0),
            result.issues@.len() == start.len() + i,
        decreases more@.len() - i,
    {
        let ghost prev = result.issues@;
        result.add_issue(more[i].clone());
        assert(texts(more@.take(i + 1)) =~= texts(more@.take(i as int)).push(more@[i as int]@));
        assert(texts(result.issues@) =~= texts(prev).push(more@[i as int]@));
        i = i + 1;
    }
    assert(more@.take(more@.len() as int) =~= more@);
}

/// Validate the basic structure of a GitLab CI/CD pipeline.
///
/// `tagged_extends_jobs` — names of jobs whose `extends` field contained a
/// `!reference` tag before resolution; the extends check is skipped for them,
/// since their extends value is a path array, not a job name.
///
/// `has_unresolved_includes` — when true, "extends undefined" and "depends on
/// undefined" checks are skipped, because those jobs may be defined in
/// includes that could not be resolved locally.
pub fn validate_pipeline_structure(
    pipeline: &Pipeline,
    tagged_extends_jobs: &Vec<String>,
    has_unresolved_includes: bool,
) -> (r: ValidationResult)
    ensures
        texts(r.issues@) == spec_structure_issues(pipeline, texts(tagged_extends_jobs@), has_unresolved_includes),
        r.is_valid == (r.issues@.len() == 0),
{
    let mut result = ValidationResult::new();
    assert(texts(result.issues@) =~= Seq::<Seq<char>>::empty());
    assert(result.is_valid == (result.issues@.len() == 0));
    let mut first: Vec<String> = Vec::new();
    if pipeline.jobs.is_empty() {
        first.push(String::from_str("Pipeline must contain at least one job"));
    }
    assert(texts(first@) =~= (if pipeline.jobs.entries@.len() == 0 {
        seq![no_jobs_issue()]
    } else {
        Seq::<Seq<char>>::empty()
    }));
    add_issues(&mut result, first);
    add_issues(&mut result, script_issues(&pipeline.jobs));
    let stage_list = match &pipeline.stages {
        Some(stages) => stage_issues(&pipeline.jobs, stages),
        None => Vec::new(),
    };
    assert(texts(stage_list@) == (match pipeline.stages {
        Some(st) => flat_map(pipeline.jobs.entries@, |e: (String, Job)| stage_issues_of(e, texts(st@))),
        None => Seq::<Seq<char>>::empty(),
    })) by {
        if pipeline.stages is None {
            assert(texts(stage_list@) =~= Seq::<Seq<char>>::empty());
        }
    }
    add_issues(&mut result, stage_list);
    if !has_unresolved_includes {
        add_issues(&mut result, dependency_issues(&pipeline.jobs));
        add_issues(&mut result, extends_issues(&pipeline.jobs, tagged_extends_jobs));
    } else {
        assert(texts(result.issues@) =~= texts(result.issues@) + Seq::<Seq<char>>::empty() + Seq::<Seq<char>>::empty());
    }
    assert(result.is_valid == (result.issues@.len() == 0));
    result
}

/// Skipping more checks never adds an issue: when every job whose `extends`
/// is skipped under `tagged` is also skipped under `more_tagged`, and some
/// include is unresolved in the second run whenever it is in the first, every
/// issue of the second run is also an issue of the first, as often at least.
pub proof fn law_skipping_more_checks_never_adds_issues(
    p: &Pipeline,
    tagged: Seq<Seq<char>>,
    has_unresolved: bool,
    more_tagged: Seq<Seq<char>>,
    more_unresolved: bool,
)
    requires
        forall|n: Seq<char>| tagged.contains(n) ==> more_tagged.contains(n),
        has_unresolved ==> more_unresolved,
    ensures
        forall|k: int| 0 <= k < spec_structure_issues(p, more_tagged, more_unresolved).len()
            ==> spec_structure_issues(p, tagged, has_unresolved).contains(
            #[trigger] spec_structure_issues(p, more_tagged, more_unresolved)[k],
        ),
        spec_structure_issues(p, more_tagged, more_unresolved).to_multiset().subset_of(
            spec_structure_issues(p, tagged, has_unresolved).to_multiset(),
        ),
{
    broadcast use vstd::multiset::group_multiset_axioms;
    let js = p.jobs.entries@;
    let names = names_of(js);
    let f = |e: (String, Job)| extends_issues_of(e, names, more_tagged);
    let g = |e: (String, Job)| extends_issues_of(e, names, tagged);
    assert forall|i: int| 0 <= i < js.len() implies f(#[trigger] js[i]) == g(js[i]) || f(js[i]).len() == 0 by {
        if !more_tagged.contains(js[i].0@) {
            assert(!tagged.contains(js[i].0@));
        }
    }
    lemma_flat_map_sub(js, f, g);
    lemma_flat_map_sub_multiset(js, f, g);
    let head = (if js.len() == 0 {
        seq![no_jobs_issue()]
    } else {
        Seq::empty()
    }) + flat_map(js, |e: (String, Job)| script_issues_of(e)) + (match p.stages {
        Some(st) => flat_map(js, |e: (String, Job)| stage_issues_of(e, texts(st@))),
        None => Seq::empty(),
    });
    let deps = flat_map(js, |e: (String, Job)| dependency_issues_of(e, names));
    let full = spec_structure_issues(p, tagged, has_unresolved);
    let part = spec_structure_issues(p, more_tagged, more_unresolved);
    if more_unresolved {
        assert(part =~= head);
        assert forall|k: int| 0 <= k < part.len() implies full.contains(#[trigger] part[k]) by {
            assert(full[k] == part[k]);
        }
        let rest = full.subrange(head.len() as int, full.len() as int);
        assert(full =~= head + rest);
        vstd::seq_lib::lemma_multiset_commutative(head, rest);
    } else {
        vstd::seq_lib::lemma_multiset_commutative(head + deps, flat_map(js, f));
        vstd::seq_lib::lemma_multiset_commutative(head + deps, flat_map(js, g));
        assert(full == head + deps + flat_map(js, g));
        assert(part == head + deps + flat_map(js, f));
        assert forall|k: int| 0 <= k < part.len() implies full.contains(#[trigger] part[k]) by {
            if k < head.len() + deps.len() {
                assert(full[k] == part[k]);
            } else {
                let j = k - head.len() - deps.len();
                assert(part[k] == flat_map(js, f)[j]);
                assert(flat_map(js, g).contains(flat_map(js, f)[j]));
                let m = choose|m: int| 0 <= m < flat_map(js, g).len() && flat_map(js, g)[m] == flat_map(js, f)[j];
                assert(full[head.len() + deps.len() + m] == part[k]);
            }
        }
    }
}

/// Skipping checks never adds an issue: every issue reported for jobs whose
/// `extends` held `!reference` tags, or with unresolved includes, is also
/// reported when every check runs; so a pipeline that passes every check also
/// passes with checks skipped.
pub proof fn law_skipped_checks_never_add_issues(p: &Pipeline, tagged: Seq<Seq<char>>, has_unresolved: bool)
    ensures
        forall|k: int| 0 <= k < spec_structure_issues(p, tagged, has_unresolved).len()
            ==> spec_structure_issues(p, Seq::empty(), false).contains(
            #[trigger] spec_structure_issues(p, tagged, has_unresolved)[k],
        ),
        spec_structure_issues(p, Seq::empty(), false).len() == 0 ==> spec_structure_issues(p, tagged, has_unresolved).len() == 0,
{
    law_skipping_more_checks_never_adds_issues(p, Seq::empty(), false, tagged, has_unresolved);
    let full = spec_structure_issues(p, Seq::empty(), false);
    let part = spec_structure_issues(p, tagged, has_unresolved);
    if full.len() == 0 && part.len() > 0 {
        assert(full.contains(part[0]));
    }
}

/// When stages are declared, every job whose name does not start with `.` and
/// whose stage is neither `.pre`, `.post` nor a declared stage is reported as
/// `Job '<name>' references undefined stage '<stage>'`, whatever its other
/// fields (`extends`, `script`, `trigger`, ...) hold and whatever checks are skipped.
pub proof fn law_undeclared_stage_is_reported(
    p: &Pipeline,
    tagged: Seq<Seq<char>>,
    has_unresolved: bool,
    i: int,
    stage: String,
    declared: Vec<String>,
)
    requires
        0 <= i < p.jobs.entries@.len(),
        !(p.jobs.entries@[i].0@.len() > 0 && p.jobs.entries@[i].0@[0] == '.'),
        p.jobs.entries@[i].1.stage == Some(stage),
        p.stages == Some(declared),
        stage@ != ".pre"@,
        stage@ != ".post"@,
        forall|j: int| 0 <= j < declared@.len() ==> (#[trigger] declared@[j])@ != stage@,
    ensures
        spec_structure_issues(p, tagged, has_unresolved).contains(
            "Job '"@ + p.jobs.entries@[i].0@ + "' references undefined stage '"@ + stage@ + "'"@,
        ),
{
    let js = p.jobs.entries@;
    let names = names_of(js);
    let name = js[i].0@;
    let st = texts(declared@);
    let f = |e: (String, Job)| stage_issues_of(e, st);
    assert(!st.contains(stage@)) by {
        if st.contains(stage@) {
            let j = choose|j: int| 0 <= j < st.len() && st[j] == stage@;
            assert(declared@[j]@ == stage@);
        }
    }
    let msg = "Job '"@ + name + "' references undefined stage '"@ + stage@ + "'"@;
    assert(f(js[i]) == seq![msg]);
    lemma_flat_map_contains(js, f, i, 0);
    let stages_part = flat_map(js, f);
    let m = choose|m: int| 0 <= m < stages_part.len() && stages_part[m] == msg;
    let head = (if js.len() == 0 {
        seq![no_jobs_issue()]
    } else {
        Seq::empty()
    }) + flat_map(js, |e: (String, Job)| script_issues_of(e));
    let tail = (if has_unresolved {
        Seq::empty()
    } else {
        flat_map(js, |e: (String, Job)| dependency_issues_of(e, names))
    }) + (if has_unresolved {
        Seq::empty()
    } else {
        flat_map(js, |e: (String, Job)| extends_issues_of(e, names, tagged))
    });
    let all = spec_structure_issues(p, tagged, has_unresolved);
    assert(all =~= head + stages_part + tail);
    assert(all[head.len() + m] == msg);
}

proof fn lemma_undefined_issues_forall(
    list: Seq<String>,
    names: Seq<Seq<char>>,
    issue: spec_fn(Seq<char>) -> Seq<char>,
    p: spec_fn(Seq<char>) -> bool,
)
    requires
        forall|x: Seq<char>| p(#[trigger] issue(x)),
    ensures
        forall|k: int| 0 <= k < undefined_issues(list, names, issue).len() ==> p(
            #[trigger] undefined_issues(list, names, issue)[k],
        ),
    decreases list.len(),
{
    if list.len() > 0 {
        let front = list.drop_last();
        lemma_undefined_issues_forall(front, names, issue, p);
        let a = undefined_issues(front, names, issue);
        let all = undefined_issues(list, names, issue);
        let d = list.last();
        let tail = if names.contains(d@) { Seq::<Seq<char>>::empty() } else { seq![issue(d@)] };
        assert(all == a + tail);
        assert forall|k: int| 0 <= k < all.len() implies p(#[trigger] all[k]) by {
            if k < a.len() {
                assert(all[k] == a[k]);
            } else {
                assert(all[k] == issue(d@));
            }
        }
    }
}

/// The messages of the structural validation.
pub open spec fn is_structure_message(m: Seq<char>) -> bool {
    ||| m == no_jobs_issue()
    ||| exists|n: Seq<char>| m == #[trigger] script_issue(n)
    ||| exists|n: Seq<char>, x: Seq<char>| m == #[trigger] stage_issue(n, x)
    ||| exists|n: Seq<char>, x: Seq<char>| m == #[trigger] dependency_issue(n, x)
    ||| exists|n: Seq<char>, x: Seq<char>| m == #[trigger] extends_issue(n, x)
}

/// Every issue of the structural validation is one of its five messages: no
/// jobs, a job without script, extends or trigger, an undefined stage, an
/// undefined dependency, or an undefined `extends` target.
pub proof fn law_structure_issues_are_known_messages(p: &Pipeline, tagged: Seq<Seq<char>>, has_unresolved: bool)
    ensures
        forall|k: int| 0 <= k < spec_structure_issues(p, tagged, has_unresolved).len()
            ==> is_structure_message(#[trigger] spec_structure_issues(p, tagged, has_unresolved)[k]),
{
    let js = p.jobs.entries@;
    let names = names_of(js);
    let ok = |m: Seq<char>| is_structure_message(m);
    let f1 = |e: (String, Job)| script_issues_of(e);
    assert forall|i: int, k: int| 0 <= i < js.len() && 0 <= k < f1(js[i]).len() implies ok(#[trigger] f1(js[i])[k]) by {
        assert(f1(js[i])[k] == script_issue(js[i].0@));
    }
    lemma_flat_map_forall(js, f1, ok);
    let stage_part = match p.stages {
        Some(st) => flat_map(js, |e: (String, Job)| stage_issues_of(e, texts(st@))),
        None => Seq::empty(),
    };
    assert forall|k: int| 0 <= k < stage_part.len() implies ok(#[trigger] stage_part[k]) by {
        if let Some(st) = p.stages {
            let f2 = |e: (String, Job)| stage_issues_of(e, texts(st@));
            assert forall|i: int, k2: int| 0 <= i < js.len() && 0 <= k2 < f2(js[i]).len() implies ok(#[trigger] f2(js[i])[k2]) by {
                let stage = js[i].1.stage->0;
                assert(f2(js[i])[k2] == stage_issue(js[i].0@, stage@));
            }
            lemma_flat_map_forall(js, f2, ok);
        }
    }
    let f3 = |e: (String, Job)| dependency_issues_of(e, names);
    assert forall|i: int, k: int| 0 <= i < js.len() && 0 <= k < f3(js[i]).len() implies ok(#[trigger] f3(js[i])[k]) by {
        let e = js[i];
        if let Some(ds) = e.1.dependencies {
            let issue = |d: Seq<char>| dependency_issue(e.0@, d);
            lemma_undefined_issues_forall(ds@, names, issue, ok);
            assert(f3(e) == undefined_issues(ds@, names, issue));
        }
    }
    lemma_flat_map_forall(js, f3, ok);
    let f4 = |e: (String, Job)| extends_issues_of(e, names, tagged);
    assert forall|i: int, k: int| 0 <= i < js.len() && 0 <= k < f4(js[i]).len() implies ok(#[trigger] f4(js[i])[k]) by {
        let e = js[i];
        if let Some(xs) = e.1.extends {
            let issue = |x: Seq<char>| extends_issue(e.0@, x);
            lemma_undefined_issues_forall(xs@, names, issue, ok);
            assert(f4(e) == undefined_issues(xs@, names, issue));
        }
    }
    lemma_flat_map_forall(js, f4, ok);
    let head = if js.len() == 0 { seq![no_jobs_issue()] } else { Seq::empty() };
    let all = spec_structure_issues(p, tagged, has_unresolved);
    let a = head + flat_map(js, f1) + stage_part;
    let d = if has_unresolved { Seq::empty() } else { flat_map(js, f3) };
    let x = if has_unresolved { Seq::empty() } else { flat_map(js, f4) };
    assert(all == a + d + x);
    assert forall|k: int| 0 <= k < all.len() implies is_structure_message(#[trigger] all[k]) by {
        if k < head.len() {
        } else if k < head.len() + flat_map(js, f1).len() {
            assert(all[k] == flat_map(js, f1)[k - head.len()]);
            assert(ok(flat_map(js, f1)[k - head.len()]));
        } else if k < a.len() {
            assert(all[k] == stage_part[k - head.len() - flat_map(js, f1).len()]);
            assert(ok(stage_part[k - head.len() - flat_map(js, f1).len()]));
        } else if k < a.len() + d.len() {
            assert(all[k] == d[k - a.len()]);
            assert(ok(flat_map(js, f3)[k - a.len()]));
        } else {
            assert(all[k] == x[k - a.len() - d.len()]);
            assert(ok(flat_map(js, f4)[k - a.len() - d.len()]));
        }
    }
}

} // verus!

verus! {

// ---------------------------------------------------------------------------
// The parse pipeline around typed deserialization

/// The documents derived from a pipeline document (after include merging)
/// before typed deserialization.
#[derive(Debug, Clone)]
pub struct PreparedPipeline {
    /// Jobs whose `extends` held a `!reference` tag before resolution
    pub tagged_extends_jobs: Vec<String>,
    /// The document with `!reference` tags resolved, and references that
    /// resolved to a value of the wrong type for their field kept as their path
    /// arrays, for schema validation
    pub resolved_yaml: YamlValue,
    /// One issue per reference kept as its path array
    pub reference_issues: Vec<String>,
    /// The resolved document with reference lists spliced and the root
    /// entries that cannot be pipeline parts removed, for typed deserialization
    pub typed_input: YamlValue,
}

/// Pre-scan, resolve `!reference` tags (keeping the path array of a reference
/// whose value does not fit its list field, with an issue), and prepare the
/// typed input of a pipeline document whose includes have been merged.
pub fn prepare_pipeline(merged_yaml: &YamlValue) -> (r: PreparedPipeline)
    ensures
        texts(r.tagged_extends_jobs@) == spec_scan_tagged_extends(merged_yaml@),
        r.resolved_yaml@ == spec_reference_fallback(merged_yaml@, spec_resolve_references(merged_yaml@)),
        texts(r.reference_issues@) == spec_reference_mismatches(merged_yaml@, spec_resolve_references(merged_yaml@)),
        r.typed_input@ == spec_filter_root(spec_splice_reference_lists(r.resolved_yaml@)),
{
    let tagged_extends_jobs = scan_tagged_extends(merged_yaml);
    let resolved = resolve_references(merged_yaml);
    let (resolved_yaml, reference_issues) = reference_fallback(merged_yaml, &resolved);
    let spliced = splice_reference_lists(&resolved_yaml);
    let typed_input = filter_root_for_deserialization(&spliced);
    PreparedPipeline { tagged_extends_jobs, resolved_yaml, reference_issues, typed_input }
}

pub open spec fn include_failure_issue(path: Seq<char>) -> Seq<char> {
    "Failed to resolve local include '"@ + path + "': file not found or invalid"@
}

/// The pipeline with its unresolved-includes flag set.
pub open spec fn with_include_flag(p: Pipeline, flag: bool) -> Pipeline {
    Pipeline { has_unresolved_includes: flag, ..p }
}

/// Every issue of a parsed pipeline: its structural issues, the issues of
/// references kept as their path arrays, then one per failed local include.
pub open spec fn spec_pipeline_issues(p: &Pipeline, tagged: Seq<Seq<char>>, reference_issues: Seq<Seq<char>>, includes: &ResolvedPipeline) -> Seq<Seq<char>> {
    let failed = texts(includes.failed_local_includes@);
    spec_structure_issues(p, tagged, includes.has_unresolved_includes) + reference_issues + Seq::new(
        failed.len(),
        |i: int| include_failure_issue(failed[i]),
    )
}

/// The checks that follow typed deserialization: the pipeline is marked with
/// whether some include is unresolved, validated, and rejected with all its
/// issues joined by `; ` when there are any.
pub fn check_parsed_pipeline(
    pipeline: Pipeline,
    tagged_extends_jobs: &Vec<String>,
    reference_issues: &Vec<String>,
    includes: &ResolvedPipeline,
) -> (r: Result<
    Pipeline,
    GitlabParserError,
>)
    ensures
        ({
            let p = with_include_flag(pipeline, includes.has_unresolved_includes);
            let issues = spec_pipeline_issues(&p, texts(tagged_extends_jobs@), texts(reference_issues@), includes);
            &&& (r is Ok <==> issues.len() == 0)
            &&& (r matches Ok(q) ==> q == p)
            &&& (r matches Err(e) ==> e matches GitlabParserError::InvalidStructure(m) && m@ == join(issues, "; "@))
        }),
{
    let mut pipeline = pipeline;
    pipeline.has_unresolved_includes = includes.has_unresolved_includes;
    let ghost p = pipeline;
    let mut result = validate_pipeline_structure(&pipeline, tagged_extends_jobs, includes.has_unresolved_includes);
    let mut k: usize = 0;
    let ghost first = texts(result.issues@);
    while k < reference_issues.len()
        invariant
            k <= reference_issues@.len(),
            texts(result.issues@) == first + texts(reference_issues@).take(k as int),
            result.is_valid == (result.issues@.len() == 0),
        decreases reference_issues@.len() - k,
    {
        let ghost before = texts(result.issues@);
        let issue = reference_issues[k].clone();
        assert(issue@ == texts(reference_issues@)[k as int]);
        result.add_issue(issue);
        assert(texts(result.issues@) =~= before.push(texts(reference_issues@)[k as int]));
        assert(texts(reference_issues@).take(k + 1) =~= texts(reference_issues@).take(k as int).push(
            texts(reference_issues@)[k as int],
        ));
        assert(texts(result.issues@) =~= first + texts(reference_issues@).take(k + 1));
        k = k + 1;
    }
    assert(texts(reference_issues@).take(k as int) =~= texts(reference_issues@));
    let ghost failed = texts(includes.failed_local_includes@);
    let ghost structural = texts(result.issues@);
    let mut i: usize = 0;
    while i < includes.failed_local_includes.len()
        invariant
            i <= failed.len(),
            failed == texts(includes.failed_local_includes@),
            texts(result.issues@) == structural + Seq::new(i as nat, |j: int| include_failure_issue(failed[j])),
            result.is_valid == (result.issues@.len() == 0),
            result.issues@.len() == structural.len() + i,
        decreases failed.len() - i,
    {
        let ghost before = texts(result.issues@);
        let issue = concat3(
            "Failed to resolve local include '",
            includes.failed_local_includes[i].as_str(),
            "': file not found or invalid",
        );
        result.add_issue(issue);
        assert(texts(result.issues@) =~= before.push(include_failure_issue(failed[i as int])));
        assert(texts(result.issues@) =~= structural + Seq::new((i + 1) as nat, |j: int| include_failure_issue(failed[j])));
        i = i + 1;
    }
    assert(Seq::new(failed.len(), |j: int| include_failure_issue(failed[j])) =~= Seq::new(
        i as nat,
        |j: int| include_failure_issue(failed[j]),
    ));
    if !result.is_valid {
        return Err(GitlabParserError::InvalidStructure(join_strings(&result.issues, "; ")));
    }
    Ok(pipeline)
}

/// Reads the text of a pipeline file as a YAML document; text that is not
/// YAML gives a `YamlError` with the reader's message.
pub fn load_pipeline_document(content: &str) -> (r: Result<YamlValue, GitlabParserError>)
    ensures
        match r {
            Ok(v) => yaml_document(content@) == Some(v@),
            Err(e) => yaml_document(content@) is None && e is YamlError && yaml_syntax_error(content@) == Some(
                e->YamlError_0@,
            ),
        },
{
    match read_yaml(content) {
        Ok(v) => Ok(v),
        Err(m) => Err(GitlabParserError::YamlError(m)),
    }
}

/// Checks the resolved pipeline document against the GitLab CI schema: a
/// document without a JSON form is an `InvalidStructure` error (`Failed to
/// convert YAML to JSON: <error>`), one that the schema rejects a
/// `SchemaValidationError` with the schema's report.
pub fn check_pipeline_schema(validator: &SchemaValidator, resolved_yaml: &YamlValue) -> (r: Result<
    (),
    GitlabParserError,
>)
    requires
        refs_descend(validator.schema(SchemaType::GitLab)),
    ensures
        json_form_error(resolved_yaml@) is Some ==> r is Err && r->Err_0 is InvalidStructure
            && r->Err_0->InvalidStructure_0@ == "Failed to convert YAML to JSON: "@ + json_form_error(resolved_yaml@)->0,
        json_form(resolved_yaml@) matches Some(j) ==> {
            let v = schema_violation_texts(validator.schema(SchemaType::GitLab), j);
            &&& (r is Ok <==> v.len() == 0)
            &&& (r is Err ==> r->Err_0 is SchemaValidationError && r->Err_0->SchemaValidationError_0@
                == violation_report(SchemaType::GitLab, v))
        },
{
    let json = match to_json_form(resolved_yaml) {
        Ok(j) => j,
        Err(m) => {
            let mut e = String::from_str("Failed to convert YAML to JSON: ");
            e.append(m.as_str());
            return Err(GitlabParserError::InvalidStructure(e));
        },
    };
    match validator.validate_json_value(&json, SchemaType::GitLab) {
        Ok(()) => Ok(()),
        Err(e) => Err(GitlabParserError::SchemaValidationError(e)),
    }
}

// ---------------------------------------------------------------------------
// References that resolve to a value of the wrong type for their field

/// Every item is a plain string.
pub open spec fn all_strings(items: Seq<Yaml>) -> bool {
    forall|i: int| 0 <= i < items.len() ==> (#[trigger] items[i]) is Str
}

/// The value can stand in the list field `field`: `rules` takes a list (or
/// nothing); the other fields take a string or a list of strings (nested lists
/// spliced), or nothing.
pub open spec fn fits_field(field: Seq<char>, v: Yaml) -> bool {
    if field == "rules"@ {
        v is Sequence || v is Null
    } else {
        match v {
            Yaml::Null => true,
            Yaml::Str(_) => true,
            Yaml::Sequence(items) => all_strings(splice_nested(items)),
            _ => false,
        }
    }
}

/// The path array of the `!reference` written for field `field` of the root
/// job `name` in the document before resolution, when it is a well-formed,
/// non-empty path.
pub open spec fn written_reference(raw_root: Seq<(Yaml, Yaml)>, name: Seq<char>, field: Seq<char>) -> Option<Yaml> {
    match lookup(raw_root, Yaml::Str(name)) {
        Some(Yaml::Mapping(job)) => match lookup(job, Yaml::Str(field)) {
            Some(Yaml::Tagged(tag, inner)) => {
                if tag == reference_tag() && (spec_extract_path(*inner) matches Some(p) && p.len() > 0) {
                    Some(*inner)
                } else {
                    None
                }
            },
            _ => None,
        },
        _ => None,
    }
}

/// A field of job `name` whose value came from a `!reference` and does not fit
/// the field: the path array it was written with, in its place.
pub open spec fn mismatched_reference(raw_root: Seq<(Yaml, Yaml)>, name: Seq<char>, e: (Yaml, Yaml)) -> Option<Yaml> {
    match e.0 {
        Yaml::Str(f) => {
            if reference_list_fields().contains(f) && !fits_field(f, e.1) {
                written_reference(raw_root, name, f)
            } else {
                None
            }
        },
        _ => None,
    }
}

pub open spec fn fallback_field(raw_root: Seq<(Yaml, Yaml)>, name: Seq<char>, e: (Yaml, Yaml)) -> (Yaml, Yaml) {
    match mismatched_reference(raw_root, name, e) {
        Some(path) => (e.0, path),
        None => e,
    }
}

pub open spec fn mismatch_issue(name: Seq<char>, field: Seq<char>) -> Seq<char> {
    "Job '"@ + name + "': !reference in '"@ + field + "' resolves to a value of the wrong type; its path is kept"@
}

pub open spec fn field_mismatch_issues(raw_root: Seq<(Yaml, Yaml)>, name: Seq<char>, e: (Yaml, Yaml)) -> Seq<Seq<char>> {
    if mismatched_reference(raw_root, name, e) is Some {
        seq![mismatch_issue(name, e.0->Str_0)]
    } else {
        Seq::empty()
    }
}

pub open spec fn fallback_job(raw_root: Seq<(Yaml, Yaml)>, e: (Yaml, Yaml)) -> (Yaml, Yaml) {
    match (e.0, e.1) {
        (Yaml::Str(name), Yaml::Mapping(fields)) => (
            e.0,
            Yaml::Mapping(Seq::new(fields.len(), |i: int| fallback_field(raw_root, name, fields[i]))),
        ),
        _ => e,
    }
}

pub open spec fn job_mismatch_issues(raw_root: Seq<(Yaml, Yaml)>, e: (Yaml, Yaml)) -> Seq<Seq<char>> {
    match (e.0, e.1) {
        (Yaml::Str(name), Yaml::Mapping(fields)) => flat_map(
            fields,
            |fe: (Yaml, Yaml)| field_mismatch_issues(raw_root, name, fe),
        ),
        _ => Seq::empty(),
    }
}

/// The resolved document with each list field of a root job that came from a
/// `!reference` and does not fit the field replaced by the reference's path
/// array (`raw` is the document before resolution).
pub open spec fn spec_reference_fallback(raw: Yaml, resolved: Yaml) -> Yaml {
    match (raw, resolved) {
        (Yaml::Mapping(raw_root), Yaml::Mapping(pairs)) => Yaml::Mapping(
            Seq::new(pairs.len(), |i: int| fallback_job(raw_root, pairs[i])),
        ),
        _ => resolved,
    }
}

/// One issue per replaced field, in document order.
pub open spec fn spec_reference_mismatches(raw: Yaml, resolved: Yaml) -> Seq<Seq<char>> {
    match (raw, resolved) {
        (Yaml::Mapping(raw_root), Yaml::Mapping(pairs)) => flat_map(
            pairs,
            |e: (Yaml, Yaml)| job_mismatch_issues(raw_root, e),
        ),
        _ => Seq::empty(),
    }
}

fn strings_only(items: &Vec<YamlValue>) -> (r: bool)
    ensures
        r == all_strings(view_items(items@)),
{
    let ghost iv = view_items(items@);
    let mut i: usize = 0;
    while i < items.len()
        invariant
            i <= items.len(),
            iv == view_items(items@),
            forall|j: int| 0 <= j < i ==> (#[trigger] iv[j]) is Str,
        decreases items.len() - i,
    {
        assert(iv[i as int] == items@[i as int]@);
        match &items[i] {
            YamlValue::String(_) => {},
            _ => {
                assert(!(iv[i as int] is Str));
                return false;
            },
        }
        i = i + 1;
    }
    true
}

fn fits(field: &String, v: &YamlValue) -> (r: bool)
    ensures
        r == fits_field(field@, v@),
{
    let rules = String::from_str("rules");
    if field.eq(&rules) {
        match v {
            YamlValue::Sequence(_) => true,
            YamlValue::Null => true,
            _ => false,
        }
    } else {
        match v {
            YamlValue::Null => true,
            YamlValue::String(_) => true,
            YamlValue::Sequence(items) => {
                let s = splice_items(items);
                strings_only(&s)
            },
            _ => false,
        }
    }
}

fn written_reference_of(raw_root: &Vec<(YamlValue, YamlValue)>, name: &String, field: &String) -> (r: Option<YamlValue>)
    ensures
        match r {
            Some(p) => written_reference(view_pairs(raw_root@), name@, field@) == Some(p@),
            None => written_reference(view_pairs(raw_root@), name@, field@) is None,
        },
{
    let job = match get_str(raw_root, name) {
        Some(YamlValue::Mapping(job)) => job,
        _ => {
            return None;
        },
    };
    match get_str(job, field) {
        Some(YamlValue::Tagged(tag, inner)) => {
            let reference = String::from_str("!reference");
            assert(reference@ == reference_tag());
            if !tag.eq(&reference) {
                return None;
            }
            match extract_path(inner) {
                Some(p) => {
                    if p.len() > 0 {
                        Some(clone_value(inner))
                    } else {
                        None
                    }
                },
                None => None,
            }
        },
        _ => None,
    }
}

fn fallback_fields(raw_root: &Vec<(YamlValue, YamlValue)>, name: &String, fields: &Vec<(YamlValue, YamlValue)>) -> (r: (
    Vec<(YamlValue, YamlValue)>,
    Vec<String>,
))
    ensures
        view_pairs(r.0@) == Seq::new(
            fields@.len(),
            |i: int| fallback_field(view_pairs(raw_root@), name@, view_pairs(fields@)[i]),
        ),
        texts(r.1@) == flat_map(
            view_pairs(fields@),
            |fe: (Yaml, Yaml)| field_mismatch_issues(view_pairs(raw_root@), name@, fe),
        ),
{
    let ghost rr = view_pairs(raw_root@);
    let ghost fv = view_pairs(fields@);
    let ghost g = |fe: (Yaml, Yaml)| field_mismatch_issues(rr, name@, fe);
    let mut out: Vec<(YamlValue, YamlValue)> = Vec::new();
    let mut issues: Vec<String> = Vec::new();
    let mut i: usize = 0;
    assert(texts(issues@) =~= flat_map(fv.take(0), g));
    while i < fields.len()
        invariant
            i <= fields.len(),
            rr == view_pairs(raw_root@),
            fv == view_pairs(fields@),
            g == (|fe: (Yaml, Yaml)| field_mismatch_issues(rr, name@, fe)),
            out@.len() == i,
            forall|j: int| 0 <= j < i ==> #[trigger] view_pairs(out@)[j] == fallback_field(rr, name@, fv[j]),
            texts(issues@) == flat_map(fv.take(i as int), g),
        decreases fields.len() - i,
    {
        proof {
            lemma_flat_map_step(fv, g, i as int);
        }
        assert(fv[i as int] == (fields@[i as int].0@, fields@[i as int].1@));
        let ghost before_issues = issues@;
        let mut replacement: Option<YamlValue> = None;
        match &fields[i].0 {
            YamlValue::String(f) => {
                if is_reference_list_field(f) && !fits(f, &fields[i].1) {
                    replacement = written_reference_of(raw_root, name, f);
                    if replacement.is_some() {
                        issues.push(concat5(
                            "Job '",
                            name.as_str(),
                            "': !reference in '",
                            f.as_str(),
                            "' resolves to a value of the wrong type; its path is kept",
                        ));
                    }
                }
            },
            _ => {},
        }
        let k = clone_value(&fields[i].0);
        let v = match replacement {
            Some(p) => p,
            None => clone_value(&fields[i].1),
        };
        let ghost prev = out@;
        out.push((k, v));
        proof {
            assert(view_pairs(out@)[i as int] == fallback_field(rr, name@, fv[i as int]));
            assert forall|j: int| 0 <= j < i + 1 implies #[trigger] view_pairs(out@)[j] == fallback_field(rr, name@, fv[j]) by {
                if j < i {
                    assert(out@[j] == prev[j]);
                    assert(view_pairs(prev)[j] == fallback_field(rr, name@, fv[j]));
                }
            }
            assert(texts(issues@) =~= texts(before_issues) + g(fv[i as int]));
        }
        i = i + 1;
    }
    proof {
        lemma_flat_map_all(fv, g);
    }
    assert(view_pairs(out@) =~= Seq::new(fv.len(), |i: int| fallback_field(rr, name@, fv[i])));
    (out, issues)
}

/// Replaces each list field of a root job whose `!reference` (in `raw`, the
/// document before resolution) resolved to a value that does not fit the field
/// by the reference's path array, with one issue for each.
pub fn reference_fallback(raw: &YamlValue, resolved: &YamlValue) -> (r: (YamlValue, Vec<String>))
    ensures
        r.0@ == spec_reference_fallback(raw@, resolved@),
        texts(r.1@) == spec_reference_mismatches(raw@, resolved@),
{
    let (raw_root, pairs) = match (raw, resolved) {
        (YamlValue::Mapping(a), YamlValue::Mapping(b)) => (a, b),
        _ => {
            let none: Vec<String> = Vec::new();
            assert(texts(none@) =~= Seq::<Seq<char>>::empty());
            return (clone_value(resolved), none);
        },
    };
    let ghost rr = view_pairs(raw_root@);
    let ghost pv = view_pairs(pairs@);
    assert(raw@ == Yaml::Mapping(rr));
    assert(resolved@ == Yaml::Mapping(pv));
    let ghost g = |e: (Yaml, Yaml)| job_mismatch_issues(rr, e);
    let mut out: Vec<(YamlValue, YamlValue)> = Vec::new();
    let mut issues: Vec<String> = Vec::new();
    let mut i: usize = 0;
    assert(texts(issues@) =~= flat_map(pv.take(0), g));
    while i < pairs.len()
        invariant
            i <= pairs.len(),
            rr == view_pairs(raw_root@),
            pv == view_pairs(pairs@),
            g == (|e: (Yaml, Yaml)| job_mismatch_issues(rr, e)),
            out@.len() == i,
            forall|j: int| 0 <= j < i ==> #[trigger] view_pairs(out@)[j] == fallback_job(rr, pv[j]),
            texts(issues@) == flat_map(pv.take(i as int), g),
        decreases pairs.len() - i,
    {
        proof {
            lemma_flat_map_step(pv, g, i as int);
        }
        assert(pv[i as int] == (pairs@[i as int].0@, pairs@[i as int].1@));
        let ghost before_issues = issues@;
        let k = clone_value(&pairs[i].0);
        let v = match (&pairs[i].0, &pairs[i].1) {
            (YamlValue::String(name), YamlValue::Mapping(fields)) => {
                let (fs, more) = fallback_fields(raw_root, name, fields);
                let ghost fvv = view_pairs(fields@);
                assert(pv[i as int].1 == Yaml::Mapping(fvv));
                assert(g(pv[i as int]) == flat_map(fvv, |fe: (Yaml, Yaml)| field_mismatch_issues(rr, name@, fe)));
                extend_strings(&mut issues, more);
                YamlValue::Mapping(fs)
            },
            _ => {
                assert(g(pv[i as int]) =~= Seq::<Seq<char>>::empty());
                assert(texts(issues@) =~= texts(before_issues) + g(pv[i as int]));
                clone_value(&pairs[i].1)
            },
        };
        let ghost prev = out@;
        out.push((k, v));
        proof {
            assert(view_pairs(out@)[i as int] == fallback_job(rr, pv[i as int]));
            assert forall|j: int| 0 <= j < i + 1 implies #[trigger] view_pairs(out@)[j] == fallback_job(rr, pv[j]) by {
                if j < i {
                    assert(out@[j] == prev[j]);
                    assert(view_pairs(prev)[j] == fallback_job(rr, pv[j]));
                }
            }
        }
        i = i + 1;
    }
    proof {
        lemma_flat_map_all(pv, g);
    }
    assert(view_pairs(out@) =~= Seq::new(pv.len(), |i: int| fallback_job(rr, pv[i])));
    (YamlValue::Mapping(out), issues)
}

/// A list field of a root job whose `!reference` resolved to a value that does
/// not fit the field holds the reference's path array after the fallback, and
/// an issue names the job and the field; a field whose value fits is kept.
pub proof fn law_mismatched_reference_keeps_its_path(
    raw_root: Seq<(Yaml, Yaml)>,
    pairs: Seq<(Yaml, Yaml)>,
    i: int,
    j: int,
)
    requires
        0 <= i < pairs.len(),
        pairs[i].0 is Str,
        pairs[i].1 is Mapping,
        0 <= j < pairs[i].1->Mapping_0.len(),
        pairs[i].1->Mapping_0[j].0 is Str,
    ensures
        ({
            let name = pairs[i].0->Str_0;
            let field = pairs[i].1->Mapping_0[j];
            let f = field.0->Str_0;
            let out = spec_reference_fallback(Yaml::Mapping(raw_root), Yaml::Mapping(pairs));
            let kept = out->Mapping_0[i].1->Mapping_0[j];
            &&& (reference_list_fields().contains(f) && !fits_field(f, field.1)
                && written_reference(raw_root, name, f) is Some) ==> kept == (
                field.0,
                written_reference(raw_root, name, f)->0,
            ) && spec_reference_mismatches(Yaml::Mapping(raw_root), Yaml::Mapping(pairs)).contains(
                mismatch_issue(name, f),
            )
            &&& fits_field(f, field.1) ==> kept == field
        }),
{
    let name = pairs[i].0->Str_0;
    let fields = pairs[i].1->Mapping_0;
    let field = fields[j];
    let f = field.0->Str_0;
    if reference_list_fields().contains(f) && !fits_field(f, field.1) && written_reference(raw_root, name, f) is Some {
        let inner = |fe: (Yaml, Yaml)| field_mismatch_issues(raw_root, name, fe);
        assert(inner(fields[j]) == seq![mismatch_issue(name, f)]);
        lemma_flat_map_contains(fields, inner, j, 0);
        let outer = |e: (Yaml, Yaml)| job_mismatch_issues(raw_root, e);
        assert(outer(pairs[i]) == flat_map(fields, inner));
        let k = choose|k: int| 0 <= k < flat_map(fields, inner).len() && flat_map(fields, inner)[k] == mismatch_issue(name, f);
        lemma_flat_map_contains(pairs, outer, i, k);
    }
}

} // verus!
