//! Resolution of `include` directives of a GitLab CI document.
//!
//! For each `include` entry:
//! - `local:` (or a bare string) names a file next to the pipeline file. The
//!   caller reads and parses it (`local_include_paths` lists them in order) and
//!   hands the outcomes to `resolve_includes`, which merges a loaded mapping
//!   into the root mapping (shallow merge, later includes override earlier
//!   ones). A file that could not be read or parsed is recorded in
//!   `failed_local_includes`.
//! - `project:` / `remote:` / `template:` / `component:` / `artifact:` are
//!   tracked as unresolved, so that callers can skip "undefined job" checks.
//!
//! Include-level `rules` are ignored: the content is always included.
use vstd::prelude::*;
use vstd::string::*;
use crate::text::texts;
use crate::reading::{read_yaml, yaml_document};
use crate::yaml::{
    distinct_keys, lemma_lookup_insert, lemma_lookup_push,
    clone_pairs, clone_value, find_str_key, get_str, key_position, lemma_key_position_found, lookup,
    map_insert, mapping_insert, untag, untag_ref, view_items, view_pairs, Yaml, YamlValue,
};

verus! {

/// The outcome of resolving the includes of a pipeline document.
#[derive(Debug, Clone)]
pub struct ResolvedPipeline {
    pub merged_yaml: YamlValue,
    pub has_unresolved_includes: bool,
    pub failed_local_includes: Vec<String>,
}

/// How one entry of `include` is handled.
pub enum IncludeKind {
    /// A local file, by its path.
    Local(Seq<char>),
    /// An include that cannot be resolved locally (project, remote, template,
    /// component or artifact).
    Unresolved,
    /// Anything else, which is ignored.
    Ignored,
}

/// The keys that mark an include as one that cannot be resolved locally.
pub open spec fn unresolved_include_keys() -> Seq<Seq<char>> {
    seq!["project"@, "remote"@, "template"@, "component"@, "artifact"@]
}

pub open spec fn include_kind(item: Yaml) -> IncludeKind {
    match untag(item) {
        Yaml::Mapping(m) => match lookup(m, Yaml::Str("local"@)) {
            Some(v) => match untag(v) {
                Yaml::Str(p) => IncludeKind::Local(p),
                _ => IncludeKind::Ignored,
            },
            None => if exists|i: int|
                0 <= i < unresolved_include_keys().len() && lookup(m, Yaml::Str(#[trigger] unresolved_include_keys()[i]))
                    is Some {
                IncludeKind::Unresolved
            } else {
                IncludeKind::Ignored
            },
        },
        Yaml::Str(p) => IncludeKind::Local(p),
        _ => IncludeKind::Ignored,
    }
}

/// The entries of the root `include`, when the document is a mapping whose
/// `include` is a sequence, a string or a mapping.
pub open spec fn include_items(yaml: Yaml) -> Option<Seq<Yaml>> {
    match untag(yaml) {
        Yaml::Mapping(root) => match lookup(root, Yaml::Str("include"@)) {
            Some(Yaml::Sequence(items)) => Some(items),
            Some(Yaml::Str(s)) => Some(seq![Yaml::Str(s)]),
            Some(Yaml::Mapping(m)) => Some(seq![Yaml::Mapping(m)]),
            _ => None,
        },
        _ => None,
    }
}

/// The local paths among `items`, in order.
pub open spec fn local_paths_of(items: Seq<Yaml>) -> Seq<Seq<char>>
    decreases items.len(),
{
    if items.len() == 0 {
        Seq::empty()
    } else {
        let front = local_paths_of(items.drop_last());
        match include_kind(items.last()) {
            IncludeKind::Local(p) => front.push(p),
            _ => front,
        }
    }
}

/// The local files that the document includes, in include order.
pub open spec fn spec_local_include_paths(yaml: Yaml) -> Seq<Seq<char>> {
    match include_items(yaml) {
        Some(items) => local_paths_of(items),
        None => Seq::empty(),
    }
}

/// Inserting all entries of `m`, in order, into `pairs`.
pub open spec fn insert_all(pairs: Seq<(Yaml, Yaml)>, m: Seq<(Yaml, Yaml)>) -> Seq<(Yaml, Yaml)>
    decreases m.len(),
{
    if m.len() == 0 {
        pairs
    } else {
        map_insert(insert_all(pairs, m.drop_last()), m.last().0, m.last().1)
    }
}

/// The state after handling a prefix of the include entries: the merged root
/// entries, whether some include is unresolved, and the failed local paths.
pub struct IncludeState {
    pub merged: Seq<(Yaml, Yaml)>,
    pub unresolved: bool,
    pub failed: Seq<Seq<char>>,
}

/// Handles `items[..n]`, starting from the root entries `root`; `loaded[k]` is
/// the parsed content of the k-th local include, or `None` when it could not be
/// read or parsed.
pub open spec fn include_state(root: Seq<(Yaml, Yaml)>, items: Seq<Yaml>, loaded: Seq<Option<Yaml>>, n: nat) -> IncludeState
    decreases n,
{
    if n == 0 {
        IncludeState { merged: root, unresolved: false, failed: Seq::empty() }
    } else {
        let prev = include_state(root, items, loaded, (n - 1) as nat);
        let k = local_paths_of(items.take(n - 1)).len();
        match include_kind(items[n - 1]) {
            IncludeKind::Local(p) => match loaded[k as int] {
                Some(doc) => match untag(doc) {
                    Yaml::Mapping(m) => IncludeState { merged: insert_all(prev.merged, m), ..prev },
                    _ => prev,
                },
                None => IncludeState { unresolved: true, failed: prev.failed.push(p), ..prev },
            },
            IncludeKind::Unresolved => IncludeState { unresolved: true, ..prev },
            IncludeKind::Ignored => prev,
        }
    }
}

/// The node with the mapping under its tags replaced by `pairs`.
pub open spec fn with_root_pairs(yaml: Yaml, pairs: Seq<(Yaml, Yaml)>) -> Yaml
    decreases yaml,
{
    match yaml {
        Yaml::Tagged(t, inner) => Yaml::Tagged(t, Box::new(with_root_pairs(*inner, pairs))),
        _ => Yaml::Mapping(pairs),
    }
}

/// The merged document, whether some include is unresolved, and the failed
/// local paths.
pub open spec fn spec_resolve_includes(yaml: Yaml, loaded: Seq<Option<Yaml>>) -> (Yaml, bool, Seq<Seq<char>>) {
    match include_items(yaml) {
        Some(items) => {
            let st = include_state(untag(yaml)->Mapping_0, items, loaded, items.len());
            (with_root_pairs(yaml, st.merged), st.unresolved, st.failed)
        },
        None => (yaml, false, Seq::empty()),
    }
}

/// The documents read from the contents of the local includes: a file that
/// could not be read, or whose text is not YAML, gives none.
pub open spec fn parsed_view(contents: Seq<Option<String>>) -> Seq<Option<Yaml>> {
    Seq::new(
        contents.len(),
        |i: int|
            match contents[i] {
                Some(t) => yaml_document(t@),
                None => None,
            },
    )
}

pub open spec fn loaded_view(v: Seq<Option<YamlValue>>) -> Seq<Option<Yaml>> {
    Seq::new(
        v.len(),
        |i: int|
            match v[i] {
                Some(d) => Some(d@),
                None => None,
            },
    )
}

/// A document without a usable root `include` is left as it is, with no
/// unresolved includes and no failed local paths.
pub proof fn law_no_includes_unchanged(yaml: Yaml, loaded: Seq<Option<Yaml>>)
    requires
        include_items(yaml) is None,
    ensures
        spec_resolve_includes(yaml, loaded) == (yaml, false, Seq::<Seq<char>>::empty()),
{
}

/// Merging an included mapping is a shallow merge in which the included file
/// wins: a key that the file defines takes the file's value, and every other
/// key keeps its value.
pub proof fn law_included_entries_override(pairs: Seq<(Yaml, Yaml)>, m: Seq<(Yaml, Yaml)>, key: Yaml)
    requires
        distinct_keys(m),
    ensures
        lookup(insert_all(pairs, m), key) == if lookup(m, key) is Some {
            lookup(m, key)
        } else {
            lookup(pairs, key)
        },
    decreases m.len(),
{
    if m.len() > 0 {
        let front = m.drop_last();
        assert(distinct_keys(front)) by {
            assert forall|i: int, j: int| 0 <= i < j < front.len() implies (#[trigger] front[i]).0 != (#[trigger] front[j]).0 by {
                assert(front[i] == m[i] && front[j] == m[j]);
            }
        }
        law_included_entries_override(pairs, front, key);
        lemma_lookup_insert(insert_all(pairs, front), m.last().0, m.last().1, key);
        assert(front.push(m.last()) =~= m);
        lemma_lookup_push(front, m.last(), key);
        if key == m.last().0 {
            // the key does not occur earlier in `m`
            assert forall|j: int| 0 <= j < front.len() implies #[trigger] front[j].0 != key by {
                assert(front[j] == m[j]);
                assert(m[j].0 != m[m.len() - 1].0);
            }
            crate::yaml::lemma_key_position_absent(front, key);
        }
    }
}

/// Inserting the same entries into two mappings that agree on `key` gives two
/// mappings that still agree on `key`.
proof fn lemma_insert_all_agrees(p: Seq<(Yaml, Yaml)>, q: Seq<(Yaml, Yaml)>, m: Seq<(Yaml, Yaml)>, key: Yaml)
    requires
        lookup(p, key) == lookup(q, key),
    ensures
        lookup(insert_all(p, m), key) == lookup(insert_all(q, m), key),
    decreases m.len(),
{
    if m.len() > 0 {
        lemma_insert_all_agrees(p, q, m.drop_last(), key);
        lemma_lookup_insert(insert_all(p, m.drop_last()), m.last().0, m.last().1, key);
        lemma_lookup_insert(insert_all(q, m.drop_last()), m.last().0, m.last().1, key);
    }
}

/// A root `include` written as a single mapping is handled exactly as the
/// one-entry list holding that mapping: the same local files are read, the same
/// includes are reported unresolved or failed, and the merged document holds
/// the same value under every key but `include` itself.
pub proof fn law_single_mapping_include_is_one_entry_list(
    root: Seq<(Yaml, Yaml)>,
    m: Seq<(Yaml, Yaml)>,
    loaded: Seq<Option<Yaml>>,
    key: Yaml,
)
    requires
        lookup(root, Yaml::Str("include"@)) == Some(Yaml::Mapping(m)),
    ensures
        include_items(Yaml::Mapping(root)) == Some(seq![Yaml::Mapping(m)]),
        spec_local_include_paths(Yaml::Mapping(root)) == spec_local_include_paths(
            Yaml::Mapping(map_insert(root, Yaml::Str("include"@), Yaml::Sequence(seq![Yaml::Mapping(m)]))),
        ),
        spec_resolve_includes(Yaml::Mapping(root), loaded).1 == spec_resolve_includes(
            Yaml::Mapping(map_insert(root, Yaml::Str("include"@), Yaml::Sequence(seq![Yaml::Mapping(m)]))),
            loaded,
        ).1,
        spec_resolve_includes(Yaml::Mapping(root), loaded).2 == spec_resolve_includes(
            Yaml::Mapping(map_insert(root, Yaml::Str("include"@), Yaml::Sequence(seq![Yaml::Mapping(m)]))),
            loaded,
        ).2,
        spec_resolve_includes(Yaml::Mapping(root), loaded).0 is Mapping,
        spec_resolve_includes(
            Yaml::Mapping(map_insert(root, Yaml::Str("include"@), Yaml::Sequence(seq![Yaml::Mapping(m)]))),
            loaded,
        ).0 is Mapping,
        key != Yaml::Str("include"@) ==> lookup(spec_resolve_includes(Yaml::Mapping(root), loaded).0->Mapping_0, key)
            == lookup(
            spec_resolve_includes(
                Yaml::Mapping(map_insert(root, Yaml::Str("include"@), Yaml::Sequence(seq![Yaml::Mapping(m)]))),
                loaded,
            ).0->Mapping_0,
            key,
        ),
{
    let inc = Yaml::Str("include"@);
    let items = seq![Yaml::Mapping(m)];
    let root2 = map_insert(root, inc, Yaml::Sequence(items));
    lemma_lookup_insert(root, inc, Yaml::Sequence(items), inc);
    lemma_lookup_insert(root, inc, Yaml::Sequence(items), key);
    assert(include_items(Yaml::Mapping(root2)) == Some(items));
    assert(include_items(Yaml::Mapping(root)) == Some(items));
    assert(items.drop_last() =~= Seq::<Yaml>::empty());
    assert(items.take(0) =~= Seq::<Yaml>::empty());
    let s1 = include_state(root, items, loaded, 1);
    let s2 = include_state(root2, items, loaded, 1);
    assert(include_state(root, items, loaded, 0).merged == root);
    assert(include_state(root2, items, loaded, 0).merged == root2);
    if key != inc {
        match include_kind(items[0]) {
            IncludeKind::Local(p) => match loaded[0] {
                Some(doc) => match untag(doc) {
                    Yaml::Mapping(f) => {
                        lemma_insert_all_agrees(root, root2, f, key);
                    },
                    _ => {},
                },
                None => {},
            },
            _ => {},
        }
    }
}

/// The paths among `paths` whose loading failed, in order.
pub open spec fn failed_of(paths: Seq<Seq<char>>, loaded: Seq<Option<Yaml>>) -> Seq<Seq<char>>
    decreases paths.len(),
{
    if paths.len() == 0 {
        Seq::empty()
    } else {
        let front = failed_of(paths.drop_last(), loaded);
        if loaded[paths.len() - 1] is None {
            front.push(paths.last())
        } else {
            front
        }
    }
}

/// The state of the include handling after `n` entries: some include is
/// unresolved exactly when a local file failed or an entry names a project,
/// remote, template, component or artifact; the failed paths are the local
/// includes whose loading failed, in order.
pub proof fn lemma_include_state_flags(root: Seq<(Yaml, Yaml)>, items: Seq<Yaml>, loaded: Seq<Option<Yaml>>, n: nat)
    requires
        n <= items.len(),
        loaded.len() == local_paths_of(items).len(),
    ensures
        include_state(root, items, loaded, n).unresolved <==> (include_state(root, items, loaded, n).failed.len() > 0
            || exists|i: int| 0 <= i < n && (#[trigger] include_kind(items[i])) is Unresolved),
        include_state(root, items, loaded, n).failed == failed_of(local_paths_of(items.take(n as int)), loaded),
    decreases n,
{
    if n == 0 {
        assert(items.take(0) =~= Seq::<Yaml>::empty());
    } else {
        let m = (n - 1) as nat;
        lemma_include_state_flags(root, items, loaded, m);
        lemma_local_paths_prefix(items, n as int);
        let lp_prev = local_paths_of(items.take(m as int));
        let lp = local_paths_of(items.take(n as int));
        assert(items.take(n as int).drop_last() =~= items.take(m as int));
        assert(items.take(n as int).last() == items[m as int]);
        if exists|i: int| 0 <= i < n && (#[trigger] include_kind(items[i])) is Unresolved {
            if !(include_kind(items[m as int]) is Unresolved) {
                let i = choose|i: int| 0 <= i < n && (#[trigger] include_kind(items[i])) is Unresolved;
                assert(i < m);
            }
        }
        match include_kind(items[m as int]) {
            IncludeKind::Local(p) => {
                assert(lp == lp_prev.push(p));
                assert(lp.drop_last() =~= lp_prev);
            },
            _ => {},
        }
    }
}

/// Some include is reported unresolved exactly when a local file failed to load
/// or an entry names a project, remote, template, component or artifact; the
/// failed paths are the local includes whose loading failed, in include order.
pub proof fn law_unresolved_includes(yaml: Yaml, loaded: Seq<Option<Yaml>>, items: Seq<Yaml>)
    requires
        include_items(yaml) == Some(items),
        loaded.len() == spec_local_include_paths(yaml).len(),
    ensures
        spec_resolve_includes(yaml, loaded).1 <==> (spec_resolve_includes(yaml, loaded).2.len() > 0 || exists|i: int|
            0 <= i < items.len() && (#[trigger] include_kind(items[i])) is Unresolved),
        spec_resolve_includes(yaml, loaded).2 == failed_of(spec_local_include_paths(yaml), loaded),
{
    lemma_include_state_flags(untag(yaml)->Mapping_0, items, loaded, items.len());
    assert(items.take(items.len() as int) =~= items);
}

/// How one include entry is handled (executable form of `IncludeKind`).
enum Entry {
    Local(String),
    Unresolved,
    Ignored,
}

spec fn entry_matches(e: Entry, k: IncludeKind) -> bool {
    match (e, k) {
        (Entry::Local(p), IncludeKind::Local(q)) => p@ == q,
        (Entry::Unresolved, IncludeKind::Unresolved) => true,
        (Entry::Ignored, IncludeKind::Ignored) => true,
        _ => false,
    }
}

fn has_str_key(m: &Vec<(YamlValue, YamlValue)>, key: &str) -> (r: bool)
    ensures
        r == lookup(view_pairs(m@), Yaml::Str(key@)) is Some,
{
    let k = String::from_str(key);
    get_str(m, &k).is_some()
}

fn entry_kind(item: &YamlValue) -> (r: Entry)
    ensures
        entry_matches(r, include_kind(item@)),
{
    match untag_ref(item) {
        YamlValue::Mapping(m) => {
            let local = String::from_str("local");
            match get_str(m, &local) {
                Some(v) => match untag_ref(v) {
                    YamlValue::String(p) => Entry::Local(p.clone()),
                    _ => Entry::Ignored,
                },
                None => {
                    let ghost mv = view_pairs(m@);
                    let ghost keys = unresolved_include_keys();
                    let project = has_str_key(m, "project");
                    let remote = has_str_key(m, "remote");
                    let template = has_str_key(m, "template");
                    let component = has_str_key(m, "component");
                    let artifact = has_str_key(m, "artifact");
                    proof {
                        assert(keys[0] == "project"@);
                        assert(keys[1] == "remote"@);
                        assert(keys[2] == "template"@);
                        assert(keys[3] == "component"@);
                        assert(keys[4] == "artifact"@);
                    }
                    if project || remote || template || component || artifact {
                        Entry::Unresolved
                    } else {
                        Entry::Ignored
                    }
                },
            }
        },
        YamlValue::String(p) => Entry::Local(p.clone()),
        _ => Entry::Ignored,
    }
}

/// The entries of the root `include` (see `include_items`).
fn include_entries(yaml: &YamlValue) -> (r: Option<Vec<YamlValue>>)
    ensures
        match r {
            Some(v) => include_items(yaml@) == Some(view_items(v@)),
            None => include_items(yaml@) is None,
        },
{
    match untag_ref(yaml) {
        YamlValue::Mapping(root) => {
            let key = String::from_str("include");
            match get_str(root, &key) {
                Some(value) => match value {
                    YamlValue::Sequence(items) => Some(clone_items_vec(items)),
                    YamlValue::String(_) | YamlValue::Mapping(_) => {
                        let mut v: Vec<YamlValue> = Vec::new();
                        v.push(clone_value(value));
                        proof {
                            assert(view_items(v@) =~= seq![value@]);
                        }
                        Some(v)
                    },
                    _ => None,
                },
                None => None,
            }
        },
        _ => None,
    }
}

fn clone_items_vec(items: &Vec<YamlValue>) -> (r: Vec<YamlValue>)
    ensures
        view_items(r@) == view_items(items@),
{
    crate::yaml::clone_items(items)
}

proof fn lemma_local_paths_prefix(items: Seq<Yaml>, i: int)
    requires
        0 <= i <= items.len(),
    ensures
        local_paths_of(items.take(i)).len() <= local_paths_of(items).len(),
    decreases items.len() - i,
{
    if i < items.len() {
        lemma_local_paths_prefix(items, i + 1);
        assert(items.take(i + 1).drop_last() =~= items.take(i));
    } else {
        assert(items.take(i) =~= items);
    }
}

/// The local files that the document includes, in include order: each is to be
/// read relative to the pipeline file's directory and parsed.
pub fn local_include_paths(yaml: &YamlValue) -> (r: Vec<String>)
    ensures
        texts(r@) == spec_local_include_paths(yaml@),
{
    let mut out: Vec<String> = Vec::new();
    let items = match include_entries(yaml) {
        Some(v) => v,
        None => {
            proof {
                assert(texts(out@) =~= Seq::<Seq<char>>::empty());
            }
            return out;
        },
    };
    let ghost iv = view_items(items@);
    let mut i: usize = 0;
    proof {
        assert(iv.take(0) =~= Seq::<Yaml>::empty());
        assert(texts(out@) =~= Seq::<Seq<char>>::empty());
    }
    while i < items.len()
        invariant
            i <= items.len(),
            iv == view_items(items@),
            texts(out@) == local_paths_of(iv.take(i as int)),
        decreases items.len() - i,
    {
        assert(iv[i as int] == items@[i as int]@);
        assert(iv.take(i + 1).drop_last() =~= iv.take(i as int));
        assert(iv.take(i + 1).last() == iv[i as int]);
        let e = entry_kind(&items[i]);
        match e {
            Entry::Local(p) => {
                let ghost before = out@;
                out.push(p);
                proof {
                    assert(texts(out@) =~= texts(before).push(out@[before.len() as int]@));
                }
            },
            _ => {},
        }
        i = i + 1;
    }
    assert(iv.take(items@.len() as int) =~= iv);
    out
}

/// Inserts every entry of `m`, in order, into `merged`.
fn insert_entries(merged: &mut Vec<(YamlValue, YamlValue)>, m: &Vec<(YamlValue, YamlValue)>)
    ensures
        view_pairs(final(merged)@) == insert_all(view_pairs(old(merged)@), view_pairs(m@)),
{
    let ghost start = view_pairs(merged@);
    let ghost mv = view_pairs(m@);
    let mut j: usize = 0;
    assert(mv.take(0) =~= Seq::<(Yaml, Yaml)>::empty());
    while j < m.len()
        invariant
            j <= m.len(),
            mv == view_pairs(m@),
            view_pairs(merged@) == insert_all(start, mv.take(j as int)),
        decreases m.len() - j,
    {
        assert(mv[j as int] == (m@[j as int].0@, m@[j as int].1@));
        assert(mv.take(j + 1).drop_last() =~= mv.take(j as int));
        let k = clone_value(&m[j].0);
        let v = clone_value(&m[j].1);
        mapping_insert(merged, k, v);
        j = j + 1;
    }
    assert(mv.take(m@.len() as int) =~= mv);
}

/// The node with the mapping under its tags replaced by `pairs`.
fn with_root_entries(yaml: &YamlValue, pairs: Vec<(YamlValue, YamlValue)>) -> (r: YamlValue)
    ensures
        r@ == with_root_pairs(yaml@, view_pairs(pairs@)),
    decreases yaml,
{
    match yaml {
        YamlValue::Tagged(t, inner) => {
            let r = with_root_entries(inner, pairs);
            YamlValue::Tagged(t.clone(), Box::new(r))
        },
        _ => YamlValue::Mapping(pairs),
    }
}

/// Merges the loaded local includes into the document; `loaded[k]` is the
/// parsed content of the k-th path of `local_include_paths(yaml)`, or `None`.
fn merge_includes(yaml: &YamlValue, loaded: &Vec<Option<YamlValue>>) -> (r: ResolvedPipeline)
    requires
        loaded@.len() == spec_local_include_paths(yaml@).len(),
    ensures
        (r.merged_yaml@, r.has_unresolved_includes, texts(r.failed_local_includes@)) == spec_resolve_includes(
            yaml@,
            loaded_view(loaded@),
        ),
{
    let mut failed: Vec<String> = Vec::new();
    let items = match include_entries(yaml) {
        Some(v) => v,
        None => {
            proof {
                assert(texts(failed@) =~= Seq::<Seq<char>>::empty());
            }
            return ResolvedPipeline {
                merged_yaml: clone_value(yaml),
                has_unresolved_includes: false,
                failed_local_includes: failed,
            };
        },
    };
    let ghost iv = view_items(items@);
    let ghost lv = loaded_view(loaded@);
    let mut merged = match untag_ref(yaml) {
        YamlValue::Mapping(p) => clone_pairs(p),
        _ => {
            proof {
                assert(false);
            }
            Vec::new()
        },
    };
    let ghost root = untag(yaml@)->Mapping_0;
    let mut unresolved = false;
    let mut k: usize = 0;
    let mut i: usize = 0;
    proof {
        assert(iv.take(0) =~= Seq::<Yaml>::empty());
        assert(texts(failed@) =~= Seq::<Seq<char>>::empty());
    }
    while i < items.len()
        invariant
            i <= items.len(),
            iv == view_items(items@),
            lv == loaded_view(loaded@),
            include_items(yaml@) == Some(iv),
            loaded@.len() == local_paths_of(iv).len(),
            k == local_paths_of(iv.take(i as int)).len(),
            include_state(root, iv, lv, i as nat) == (IncludeState {
                merged: view_pairs(merged@),
                unresolved: unresolved,
                failed: texts(failed@),
            }),
        decreases items.len() - i,
    {
        assert(iv[i as int] == items@[i as int]@);
        assert(iv.take(i + 1).drop_last() =~= iv.take(i as int));
        assert(iv.take(i + 1).last() == iv[i as int]);
        proof {
            lemma_local_paths_prefix(iv, i + 1);
        }
        match entry_kind(&items[i]) {
            Entry::Local(p) => {
                assert(k < loaded@.len());
                let n_loaded = loaded.len();
                assert(lv[k as int] == match loaded@[k as int] {
                    Some(d) => Some(d@),
                    None => None,
                });
                match &loaded[k] {
                    Some(doc) => match untag_ref(doc) {
                        YamlValue::Mapping(m) => {
                            insert_entries(&mut merged, m);
                        },
                        _ => {},
                    },
                    None => {
                        let ghost before = failed@;
                        unresolved = true;
                        failed.push(p);
                        proof {
                            assert(texts(failed@) =~= texts(before).push(failed@[before.len() as int]@));
                        }
                    },
                }
                assert(k < n_loaded);
                k = k + 1;
            },
            Entry::Unresolved => {
                unresolved = true;
            },
            Entry::Ignored => {},
        }
        i = i + 1;
    }
    let merged_yaml = with_root_entries(yaml, merged);
    ResolvedPipeline { merged_yaml, has_unresolved_includes: unresolved, failed_local_includes: failed }
}

/// Resolve `include` directives in a GitLab CI YAML document.
///
/// `contents[k]` is the text of the k-th path of `local_include_paths(yaml)`,
/// or `None` when that file could not be read. Each text is read as YAML; a
/// text that is not YAML counts as a file that failed.
pub fn resolve_includes(yaml: &YamlValue, contents: &Vec<Option<String>>) -> (r: ResolvedPipeline)
    requires
        contents@.len() == spec_local_include_paths(yaml@).len(),
    ensures
        (r.merged_yaml@, r.has_unresolved_includes, texts(r.failed_local_includes@)) == spec_resolve_includes(
            yaml@,
            parsed_view(contents@),
        ),
{
    let mut loaded: Vec<Option<YamlValue>> = Vec::new();
    let mut i: usize = 0;
    while i < contents.len()
        invariant
            i <= contents.len(),
            loaded@.len() == i,
            forall|j: int| 0 <= j < i ==> (#[trigger] loaded_view(loaded@)[j]) == parsed_view(contents@)[j],
        decreases contents.len() - i,
    {
        let doc = match &contents[i] {
            Some(text) => match read_yaml(text.as_str()) {
                Ok(v) => Some(v),
                Err(_) => None,
            },
            None => None,
        };
        let ghost before = loaded@;
        loaded.push(doc);
        proof {
            assert forall|j: int| 0 <= j < i + 1 implies (#[trigger] loaded_view(loaded@)[j]) == parsed_view(contents@)[j] by {
                if j < i {
                    assert(loaded@[j] == before[j]);
                    assert(loaded_view(before)[j] == parsed_view(contents@)[j]);
                }
            }
        }
        i = i + 1;
    }
    assert(loaded_view(loaded@) =~= parsed_view(contents@));
    merge_includes(yaml, &loaded)
}

} // verus!
