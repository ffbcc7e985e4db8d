//! Resolution of GitLab's `!reference [key, ..., field]` tags within one document.
//!
//! Each `!reference` node whose path names an entry of the document is replaced
//! by that entry, itself resolved in turn (transitive references). A path that
//! names nothing, or that would close a cycle, is replaced by the path array.
//! Malformed tags (not a sequence of strings) and empty paths are left as they
//! are. Nodes nested deeper than `MAX_RESOLVE_DEPTH` are left as they are.
use vstd::prelude::*;
use vstd::string::*;
use crate::yaml::{
    distinct_keys, lemma_key_position_range, lemma_mapping_from_distinct, lemma_mapping_from_pairs_parts, well_formed,
    clone_value, get_str, lookup, mapping_from_pairs, mapping_insert, view_items, view_pairs, Yaml,
    YamlValue,
};

verus! {

/// Maximum recursion depth for reference resolution.
pub const MAX_RESOLVE_DEPTH: usize = 100;

/// The written form of the tag this module resolves.
pub open spec fn reference_tag() -> Seq<char> {
    "!reference"@
}

/// A path as the sequence of its segments' texts.
pub open spec fn path_view(p: Seq<String>) -> Seq<Seq<char>> {
    Seq::new(p.len(), |i: int| p[i]@)
}

/// The set of paths on a resolution chain.
pub open spec fn chain_view(chain: Seq<Vec<String>>) -> Set<Seq<Seq<char>>> {
    Set::new(|p: Seq<Seq<char>>| exists|i: int| 0 <= i < chain.len() && path_view(#[trigger] chain[i]@) == p)
}

/// The path segments of a `!reference` value: a sequence whose items are all
/// plain strings. Anything else is malformed.
pub open spec fn spec_extract_path(value: Yaml) -> Option<Seq<Seq<char>>> {
    match value {
        Yaml::Sequence(items) => {
            if forall|i: int| 0 <= i < items.len() ==> (#[trigger] items[i]) is Str {
                Some(Seq::new(items.len(), |i: int| items[i]->Str_0))
            } else {
                None
            }
        },
        _ => None,
    }
}

/// The node reached from `root` by looking up each segment in turn as a
/// plain string key of a mapping.
pub open spec fn spec_walk_path(root: Yaml, path: Seq<Seq<char>>) -> Option<Yaml>
    decreases path.len(),
{
    if path.len() == 0 {
        Some(root)
    } else {
        match spec_walk_path(root, path.drop_last()) {
            Some(Yaml::Mapping(pairs)) => lookup(pairs, Yaml::Str(path.last())),
            _ => None,
        }
    }
}

/// The result of resolving `node` at nesting `depth`, with `chain` the paths
/// currently being resolved.
pub open spec fn spec_resolve_node(node: Yaml, root: Yaml, chain: Set<Seq<Seq<char>>>, depth: nat) -> Yaml
    decreases MAX_RESOLVE_DEPTH + 1 - depth, 1nat,
{
    if depth > MAX_RESOLVE_DEPTH {
        node
    } else {
        match node {
            Yaml::Tagged(tag, inner) => {
                if tag == reference_tag() {
                    spec_resolve_tag(*inner, root, chain, depth)
                } else {
                    node
                }
            },
            Yaml::Sequence(items) => Yaml::Sequence(spec_resolve_items(items, root, chain, depth + 1)),
            Yaml::Mapping(pairs) => Yaml::Mapping(mapping_from_pairs(spec_resolve_pairs(pairs, root, chain, depth + 1))),
            _ => node,
        }
    }
}

/// Each item of a sequence, resolved.
pub open spec fn spec_resolve_items(items: Seq<Yaml>, root: Yaml, chain: Set<Seq<Seq<char>>>, depth: nat) -> Seq<Yaml>
    decreases MAX_RESOLVE_DEPTH + 1 - depth, 2nat,
{
    Seq::new(items.len(), |i: int| spec_resolve_node(items[i], root, chain, depth))
}

/// Each key and value of a mapping, resolved (before the entries are collected
/// into a mapping again).
pub open spec fn spec_resolve_pairs(pairs: Seq<(Yaml, Yaml)>, root: Yaml, chain: Set<Seq<Seq<char>>>, depth: nat) -> Seq<(Yaml, Yaml)>
    decreases MAX_RESOLVE_DEPTH + 1 - depth, 2nat,
{
    Seq::new(
        pairs.len(),
        |i: int| (spec_resolve_node(pairs[i].0, root, chain, depth), spec_resolve_node(pairs[i].1, root, chain, depth)),
    )
}

/// The result of resolving the tag `!reference value` at nesting `depth`.
pub open spec fn spec_resolve_tag(value: Yaml, root: Yaml, chain: Set<Seq<Seq<char>>>, depth: nat) -> Yaml
    decreases MAX_RESOLVE_DEPTH + 1 - depth, 0nat,
{
    let tagged = Yaml::Tagged(reference_tag(), Box::new(value));
    if depth > MAX_RESOLVE_DEPTH {
        value
    } else {
        match spec_extract_path(value) {
            None => tagged,
            Some(path) => {
                if path.len() == 0 {
                    tagged
                } else if chain.contains(path) {
                    value
                } else {
                    match spec_walk_path(root, path) {
                        Some(target) => spec_resolve_node(target, root, chain.insert(path), depth + 1),
                        None => value,
                    }
                }
            },
        }
    }
}

/// The document with its `!reference` tags resolved.
pub open spec fn spec_resolve_references(doc: Yaml) -> Yaml {
    spec_resolve_node(doc, doc, Set::empty(), 0)
}

/// The tree holds no `!reference` tag outside of other tagged nodes (whose
/// content resolution leaves alone).
pub open spec fn free_of_references(y: Yaml) -> bool
    decreases y,
{
    match y {
        Yaml::Tagged(tag, _) => tag != reference_tag(),
        Yaml::Sequence(items) => forall|i: int| 0 <= i < items.len() ==> free_of_references(#[trigger] items[i]),
        Yaml::Mapping(pairs) => forall|i: int|
            0 <= i < pairs.len() ==> free_of_references((#[trigger] pairs[i]).0) && free_of_references(pairs[i].1),
        _ => true,
    }
}

/// Resolution leaves a well-formed tree without `!reference` tags exactly as it
/// is, at any nesting depth and whatever is being resolved around it.
pub proof fn lemma_resolve_without_references(node: Yaml, root: Yaml, chain: Set<Seq<Seq<char>>>, depth: nat)
    requires
        well_formed(node),
        free_of_references(node),
    ensures
        spec_resolve_node(node, root, chain, depth) == node,
    decreases node,
{
    if depth <= MAX_RESOLVE_DEPTH {
        match node {
            Yaml::Sequence(items) => {
                let r = spec_resolve_items(items, root, chain, depth + 1);
                assert forall|i: int| 0 <= i < items.len() implies r[i] == items[i] by {
                    lemma_resolve_without_references(items[i], root, chain, depth + 1);
                }
                assert(r =~= items);
            },
            Yaml::Mapping(pairs) => {
                let r = spec_resolve_pairs(pairs, root, chain, depth + 1);
                assert forall|i: int| 0 <= i < pairs.len() implies r[i] == pairs[i] by {
                    lemma_resolve_without_references(pairs[i].0, root, chain, depth + 1);
                    lemma_resolve_without_references(pairs[i].1, root, chain, depth + 1);
                }
                assert(r =~= pairs);
                lemma_mapping_from_distinct(pairs);
            },
            _ => {},
        }
    }
}

/// A document without `!reference` tags resolves to itself: the resolution step
/// is invisible to documents that do not use the tag.
pub proof fn law_resolution_is_identity_without_references(doc: Yaml)
    requires
        well_formed(doc),
        free_of_references(doc),
    ensures
        spec_resolve_references(doc) == doc,
{
    lemma_resolve_without_references(doc, doc, Set::empty(), 0);
}

/// A well-formed reference to a target that exists and holds no further
/// references is replaced by a copy of the target.
pub proof fn law_reference_to_plain_target(
    value: Yaml,
    root: Yaml,
    chain: Set<Seq<Seq<char>>>,
    depth: nat,
    path: Seq<Seq<char>>,
    target: Yaml,
)
    requires
        depth <= MAX_RESOLVE_DEPTH,
        spec_extract_path(value) == Some(path),
        path.len() > 0,
        !chain.contains(path),
        spec_walk_path(root, path) == Some(target),
        well_formed(target),
        free_of_references(target),
    ensures
        spec_resolve_tag(value, root, chain, depth) == target,
{
    lemma_resolve_without_references(target, root, chain.insert(path), depth + 1);
}

/// Transitive resolution: a reference whose target is itself a reference to a
/// target without further references resolves to that final target.
pub proof fn law_transitive_reference(
    value: Yaml,
    root: Yaml,
    chain: Set<Seq<Seq<char>>>,
    depth: nat,
    path: Seq<Seq<char>>,
    next_value: Yaml,
    next_path: Seq<Seq<char>>,
    target: Yaml,
)
    requires
        depth + 1 <= MAX_RESOLVE_DEPTH,
        spec_extract_path(value) == Some(path),
        path.len() > 0,
        !chain.contains(path),
        spec_walk_path(root, path) == Some(Yaml::Tagged(reference_tag(), Box::new(next_value))),
        spec_extract_path(next_value) == Some(next_path),
        next_path.len() > 0,
        !chain.insert(path).contains(next_path),
        spec_walk_path(root, next_path) == Some(target),
        well_formed(target),
        free_of_references(target),
    ensures
        spec_resolve_tag(value, root, chain, depth) == target,
{
    let c1 = chain.insert(path);
    let c2 = c1.insert(next_path);
    let next = Yaml::Tagged(reference_tag(), Box::new(next_value));
    assert(spec_resolve_tag(value, root, chain, depth) == spec_resolve_node(next, root, c1, depth + 1));
    assert(spec_resolve_node(next, root, c1, depth + 1) == spec_resolve_tag(next_value, root, c1, depth + 1));
    assert(spec_resolve_tag(next_value, root, c1, depth + 1) == spec_resolve_node(target, root, c2, depth + 2));
    lemma_resolve_without_references(target, root, c2, depth + 2);
}

/// A cycle ends: a reference whose target is a reference back to the same path
/// resolves to the path array.
pub proof fn law_reference_cycle_ends(
    value: Yaml,
    root: Yaml,
    chain: Set<Seq<Seq<char>>>,
    depth: nat,
    path: Seq<Seq<char>>,
)
    requires
        depth + 1 <= MAX_RESOLVE_DEPTH,
        spec_extract_path(value) == Some(path),
        path.len() > 0,
        !chain.contains(path),
        spec_walk_path(root, path) == Some(Yaml::Tagged(reference_tag(), Box::new(value))),
    ensures
        spec_resolve_tag(value, root, chain, depth) == value,
{
    let c1 = chain.insert(path);
    let back = Yaml::Tagged(reference_tag(), Box::new(value));
    assert(spec_resolve_tag(value, root, chain, depth) == spec_resolve_node(back, root, c1, depth + 1));
    assert(spec_resolve_node(back, root, c1, depth + 1) == spec_resolve_tag(value, root, c1, depth + 1));
    assert(c1.contains(path));
}

/// A cycle through two references ends: when `path` names a reference to
/// `other_path`, which names a reference back to `path`, resolving the first
/// reference gives its own path array.
pub proof fn law_mutual_reference_cycle_ends(
    value: Yaml,
    root: Yaml,
    chain: Set<Seq<Seq<char>>>,
    depth: nat,
    path: Seq<Seq<char>>,
    other_value: Yaml,
    other_path: Seq<Seq<char>>,
)
    requires
        depth + 2 <= MAX_RESOLVE_DEPTH,
        spec_extract_path(value) == Some(path),
        spec_extract_path(other_value) == Some(other_path),
        path.len() > 0,
        other_path.len() > 0,
        path != other_path,
        !chain.contains(path),
        !chain.contains(other_path),
        spec_walk_path(root, path) == Some(Yaml::Tagged(reference_tag(), Box::new(other_value))),
        spec_walk_path(root, other_path) == Some(Yaml::Tagged(reference_tag(), Box::new(value))),
    ensures
        spec_resolve_tag(value, root, chain, depth) == value,
{
    let c1 = chain.insert(path);
    let c2 = c1.insert(other_path);
    let other = Yaml::Tagged(reference_tag(), Box::new(other_value));
    let back = Yaml::Tagged(reference_tag(), Box::new(value));
    assert(!c1.contains(other_path));
    assert(spec_resolve_tag(value, root, chain, depth) == spec_resolve_node(other, root, c1, depth + 1));
    assert(spec_resolve_node(other, root, c1, depth + 1) == spec_resolve_tag(other_value, root, c1, depth + 1));
    assert(spec_resolve_tag(other_value, root, c1, depth + 1) == spec_resolve_node(back, root, c2, depth + 2));
    assert(spec_resolve_node(back, root, c2, depth + 2) == spec_resolve_tag(value, root, c2, depth + 2));
    assert(c2.contains(path));
}

/// A malformed `!reference` value (not a sequence of strings) is left as it is.
pub proof fn law_malformed_reference_kept(value: Yaml, root: Yaml, chain: Set<Seq<Seq<char>>>, depth: nat)
    requires
        depth <= MAX_RESOLVE_DEPTH,
        spec_extract_path(value) is None,
    ensures
        spec_resolve_tag(value, root, chain, depth) == Yaml::Tagged(reference_tag(), Box::new(value)),
{
}

/// What resolution does with a well-formed path it cannot follow: an empty path
/// leaves the tag as it is; a path that names nothing in the document, or that
/// is already being resolved (a cycle), is replaced by the path array itself.
pub proof fn law_unresolvable_reference(
    value: Yaml,
    root: Yaml,
    chain: Set<Seq<Seq<char>>>,
    depth: nat,
    path: Seq<Seq<char>>,
)
    requires
        depth <= MAX_RESOLVE_DEPTH,
        spec_extract_path(value) == Some(path),
    ensures
        path.len() == 0 ==> spec_resolve_tag(value, root, chain, depth) == Yaml::Tagged(reference_tag(), Box::new(value)),
        path.len() > 0 && chain.contains(path) ==> spec_resolve_tag(value, root, chain, depth) == value,
        path.len() > 0 && spec_walk_path(root, path) is None ==> spec_resolve_tag(value, root, chain, depth) == value,
{
}

/// Resolving a sequence gives a sequence of the same length, item by item;
/// nodes nested deeper than the limit are left as they are.
pub proof fn law_resolution_shape(node: Yaml, root: Yaml, chain: Set<Seq<Seq<char>>>, depth: nat)
    ensures
        depth > MAX_RESOLVE_DEPTH ==> spec_resolve_node(node, root, chain, depth) == node,
        depth <= MAX_RESOLVE_DEPTH && node is Sequence ==> {
            let r = spec_resolve_node(node, root, chain, depth);
            &&& r is Sequence
            &&& r->Sequence_0.len() == node->Sequence_0.len()
            &&& forall|i: int| 0 <= i < node->Sequence_0.len() ==> #[trigger] r->Sequence_0[i] == spec_resolve_node(node->Sequence_0[i], root, chain, depth + 1)
        },
{
}

/// A `!reference` tag that resolution keeps as it is: its path is malformed or
/// empty.
pub open spec fn kept_reference(value: Yaml) -> bool {
    match spec_extract_path(value) {
        None => true,
        Some(p) => p.len() == 0,
    }
}

/// Every `!reference` tag left in the tree (outside other tags) is one that
/// resolution keeps as it is.
pub open spec fn settled(y: Yaml) -> bool
    decreases y,
{
    match y {
        Yaml::Tagged(tag, inner) => tag != reference_tag() || kept_reference(*inner),
        Yaml::Sequence(items) => forall|i: int| 0 <= i < items.len() ==> settled(#[trigger] items[i]),
        Yaml::Mapping(pairs) => forall|i: int|
            0 <= i < pairs.len() ==> settled((#[trigger] pairs[i]).0) && settled(pairs[i].1),
        _ => true,
    }
}

/// Resolution leaves a well-formed, settled tree exactly as it is, at any
/// nesting depth and whatever is being resolved around it.
pub proof fn lemma_resolve_settled(node: Yaml, root: Yaml, chain: Set<Seq<Seq<char>>>, depth: nat)
    requires
        well_formed(node),
        settled(node),
    ensures
        spec_resolve_node(node, root, chain, depth) == node,
    decreases node,
{
    if depth <= MAX_RESOLVE_DEPTH {
        match node {
            Yaml::Sequence(items) => {
                let r = spec_resolve_items(items, root, chain, depth + 1);
                assert forall|i: int| 0 <= i < items.len() implies r[i] == items[i] by {
                    lemma_resolve_settled(items[i], root, chain, depth + 1);
                }
                assert(r =~= items);
            },
            Yaml::Mapping(pairs) => {
                let r = spec_resolve_pairs(pairs, root, chain, depth + 1);
                assert forall|i: int| 0 <= i < pairs.len() implies r[i] == pairs[i] by {
                    lemma_resolve_settled(pairs[i].0, root, chain, depth + 1);
                    lemma_resolve_settled(pairs[i].1, root, chain, depth + 1);
                }
                assert(r =~= pairs);
                lemma_mapping_from_distinct(pairs);
            },
            _ => {},
        }
    }
}

/// Resolution never meets an unresolved `!reference` beyond the depth limit:
/// every node that it leaves as it is for being too deep is settled.
pub open spec fn resolves_within_limit(node: Yaml, root: Yaml, chain: Set<Seq<Seq<char>>>, depth: nat) -> bool
    decreases MAX_RESOLVE_DEPTH + 1 - depth, 1nat,
{
    if depth > MAX_RESOLVE_DEPTH {
        settled(node)
    } else {
        match node {
            Yaml::Tagged(tag, inner) => {
                if tag == reference_tag() {
                    tag_resolves_within_limit(*inner, root, chain, depth)
                } else {
                    true
                }
            },
            Yaml::Sequence(items) => forall|i: int|
                0 <= i < items.len() ==> resolves_within_limit(#[trigger] items[i], root, chain, depth + 1),
            Yaml::Mapping(pairs) => forall|i: int|
                0 <= i < pairs.len() ==> resolves_within_limit((#[trigger] pairs[i]).0, root, chain, depth + 1)
                    && resolves_within_limit(pairs[i].1, root, chain, depth + 1),
            _ => true,
        }
    }
}

pub open spec fn tag_resolves_within_limit(value: Yaml, root: Yaml, chain: Set<Seq<Seq<char>>>, depth: nat) -> bool
    decreases MAX_RESOLVE_DEPTH + 1 - depth, 0nat,
{
    if depth > MAX_RESOLVE_DEPTH {
        true
    } else {
        match spec_extract_path(value) {
            Some(path) => {
                if path.len() > 0 && !chain.contains(path) {
                    match spec_walk_path(root, path) {
                        Some(target) => resolves_within_limit(target, root, chain.insert(path), depth + 1),
                        None => true,
                    }
                } else {
                    true
                }
            },
            None => true,
        }
    }
}

proof fn lemma_walk_well_formed(root: Yaml, path: Seq<Seq<char>>)
    requires
        well_formed(root),
    ensures
        spec_walk_path(root, path) matches Some(t) ==> well_formed(t),
    decreases path.len(),
{
    if path.len() > 0 {
        lemma_walk_well_formed(root, path.drop_last());
        match spec_walk_path(root, path.drop_last()) {
            Some(Yaml::Mapping(pairs)) => {
                lemma_key_position_range(pairs, Yaml::Str(path.last()));
            },
            _ => {},
        }
    }
}

proof fn lemma_path_value_settled(value: Yaml, path: Seq<Seq<char>>)
    requires
        spec_extract_path(value) == Some(path),
    ensures
        settled(value),
{
    let items = value->Sequence_0;
    assert forall|i: int| 0 <= i < items.len() implies settled(#[trigger] items[i]) by {
        assert(items[i] is Str);
    }
}

/// Within the depth limit, the result of resolution is well-formed and
/// settled.
pub proof fn lemma_resolved_settled(node: Yaml, root: Yaml, chain: Set<Seq<Seq<char>>>, depth: nat)
    requires
        well_formed(root),
        well_formed(node),
        resolves_within_limit(node, root, chain, depth),
    ensures
        well_formed(spec_resolve_node(node, root, chain, depth)),
        settled(spec_resolve_node(node, root, chain, depth)),
    decreases MAX_RESOLVE_DEPTH + 1 - depth, 1nat,
{
    if depth <= MAX_RESOLVE_DEPTH {
        match node {
            Yaml::Tagged(tag, inner) => {
                if tag == reference_tag() {
                    lemma_resolved_tag_settled(*inner, root, chain, depth);
                }
            },
            Yaml::Sequence(items) => {
                let r = spec_resolve_items(items, root, chain, depth + 1);
                assert forall|i: int| 0 <= i < r.len() implies well_formed(#[trigger] r[i]) && settled(r[i]) by {
                    lemma_resolved_settled(items[i], root, chain, depth + 1);
                }
                assert(spec_resolve_node(node, root, chain, depth) == Yaml::Sequence(r));
            },
            Yaml::Mapping(pairs) => {
                let r = spec_resolve_pairs(pairs, root, chain, depth + 1);
                assert forall|i: int| 0 <= i < r.len() implies (well_formed((#[trigger] r[i]).0) && settled(r[i].0))
                    && (well_formed(r[i].1) && settled(r[i].1)) by {
                    lemma_resolved_settled(pairs[i].0, root, chain, depth + 1);
                    lemma_resolved_settled(pairs[i].1, root, chain, depth + 1);
                }
                let p = |y: Yaml| well_formed(y) && settled(y);
                assert forall|j: int| 0 <= j < r.len() implies p((#[trigger] r[j]).0) && p(r[j].1) by {}
                lemma_mapping_from_pairs_parts(r, p);
                let m = mapping_from_pairs(r);
                assert forall|i: int| 0 <= i < m.len() implies well_formed((#[trigger] m[i]).0) && well_formed(m[i].1)
                    && settled(m[i].0) && settled(m[i].1) by {
                    assert(p(m[i].0) && p(m[i].1));
                }
                assert(spec_resolve_node(node, root, chain, depth) == Yaml::Mapping(m));
            },
            _ => {},
        }
    }
}

proof fn lemma_resolved_tag_settled(value: Yaml, root: Yaml, chain: Set<Seq<Seq<char>>>, depth: nat)
    requires
        depth <= MAX_RESOLVE_DEPTH,
        well_formed(root),
        well_formed(value),
        tag_resolves_within_limit(value, root, chain, depth),
    ensures
        well_formed(spec_resolve_tag(value, root, chain, depth)),
        settled(spec_resolve_tag(value, root, chain, depth)),
    decreases MAX_RESOLVE_DEPTH + 1 - depth, 0nat,
{
    match spec_extract_path(value) {
        None => {},
        Some(path) => {
            if path.len() == 0 {
            } else if chain.contains(path) {
                lemma_path_value_settled(value, path);
            } else {
                lemma_walk_well_formed(root, path);
                match spec_walk_path(root, path) {
                    Some(target) => {
                        lemma_resolved_settled(target, root, chain.insert(path), depth + 1);
                    },
                    None => {
                        lemma_path_value_settled(value, path);
                    },
                }
            }
        },
    }
}

/// Resolution is idempotent within the depth limit: for a well-formed document
/// in which resolution never meets an unresolved `!reference` beyond the limit,
/// resolving the resolved document gives it back unchanged.
pub proof fn law_resolution_is_idempotent(doc: Yaml)
    requires
        well_formed(doc),
        resolves_within_limit(doc, doc, Set::empty(), 0),
    ensures
        spec_resolve_references(spec_resolve_references(doc)) == spec_resolve_references(doc),
{
    let r = spec_resolve_references(doc);
    lemma_resolved_settled(doc, doc, Set::empty(), 0);
    lemma_resolve_settled(r, r, Set::empty(), 0);
}

/// Resolve `!reference` tags within a single YAML document tree.
pub fn resolve_references(doc: &YamlValue) -> (r: YamlValue)
    ensures
        r@ == spec_resolve_references(doc@),
{
    let mut chain: Vec<Vec<String>> = Vec::new();
    proof {
        assert(chain_view(chain@) =~= Set::empty());
    }
    resolve_node(doc, doc, &mut chain, 0)
}

fn resolve_node(node: &YamlValue, root: &YamlValue, chain: &mut Vec<Vec<String>>, depth: usize) -> (r: YamlValue)
    requires
        depth <= MAX_RESOLVE_DEPTH + 1,
    ensures
        r@ == spec_resolve_node(node@, root@, chain_view(old(chain)@), depth as nat),
        final(chain)@ == old(chain)@,
    decreases MAX_RESOLVE_DEPTH + 1 - depth, 1nat,
{
    if depth > MAX_RESOLVE_DEPTH {
        return clone_value(node);
    }
    let ghost ch = chain_view(chain@);
    match node {
        YamlValue::Tagged(tag, inner) => {
            let reference = String::from_str("!reference");
            assert(node@ == Yaml::Tagged(tag@, Box::new(inner@)));
            assert(reference@ == reference_tag());
            if tag.eq(&reference) {
                resolve_reference_tag(inner, root, chain, depth)
            } else {
                clone_value(node)
            }
        },
        YamlValue::Sequence(items) => {
            let ghost spec_items = spec_resolve_items(view_items(items@), root@, ch, (depth + 1) as nat);
            let mut out: Vec<YamlValue> = Vec::new();
            let mut i: usize = 0;
            while i < items.len()
                invariant
                    i <= items.len(),
                    depth <= MAX_RESOLVE_DEPTH,
                    chain@ == old(chain)@,
                    ch == chain_view(chain@),
                    out@.len() == i,
                    forall|j: int| 0 <= j < i ==> (#[trigger] out@[j])@ == spec_items[j],
                    spec_items == spec_resolve_items(view_items(items@), root@, ch, (depth + 1) as nat),
                decreases items.len() - i,
            {
                assert(view_items(items@)[i as int] == items@[i as int]@);
                let v = resolve_node(&items[i], root, chain, depth + 1);
                out.push(v);
                i = i + 1;
            }
            proof {
                assert(node@ == Yaml::Sequence(view_items(items@)));
                assert forall|j: int| 0 <= j < items@.len() implies view_items(out@)[j] == spec_items[j] by {
                    assert(out@[j]@ == spec_items[j]);
                }
                assert(view_items(out@) =~= spec_items);
            }
            YamlValue::Sequence(out)
        },
        YamlValue::Mapping(pairs) => {
            let ghost pv = view_pairs(pairs@);
            let ghost resolved = spec_resolve_pairs(pv, root@, ch, (depth + 1) as nat);
            let mut out: Vec<(YamlValue, YamlValue)> = Vec::new();
            let mut i: usize = 0;
            proof {
                assert(resolved.take(0) =~= Seq::<(Yaml, Yaml)>::empty());
                assert(view_pairs(out@) =~= Seq::<(Yaml, Yaml)>::empty());
            }
            while i < pairs.len()
                invariant
                    i <= pairs.len(),
                    depth <= MAX_RESOLVE_DEPTH,
                    chain@ == old(chain)@,
                    ch == chain_view(chain@),
                    pv == view_pairs(pairs@),
                    resolved == spec_resolve_pairs(pv, root@, ch, (depth + 1) as nat),
                    view_pairs(out@) == mapping_from_pairs(resolved.take(i as int)),
                decreases pairs.len() - i,
            {
                assert(pv[i as int] == (pairs@[i as int].0@, pairs@[i as int].1@));
                let k = resolve_node(&pairs[i].0, root, chain, depth + 1);
                let v = resolve_node(&pairs[i].1, root, chain, depth + 1);
                mapping_insert(&mut out, k, v);
                proof {
                    assert(resolved.take(i + 1).drop_last() =~= resolved.take(i as int));
                }
                i = i + 1;
            }
            proof {
                assert(node@ == Yaml::Mapping(pv));
                assert(resolved.take(pairs@.len() as int) =~= resolved);
            }
            YamlValue::Mapping(out)
        },
        _ => clone_value(node),
    }
}

fn resolve_reference_tag(value: &YamlValue, root: &YamlValue, chain: &mut Vec<Vec<String>>, depth: usize) -> (r: YamlValue)
    requires
        depth <= MAX_RESOLVE_DEPTH + 1,
    ensures
        r@ == spec_resolve_tag(value@, root@, chain_view(old(chain)@), depth as nat),
        final(chain)@ == old(chain)@,
    decreases MAX_RESOLVE_DEPTH + 1 - depth, 0nat,
{
    if depth > MAX_RESOLVE_DEPTH {
        return clone_value(value);
    }
    let path = match extract_path(value) {
        Some(p) => p,
        None => {
            let reference = String::from_str("!reference");
            return YamlValue::Tagged(reference, Box::new(clone_value(value)));
        },
    };
    if path.len() == 0 {
        let reference = String::from_str("!reference");
        return YamlValue::Tagged(reference, Box::new(clone_value(value)));
    }
    if chain_contains(chain, &path) {
        return clone_value(value);
    }
    let ghost ch = chain_view(chain@);
    let ghost old_chain = chain@;
    let pushed = clone_path(&path);
    let ghost pushed_view = pushed;
    chain.push(pushed);
    proof {
        lemma_chain_push(old_chain, pushed_view);
    }
    let output = match walk_path(root, &path) {
        Some(target) => resolve_node(target, root, chain, depth + 1),
        None => clone_value(value),
    };
    chain.pop();
    proof {
        assert(chain@ =~= old_chain);
    }
    output
}

proof fn lemma_chain_push(chain: Seq<Vec<String>>, p: Vec<String>)
    ensures
        chain_view(chain.push(p)) == chain_view(chain).insert(path_view(p@)),
{
    let c2 = chain.push(p);
    assert forall|q: Seq<Seq<char>>| chain_view(c2).contains(q) implies chain_view(chain).insert(path_view(p@)).contains(q) by {
        let i = choose|i: int| 0 <= i < c2.len() && path_view(#[trigger] c2[i]@) == q;
        if i < chain.len() {
            assert(c2[i] == chain[i]);
        }
    }
    assert forall|q: Seq<Seq<char>>| chain_view(chain).insert(path_view(p@)).contains(q) implies chain_view(c2).contains(q) by {
        if q == path_view(p@) {
            assert(c2[chain.len() as int] == p);
        } else {
            let i = choose|i: int| 0 <= i < chain.len() && path_view(#[trigger] chain[i]@) == q;
            assert(c2[i] == chain[i]);
        }
    }
    assert(chain_view(c2) =~= chain_view(chain).insert(path_view(p@)));
}

fn clone_path(p: &Vec<String>) -> (r: Vec<String>)
    ensures
        path_view(r@) == path_view(p@),
{
    let mut out: Vec<String> = Vec::new();
    let mut i: usize = 0;
    while i < p.len()
        invariant
            i <= p.len(),
            out@.len() == i,
            forall|j: int| 0 <= j < i ==> (#[trigger] out@[j])@ == p@[j]@,
        decreases p.len() - i,
    {
        out.push(p[i].clone());
        i = i + 1;
    }
    assert(path_view(out@) =~= path_view(p@));
    out
}

fn paths_equal(a: &Vec<String>, b: &Vec<String>) -> (r: bool)
    ensures
        r == (path_view(a@) == path_view(b@)),
{
    if a.len() != b.len() {
        proof {
            assert(path_view(a@).len() != path_view(b@).len());
        }
        return false;
    }
    let mut i: usize = 0;
    while i < a.len()
        invariant
            i <= a.len(),
            a.len() == b.len(),
            forall|j: int| 0 <= j < i ==> (#[trigger] a@[j])@ == b@[j]@,
        decreases a.len() - i,
    {
        if !a[i].eq(&b[i]) {
            proof {
                assert(path_view(a@)[i as int] != path_view(b@)[i as int]);
            }
            return false;
        }
        i = i + 1;
    }
    assert(path_view(a@) =~= path_view(b@));
    true
}

fn chain_contains(chain: &Vec<Vec<String>>, path: &Vec<String>) -> (r: bool)
    ensures
        r == chain_view(chain@).contains(path_view(path@)),
{
    let mut i: usize = 0;
    while i < chain.len()
        invariant
            i <= chain.len(),
            forall|j: int| 0 <= j < i ==> path_view((#[trigger] chain@[j])@) != path_view(path@),
        decreases chain.len() - i,
    {
        if paths_equal(&chain[i], path) {
            return true;
        }
        i = i + 1;
    }
    false
}

/// Extract the path segments from a `!reference` value.
///
/// Expects the value to be a sequence of strings, e.g., `[".rules", "rules"]`.
/// Returns `None` if the value is not a sequence of strings (malformed tag).
pub fn extract_path(value: &YamlValue) -> (r: Option<Vec<String>>)
    ensures
        match r {
            Some(p) => spec_extract_path(value@) == Some(path_view(p@)),
            None => spec_extract_path(value@) is None,
        },
{
    match value {
        YamlValue::Sequence(items) => {
            let ghost iv = view_items(items@);
            assert(value@ == Yaml::Sequence(iv));
            let mut out: Vec<String> = Vec::new();
            let mut i: usize = 0;
            while i < items.len()
                invariant
                    i <= items.len(),
                    iv == view_items(items@),
                    value@ == Yaml::Sequence(iv),
                    out@.len() == i,
                    forall|j: int| 0 <= j < i ==> (#[trigger] iv[j]) == Yaml::Str(out@[j]@),
                decreases items.len() - i,
            {
                assert(iv[i as int] == items@[i as int]@);
                match &items[i] {
                    YamlValue::String(s) => {
                        out.push(s.clone());
                    },
                    _ => {
                        assert(!(iv[i as int] is Str));
                        assert(!(forall|k: int| 0 <= k < iv.len() ==> (#[trigger] iv[k]) is Str));
                        return None;
                    },
                }
                i = i + 1;
            }
            assert(value@ == Yaml::Sequence(iv));
            assert(path_view(out@) =~= Seq::new(iv.len(), |i: int| iv[i]->Str_0));
            Some(out)
        },
        _ => None,
    }
}

/// Walk the document tree following the given path segments.
///
/// For each segment, looks up the key in the current mapping level.
/// Returns `None` if any segment is not found or the current node is not a mapping.
pub fn walk_path<'a>(root: &'a YamlValue, path: &Vec<String>) -> (r: Option<&'a YamlValue>)
    ensures
        match r {
            Some(v) => spec_walk_path(root@, path_view(path@)) == Some(v@),
            None => spec_walk_path(root@, path_view(path@)) is None,
        },
{
    let ghost pv = path_view(path@);
    let mut current: &'a YamlValue = root;
    let mut i: usize = 0;
    assert(pv.take(0) =~= Seq::<Seq<char>>::empty());
    while i < path.len()
        invariant
            i <= path.len(),
            pv == path_view(path@),
            spec_walk_path(root@, pv.take(i as int)) == Some(current@),
        decreases path.len() - i,
    {
        assert(pv.take(i + 1).drop_last() =~= pv.take(i as int));
        match current {
            YamlValue::Mapping(pairs) => {
                match get_str(pairs, &path[i]) {
                    Some(next) => {
                        current = next;
                    },
                    None => {
                        proof {
                            lemma_walk_none_extends(root@, pv, i as int + 1);
                        }
                        return None;
                    },
                }
            },
            _ => {
                proof {
                    lemma_walk_none_extends(root@, pv, i as int + 1);
                }
                return None;
            },
        }
        i = i + 1;
    }
    assert(pv.take(path@.len() as int) =~= pv);
    Some(current)
}

proof fn lemma_walk_none_extends(root: Yaml, path: Seq<Seq<char>>, k: int)
    requires
        0 <= k <= path.len(),
        spec_walk_path(root, path.take(k)) is None,
    ensures
        spec_walk_path(root, path) is None,
    decreases path.len() - k,
{
    if k < path.len() {
        assert(path.take(k + 1).drop_last() =~= path.take(k));
        lemma_walk_none_extends(root, path, k + 1);
    } else {
        assert(path.take(k) =~= path);
    }
}

} // verus!
