//! A YAML document tree and its mathematical model.
//!
//! `YamlValue` holds a parsed YAML document as plain values: scalars, ordered
//! sequences, insertion-ordered mappings and tagged nodes (`!tag value`).
//! Its view is the spec datatype `Yaml`, over which all contracts are stated.
use vstd::prelude::*;
use vstd::string::*;

verus! {

/// A parsed YAML node.
///
/// Numbers are kept as their canonical text. A tag is kept in its canonical
/// written form, with exactly one leading `!` (so `!reference`).
/// Mapping entries keep insertion order; lookups use the first entry whose key
/// is equal to the one looked for.
#[derive(Debug)]
pub enum YamlValue {
    Null,
    Bool(bool),
    Number(String),
    String(String),
    Sequence(Vec<YamlValue>),
    Mapping(Vec<(YamlValue, YamlValue)>),
    Tagged(String, Box<YamlValue>),
}

/// The mathematical model of a YAML node.
pub enum Yaml {
    Null,
    Bool(bool),
    Number(Seq<char>),
    Str(Seq<char>),
    Sequence(Seq<Yaml>),
    Mapping(Seq<(Yaml, Yaml)>),
    Tagged(Seq<char>, Box<Yaml>),
}

pub open spec fn view_value(v: YamlValue) -> Yaml
    decreases v,
{
    match v {
        YamlValue::Null => Yaml::Null,
        YamlValue::Bool(b) => Yaml::Bool(b),
        YamlValue::Number(n) => Yaml::Number(n@),
        YamlValue::String(s) => Yaml::Str(s@),
        YamlValue::Sequence(items) => Yaml::Sequence(view_items(items@)),
        YamlValue::Mapping(pairs) => Yaml::Mapping(view_pairs(pairs@)),
        YamlValue::Tagged(tag, inner) => Yaml::Tagged(tag@, Box::new(view_value(*inner))),
    }
}

pub open spec fn view_items(items: Seq<YamlValue>) -> Seq<Yaml>
    decreases items,
{
    Seq::new(items.len(), |i: int| if 0 <= i < items.len() { view_value(items[i]) } else { Yaml::Null })
}

pub open spec fn view_pairs(pairs: Seq<(YamlValue, YamlValue)>) -> Seq<(Yaml, Yaml)>
    decreases pairs,
{
    Seq::new(
        pairs.len(),
        |i: int|
            if 0 <= i < pairs.len() {
                (view_value(pairs[i].0), view_value(pairs[i].1))
            } else {
                (Yaml::Null, Yaml::Null)
            },
    )
}

impl View for YamlValue {
    type V = Yaml;

    open spec fn view(&self) -> Yaml {
        view_value(*self)
    }
}


/// Strips every tag layer from a node (`!a !b x` becomes `x`).
pub open spec fn untag(y: Yaml) -> Yaml
    decreases y,
{
    match y {
        Yaml::Tagged(_, inner) => untag(*inner),
        _ => y,
    }
}

/// The position of the first entry whose key equals `key`, or -1 when there is none.
pub open spec fn key_position(pairs: Seq<(Yaml, Yaml)>, key: Yaml) -> int {
    if exists|i: int| is_first_key(pairs, key, i) {
        choose|i: int| is_first_key(pairs, key, i)
    } else {
        -1
    }
}

/// `i` is the first position whose key equals `key`.
pub open spec fn is_first_key(pairs: Seq<(Yaml, Yaml)>, key: Yaml, i: int) -> bool {
    &&& 0 <= i < pairs.len()
    &&& pairs[i].0 == key
    &&& forall|j: int| 0 <= j < i ==> #[trigger] pairs[j].0 != key
}

/// The value stored under `key` (the first entry with that key), if any.
pub open spec fn lookup(pairs: Seq<(Yaml, Yaml)>, key: Yaml) -> Option<Yaml> {
    let p = key_position(pairs, key);
    if p >= 0 {
        Some(pairs[p].1)
    } else {
        None
    }
}

/// Inserting into an insertion-ordered mapping: an existing key keeps its
/// place and gets the new value; a new key is appended.
pub open spec fn map_insert(pairs: Seq<(Yaml, Yaml)>, key: Yaml, value: Yaml) -> Seq<(Yaml, Yaml)> {
    let p = key_position(pairs, key);
    if p >= 0 {
        pairs.update(p, (pairs[p].0, value))
    } else {
        pairs.push((key, value))
    }
}

/// The mapping built by inserting `pairs` one after the other into an empty mapping.
pub open spec fn mapping_from_pairs(pairs: Seq<(Yaml, Yaml)>) -> Seq<(Yaml, Yaml)>
    decreases pairs.len(),
{
    if pairs.len() == 0 {
        Seq::empty()
    } else {
        map_insert(mapping_from_pairs(pairs.drop_last()), pairs.last().0, pairs.last().1)
    }
}

/// No two entries of the mapping have equal keys.
pub open spec fn distinct_keys(pairs: Seq<(Yaml, Yaml)>) -> bool {
    forall|i: int, j: int| 0 <= i < j < pairs.len() ==> (#[trigger] pairs[i]).0 != (#[trigger] pairs[j]).0
}

/// Every mapping in the tree has distinct keys, as in any parsed YAML document.
pub open spec fn well_formed(y: Yaml) -> bool
    decreases y,
{
    match y {
        Yaml::Sequence(items) => forall|i: int| 0 <= i < items.len() ==> well_formed(#[trigger] items[i]),
        Yaml::Mapping(pairs) => {
            &&& distinct_keys(pairs)
            &&& forall|i: int| 0 <= i < pairs.len() ==> well_formed((#[trigger] pairs[i]).0) && well_formed(pairs[i].1)
        },
        Yaml::Tagged(_, inner) => well_formed(*inner),
        _ => true,
    }
}

/// Collecting entries with distinct keys into a mapping keeps them as they are.
pub proof fn lemma_mapping_from_distinct(pairs: Seq<(Yaml, Yaml)>)
    requires
        distinct_keys(pairs),
    ensures
        mapping_from_pairs(pairs) == pairs,
    decreases pairs.len(),
{
    if pairs.len() > 0 {
        let front = pairs.drop_last();
        assert(distinct_keys(front)) by {
            assert forall|i: int, j: int| 0 <= i < j < front.len() implies (#[trigger] front[i]).0 != (#[trigger] front[j]).0 by {
                assert(front[i] == pairs[i] && front[j] == pairs[j]);
            }
        }
        lemma_mapping_from_distinct(front);
        assert forall|j: int| 0 <= j < front.len() implies #[trigger] front[j].0 != pairs.last().0 by {
            assert(front[j] == pairs[j]);
            assert(pairs[j].0 != pairs[pairs.len() - 1].0);
        }
        lemma_key_position_absent(front, pairs.last().0);
        assert(front.push(pairs.last()) =~= pairs);
    }
}

pub proof fn lemma_first_key_unique(pairs: Seq<(Yaml, Yaml)>, key: Yaml, i: int, j: int)
    requires
        is_first_key(pairs, key, i),
        is_first_key(pairs, key, j),
    ensures
        i == j,
{
    if i < j {
        assert(pairs[i].0 != key);
    } else if j < i {
        assert(pairs[j].0 != key);
    }
}

pub proof fn lemma_key_position_found(pairs: Seq<(Yaml, Yaml)>, key: Yaml, i: int)
    requires
        is_first_key(pairs, key, i),
    ensures
        key_position(pairs, key) == i,
{
    let c = choose|k: int| is_first_key(pairs, key, k);
    lemma_first_key_unique(pairs, key, i, c);
}

pub proof fn lemma_key_position_absent(pairs: Seq<(Yaml, Yaml)>, key: Yaml)
    requires
        forall|j: int| 0 <= j < pairs.len() ==> #[trigger] pairs[j].0 != key,
    ensures
        key_position(pairs, key) == -1,
{
}

pub proof fn lemma_key_position_range(pairs: Seq<(Yaml, Yaml)>, key: Yaml)
    ensures
        key_position(pairs, key) == -1 || is_first_key(pairs, key, key_position(pairs, key)),
        key_position(pairs, key) == -1 ==> forall|j: int| 0 <= j < pairs.len() ==> #[trigger] pairs[j].0 != key,
{
    if key_position(pairs, key) == -1 {
        assert forall|j: int| 0 <= j < pairs.len() implies #[trigger] pairs[j].0 != key by {
            if pairs[j].0 == key {
                lemma_exists_first(pairs, key, j);
            }
        }
    }
}

proof fn lemma_exists_first(pairs: Seq<(Yaml, Yaml)>, key: Yaml, j: int)
    requires
        0 <= j < pairs.len(),
        pairs[j].0 == key,
    ensures
        exists|i: int| is_first_key(pairs, key, i),
    decreases j,
{
    if forall|k: int| 0 <= k < j ==> #[trigger] pairs[k].0 != key {
        assert(is_first_key(pairs, key, j));
    } else {
        let k = choose|k: int| 0 <= k < j && #[trigger] pairs[k].0 != key == false;
        lemma_exists_first(pairs, key, k);
    }
}

/// Collecting entries into a mapping gives distinct keys, and each key and
/// each value of the mapping is a key or a value of the entries: so a property
/// that holds of every key and value of the entries holds of the mapping's.
pub proof fn lemma_mapping_from_pairs_parts(pairs: Seq<(Yaml, Yaml)>, p: spec_fn(Yaml) -> bool)
    requires
        forall|j: int| 0 <= j < pairs.len() ==> p((#[trigger] pairs[j]).0) && p(pairs[j].1),
    ensures
        distinct_keys(mapping_from_pairs(pairs)),
        forall|i: int|
            0 <= i < mapping_from_pairs(pairs).len() ==> p((#[trigger] mapping_from_pairs(pairs)[i]).0) && p(
                mapping_from_pairs(pairs)[i].1,
            ),
    decreases pairs.len(),
{
    if pairs.len() > 0 {
        let front = pairs.drop_last();
        assert forall|j: int| 0 <= j < front.len() implies p((#[trigger] front[j]).0) && p(front[j].1) by {
            assert(front[j] == pairs[j]);
        }
        lemma_mapping_from_pairs_parts(front, p);
        let m = mapping_from_pairs(front);
        let k = pairs.last().0;
        let v = pairs.last().1;
        assert(p(k) && p(v)) by {
            assert(pairs.last() == pairs[pairs.len() - 1]);
        }
        lemma_key_position_range(m, k);
        let r = mapping_from_pairs(pairs);
        assert(r == map_insert(m, k, v));
        let pos = key_position(m, k);
        if pos >= 0 {
            assert(r == m.update(pos, (m[pos].0, v)));
            assert forall|a: int, b: int| 0 <= a < b < r.len() implies (#[trigger] r[a]).0 != (#[trigger] r[b]).0 by {
                assert(r[a].0 == m[a].0 && r[b].0 == m[b].0);
            }
            assert forall|i: int| 0 <= i < r.len() implies p((#[trigger] r[i]).0) && p(r[i].1) by {
                if i != pos {
                    assert(r[i] == m[i]);
                }
            }
        } else {
            assert(r == m.push((k, v)));
            assert forall|a: int, b: int| 0 <= a < b < r.len() implies (#[trigger] r[a]).0 != (#[trigger] r[b]).0 by {
                if b == m.len() {
                    assert(r[a] == m[a]);
                } else {
                    assert(r[a] == m[a] && r[b] == m[b]);
                }
            }
            assert forall|i: int| 0 <= i < r.len() implies p((#[trigger] r[i]).0) && p(r[i].1) by {
                if i < m.len() {
                    assert(r[i] == m[i]);
                }
            }
        }
    }
}

/// Two entry lists with the same keys at the same places find every key at the
/// same position.
pub proof fn lemma_same_keys_position(p: Seq<(Yaml, Yaml)>, q: Seq<(Yaml, Yaml)>, key: Yaml)
    requires
        p.len() == q.len(),
        forall|i: int| 0 <= i < p.len() ==> (#[trigger] p[i]).0 == q[i].0,
    ensures
        key_position(p, key) == key_position(q, key),
{
    lemma_key_position_range(p, key);
    let pos = key_position(p, key);
    if pos >= 0 {
        assert forall|j: int| 0 <= j < pos implies #[trigger] q[j].0 != key by {
            assert(p[j].0 == q[j].0);
        }
        assert(p[pos].0 == q[pos].0);
        lemma_key_position_found(q, key, pos);
    } else {
        assert forall|j: int| 0 <= j < q.len() implies #[trigger] q[j].0 != key by {
            assert(p[j].0 == q[j].0);
        }
        lemma_key_position_absent(q, key);
    }
}

/// Looking up a key after appending an entry.
pub proof fn lemma_lookup_push(s: Seq<(Yaml, Yaml)>, x: (Yaml, Yaml), key: Yaml)
    ensures
        lookup(s.push(x), key) == if lookup(s, key) is Some {
            lookup(s, key)
        } else if x.0 == key {
            Some(x.1)
        } else {
            None::<Yaml>
        },
{
    let t = s.push(x);
    lemma_key_position_range(s, key);
    let pos = key_position(s, key);
    if pos >= 0 {
        assert forall|j: int| 0 <= j < pos implies #[trigger] t[j].0 != key by {
            assert(t[j] == s[j]);
        }
        assert(t[pos] == s[pos]);
        lemma_key_position_found(t, key, pos);
    } else if x.0 == key {
        assert forall|j: int| 0 <= j < s.len() implies #[trigger] t[j].0 != key by {
            assert(t[j] == s[j]);
        }
        assert(t[s.len() as int] == x);
        lemma_key_position_found(t, key, s.len() as int);
    } else {
        assert forall|j: int| 0 <= j < t.len() implies #[trigger] t[j].0 != key by {
            if j < s.len() {
                assert(t[j] == s[j]);
            }
        }
        lemma_key_position_absent(t, key);
    }
}

/// Looking up a key after an insertion: the inserted key gives the new value,
/// every other key what it gave before.
pub proof fn lemma_lookup_insert(p: Seq<(Yaml, Yaml)>, k: Yaml, v: Yaml, key: Yaml)
    ensures
        lookup(map_insert(p, k, v), key) == if key == k {
            Some(v)
        } else {
            lookup(p, key)
        },
{
    lemma_key_position_range(p, k);
    let pos = key_position(p, k);
    if pos >= 0 {
        let q = p.update(pos, (p[pos].0, v));
        assert forall|i: int| 0 <= i < p.len() implies (#[trigger] p[i]).0 == q[i].0 by {}
        lemma_same_keys_position(p, q, key);
        lemma_key_position_range(p, key);
        if key == k {
            assert(key_position(p, key) == pos);
        } else {
            let kp = key_position(p, key);
            if kp >= 0 {
                assert(kp != pos);
            }
        }
    } else {
        lemma_lookup_push(p, (k, v), key);
        if key == k {
            assert(lookup(p, key) is None);
        }
    }
}

/// A structural copy of a node.
pub fn clone_value(v: &YamlValue) -> (r: YamlValue)
    ensures
        r@ == v@,
    decreases v,
{
    match v {
        YamlValue::Null => YamlValue::Null,
        YamlValue::Bool(b) => YamlValue::Bool(*b),
        YamlValue::Number(n) => YamlValue::Number(n.clone()),
        YamlValue::String(s) => YamlValue::String(s.clone()),
        YamlValue::Sequence(items) => YamlValue::Sequence(clone_items(items)),
        YamlValue::Mapping(pairs) => YamlValue::Mapping(clone_pairs(pairs)),
        YamlValue::Tagged(tag, inner) => {
            let c = clone_value(inner);
            YamlValue::Tagged(tag.clone(), Box::new(c))
        },
    }
}

impl Clone for YamlValue {
    fn clone(&self) -> (r: Self)
        ensures
            r@ == self@,
    {
        clone_value(self)
    }
}

/// A structural copy of a list of nodes.
pub fn clone_items(items: &Vec<YamlValue>) -> (r: Vec<YamlValue>)
    ensures
        view_items(r@) == view_items(items@),
    decreases items,
{
    let mut out: Vec<YamlValue> = Vec::new();
    let mut i: usize = 0;
    while i < items.len()
        invariant
            i <= items.len(),
            out@.len() == i,
            forall|j: int| 0 <= j < i ==> #[trigger] out@[j]@ == items@[j]@,
        decreases items.len() - i,
    {
        assert(decreases_to!(items => items@[i as int]));
        let c = clone_value(&items[i]);
        out.push(c);
        i = i + 1;
    }
    assert forall|j: int| 0 <= j < items@.len() implies view_items(out@)[j] == view_items(items@)[j] by {
        assert(out@[j]@ == items@[j]@);
    }
    assert(view_items(out@) =~= view_items(items@));
    out
}

/// A structural copy of a list of mapping entries.
pub fn clone_pairs(pairs: &Vec<(YamlValue, YamlValue)>) -> (r: Vec<(YamlValue, YamlValue)>)
    ensures
        view_pairs(r@) == view_pairs(pairs@),
    decreases pairs,
{
    let mut out: Vec<(YamlValue, YamlValue)> = Vec::new();
    let mut i: usize = 0;
    while i < pairs.len()
        invariant
            i <= pairs.len(),
            out@.len() == i,
            forall|j: int| 0 <= j < i ==> (#[trigger] out@[j]).0@ == pairs@[j].0@,
            forall|j: int| 0 <= j < i ==> (#[trigger] out@[j]).1@ == pairs@[j].1@,
        decreases pairs.len() - i,
    {
        assert(decreases_to!(pairs => pairs@[i as int].0));
        assert(decreases_to!(pairs => pairs@[i as int].1));
        let k = clone_value(&pairs[i].0);
        let v = clone_value(&pairs[i].1);
        out.push((k, v));
        i = i + 1;
    }
    assert forall|j: int| 0 <= j < pairs@.len() implies view_pairs(out@)[j] == view_pairs(pairs@)[j] by {
        assert(out@[j].0@ == pairs@[j].0@ && out@[j].1@ == pairs@[j].1@);
    }
    assert(view_pairs(out@) =~= view_pairs(pairs@));
    out
}


/// Structural equality of two nodes.
pub fn yaml_eq(a: &YamlValue, b: &YamlValue) -> (r: bool)
    ensures
        r == (a@ == b@),
    decreases a,
{
    let r = match (a, b) {
        (YamlValue::Null, YamlValue::Null) => true,
        (YamlValue::Bool(x), YamlValue::Bool(y)) => *x == *y,
        (YamlValue::Number(x), YamlValue::Number(y)) => x.eq(y),
        (YamlValue::String(x), YamlValue::String(y)) => x.eq(y),
        (YamlValue::Sequence(x), YamlValue::Sequence(y)) => items_eq(x, y),
        (YamlValue::Mapping(x), YamlValue::Mapping(y)) => pairs_eq(x, y),
        (YamlValue::Tagged(tx, x), YamlValue::Tagged(ty, y)) => {
            if tx.eq(ty) {
                let e = yaml_eq(x, y);
                proof {
                    if !e {
                        assert(untag_once(a@) != untag_once(b@));
                    }
                }
                e
            } else {
                false
            }
        },
        _ => false,
    };
    proof {
        match (a, b) {
            (YamlValue::Sequence(x), YamlValue::Sequence(y)) => {
                assert(a@ == Yaml::Sequence(view_items(x@)));
                assert(b@ == Yaml::Sequence(view_items(y@)));
            },
            (YamlValue::Mapping(x), YamlValue::Mapping(y)) => {
                assert(a@ == Yaml::Mapping(view_pairs(x@)));
                assert(b@ == Yaml::Mapping(view_pairs(y@)));
            },
            _ => {},
        }
    }
    r
}

spec fn untag_once(y: Yaml) -> Yaml {
    match y {
        Yaml::Tagged(_, inner) => *inner,
        _ => y,
    }
}

fn items_eq(x: &Vec<YamlValue>, y: &Vec<YamlValue>) -> (r: bool)
    ensures
        r == (view_items(x@) == view_items(y@)),
    decreases x,
{
    if x.len() != y.len() {
        proof {
            assert(view_items(x@).len() != view_items(y@).len());
        }
        return false;
    }
    let mut i: usize = 0;
    while i < x.len()
        invariant
            i <= x.len(),
            x.len() == y.len(),
            forall|j: int| 0 <= j < i ==> #[trigger] x@[j]@ == y@[j]@,
        decreases x.len() - i,
    {
        assert(decreases_to!(x => x@[i as int]));
        if !yaml_eq(&x[i], &y[i]) {
            proof {
                assert(view_items(x@)[i as int] != view_items(y@)[i as int]);
            }
            return false;
        }
        i = i + 1;
    }
    assert forall|j: int| 0 <= j < x@.len() implies view_items(x@)[j] == view_items(y@)[j] by {
        assert(x@[j]@ == y@[j]@);
    }
    assert(view_items(x@) =~= view_items(y@));
    true
}

fn pairs_eq(x: &Vec<(YamlValue, YamlValue)>, y: &Vec<(YamlValue, YamlValue)>) -> (r: bool)
    ensures
        r == (view_pairs(x@) == view_pairs(y@)),
    decreases x,
{
    if x.len() != y.len() {
        proof {
            assert(view_pairs(x@).len() != view_pairs(y@).len());
        }
        return false;
    }
    let mut i: usize = 0;
    while i < x.len()
        invariant
            i <= x.len(),
            x.len() == y.len(),
            forall|j: int| 0 <= j < i ==> (#[trigger] x@[j]).0@ == y@[j].0@,
            forall|j: int| 0 <= j < i ==> (#[trigger] x@[j]).1@ == y@[j].1@,
        decreases x.len() - i,
    {
        assert(decreases_to!(x => x@[i as int].0));
        assert(decreases_to!(x => x@[i as int].1));
        if !yaml_eq(&x[i].0, &y[i].0) || !yaml_eq(&x[i].1, &y[i].1) {
            proof {
                assert(view_pairs(x@)[i as int] != view_pairs(y@)[i as int]);
            }
            return false;
        }
        i = i + 1;
    }
    assert forall|j: int| 0 <= j < x@.len() implies view_pairs(x@)[j] == view_pairs(y@)[j] by {
        assert(x@[j].0@ == y@[j].0@);
        assert(x@[j].1@ == y@[j].1@);
    }
    assert(view_pairs(x@) =~= view_pairs(y@));
    true
}

/// The node under all of its tags.
pub fn untag_ref(v: &YamlValue) -> (r: &YamlValue)
    ensures
        r@ == untag(v@),
    decreases v,
{
    match v {
        YamlValue::Tagged(_, inner) => untag_ref(inner),
        _ => v,
    }
}

/// The position of the first entry whose key equals `key`.
pub fn find_key(pairs: &Vec<(YamlValue, YamlValue)>, key: &YamlValue) -> (r: Option<usize>)
    ensures
        match r {
            Some(i) => key_position(view_pairs(pairs@), key@) == i,
            None => key_position(view_pairs(pairs@), key@) == -1,
        },
{
    let ghost pv = view_pairs(pairs@);
    let mut i: usize = 0;
    while i < pairs.len()
        invariant
            i <= pairs.len(),
            pv == view_pairs(pairs@),
            forall|j: int| 0 <= j < i ==> #[trigger] pv[j].0 != key@,
        decreases pairs.len() - i,
    {
        assert(pv[i as int].0 == pairs@[i as int].0@);
        if yaml_eq(&pairs[i].0, key) {
            proof {
                lemma_key_position_found(pv, key@, i as int);
            }
            return Some(i);
        }
        i = i + 1;
    }
    proof {
        lemma_key_position_absent(pv, key@);
    }
    None
}

/// The position of the first entry whose key is the plain string `key`.
pub fn find_str_key(pairs: &Vec<(YamlValue, YamlValue)>, key: &String) -> (r: Option<usize>)
    ensures
        match r {
            Some(i) => key_position(view_pairs(pairs@), Yaml::Str(key@)) == i,
            None => key_position(view_pairs(pairs@), Yaml::Str(key@)) == -1,
        },
{
    let ghost pv = view_pairs(pairs@);
    let mut i: usize = 0;
    while i < pairs.len()
        invariant
            i <= pairs.len(),
            pv == view_pairs(pairs@),
            forall|j: int| 0 <= j < i ==> #[trigger] pv[j].0 != Yaml::Str(key@),
        decreases pairs.len() - i,
    {
        assert(pv[i as int].0 == pairs@[i as int].0@);
        let hit = match &pairs[i].0 {
            YamlValue::String(s) => s.eq(key),
            _ => false,
        };
        if hit {
            proof {
                lemma_key_position_found(pv, Yaml::Str(key@), i as int);
            }
            return Some(i);
        }
        i = i + 1;
    }
    proof {
        lemma_key_position_absent(pv, Yaml::Str(key@));
    }
    None
}

/// The value stored under the plain string key `key`, if any.
pub fn get_str<'a>(pairs: &'a Vec<(YamlValue, YamlValue)>, key: &String) -> (r: Option<&'a YamlValue>)
    ensures
        match r {
            Some(v) => lookup(view_pairs(pairs@), Yaml::Str(key@)) == Some(v@),
            None => lookup(view_pairs(pairs@), Yaml::Str(key@)) is None,
        },
{
    match find_str_key(pairs, key) {
        Some(i) => Some(&pairs[i].1),
        None => None,
    }
}

/// Inserts an entry into an insertion-ordered mapping (see `map_insert`).
pub fn mapping_insert(pairs: &mut Vec<(YamlValue, YamlValue)>, key: YamlValue, value: YamlValue)
    ensures
        view_pairs(final(pairs)@) == map_insert(view_pairs(old(pairs)@), key@, value@),
{
    let ghost pv = view_pairs(pairs@);
    match find_key(pairs, &key) {
        Some(i) => {
            let k = clone_value(&pairs[i].0);
            pairs.set(i, (k, value));
            assert(view_pairs(pairs@) =~= pv.update(i as int, (pv[i as int].0, value@)));
        },
        None => {
            pairs.push((key, value));
            assert(view_pairs(pairs@) =~= pv.push((key@, value@)));
        },
    }
}

} // verus!
