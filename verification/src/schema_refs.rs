//! Which `$ref` links of a JSON schema can be followed while checking an
//! instance without ever coming back to a subschema on the way without
//! descending into the instance.
//!
//! `jsonschema` resolves a `$ref` afresh each time it checks an instance
//! against it. A chain of `$ref` links that comes back to where it started
//! while the instance stays the same never ends (`{"$ref": "#"}`); a chain
//! that passes a keyword that descends into the instance (`properties`,
//! `items`, ...) ends, since the instance shrinks. This module states the
//! condition over the library's tree and decides it.
use vstd::prelude::*;
use vstd::string::*;
use crate::text::{extend_strings, texts};
use crate::workflow::{decimal, decimal_string};
use crate::yaml::{get_str, lookup, view_items, view_pairs, Yaml, YamlValue};

verus! {

/// Keywords whose values are not checked against the instance itself: those
/// that descend into the instance (its properties, items or property names),
/// and those whose values are not schemas that get checked.
pub open spec fn skipped_keywords() -> Seq<Seq<char>> {
    seq![
        "properties"@,
        "patternProperties"@,
        "additionalProperties"@,
        "items"@,
        "additionalItems"@,
        "contains"@,
        "propertyNames"@,
        "definitions"@,
        "$defs"@,
        "enum"@,
        "const"@,
        "default"@,
        "examples"@,
    ]
}

/// The `$ref` strings in a tree, in order: all of them (`all`), or only those
/// that apply to the same instance as the tree itself (not below a skipped
/// keyword).
pub open spec fn ref_strings(y: Yaml, all: bool) -> Seq<Seq<char>>
    decreases y, 0int,
{
    match y {
        Yaml::Sequence(items) => item_ref_strings(items, items.len() as int, all),
        Yaml::Mapping(pairs) => pair_ref_strings(pairs, pairs.len() as int, all),
        _ => Seq::empty(),
    }
}

pub open spec fn item_ref_strings(items: Seq<Yaml>, n: int, all: bool) -> Seq<Seq<char>>
    decreases items, n,
{
    if n <= 0 || n > items.len() {
        Seq::empty()
    } else {
        item_ref_strings(items, n - 1, all) + ref_strings(items[n - 1], all)
    }
}

pub open spec fn pair_ref_strings(pairs: Seq<(Yaml, Yaml)>, n: int, all: bool) -> Seq<Seq<char>>
    decreases pairs, n,
{
    if n <= 0 || n > pairs.len() {
        Seq::empty()
    } else {
        pair_ref_strings(pairs, n - 1, all) + match pairs[n - 1].0 {
            Yaml::Str(k) => {
                if k == "$ref"@ && pairs[n - 1].1 is Str {
                    seq![pairs[n - 1].1->Str_0]
                } else if !all && skipped_keywords().contains(k) {
                    Seq::empty()
                } else if !all && schema_map_keywords().contains(k) && pairs[n - 1].1 is Mapping {
                    member_ref_strings(pairs[n - 1].1->Mapping_0, pairs[n - 1].1->Mapping_0.len() as int)
                } else {
                    ref_strings(pairs[n - 1].1, all)
                }
            },
            _ => ref_strings(pairs[n - 1].1, all),
        }
    }
}

/// Keywords whose value maps names to subschemas that apply to the same
/// instance: the names are not keywords, the values are schemas.
pub open spec fn schema_map_keywords() -> Seq<Seq<char>> {
    seq!["dependencies"@, "dependentSchemas"@]
}

/// The same-instance `$ref` strings of the subschemas that the first `n`
/// members of such a map name.
pub open spec fn member_ref_strings(members: Seq<(Yaml, Yaml)>, n: int) -> Seq<Seq<char>>
    decreases members, n,
{
    if n <= 0 || n > members.len() {
        Seq::empty()
    } else {
        member_ref_strings(members, n - 1) + ref_strings(members[n - 1].1, false)
    }
}

fn is_skipped_keyword(k: &String) -> (r: bool)
    ensures
        r == skipped_keywords().contains(k@),
{
    let names = [
        "properties",
        "patternProperties",
        "additionalProperties",
        "items",
        "additionalItems",
        "contains",
        "propertyNames",
        "definitions",
        "$defs",
        "enum",
        "const",
        "default",
        "examples",
    ];
    let ghost kws = skipped_keywords();
    assert(kws.len() == 13);
    let mut i: usize = 0;
    while i < 13
        invariant
            i <= 13,
            kws == skipped_keywords(),
            forall|j: int| 0 <= j < 13 ==> kws[j] == (#[trigger] names@[j])@,
            forall|j: int| 0 <= j < i ==> kws[j] != k@,
        decreases 13 - i,
    {
        let candidate = String::from_str(names[i]);
        if candidate.eq(k) {
            assert(kws[i as int] == k@);
            return true;
        }
        i = i + 1;
    }
    false
}

fn is_schema_map_keyword(k: &String) -> (r: bool)
    ensures
        r == schema_map_keywords().contains(k@),
{
    let a = String::from_str("dependencies");
    let b = String::from_str("dependentSchemas");
    let ghost kws = schema_map_keywords();
    assert(kws[0] == a@ && kws[1] == b@);
    if a.eq(k) || b.eq(k) {
        return true;
    }
    assert(!kws.contains(k@)) by {
        if kws.contains(k@) {
            let j = choose|j: int| 0 <= j < kws.len() && kws[j] == k@;
            assert(j == 0 || j == 1);
        }
    }
    false
}

fn is_mapping(v: &YamlValue) -> (r: bool)
    ensures
        r == v@ is Mapping,
{
    match v {
        YamlValue::Mapping(_) => true,
        _ => false,
    }
}

fn collect_member_refs(members: &Vec<(YamlValue, YamlValue)>) -> (r: Vec<String>)
    ensures
        texts(r@) == member_ref_strings(view_pairs(members@), members@.len() as int),
    decreases members,
{
    let ghost mv = view_pairs(members@);
    let mut out: Vec<String> = Vec::new();
    let mut i: usize = 0;
    assert(texts(out@) =~= Seq::<Seq<char>>::empty());
    while i < members.len()
        invariant
            i <= members.len(),
            mv == view_pairs(members@),
            texts(out@) == member_ref_strings(mv, i as int),
        decreases members.len() - i,
    {
        assert(mv[i as int] == (members@[i as int].0@, members@[i as int].1@));
        assert(decreases_to!(members => members@[i as int]));
        assert(decreases_to!(members@[i as int] => members@[i as int].1));
        let more = collect_ref_strings(&members[i].1, false);
        extend_strings(&mut out, more);
        i = i + 1;
    }
    out
}

fn is_key(k: &YamlValue, name: &str) -> (r: bool)
    ensures
        r == (k@ == Yaml::Str(name@)),
{
    match k {
        YamlValue::String(s) => {
            let key = String::from_str(name);
            s.eq(&key)
        },
        _ => false,
    }
}

/// The `$ref` strings of a tree (see `ref_strings`).
pub fn collect_ref_strings(y: &YamlValue, all: bool) -> (r: Vec<String>)
    ensures
        texts(r@) == ref_strings(y@, all),
    decreases y,
{
    match y {
        YamlValue::Sequence(items) => {
            assert(y@ == Yaml::Sequence(view_items(items@)));
            collect_item_refs(items, all)
        },
        YamlValue::Mapping(pairs) => {
            assert(y@ == Yaml::Mapping(view_pairs(pairs@)));
            collect_pair_refs(pairs, all)
        },
        _ => {
            let r: Vec<String> = Vec::new();
            assert(texts(r@) =~= Seq::<Seq<char>>::empty());
            r
        },
    }
}

fn collect_item_refs(items: &Vec<YamlValue>, all: bool) -> (r: Vec<String>)
    ensures
        texts(r@) == item_ref_strings(view_items(items@), items@.len() as int, all),
    decreases items,
{
    let ghost iv = view_items(items@);
    let mut out: Vec<String> = Vec::new();
    let mut i: usize = 0;
    assert(texts(out@) =~= Seq::<Seq<char>>::empty());
    while i < items.len()
        invariant
            i <= items.len(),
            iv == view_items(items@),
            texts(out@) == item_ref_strings(iv, i as int, all),
        decreases items.len() - i,
    {
        assert(iv[i as int] == items@[i as int]@);
        assert(decreases_to!(items => items@[i as int]));
        let more = collect_ref_strings(&items[i], all);
        extend_strings(&mut out, more);
        i = i + 1;
    }
    out
}

fn collect_pair_refs(pairs: &Vec<(YamlValue, YamlValue)>, all: bool) -> (r: Vec<String>)
    ensures
        texts(r@) == pair_ref_strings(view_pairs(pairs@), pairs@.len() as int, all),
    decreases pairs,
{
    let ghost pv = view_pairs(pairs@);
    let mut out: Vec<String> = Vec::new();
    let mut i: usize = 0;
    assert(texts(out@) =~= Seq::<Seq<char>>::empty());
    while i < pairs.len()
        invariant
            i <= pairs.len(),
            pv == view_pairs(pairs@),
            texts(out@) == pair_ref_strings(pv, i as int, all),
        decreases pairs.len() - i,
    {
        assert(pv[i as int] == (pairs@[i as int].0@, pairs@[i as int].1@));
        assert(decreases_to!(pairs => pairs@[i as int]));
        assert(decreases_to!(pairs@[i as int] => pairs@[i as int].1));
        let ghost before = texts(out@);
        match &pairs[i].0 {
            YamlValue::String(k) => {
                let ref_string = match &pairs[i].1 {
                    YamlValue::String(v) => {
                        if is_key(&pairs[i].0, "$ref") {
                            Some(v)
                        } else {
                            None
                        }
                    },
                    _ => None,
                };
                match ref_string {
                    Some(v) => {
                        out.push(v.clone());
                        assert(texts(out@) =~= before + seq![v@]);
                    },
                    None => {
                        if !all && is_skipped_keyword(k) {
                            assert(texts(out@) =~= before + Seq::<Seq<char>>::empty());
                        } else if !all && is_schema_map_keyword(k) && is_mapping(&pairs[i].1) {
                            match &pairs[i].1 {
                                YamlValue::Mapping(members) => {
                                    assert(pv[i as int].1 == Yaml::Mapping(view_pairs(members@)));
                                    assert(decreases_to!(pairs@[i as int].1 => members));
                                    let more = collect_member_refs(members);
                                    extend_strings(&mut out, more);
                                },
                                _ => {},
                            }
                        } else {
                            let more = collect_ref_strings(&pairs[i].1, all);
                            extend_strings(&mut out, more);
                        }
                    },
                }
            },
            _ => {
                let more = collect_ref_strings(&pairs[i].1, all);
                extend_strings(&mut out, more);
            },
        }
        assert(texts(out@) == pair_ref_strings(pv, i + 1, all));
        i = i + 1;
    }
    out
}

// ---------------------------------------------------------------------------
// Where a `$ref` leads

/// The end of the pointer token that starts at `i`: the next `/`, or the end.
pub open spec fn next_slash(s: Seq<char>, i: int) -> int
    decreases s.len() - i,
{
    if i >= s.len() {
        s.len() as int
    } else if s[i] == '/' {
        i
    } else {
        next_slash(s, i + 1)
    }
}

pub proof fn lemma_next_slash(s: Seq<char>, i: int)
    requires
        0 <= i <= s.len(),
    ensures
        i <= next_slash(s, i) <= s.len(),
    decreases s.len() - i,
{
    if i < s.len() && s[i] != '/' {
        lemma_next_slash(s, i + 1);
    }
}

/// The index an array token names: the number whose decimal text it is.
pub open spec fn index_token(tok: Seq<char>, k: nat, len: nat) -> Option<nat>
    decreases len - k,
{
    if k >= len {
        None
    } else if decimal(k) == tok {
        Some(k)
    } else {
        index_token(tok, k + 1, len)
    }
}

proof fn lemma_index_token(tok: Seq<char>, k: nat, len: nat)
    ensures
        index_token(tok, k, len) matches Some(m) ==> k <= m < len && decimal(m) == tok,
    decreases len - k,
{
    if k < len && decimal(k) != tok {
        lemma_index_token(tok, k + 1, len);
    }
}

/// One step of a JSON pointer: an object's member, or an array's item.
pub open spec fn pointer_step(node: Yaml, tok: Seq<char>) -> Option<Yaml> {
    match node {
        Yaml::Mapping(pairs) => lookup(pairs, Yaml::Str(tok)),
        Yaml::Sequence(items) => match index_token(tok, 0, items.len()) {
            Some(k) => Some(items[k as int]),
            None => None,
        },
        _ => None,
    }
}

/// The node that the pointer tokens of `s`, from position `i` on, reach from
/// `node`.
pub open spec fn walk_pointer(node: Yaml, s: Seq<char>, i: int) -> Option<Yaml>
    decreases s.len() - i,
{
    if i < 0 || i > s.len() {
        None
    } else {
        let j = next_slash(s, i);
        proof {
            lemma_next_slash(s, i);
        }
        match pointer_step(node, s.subrange(i, j)) {
            None => None,
            Some(c) => {
                if j >= s.len() {
                    Some(c)
                } else {
                    walk_pointer(c, s, j + 1)
                }
            },
        }
    }
}

/// The subschema that `$ref: s` names within the document `root`: `#` is the
/// document, `#/a/b` a JSON pointer into it. Any other reference names
/// nothing here (`jsonschema` fails on it, as the document fetches nothing).
pub open spec fn ref_target(root: Yaml, s: Seq<char>) -> Option<Yaml> {
    if s == seq!['#'] {
        Some(root)
    } else if s.len() >= 2 && s[0] == '#' && s[1] == '/' {
        walk_pointer(root, s, 2)
    } else {
        None
    }
}

/// A character that a URL fragment keeps as it is: no `%` or `~` (which a
/// pointer decodes), no `#`, no control character.
pub open spec fn plain_fragment_char(c: char) -> bool {
    c != '%' && c != '~' && c != '#' && (c as u32) >= 32 && (c as u32) != 127
}

/// A reference within the document: `#`, then plain fragment characters.
pub open spec fn local_ref(s: Seq<char>) -> bool {
    s.len() >= 1 && s[0] == '#' && forall|i: int| 1 <= i < s.len() ==> plain_fragment_char(#[trigger] s[i])
}

fn is_plain_fragment_char(c: char) -> (r: bool)
    ensures
        r == plain_fragment_char(c),
{
    c != '%' && c != '~' && c != '#' && (c as u32) >= 32 && (c as u32) != 127
}

fn is_local_ref(s: &String) -> (r: bool)
    ensures
        r == local_ref(s@),
{
    let t = s.as_str();
    let n = t.unicode_len();
    if n == 0 || t.get_char(0) != '#' {
        return false;
    }
    let mut i: usize = 1;
    while i < n
        invariant
            1 <= i <= n,
            n == t@.len(),
            t@ == s@,
            forall|j: int| 1 <= j < i ==> plain_fragment_char(#[trigger] s@[j]),
        decreases n - i,
    {
        if !is_plain_fragment_char(t.get_char(i)) {
            return false;
        }
        i = i + 1;
    }
    true
}

fn next_slash_of(t: &str, i: usize) -> (j: usize)
    requires
        i <= t@.len(),
    ensures
        j == next_slash(t@, i as int),
{
    let n = t.unicode_len();
    let mut j: usize = i;
    while j < n && t.get_char(j) != '/'
        invariant
            i <= j <= n,
            n == t@.len(),
            next_slash(t@, i as int) == next_slash(t@, j as int),
        decreases n - j,
    {
        j = j + 1;
    }
    j
}

fn index_of_token(tok: &str, len: usize) -> (r: Option<usize>)
    ensures
        match r {
            Some(k) => index_token(tok@, 0, len as nat) == Some(k as nat),
            None => index_token(tok@, 0, len as nat) is None,
        },
{
    let mut k: usize = 0;
    let target = String::from_str(tok);
    while k < len
        invariant
            k <= len,
            target@ == tok@,
            index_token(tok@, 0, len as nat) == index_token(tok@, k as nat, len as nat),
        decreases len - k,
    {
        let text = decimal_string(k);
        if text.eq(&target) {
            return Some(k);
        }
        k = k + 1;
    }
    None
}

fn step_of<'a>(node: &'a YamlValue, tok: &str) -> (r: Option<&'a YamlValue>)
    ensures
        match r {
            Some(v) => pointer_step(node@, tok@) == Some(v@),
            None => pointer_step(node@, tok@) is None,
        },
{
    match node {
        YamlValue::Mapping(pairs) => {
            assert(node@ == Yaml::Mapping(view_pairs(pairs@)));
            let key = String::from_str(tok);
            get_str(pairs, &key)
        },
        YamlValue::Sequence(items) => {
            assert(node@ == Yaml::Sequence(view_items(items@)));
            let found = index_of_token(tok, items.len());
            proof {
                lemma_index_token(tok@, 0, items@.len() as nat);
            }
            match found {
                Some(k) => {
                    assert(view_items(items@)[k as int] == items@[k as int]@);
                    Some(&items[k])
                },
                None => None,
            }
        },
        _ => None,
    }
}

/// The subschema that a reference names (see `ref_target`).
pub fn target_of<'a>(root: &'a YamlValue, s: &String) -> (r: Option<&'a YamlValue>)
    ensures
        match r {
            Some(v) => ref_target(root@, s@) == Some(v@),
            None => ref_target(root@, s@) is None,
        },
{
    let t = s.as_str();
    let n = t.unicode_len();
    if n == 1 && t.get_char(0) == '#' {
        assert(s@ =~= seq!['#']);
        return Some(root);
    }
    if !(n >= 2 && t.get_char(0) == '#' && t.get_char(1) == '/') {
        proof {
            if s@ == seq!['#'] {
                assert(s@.len() == 1);
            }
        }
        return None;
    }
    assert(s@ != seq!['#']) by {
        assert(s@.len() >= 2);
    }
    let mut node: &'a YamlValue = root;
    let mut i: usize = 2;
    loop
        invariant
            2 <= i <= n,
            n == s@.len(),
            t@ == s@,
            ref_target(root@, s@) == walk_pointer(node@, s@, i as int),
        decreases n - i,
    {
        let j = next_slash_of(t, i);
        proof {
            lemma_next_slash(s@, i as int);
        }
        let tok = t.substring_char(i, j);
        match step_of(node, tok) {
            None => {
                return None;
            },
            Some(c) => {
                if j >= n {
                    return Some(c);
                }
                node = c;
                i = j + 1;
            },
        }
    }
}

// ---------------------------------------------------------------------------
// Identifiers

/// A key that gives a subschema its own identifier (`$id`, or `id` in draft 4).
pub open spec fn id_key(k: Seq<char>) -> bool {
    k == "$id"@ || k == "id"@
}

/// No object of the tree has an identifier.
pub open spec fn no_ids(y: Yaml) -> bool
    decreases y, 0int,
{
    match y {
        Yaml::Sequence(items) => items_no_ids(items, items.len() as int),
        Yaml::Mapping(pairs) => pairs_no_ids(pairs, pairs.len() as int),
        _ => true,
    }
}

pub open spec fn items_no_ids(items: Seq<Yaml>, n: int) -> bool
    decreases items, n,
{
    if n <= 0 || n > items.len() {
        true
    } else {
        items_no_ids(items, n - 1) && no_ids(items[n - 1])
    }
}

pub open spec fn pairs_no_ids(pairs: Seq<(Yaml, Yaml)>, n: int) -> bool
    decreases pairs, n,
{
    if n <= 0 || n > pairs.len() {
        true
    } else {
        &&& pairs_no_ids(pairs, n - 1)
        &&& !(pairs[n - 1].0 is Str && id_key(pairs[n - 1].0->Str_0) && pairs[n - 1].1 is Str)
        &&& no_ids(pairs[n - 1].1)
    }
}

/// The first `n` root entries: an identifier of the root has no fragment,
/// and nothing below the root has an identifier.
pub open spec fn root_ids_ok(pairs: Seq<(Yaml, Yaml)>, n: int) -> bool
    decreases n,
{
    if n <= 0 || n > pairs.len() {
        true
    } else {
        &&& root_ids_ok(pairs, n - 1)
        &&& (pairs[n - 1].0 is Str && id_key(pairs[n - 1].0->Str_0) && pairs[n - 1].1 is Str
            ==> !pairs[n - 1].1->Str_0.contains('#'))
        &&& no_ids(pairs[n - 1].1)
    }
}

/// Only the document itself may have an identifier, and it has no fragment:
/// so every `#...` reference is resolved against the document.
pub open spec fn ids_ok(root: Yaml) -> bool {
    match root {
        Yaml::Mapping(pairs) => root_ids_ok(pairs, pairs.len() as int),
        _ => no_ids(root),
    }
}

proof fn lemma_items_no_ids_prefix(items: Seq<Yaml>, n: int, m: int)
    requires
        0 <= n <= m <= items.len(),
        items_no_ids(items, m),
    ensures
        items_no_ids(items, n),
    decreases m - n,
{
    if n < m {
        lemma_items_no_ids_prefix(items, n, m - 1);
    }
}

proof fn lemma_pairs_no_ids_prefix(pairs: Seq<(Yaml, Yaml)>, n: int, m: int)
    requires
        0 <= n <= m <= pairs.len(),
        pairs_no_ids(pairs, m),
    ensures
        pairs_no_ids(pairs, n),
    decreases m - n,
{
    if n < m {
        lemma_pairs_no_ids_prefix(pairs, n, m - 1);
    }
}

proof fn lemma_root_ids_prefix(pairs: Seq<(Yaml, Yaml)>, n: int, m: int)
    requires
        0 <= n <= m <= pairs.len(),
        root_ids_ok(pairs, m),
    ensures
        root_ids_ok(pairs, n),
    decreases m - n,
{
    if n < m {
        lemma_root_ids_prefix(pairs, n, m - 1);
    }
}

fn is_id_entry(k: &YamlValue, v: &YamlValue) -> (r: bool)
    ensures
        r == (k@ is Str && id_key(k@->Str_0) && v@ is Str),
{
    match v {
        YamlValue::String(_) => is_key(k, "$id") || is_key(k, "id"),
        _ => false,
    }
}

fn has_hash(s: &String) -> (r: bool)
    ensures
        r == s@.contains('#'),
{
    let t = s.as_str();
    let n = t.unicode_len();
    let mut i: usize = 0;
    while i < n
        invariant
            i <= n,
            n == t@.len(),
            t@ == s@,
            forall|j: int| 0 <= j < i ==> s@[j] != '#',
        decreases n - i,
    {
        if t.get_char(i) == '#' {
            return true;
        }
        i = i + 1;
    }
    false
}

fn check_no_ids(y: &YamlValue) -> (r: bool)
    ensures
        r == no_ids(y@),
    decreases y,
{
    match y {
        YamlValue::Sequence(items) => {
            assert(y@ == Yaml::Sequence(view_items(items@)));
            check_items_no_ids(items)
        },
        YamlValue::Mapping(pairs) => {
            assert(y@ == Yaml::Mapping(view_pairs(pairs@)));
            check_pairs_no_ids(pairs)
        },
        _ => true,
    }
}

fn check_items_no_ids(items: &Vec<YamlValue>) -> (r: bool)
    ensures
        r == items_no_ids(view_items(items@), items@.len() as int),
    decreases items,
{
    let ghost iv = view_items(items@);
    let mut i: usize = 0;
    while i < items.len()
        invariant
            i <= items.len(),
            iv == view_items(items@),
            items_no_ids(iv, i as int),
        decreases items.len() - i,
    {
        assert(iv[i as int] == items@[i as int]@);
        assert(decreases_to!(items => items@[i as int]));
        if !check_no_ids(&items[i]) {
            proof {
                if items_no_ids(iv, iv.len() as int) {
                    lemma_items_no_ids_prefix(iv, i + 1, iv.len() as int);
                }
            }
            return false;
        }
        i = i + 1;
    }
    true
}

fn check_pairs_no_ids(pairs: &Vec<(YamlValue, YamlValue)>) -> (r: bool)
    ensures
        r == pairs_no_ids(view_pairs(pairs@), pairs@.len() as int),
    decreases pairs,
{
    let ghost pv = view_pairs(pairs@);
    let mut i: usize = 0;
    while i < pairs.len()
        invariant
            i <= pairs.len(),
            pv == view_pairs(pairs@),
            pairs_no_ids(pv, i as int),
        decreases pairs.len() - i,
    {
        assert(pv[i as int] == (pairs@[i as int].0@, pairs@[i as int].1@));
        assert(decreases_to!(pairs => pairs@[i as int]));
        assert(decreases_to!(pairs@[i as int] => pairs@[i as int].1));
        if is_id_entry(&pairs[i].0, &pairs[i].1) || !check_no_ids(&pairs[i].1) {
            proof {
                if pairs_no_ids(pv, pv.len() as int) {
                    lemma_pairs_no_ids_prefix(pv, i + 1, pv.len() as int);
                }
            }
            return false;
        }
        i = i + 1;
    }
    true
}

fn check_ids(root: &YamlValue) -> (r: bool)
    ensures
        r == ids_ok(root@),
{
    match root {
        YamlValue::Mapping(pairs) => {
            let ghost pv = view_pairs(pairs@);
            assert(root@ == Yaml::Mapping(pv));
            let mut i: usize = 0;
            while i < pairs.len()
                invariant
                    i <= pairs.len(),
                    pv == view_pairs(pairs@),
                    root@ == Yaml::Mapping(pv),
                    root_ids_ok(pv, i as int),
                decreases pairs.len() - i,
            {
                assert(pv[i as int] == (pairs@[i as int].0@, pairs@[i as int].1@));
                let bad_id = match &pairs[i].1 {
                    YamlValue::String(v) => {
                        assert(pv[i as int].1 == Yaml::Str(v@));
                        is_id_entry(&pairs[i].0, &pairs[i].1) && has_hash(v)
                    },
                    _ => false,
                };
                if bad_id || !check_no_ids(&pairs[i].1) {
                    proof {
                        if root_ids_ok(pv, pv.len() as int) {
                            lemma_root_ids_prefix(pv, i + 1, pv.len() as int);
                        }
                    }
                    return false;
                }
                i = i + 1;
            }
            true
        },
        _ => check_no_ids(root),
    }
}

// ---------------------------------------------------------------------------
// Chains of references

/// Following `$ref: s` and then, from where it leads, every `$ref` that
/// applies to the same instance, and so on, ends within `fuel` links.
pub open spec fn chain_ok(root: Yaml, s: Seq<char>, fuel: nat) -> bool
    decreases fuel, 0int,
{
    if fuel == 0 {
        false
    } else {
        match ref_target(root, s) {
            None => true,
            Some(t) => chain_list_ok(root, ref_strings(t, false), ref_strings(t, false).len() as int, (fuel - 1) as nat),
        }
    }
}

/// Every chain from the first `n` references of `list` ends within `fuel` links.
pub open spec fn chain_list_ok(root: Yaml, list: Seq<Seq<char>>, n: int, fuel: nat) -> bool
    decreases fuel, n,
{
    if n <= 0 || n > list.len() {
        true
    } else {
        chain_list_ok(root, list, n - 1, fuel) && chain_ok(root, list[n - 1], fuel)
    }
}

proof fn lemma_chain_list_prefix(root: Yaml, list: Seq<Seq<char>>, n: int, m: int, fuel: nat)
    requires
        0 <= n <= m <= list.len(),
        chain_list_ok(root, list, m, fuel),
    ensures
        chain_list_ok(root, list, n, fuel),
    decreases m - n,
{
    if n < m {
        lemma_chain_list_prefix(root, list, n, m - 1, fuel);
    }
}

/// A schema whose `$ref` links can be followed while checking an instance
/// without ever coming back without descending into the instance: every
/// reference is local (`#` or a JSON pointer into the document, which only
/// the document itself may give an identifier, without a fragment), and no
/// chain of references that apply to the same instance is longer than the
/// number of references, so none comes back to where it started.
pub open spec fn refs_descend(schema: Yaml) -> bool {
    let refs = ref_strings(schema, true);
    &&& ids_ok(schema)
    &&& forall|i: int| 0 <= i < refs.len() ==> local_ref(#[trigger] refs[i]) && chain_ok(schema, refs[i], refs.len() as nat)
}

fn check_chain(root: &YamlValue, s: &String, fuel: usize) -> (r: bool)
    ensures
        r == chain_ok(root@, s@, fuel as nat),
    decreases fuel, 0int,
{
    if fuel == 0 {
        return false;
    }
    match target_of(root, s) {
        None => true,
        Some(t) => {
            let list = collect_ref_strings(t, false);
            check_chain_list(root, &list, fuel - 1)
        },
    }
}

fn check_chain_list(root: &YamlValue, list: &Vec<String>, fuel: usize) -> (r: bool)
    ensures
        r == chain_list_ok(root@, texts(list@), list@.len() as int, fuel as nat),
    decreases fuel, 1int,
{
    let ghost lv = texts(list@);
    let mut i: usize = 0;
    while i < list.len()
        invariant
            i <= list.len(),
            lv == texts(list@),
            chain_list_ok(root@, lv, i as int, fuel as nat),
        decreases list.len() - i,
    {
        assert(lv[i as int] == list@[i as int]@);
        if !check_chain(root, &list[i], fuel) {
            proof {
                if chain_list_ok(root@, lv, lv.len() as int, fuel as nat) {
                    lemma_chain_list_prefix(root@, lv, i + 1, lv.len() as int, fuel as nat);
                }
            }
            return false;
        }
        i = i + 1;
    }
    true
}

/// Whether the schema's `$ref` links all descend (see `refs_descend`).
pub fn has_descending_refs(schema: &YamlValue) -> (r: bool)
    ensures
        r == refs_descend(schema@),
{
    if !check_ids(schema) {
        return false;
    }
    let refs = collect_ref_strings(schema, true);
    let ghost rv = texts(refs@);
    let fuel = refs.len();
    let mut i: usize = 0;
    while i < refs.len()
        invariant
            i <= refs.len(),
            rv == texts(refs@),
            fuel == refs@.len(),
            rv == ref_strings(schema@, true),
            forall|j: int| 0 <= j < i ==> local_ref(#[trigger] rv[j]) && chain_ok(schema@, rv[j], fuel as nat),
        decreases refs.len() - i,
    {
        assert(rv[i as int] == refs@[i as int]@);
        if !is_local_ref(&refs[i]) || !check_chain(schema, &refs[i], fuel) {
            return false;
        }
        i = i + 1;
    }
    true
}

} // verus!
