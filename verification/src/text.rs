//! Small string utilities with specifications.
use vstd::prelude::*;
use vstd::string::*;

verus! {

/// The texts of a list of strings.
pub open spec fn texts(v: Seq<String>) -> Seq<Seq<char>> {
    Seq::new(v.len(), |i: int| v[i]@)
}

/// The concatenation of `f` applied to each element of `s`, in order.
pub open spec fn flat_map<A>(s: Seq<A>, f: spec_fn(A) -> Seq<Seq<char>>) -> Seq<Seq<char>>
    decreases s.len(),
{
    if s.len() == 0 {
        Seq::empty()
    } else {
        flat_map(s.drop_last(), f) + f(s.last())
    }
}

pub proof fn lemma_flat_map_step<A>(s: Seq<A>, f: spec_fn(A) -> Seq<Seq<char>>, i: int)
    requires
        0 <= i < s.len(),
    ensures
        flat_map(s.take(i + 1), f) == flat_map(s.take(i), f) + f(s[i]),
{
    assert(s.take(i + 1).drop_last() =~= s.take(i));
    assert(s.take(i + 1).last() == s[i]);
}

pub proof fn lemma_flat_map_all<A>(s: Seq<A>, f: spec_fn(A) -> Seq<Seq<char>>)
    ensures
        flat_map(s.take(s.len() as int), f) == flat_map(s, f),
{
    assert(s.take(s.len() as int) =~= s);
}

/// Where `f` gives, for each element, either what `g` gives or nothing, every
/// text of `flat_map(s, f)` is also one of `flat_map(s, g)`.
pub proof fn lemma_flat_map_sub<A>(s: Seq<A>, f: spec_fn(A) -> Seq<Seq<char>>, g: spec_fn(A) -> Seq<Seq<char>>)
    requires
        forall|i: int| 0 <= i < s.len() ==> f(#[trigger] s[i]) == g(s[i]) || f(s[i]).len() == 0,
    ensures
        forall|k: int| 0 <= k < flat_map(s, f).len() ==> flat_map(s, g).contains(#[trigger] flat_map(s, f)[k]),
    decreases s.len(),
{
    if s.len() > 0 {
        let t = s.drop_last();
        assert forall|i: int| 0 <= i < t.len() implies f(#[trigger] t[i]) == g(t[i]) || f(t[i]).len() == 0 by {
            assert(t[i] == s[i]);
        }
        lemma_flat_map_sub(t, f, g);
        let a = flat_map(t, f);
        let b = flat_map(t, g);
        assert(flat_map(s, f) == a + f(s.last()));
        assert(flat_map(s, g) == b + g(s.last()));
        assert forall|k: int| 0 <= k < flat_map(s, f).len() implies flat_map(s, g).contains(#[trigger] flat_map(s, f)[k]) by {
            if k < a.len() {
                assert(b.contains(a[k]));
                let m = choose|m: int| 0 <= m < b.len() && b[m] == a[k];
                assert(flat_map(s, g)[m] == a[k]);
            } else {
                let j = k - a.len();
                assert(f(s.last()) == g(s.last()));
                assert(flat_map(s, g)[b.len() + j] == flat_map(s, f)[k]);
            }
        }
    }
}

/// A property that holds of every text that `f` gives for an element holds of
/// every text of `flat_map(s, f)`.
pub proof fn lemma_flat_map_forall<A>(s: Seq<A>, f: spec_fn(A) -> Seq<Seq<char>>, p: spec_fn(Seq<char>) -> bool)
    requires
        forall|i: int, k: int| 0 <= i < s.len() && 0 <= k < f(s[i]).len() ==> p(#[trigger] f(s[i])[k]),
    ensures
        forall|k: int| 0 <= k < flat_map(s, f).len() ==> p(#[trigger] flat_map(s, f)[k]),
    decreases s.len(),
{
    if s.len() > 0 {
        let t = s.drop_last();
        assert forall|i: int, k: int| 0 <= i < t.len() && 0 <= k < f(t[i]).len() implies p(#[trigger] f(t[i])[k]) by {
            assert(t[i] == s[i]);
        }
        lemma_flat_map_forall(t, f, p);
        let a = flat_map(t, f);
        assert(flat_map(s, f) == a + f(s.last()));
        assert forall|k: int| 0 <= k < flat_map(s, f).len() implies p(#[trigger] flat_map(s, f)[k]) by {
            if k < a.len() {
                assert(p(a[k]));
            } else {
                assert(flat_map(s, f)[k] == f(s[s.len() - 1])[k - a.len()]);
            }
        }
    }
}

/// Every text that `f` gives for an element is a text of `flat_map(s, f)`.
pub proof fn lemma_flat_map_contains<A>(s: Seq<A>, f: spec_fn(A) -> Seq<Seq<char>>, i: int, k: int)
    requires
        0 <= i < s.len(),
        0 <= k < f(s[i]).len(),
    ensures
        flat_map(s, f).contains(f(s[i])[k]),
    decreases s.len(),
{
    let t = s.drop_last();
    let a = flat_map(t, f);
    assert(flat_map(s, f) == a + f(s.last()));
    if i < s.len() - 1 {
        assert(t[i] == s[i]);
        lemma_flat_map_contains(t, f, i, k);
        let m = choose|m: int| 0 <= m < a.len() && a[m] == f(t[i])[k];
        assert(flat_map(s, f)[m] == a[m]);
    } else {
        assert(flat_map(s, f)[a.len() + k] == f(s[i])[k]);
    }
}

/// Where `f` gives, for each element, either what `g` gives or nothing, the
/// texts of `flat_map(s, f)`, counted with repetition, are among those of
/// `flat_map(s, g)`.
pub proof fn lemma_flat_map_sub_multiset<A>(s: Seq<A>, f: spec_fn(A) -> Seq<Seq<char>>, g: spec_fn(A) -> Seq<Seq<char>>)
    requires
        forall|i: int| 0 <= i < s.len() ==> f(#[trigger] s[i]) == g(s[i]) || f(s[i]).len() == 0,
    ensures
        flat_map(s, f).to_multiset().subset_of(flat_map(s, g).to_multiset()),
    decreases s.len(),
{
    broadcast use vstd::multiset::group_multiset_axioms;
    broadcast use vstd::seq_lib::group_to_multiset_ensures;

    if s.len() == 0 {
        assert(flat_map(s, f) =~= Seq::<Seq<char>>::empty());
    } else {
        let t = s.drop_last();
        assert forall|i: int| 0 <= i < t.len() implies f(#[trigger] t[i]) == g(t[i]) || f(t[i]).len() == 0 by {
            assert(t[i] == s[i]);
        }
        lemma_flat_map_sub_multiset(t, f, g);
        let a = flat_map(t, f);
        let b = flat_map(t, g);
        assert(flat_map(s, f) == a + f(s.last()));
        assert(flat_map(s, g) == b + g(s.last()));
        vstd::seq_lib::lemma_multiset_commutative(a, f(s.last()));
        vstd::seq_lib::lemma_multiset_commutative(b, g(s.last()));
        if f(s.last()).len() == 0 {
            assert(f(s.last()) =~= Seq::<Seq<char>>::empty());
        }
    }
}

/// A name that begins with `.` (a hidden job or a template).
pub open spec fn is_hidden(name: Seq<char>) -> bool {
    name.len() > 0 && name[0] == '.'
}

pub fn starts_with_dot(s: &String) -> (r: bool)
    ensures
        r == is_hidden(s@),
{
    let t = s.as_str();
    if t.unicode_len() == 0 {
        false
    } else {
        t.get_char(0) == '.'
    }
}

/// Whether `v` holds a string equal to `s`.
pub fn contains_string(v: &Vec<String>, s: &String) -> (r: bool)
    ensures
        r == texts(v@).contains(s@),
{
    let mut i: usize = 0;
    while i < v.len()
        invariant
            i <= v.len(),
            forall|j: int| 0 <= j < i ==> (#[trigger] v@[j])@ != s@,
        decreases v.len() - i,
    {
        if v[i].eq(s) {
            proof {
                assert(texts(v@)[i as int] == s@);
            }
            return true;
        }
        i = i + 1;
    }
    proof {
        if texts(v@).contains(s@) {
            let k = choose|k: int| 0 <= k < texts(v@).len() && texts(v@)[k] == s@;
            assert(v@[k]@ != s@);
        }
    }
    false
}

/// `a`, then `b`, then `c`, as one string.
pub fn concat3(a: &str, b: &str, c: &str) -> (r: String)
    ensures
        r@ == a@ + b@ + c@,
{
    let mut s = String::from_str(a);
    s.append(b);
    s.append(c);
    s
}

/// `a`, then `b`, `c`, `d` and `e`, as one string.
pub fn concat5(a: &str, b: &str, c: &str, d: &str, e: &str) -> (r: String)
    ensures
        r@ == a@ + b@ + c@ + d@ + e@,
{
    let mut s = String::from_str(a);
    s.append(b);
    s.append(c);
    s.append(d);
    s.append(e);
    s
}

/// Joins texts with a separator.
pub open spec fn join(list: Seq<Seq<char>>, sep: Seq<char>) -> Seq<char>
    decreases list.len(),
{
    if list.len() == 0 {
        Seq::empty()
    } else if list.len() == 1 {
        list[0]
    } else {
        join(list.drop_last(), sep) + sep + list.last()
    }
}

pub fn join_strings(list: &Vec<String>, sep: &str) -> (r: String)
    ensures
        r@ == join(texts(list@), sep@),
{
    let mut res = String::new();
    let ghost tv = texts(list@);
    let mut i: usize = 0;
    assert(tv.take(0) =~= Seq::<Seq<char>>::empty());
    while i < list.len()
        invariant
            i <= list.len(),
            tv == texts(list@),
            res@ == join(tv.take(i as int), sep@),
        decreases list.len() - i,
    {
        assert(tv.take(i + 1).drop_last() =~= tv.take(i as int));
        assert(tv[i as int] == list@[i as int]@);
        if i != 0 {
            res.append(sep);
            res.append(list[i].as_str());
        } else {
            res.append(list[i].as_str());
            assert(res@ =~= tv[0]);
        }
        i = i + 1;
    }
    assert(tv.take(list@.len() as int) =~= tv);
    res
}

/// Appends every string of `more` to `out`.
pub fn extend_strings(out: &mut Vec<String>, more: Vec<String>)
    ensures
        texts(final(out)@) == texts(old(out)@) + texts(more@),
{
    let mut more = more;
    let ghost start = out@;
    let ghost mv = more@;
    out.append(&mut more);
    assert(texts(out@) =~= texts(start) + texts(mv));
}

} // verus!
