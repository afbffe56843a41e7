use vstd::prelude::*;

use crate::lemmas::{
    lemma_ascending_pairwise, lemma_sort_facts, lemma_sort_value_keeps, lemma_text_le_trans,
};
use crate::text::{chars_of, lower_of, lowercase};
use crate::tree::{
    all_strings, insert_by_key, keys_ascending, lower_keyed, sort_by_key, sort_entries,
    sort_items, sort_strings, sort_value, str_text, text_le, values_of, well_formed, JsonTree,
};

verus! {

broadcast use vstd::std_specs::vec::axiom_vec_index_decreases;

/// A JSON document. Numbers hold the text written for them.
#[derive(Debug)]
pub enum Json {
    Null,
    Bool(bool),
    Number(String),
    Str(String),
    Array(Vec<Json>),
    Object(Vec<Member>),
}

/// One entry of an object.
#[derive(Debug)]
pub struct Member {
    pub key: String,
    pub value: Json,
}

/// The mathematical form of a document.
pub open spec fn tree_of(j: Json) -> JsonTree
    decreases j,
{
    match j {
        Json::Null => JsonTree::Null,
        Json::Bool(b) => JsonTree::Bool(b),
        Json::Number(n) => JsonTree::Number(n@),
        Json::Str(s) => JsonTree::Str(s@),
        Json::Array(v) => JsonTree::Array(
            Seq::new(
                v.len() as nat,
                |i: int|
                    if 0 <= i < v.len() {
                        tree_of(v[i])
                    } else {
                        JsonTree::Null
                    },
            ),
        ),
        Json::Object(ms) => JsonTree::Object(
            Seq::new(
                ms.len() as nat,
                |i: int|
                    if 0 <= i < ms.len() {
                        (ms[i].key@, tree_of(ms[i].value))
                    } else {
                        (seq![], JsonTree::Null)
                    },
            ),
        ),
    }
}

impl View for Json {
    type V = JsonTree;

    open spec fn view(&self) -> JsonTree {
        tree_of(*self)
    }
}

/// The (key, value) entries of a member list.
pub open spec fn entries_of(ms: Seq<Member>) -> Seq<(Seq<char>, JsonTree)> {
    Seq::new(ms.len(), |i: int| (ms[i].key@, tree_of(ms[i].value)))
}

/// Whether `a` comes before `b`, or equals it, by code point.
pub fn text_le_exec(a: &str, b: &str) -> (r: bool)
    ensures
        r == text_le(a@, b@),
{
    let x = chars_of(a);
    let y = chars_of(b);
    let mut i: usize = 0;
    proof {
        assert(a@.skip(0) =~= a@);
        assert(b@.skip(0) =~= b@);
    }
    while i < x.len() && i < y.len()
        invariant
            x@ == a@,
            y@ == b@,
            i <= x.len(),
            i <= y.len(),
            text_le(a@, b@) == text_le(a@.skip(i as int), b@.skip(i as int)),
        decreases x.len() - i,
    {
        if (x[i] as u32) != (y[i] as u32) {
            return (x[i] as u32) < (y[i] as u32);
        }
        proof {
            assert(a@.skip(i as int).drop_first() =~= a@.skip(i + 1));
            assert(b@.skip(i as int).drop_first() =~= b@.skip(i + 1));
        }
        i = i + 1;
    }
    i == x.len()
}

proof fn lemma_insert_at<T>(s: Seq<(Seq<char>, T)>, e: (Seq<char>, T), j: int)
    requires
        0 <= j <= s.len(),
        j == 0 || text_le(s[j - 1].0, e.0),
        forall|k: int| j <= k < s.len() ==> !text_le(#[trigger] s[k].0, e.0),
    ensures
        insert_by_key(s, e) == s.insert(j, e),
    decreases s.len(),
{
    if s.len() == 0 {
        assert(s.insert(j, e) =~= seq![e]);
    } else if j == s.len() {
        assert(s.insert(j, e) =~= s.push(e));
    } else {
        lemma_insert_at(s.drop_last(), e, j);
        assert(s.drop_last().insert(j, e).push(s.last()) =~= s.insert(j, e));
    }
}

/// Inserts `m` into members whose keys ascend, after every member whose key
/// is not above its own.
fn insert_member(out: &mut Vec<Member>, m: Member)
    requires
        keys_ascending(entries_of(old(out)@)),
    ensures
        entries_of(final(out)@) == insert_by_key(entries_of(old(out)@), (m.key@, tree_of(m.value))),
{
    let ghost es = entries_of(out@);
    let mut lo: usize = 0;
    let mut hi: usize = out.len();
    while lo < hi
        invariant
            lo <= hi <= out.len(),
            es == entries_of(out@),
            keys_ascending(es),
            forall|k: int| 0 <= k < lo ==> text_le(#[trigger] es[k].0, m.key@),
            forall|k: int| hi <= k < out.len() ==> !text_le(#[trigger] es[k].0, m.key@),
        decreases hi - lo,
    {
        let mid = lo + (hi - lo) / 2;
        if text_le_exec(out[mid].key.as_str(), m.key.as_str()) {
            proof {
                assert forall|k: int| 0 <= k <= mid implies text_le(#[trigger] es[k].0, m.key@) by {
                    lemma_ascending_pairwise(es, k, mid as int);
                    lemma_text_le_trans(es[k].0, es[mid as int].0, m.key@);
                }
            }
            lo = mid + 1;
        } else {
            proof {
                assert forall|k: int| mid <= k < out.len() implies !text_le(#[trigger] es[k].0, m.key@) by {
                    lemma_ascending_pairwise(es, mid as int, k);
                    if text_le(es[k].0, m.key@) {
                        lemma_text_le_trans(es[mid as int].0, es[k].0, m.key@);
                    }
                }
            }
            hi = mid;
        }
    }
    let ghost e = (m.key@, tree_of(m.value));
    proof {
        if lo > 0 {
            assert(text_le(es[lo - 1].0, e.0));
        }
        lemma_insert_at(es, e, lo as int);
    }
    out.insert(lo, m);
    proof {
        assert(entries_of(out@) =~= es.insert(lo as int, e));
    }
}

/// Members stably sorted by key.
pub fn sort_members(ms: Vec<Member>) -> (r: Vec<Member>)
    ensures
        entries_of(r@) == sort_by_key(entries_of(ms@)),
{
    let ghost src = ms@;
    let mut out: Vec<Member> = Vec::new();
    for m in it: ms.into_iter()
        invariant
            it.seq() == src,
            entries_of(out@) == sort_by_key(entries_of(src.take(it.index() as int))),
    {
        let ghost k = it.index() as int;
        proof {
            assert(entries_of(src.take(k + 1)).drop_last() =~= entries_of(src.take(k)));
            lemma_sort_facts(entries_of(src.take(k)));
        }
        insert_member(&mut out, m);
    }
    proof {
        assert(src.take(src.len() as int) =~= src);
    }
    out
}

/// Whether every element is a string.
fn all_strings_exec(xs: &Vec<Json>) -> (r: bool)
    ensures
        r == all_strings(tree_of(Json::Array(*xs))->Array_0),
{
    let ghost ts = tree_of(Json::Array(*xs))->Array_0;
    let mut i: usize = 0;
    while i < xs.len()
        invariant
            i <= xs.len(),
            ts == tree_of(Json::Array(*xs))->Array_0,
            forall|k: int| 0 <= k < i ==> #[trigger] ts[k] is Str,
        decreases xs.len() - i,
    {
        assert(ts[i as int] == tree_of(xs@[i as int]));
        match &xs[i] {
            Json::Str(_) => {},
            _ => {
                assert(!(ts[i as int] is Str));
                return false;
            },
        }
        i = i + 1;
    }
    true
}

/// A string keyed by its lower-case form.
fn keyed_string(x: Json) -> (m: Member)
    requires
        tree_of(x) is Str,
    ensures
        m.key@ == lower_of(str_text(tree_of(x))),
        tree_of(m.value) == tree_of(x),
{
    match x {
        Json::Str(s) => {
            let key = lowercase(s.as_str());
            Member { key, value: Json::Str(s) }
        },
        _ => Member { key: String::new(), value: x },
    }
}

/// Strings stably sorted by their lower-case form.
fn sort_strings_exec(xs: Vec<Json>) -> (r: Vec<Json>)
    requires
        all_strings(tree_of(Json::Array(xs))->Array_0),
    ensures
        tree_of(Json::Array(r))->Array_0 == sort_strings(tree_of(Json::Array(xs))->Array_0),
{
    let ghost ts = tree_of(Json::Array(xs))->Array_0;
    let ghost src = xs@;
    let mut keyed: Vec<Member> = Vec::new();
    for x in it: xs.into_iter()
        invariant
            it.seq() == src,
            src == xs@,
            ts == tree_of(Json::Array(xs))->Array_0,
            all_strings(ts),
            entries_of(keyed@) == lower_keyed(ts).take(it.index() as int),
    {
        let ghost k = it.index() as int;
        proof {
            assert(x == src[k]);
            assert(ts[k] == tree_of(x));
            assert(ts[k] is Str);
        }
        let m = keyed_string(x);
        let ghost old_e = entries_of(keyed@);
        let ghost e = (m.key@, tree_of(m.value));
        keyed.push(m);
        proof {
            assert(k < ts.len());
            assert(e == lower_keyed(ts)[k]);
            assert(entries_of(keyed@) =~= old_e.push(e));
            assert(entries_of(keyed@) =~= lower_keyed(ts).take(k + 1));
        }
    }
    proof {
        assert(lower_keyed(ts).take(ts.len() as int) =~= lower_keyed(ts));
    }
    proof {
        assert(entries_of(keyed@) =~= lower_keyed(ts));
    }
    let sorted = sort_members(keyed);
    let ghost es = entries_of(sorted@);
    let mut out: Vec<Json> = Vec::new();
    for m in it: sorted.into_iter()
        invariant
            it.seq() == sorted@,
            es == entries_of(sorted@),
            out.len() == it.index(),
            forall|k: int| 0 <= k < out.len() ==> (#[trigger] out@[k])@ == es[k].1,
    {
        out.push(m.value);
    }
    proof {
        assert(tree_of(Json::Array(out))->Array_0 =~= values_of(es));
    }
    out
}

/// The value sorter on a document (see `sort_value`).
pub fn sort_value_exec(j: Json, sort_arrays: bool) -> (r: Json)
    ensures
        r@ == sort_value(j@, sort_arrays),
    decreases j,
{
    if !sort_arrays {
        return j;
    }
    match j {
        Json::Array(xs) => {
            if all_strings_exec(&xs) {
                let r = Json::Array(sort_strings_exec(xs));
                proof {
                    assert(tree_of(r) == JsonTree::Array(tree_of(r)->Array_0));
                }
                return r;
            }
            let ghost src = xs@;
            let mut out: Vec<Json> = Vec::new();
            for x in it: xs.into_iter()
                invariant
                    it.seq() == src,
                    src == xs@,
                    j == Json::Array(xs),
                    sort_arrays,
                    out.len() == it.index(),
                    forall|k: int| 0 <= k < out.len() ==> (#[trigger] out@[k])@ == sort_value(
                        src[k]@,
                        sort_arrays,
                    ),
            {
                proof {
                    assert(x == xs[it.index() as int]);
                    assert(decreases_to!(j => j->Array_0));
                    assert(decreases_to!(xs => xs[it.index() as int]));
                }
                let y = sort_value_exec(x, sort_arrays);
                out.push(y);
            }
            let r = Json::Array(out);
            proof {
                let a = tree_of(r)->Array_0;
                let b = sort_items(tree_of(j)->Array_0, sort_arrays);
                assert(a.len() == b.len());
                assert forall|k: int| 0 <= k < a.len() implies a[k] == b[k] by {
                    assert(a[k] == out@[k]@);
                }
                assert(a =~= b);
                assert(r@ == sort_value(j@, sort_arrays));
            }
            r
        },
        Json::Object(ms) => {
            let ghost src = ms@;
            let mut out: Vec<Member> = Vec::new();
            for m in it: ms.into_iter()
                invariant
                    it.seq() == src,
                    src == ms@,
                    j == Json::Object(ms),
                    out.len() == it.index(),
                    forall|k: int| 0 <= k < out.len() ==> (#[trigger] out@[k]).key@ == src[k].key@
                        && out@[k].value@ == sort_value(src[k].value@, sort_arrays),
            {
                proof {
                    assert(m == ms[it.index() as int]);
                    assert(decreases_to!(j => j->Object_0));
                    assert(decreases_to!(ms => ms[it.index() as int]));
                    assert(decreases_to!(ms[it.index() as int] => m.value));
                }
                let Member { key, value } = m;
                let v = sort_value_exec(value, sort_arrays);
                out.push(Member { key, value: v });
            }
            let r = Json::Object(out);
            proof {
                let es = tree_of(j)->Object_0;
                assert(tree_of(r)->Object_0 =~= sort_entries(es, sort_arrays));
                assert(r@ == sort_value(j@, sort_arrays));
            }
            r
        },
        _ => j,
    }
}

/// Sorts a document in place with the value sorter (see `sort_value`).
pub fn sort_json_value(head: &mut Json, sort_arrays: bool)
    ensures
        final(head)@ == sort_value(old(head)@, sort_arrays),
        well_formed(old(head)@) ==> well_formed(final(head)@),
{
    proof {
        lemma_sort_value_keeps(old(head)@, sort_arrays);
    }
    let mut taken = Json::Null;
    std::mem::swap(head, &mut taken);
    let sorted = sort_value_exec(taken, sort_arrays);
    *head = sorted;
}

} // verus!
