use vstd::prelude::*;

use crate::text::lower_of;

verus! {

/// The mathematical form of a JSON document: numbers keep the text that is
/// written for them, objects are sequences of (key, value) entries.
#[verifier::ext_equal]
pub enum JsonTree {
    Null,
    Bool(bool),
    Number(Seq<char>),
    Str(Seq<char>),
    Array(Seq<JsonTree>),
    Object(Seq<(Seq<char>, JsonTree)>),
}

/// Lexicographic order of texts by code point (the byte order of UTF-8).
pub open spec fn text_le(a: Seq<char>, b: Seq<char>) -> bool
    decreases a.len(),
{
    if a.len() == 0 {
        true
    } else if b.len() == 0 {
        false
    } else if (a[0] as u32) != (b[0] as u32) {
        (a[0] as u32) < (b[0] as u32)
    } else {
        text_le(a.drop_first(), b.drop_first())
    }
}

/// Inserts `e` after every entry whose key is not above its own.
pub open spec fn insert_by_key<T>(s: Seq<(Seq<char>, T)>, e: (Seq<char>, T)) -> Seq<(Seq<char>, T)>
    decreases s.len(),
{
    if s.len() == 0 {
        seq![e]
    } else if text_le(s.last().0, e.0) {
        s.push(e)
    } else {
        insert_by_key(s.drop_last(), e).push(s.last())
    }
}

/// The stable sort of entries by key.
pub open spec fn sort_by_key<T>(s: Seq<(Seq<char>, T)>) -> Seq<(Seq<char>, T)>
    decreases s.len(),
{
    if s.len() == 0 {
        s
    } else {
        insert_by_key(sort_by_key(s.drop_last()), s.last())
    }
}

/// The entries whose key is `k`, in their order.
pub open spec fn with_key<T>(s: Seq<(Seq<char>, T)>, k: Seq<char>) -> Seq<(Seq<char>, T)>
    decreases s.len(),
{
    if s.len() == 0 {
        seq![]
    } else if s.last().0 == k {
        with_key(s.drop_last(), k).push(s.last())
    } else {
        with_key(s.drop_last(), k)
    }
}

/// Keys never decrease from one entry to the next.
pub open spec fn keys_ascending<T>(s: Seq<(Seq<char>, T)>) -> bool {
    forall|i: int| 0 <= i < s.len() - 1 ==> text_le(#[trigger] s[i].0, s[i + 1].0)
}

/// Every element is a string.
pub open spec fn all_strings(xs: Seq<JsonTree>) -> bool {
    forall|i: int| 0 <= i < xs.len() ==> #[trigger] xs[i] is Str
}

/// The text of a string node.
pub open spec fn str_text(t: JsonTree) -> Seq<char> {
    match t {
        JsonTree::Str(s) => s,
        _ => seq![],
    }
}

/// Each element keyed by the lower-case form of its text.
pub open spec fn lower_keyed(xs: Seq<JsonTree>) -> Seq<(Seq<char>, JsonTree)> {
    Seq::new(xs.len(), |i: int| (lower_of(str_text(xs[i])), xs[i]))
}

/// The values of keyed entries.
pub open spec fn values_of<T>(s: Seq<(Seq<char>, T)>) -> Seq<T> {
    Seq::new(s.len(), |i: int| s[i].1)
}

/// Strings stably sorted by their lower-case form.
pub open spec fn sort_strings(xs: Seq<JsonTree>) -> Seq<JsonTree> {
    values_of(sort_by_key(lower_keyed(xs)))
}

/// Each key is strictly below the next: keys ascend and none repeats.
pub open spec fn keys_strict<T>(s: Seq<(Seq<char>, T)>) -> bool {
    forall|i: int|
        0 <= i < s.len() - 1 ==> text_le(#[trigger] s[i].0, s[i + 1].0) && s[i].0 != s[i + 1].0
}

/// Every object, at any depth, holds each key once and lists its keys in
/// ascending order.
pub open spec fn ordered(t: JsonTree) -> bool
    decreases t,
{
    match t {
        JsonTree::Array(xs) => forall|i: int| 0 <= i < xs.len() ==> ordered(#[trigger] xs[i]),
        JsonTree::Object(es) => keys_strict(es) && forall|i: int|
            0 <= i < es.len() ==> ordered(#[trigger] es[i].1),
        _ => true,
    }
}

/// Each element sorted by the value sorter.
pub open spec fn sort_items(xs: Seq<JsonTree>, sort_arrays: bool) -> Seq<JsonTree>
    decreases xs,
{
    Seq::new(
        xs.len(),
        |i: int|
            if 0 <= i < xs.len() {
                sort_value(xs[i], sort_arrays)
            } else {
                JsonTree::Null
            },
    )
}

/// Each entry's value sorted by the value sorter.
pub open spec fn sort_entries(es: Seq<(Seq<char>, JsonTree)>, sort_arrays: bool) -> Seq<
    (Seq<char>, JsonTree),
>
    decreases es,
{
    Seq::new(
        es.len(),
        |i: int|
            if 0 <= i < es.len() {
                (es[i].0, sort_value(es[i].1, sort_arrays))
            } else {
                (seq![], JsonTree::Null)
            },
    )
}

/// The value sorter. Without `sort_arrays` nothing changes. With it, an
/// array of strings only is stably sorted by the lower-case form of its
/// strings, any other array keeps its order and has its elements sorted in
/// turn, and objects have their values sorted in turn.
pub open spec fn sort_value(t: JsonTree, sort_arrays: bool) -> JsonTree
    decreases t,
{
    if !sort_arrays {
        t
    } else {
        match t {
            JsonTree::Array(xs) => if all_strings(xs) {
                JsonTree::Array(sort_strings(xs))
            } else {
                JsonTree::Array(sort_items(xs, sort_arrays))
            },
            JsonTree::Object(es) => JsonTree::Object(sort_entries(es, sort_arrays)),
            _ => t,
        }
    }
}

/// The canonical form of a parsed document, whose objects already list
/// their keys in order: the value sorter applied.
pub open spec fn canonical(t: JsonTree, sort_arrays: bool) -> JsonTree {
    sort_value(t, sort_arrays)
}

} // verus!

verus! {

/// No CR or LF among the characters.
pub open spec fn breaks_free(s: Seq<char>) -> bool {
    forall|i: int| 0 <= i < s.len() ==> s[i] != '\n' && s[i] != '\r'
}

/// A document as the parser gives it: objects hold each key once, in
/// ascending order, and no number text holds a line break.
pub open spec fn well_formed(t: JsonTree) -> bool {
    ordered(t) && plain_numbers(t)
}

/// No number text, at any depth, holds a CR or LF.
pub open spec fn plain_numbers(t: JsonTree) -> bool
    decreases t,
{
    match t {
        JsonTree::Number(n) => breaks_free(n),
        JsonTree::Array(xs) => forall|i: int| 0 <= i < xs.len() ==> plain_numbers(#[trigger] xs[i]),
        JsonTree::Object(es) => forall|i: int|
            0 <= i < es.len() ==> plain_numbers(#[trigger] es[i].1),
        _ => true,
    }
}

} // verus!
