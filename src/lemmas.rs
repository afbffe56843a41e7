use vstd::prelude::*;

use crate::codec::{escape_char, escaped, json_quoted};
use crate::lines::{breaks_are, detected, is_concrete, lf_to_cr, newline_of, LineEnding};
use crate::render::{join, render, render_entries, render_items};
use crate::sort::{formatted, indent_unit};
use crate::text::{lower_of, occurs_at, occurs_in};
use crate::tree::{
    all_strings, breaks_free, canonical, insert_by_key, keys_ascending, lower_keyed,
    ordered, plain_numbers, sort_by_key, sort_entries, sort_items,
    sort_strings, sort_value, str_text, text_le, with_key, JsonTree,
};

verus! {

/// Any two texts are ordered one way or the other.
pub proof fn lemma_text_le_total(a: Seq<char>, b: Seq<char>)
    ensures
        text_le(a, b) || text_le(b, a),
    decreases a.len(),
{
    if a.len() > 0 && b.len() > 0 && (a[0] as u32) == (b[0] as u32) {
        lemma_text_le_total(a.drop_first(), b.drop_first());
    }
}

/// The order of texts is transitive.
pub proof fn lemma_text_le_trans(a: Seq<char>, b: Seq<char>, c: Seq<char>)
    requires
        text_le(a, b),
        text_le(b, c),
    ensures
        text_le(a, c),
    decreases a.len(),
{
    if a.len() > 0 && b.len() > 0 && c.len() > 0 && (a[0] as u32) == (b[0] as u32) && (b[0] as u32)
        == (c[0] as u32) {
        lemma_text_le_trans(a.drop_first(), b.drop_first(), c.drop_first());
    }
}

/// Keys that ascend from each entry to the next ascend between any two.
pub proof fn lemma_ascending_pairwise<T>(s: Seq<(Seq<char>, T)>, i: int, j: int)
    requires
        keys_ascending(s),
        0 <= i <= j < s.len(),
    ensures
        text_le(s[i].0, s[j].0),
    decreases j - i,
{
    if i == j {
        lemma_text_le_refl(s[i].0);
    } else {
        lemma_ascending_pairwise(s, i, j - 1);
        assert(text_le(s[j - 1].0, s[j].0));
        lemma_text_le_trans(s[i].0, s[j - 1].0, s[j].0);
    }
}

/// Every text is ordered with itself.
pub proof fn lemma_text_le_refl(a: Seq<char>)
    ensures
        text_le(a, a),
    decreases a.len(),
{
    if a.len() > 0 {
        lemma_text_le_refl(a.drop_first());
    }
}

/// Inserting keeps every entry, adds one, keeps the keys ascending, and
/// ends with the new entry or the old last one.
pub proof fn lemma_insert_facts<T>(s: Seq<(Seq<char>, T)>, e: (Seq<char>, T))
    ensures
        insert_by_key(s, e).len() == s.len() + 1,
        forall|i: int|
            0 <= i < s.len() + 1 ==> #[trigger] insert_by_key(s, e)[i] == e || s.contains(
                insert_by_key(s, e)[i],
            ),
        keys_ascending(s) ==> keys_ascending(insert_by_key(s, e)),
        insert_by_key(s, e).last() == e || (s.len() > 0 && insert_by_key(s, e).last() == s.last()),
    decreases s.len(),
{
    let r = insert_by_key(s, e);
    if s.len() == 0 {
    } else if text_le(s.last().0, e.0) {
        assert forall|i: int| 0 <= i < s.len() + 1 implies #[trigger] r[i] == e || s.contains(
            r[i],
        ) by {
            if i < s.len() {
                assert(r[i] == s[i]);
            }
        }
    } else {
        let d = s.drop_last();
        let r1 = insert_by_key(d, e);
        lemma_insert_facts(d, e);
        assert(r == r1.push(s.last()));
        assert forall|i: int| 0 <= i < s.len() + 1 implies #[trigger] r[i] == e || s.contains(
            r[i],
        ) by {
            if i < s.len() {
                assert(r[i] == r1[i]);
                if r1[i] != e {
                    let k = choose|k: int| 0 <= k < d.len() && d[k] == r1[i];
                    assert(s[k] == r1[i]);
                }
            } else {
                assert(r[i] == s[s.len() - 1]);
            }
        }
        if keys_ascending(s) {
            assert(keys_ascending(d)) by {
                assert forall|i: int| 0 <= i < d.len() - 1 implies text_le(
                    #[trigger] d[i].0,
                    d[i + 1].0,
                ) by {
                    assert(text_le(s[i].0, s[i + 1].0));
                }
            }
            lemma_text_le_total(s.last().0, e.0);
            if r1.last() != e {
                assert(text_le(s[s.len() - 2].0, s[s.len() - 1].0));
            }
            assert forall|i: int| 0 <= i < r.len() - 1 implies text_le(
                #[trigger] r[i].0,
                r[i + 1].0,
            ) by {
                if i < r1.len() - 1 {
                    assert(r[i] == r1[i] && r[i + 1] == r1[i + 1]);
                }
            }
        }
    }
}

/// The sort keeps the length and takes every entry from its input; its keys
/// ascend; and it leaves entries whose keys already ascend as they are.
pub proof fn lemma_sort_facts<T>(s: Seq<(Seq<char>, T)>)
    ensures
        sort_by_key(s).len() == s.len(),
        forall|i: int| 0 <= i < s.len() ==> s.contains(#[trigger] sort_by_key(s)[i]),
        keys_ascending(sort_by_key(s)),
        keys_ascending(s) ==> sort_by_key(s) == s,
    decreases s.len(),
{
    if s.len() > 0 {
        let d = s.drop_last();
        lemma_sort_facts(d);
        let sd = sort_by_key(d);
        lemma_insert_facts(sd, s.last());
        let r = sort_by_key(s);
        assert forall|i: int| 0 <= i < s.len() implies s.contains(#[trigger] r[i]) by {
            if r[i] != s.last() {
                let k = choose|k: int| 0 <= k < sd.len() && sd[k] == r[i];
                let m = choose|m: int| 0 <= m < d.len() && d[m] == sd[k];
                assert(s[m] == r[i]);
            } else {
                assert(s[s.len() - 1] == r[i]);
            }
        }
        if keys_ascending(s) {
            assert(keys_ascending(d)) by {
                assert forall|i: int| 0 <= i < d.len() - 1 implies text_le(
                    #[trigger] d[i].0,
                    d[i + 1].0,
                ) by {
                    assert(text_le(s[i].0, s[i + 1].0));
                }
            }
            if d.len() > 0 {
                assert(text_le(s[s.len() - 2].0, s[s.len() - 1].0));
            }
            assert(d.push(s.last()) =~= s);
        }
    }
}

/// Inserting adds exactly the new entry.
pub proof fn lemma_insert_multiset<T>(s: Seq<(Seq<char>, T)>, e: (Seq<char>, T))
    ensures
        insert_by_key(s, e).to_multiset() == s.to_multiset().insert(e),
    decreases s.len(),
{
    broadcast use vstd::seq_lib::to_multiset_build;

    let r = insert_by_key(s, e);
    if s.len() == 0 {
        assert(r =~= Seq::<(Seq<char>, T)>::empty().push(e));
        assert(s =~= Seq::<(Seq<char>, T)>::empty());
    } else if !text_le(s.last().0, e.0) {
        let d = s.drop_last();
        lemma_insert_multiset(d, e);
        assert(d.push(s.last()) =~= s);
        assert(r.to_multiset() =~= s.to_multiset().insert(e));
    }
}

/// Inserting puts the new entry after every entry with its key.
pub proof fn lemma_insert_with_key<T>(s: Seq<(Seq<char>, T)>, e: (Seq<char>, T), k: Seq<char>)
    ensures
        with_key(insert_by_key(s, e), k) == if e.0 == k {
            with_key(s, k).push(e)
        } else {
            with_key(s, k)
        },
    decreases s.len(),
{
    let r = insert_by_key(s, e);
    if s.len() == 0 {
        assert(r.drop_last() =~= s);
    } else if text_le(s.last().0, e.0) {
        assert(r.drop_last() =~= s);
    } else {
        let d = s.drop_last();
        let r1 = insert_by_key(d, e);
        lemma_insert_with_key(d, e, k);
        assert(r.drop_last() =~= r1);
        if s.last().0 == k {
            lemma_text_le_refl(k);
        }
    }
}

/// The sort is stable: the entries with any one key keep their order.
pub proof fn lemma_sort_with_key<T>(s: Seq<(Seq<char>, T)>, k: Seq<char>)
    ensures
        with_key(sort_by_key(s), k) == with_key(s, k),
    decreases s.len(),
{
    if s.len() > 0 {
        let d = s.drop_last();
        lemma_sort_with_key(d, k);
        lemma_insert_with_key(sort_by_key(d), s.last(), k);
    }
}

/// The sort neither adds nor drops an entry.
pub proof fn lemma_sort_multiset<T>(s: Seq<(Seq<char>, T)>)
    ensures
        sort_by_key(s).to_multiset() == s.to_multiset(),
    decreases s.len(),
{
    broadcast use vstd::seq_lib::to_multiset_build;

    if s.len() == 0 {
        assert(sort_by_key(s).to_multiset() =~= s.to_multiset());
    } else {
        let d = s.drop_last();
        lemma_sort_multiset(d);
        lemma_insert_multiset(sort_by_key(d), s.last());
        assert(d.push(s.last()) =~= s);
    }
}

/// The entries behind a string sort: each keyed by the lower-case form of
/// its string, and taken from the input.
pub proof fn lemma_sort_strings_facts(xs: Seq<JsonTree>)
    requires
        all_strings(xs),
    ensures
        sort_strings(xs).len() == xs.len(),
        all_strings(sort_strings(xs)),
        lower_keyed(sort_strings(xs)) == sort_by_key(lower_keyed(xs)),
        keys_ascending(lower_keyed(sort_strings(xs))),
        forall|i: int| 0 <= i < xs.len() ==> xs.contains(#[trigger] sort_strings(xs)[i]),
{
    let ks = lower_keyed(xs);
    let sorted = sort_by_key(ks);
    lemma_sort_facts(ks);
    let ys = sort_strings(xs);
    assert forall|i: int| 0 <= i < sorted.len() implies #[trigger] sorted[i].0 == lower_of(
        str_text(sorted[i].1),
    ) && sorted[i].1 is Str && xs.contains(sorted[i].1) by {
        let k = choose|k: int| 0 <= k < ks.len() && ks[k] == sorted[i];
        assert(xs[k] is Str);
    }
    assert(lower_keyed(ys) =~= sorted);
    assert forall|i: int| 0 <= i < ys.len() implies #[trigger] ys[i] is Str by {
        assert(ys[i] == sorted[i].1);
    }
    assert forall|i: int| 0 <= i < xs.len() implies xs.contains(#[trigger] ys[i]) by {
        assert(ys[i] == sorted[i].1);
    }
}

/// The value sorter keeps keys ordered and numbers plain, and keeps each
/// node's kind.
pub proof fn lemma_sort_value_keeps(t: JsonTree, sort_arrays: bool)
    ensures
        ordered(t) ==> ordered(sort_value(t, sort_arrays)),
        plain_numbers(t) ==> plain_numbers(sort_value(t, sort_arrays)),
        (sort_value(t, sort_arrays) is Str) == (t is Str),
    decreases t,
{
    if sort_arrays {
        match t {
            JsonTree::Array(xs) => {
                if all_strings(xs) {
                    lemma_sort_strings_facts(xs);
                } else {
                    let ys = sort_items(xs, sort_arrays);
                    assert forall|i: int| 0 <= i < ys.len() implies (ordered(t) ==> ordered(
                        #[trigger] ys[i],
                    )) && (plain_numbers(t) ==> plain_numbers(ys[i])) by {
                        lemma_sort_value_keeps(xs[i], sort_arrays);
                    }
                }
            },
            JsonTree::Object(es) => {
                let fs = sort_entries(es, sort_arrays);
                assert forall|i: int| 0 <= i < fs.len() implies (ordered(t) ==> ordered(
                    #[trigger] fs[i].1,
                )) && (plain_numbers(t) ==> plain_numbers(fs[i].1)) by {
                    lemma_sort_value_keeps(es[i].1, sort_arrays);
                }
                if ordered(t) {
                    assert forall|i: int| 0 <= i < fs.len() - 1 implies text_le(
                        #[trigger] fs[i].0,
                        fs[i + 1].0,
                    ) && fs[i].0 != fs[i + 1].0 by {
                        assert(text_le(es[i].0, es[i + 1].0) && es[i].0 != es[i + 1].0);
                    }
                }
            },
            _ => {},
        }
    }
}

/// Sorting a second time changes nothing.
pub proof fn lemma_sort_value_idempotent(t: JsonTree, sort_arrays: bool)
    ensures
        sort_value(sort_value(t, sort_arrays), sort_arrays) == sort_value(t, sort_arrays),
    decreases t,
{
    if sort_arrays {
        match t {
            JsonTree::Array(xs) => {
                if all_strings(xs) {
                    let ys = sort_strings(xs);
                    lemma_sort_strings_facts(xs);
                    lemma_sort_facts(lower_keyed(ys));
                    assert(sort_strings(ys) =~= ys);
                } else {
                    let ys = sort_items(xs, sort_arrays);
                    let k = choose|k: int| 0 <= k < xs.len() && !(xs[k] is Str);
                    lemma_sort_value_keeps(xs[k], sort_arrays);
                    assert(!(ys[k] is Str));
                    assert forall|i: int| 0 <= i < ys.len() implies #[trigger] sort_items(
                        ys,
                        sort_arrays,
                    )[i] == ys[i] by {
                        lemma_sort_value_idempotent(xs[i], sort_arrays);
                    }
                    assert(sort_items(ys, sort_arrays) =~= ys);
                }
            },
            JsonTree::Object(es) => {
                let fs = sort_entries(es, sort_arrays);
                assert forall|i: int| 0 <= i < fs.len() implies #[trigger] sort_entries(
                    fs,
                    sort_arrays,
                )[i] == fs[i] by {
                    lemma_sort_value_idempotent(es[i].1, sort_arrays);
                }
                assert(sort_entries(fs, sort_arrays) =~= fs);
            },
            _ => {},
        }
    }
}

/// The canonical form keeps keys ordered and numbers plain, and is its own
/// canonical form.
pub proof fn lemma_canonical_facts(t: JsonTree, sort_arrays: bool)
    ensures
        ordered(t) ==> ordered(canonical(t, sort_arrays)),
        plain_numbers(t) ==> plain_numbers(canonical(t, sort_arrays)),
        canonical(canonical(t, sort_arrays), sort_arrays) == canonical(t, sort_arrays),
{
    lemma_sort_value_keeps(t, sort_arrays);
    lemma_sort_value_idempotent(t, sort_arrays);
}

/// Text without CR or LF has no line break to break the rule.
pub proof fn lemma_breaks_free(a: Seq<char>, nl: Seq<char>)
    requires
        breaks_free(a),
    ensures
        breaks_are(a, nl),
    decreases a.len(),
{
    if a.len() > 0 {
        lemma_breaks_free(a.drop_first(), nl);
    }
}

/// Two texts whose breaks are all `nl` give such a text when joined.
pub proof fn lemma_breaks_concat(a: Seq<char>, b: Seq<char>, nl: Seq<char>)
    requires
        breaks_are(a, nl),
        breaks_are(b, nl),
    ensures
        breaks_are(a + b, nl),
    decreases a.len(),
{
    if a.len() == 0 {
        assert(a + b =~= b);
    } else if a[0] != '\n' && a[0] != '\r' {
        assert((a + b).drop_first() =~= a.drop_first() + b);
        lemma_breaks_concat(a.drop_first(), b, nl);
    } else {
        let n = nl.len() as int;
        assert((a + b).take(n) =~= a.take(n));
        assert((a + b).skip(n) =~= a.skip(n) + b);
        lemma_breaks_concat(a.skip(n), b, nl);
    }
}

/// A concrete newline consists of its own line break.
pub proof fn lemma_breaks_newline(le: LineEnding)
    requires
        is_concrete(le),
    ensures
        breaks_are(newline_of(le), newline_of(le)),
{
    let nl = newline_of(le);
    assert(nl.take(nl.len() as int) =~= nl);
    assert(breaks_are(nl.skip(nl.len() as int), nl));
}

/// A JSON string literal holds no raw CR or LF.
pub proof fn lemma_quoted_breaks_free(s: Seq<char>)
    ensures
        breaks_free(json_quoted(s)),
    decreases s.len(),
{
    if s.len() > 0 {
        lemma_quoted_breaks_free(s.drop_last());
        let c = s.last();
        let e = escape_char(c);
        assert(breaks_free(e));
    }
    let q = json_quoted(s);
    assert(breaks_free(escaped(s))) by {
        if s.len() > 0 {
            let inner = escaped(s.drop_last());
            assert(breaks_free(json_quoted(s.drop_last())));
            assert forall|i: int| 0 <= i < inner.len() implies inner[i] != '\n' && inner[i]
                != '\r' by {
                assert(inner[i] == json_quoted(s.drop_last())[i + 1]);
            }
        }
    }
}

/// Parts whose breaks are all `nl`, joined by a separator whose breaks are
/// too, give such a text.
pub proof fn lemma_join_breaks(parts: Seq<Seq<char>>, sep: Seq<char>, nl: Seq<char>)
    requires
        forall|i: int| 0 <= i < parts.len() ==> breaks_are(#[trigger] parts[i], nl),
        breaks_are(sep, nl),
    ensures
        breaks_are(join(parts, sep), nl),
    decreases parts.len(),
{
    if parts.len() > 1 {
        let d = parts.drop_last();
        lemma_join_breaks(d, sep, nl);
        lemma_breaks_concat(join(d, sep), sep, nl);
        lemma_breaks_concat(join(d, sep) + sep, parts.last(), nl);
    }
}

/// The indented text of a document with plain numbers breaks lines only
/// with `nl`.
pub proof fn lemma_render_breaks(t: JsonTree, unit: Seq<char>, le: LineEnding, ind: Seq<char>)
    requires
        is_concrete(le),
        breaks_free(unit),
        breaks_free(ind),
        plain_numbers(t),
    ensures
        breaks_are(render(t, unit, newline_of(le), ind), newline_of(le)),
    decreases t,
{
    let nl = newline_of(le);
    let child = ind + unit;
    lemma_breaks_newline(le);
    assert(breaks_free(child));
    let sep = seq![','] + nl;
    assert(breaks_are(sep, nl)) by {
        assert(sep.drop_first() =~= nl);
    }
    lemma_breaks_free(ind, nl);
    lemma_breaks_free(child, nl);
    match t {
        JsonTree::Null => {
            lemma_breaks_free(seq!['n', 'u', 'l', 'l'], nl);
        },
        JsonTree::Bool(b) => {
            lemma_breaks_free(seq!['t', 'r', 'u', 'e'], nl);
            lemma_breaks_free(seq!['f', 'a', 'l', 's', 'e'], nl);
        },
        JsonTree::Number(n) => {
            lemma_breaks_free(n, nl);
        },
        JsonTree::Str(s) => {
            lemma_quoted_breaks_free(s);
            lemma_breaks_free(json_quoted(s), nl);
        },
        JsonTree::Array(xs) => {
            if xs.len() == 0 {
                lemma_breaks_free(seq!['[', ']'], nl);
            } else {
                let parts = render_items(xs, unit, nl, child);
                assert forall|i: int| 0 <= i < parts.len() implies breaks_are(
                    #[trigger] parts[i],
                    nl,
                ) by {
                    lemma_render_breaks(xs[i], unit, le, child);
                    lemma_breaks_concat(child, render(xs[i], unit, nl, child), nl);
                }
                lemma_join_breaks(parts, sep, nl);
                let open = seq!['['];
                let close = seq![']'];
                lemma_breaks_free(open, nl);
                lemma_breaks_free(close, nl);
                let j = join(parts, sep);
                lemma_breaks_concat(open, nl, nl);
                lemma_breaks_concat(open + nl, j, nl);
                lemma_breaks_concat(open + nl + j, nl, nl);
                lemma_breaks_concat(open + nl + j + nl, ind, nl);
                lemma_breaks_concat(open + nl + j + nl + ind, close, nl);
            }
        },
        JsonTree::Object(es) => {
            if es.len() == 0 {
                lemma_breaks_free(seq!['{', '}'], nl);
            } else {
                let parts = render_entries(es, unit, nl, child);
                assert forall|i: int| 0 <= i < parts.len() implies breaks_are(
                    #[trigger] parts[i],
                    nl,
                ) by {
                    lemma_render_breaks(es[i].1, unit, le, child);
                    let q = json_quoted(es[i].0);
                    lemma_quoted_breaks_free(es[i].0);
                    lemma_breaks_free(q, nl);
                    lemma_breaks_free(seq![':', ' '], nl);
                    lemma_breaks_concat(child, q, nl);
                    lemma_breaks_concat(child + q, seq![':', ' '], nl);
                    lemma_breaks_concat(
                        child + q + seq![':', ' '],
                        render(es[i].1, unit, nl, child),
                        nl,
                    );
                }
                lemma_join_breaks(parts, sep, nl);
                let open = seq!['{'];
                let close = seq!['}'];
                lemma_breaks_free(open, nl);
                lemma_breaks_free(close, nl);
                let j = join(parts, sep);
                lemma_breaks_concat(open, nl, nl);
                lemma_breaks_concat(open + nl, j, nl);
                lemma_breaks_concat(open + nl + j, nl, nl);
                lemma_breaks_concat(open + nl + j + nl, ind, nl);
                lemma_breaks_concat(open + nl + j + nl + ind, close, nl);
            }
        },
    }
}

/// Breaks that are all CR leave no LF; breaks that are all LF leave no CR.
pub proof fn lemma_breaks_exclude(s: Seq<char>, le: LineEnding)
    requires
        is_concrete(le),
        breaks_are(s, newline_of(le)),
    ensures
        le == LineEnding::Cr ==> forall|i: int| 0 <= i < s.len() ==> s[i] != '\n',
        le == LineEnding::Lf ==> forall|i: int| 0 <= i < s.len() ==> s[i] != '\r',
    decreases s.len(),
{
    let nl = newline_of(le);
    if s.len() > 0 {
        let n: int = if s[0] != '\n' && s[0] != '\r' {
            1
        } else {
            nl.len() as int
        };
        if s[0] == '\n' || s[0] == '\r' {
            assert(s.take(n) == nl);
            assert(s[0] == s.take(n)[0]);
        }
        lemma_breaks_exclude(s.skip(n), le);
        assert forall|i: int| 0 <= i < s.len() implies (le == LineEnding::Cr ==> s[i] != '\n') && (
        le == LineEnding::Lf ==> s[i] != '\r') by {
            if i >= n {
                assert(s[i] == s.skip(n)[i - n]);
            } else if s[0] == '\n' || s[0] == '\r' {
                assert(s[i] == s.take(n)[i]);
            }
        }
    }
}

/// A text whose breaks are all one concrete newline, and which holds that
/// newline, is detected as using it.
pub proof fn lemma_detected(s: Seq<char>, le: LineEnding)
    requires
        is_concrete(le),
        breaks_are(s, newline_of(le)),
        occurs_in(s, newline_of(le)),
    ensures
        detected(s) == le,
{
    lemma_breaks_exclude(s, le);
    let crlf = seq!['\r', '\n'];
    if le == LineEnding::Lf || le == LineEnding::Cr {
        assert(!occurs_in(s, crlf)) by {
            if occurs_in(s, crlf) {
                let i = choose|i: int| occurs_at(s, crlf, i);
                assert(s[i] == s.subrange(i, i + 2)[0]);
                assert(s[i + 1] == s.subrange(i, i + 2)[1]);
            }
        }
    }
    if le == LineEnding::Cr {
        assert(!occurs_in(s, seq!['\n'])) by {
            if occurs_in(s, seq!['\n']) {
                let i = choose|i: int| occurs_at(s, seq!['\n'], i);
                assert(s[i] == s.subrange(i, i + 1)[0]);
            }
        }
    }
}

/// The text written for a document with plain numbers breaks lines only
/// with its newline, is detected as using it, and with CR holds no LF.
pub proof fn lemma_formatted_facts(t: JsonTree, unit: Seq<char>, le: LineEnding)
    requires
        is_concrete(le),
        breaks_free(unit),
        plain_numbers(t),
    ensures
        breaks_are(formatted(t, unit, le), newline_of(le)),
        detected(formatted(t, unit, le)) == le,
        le == LineEnding::Cr ==> forall|i: int|
            0 <= i < formatted(t, unit, le).len() ==> formatted(t, unit, le)[i] != '\n',
{
    let nl = newline_of(le);
    let r = render(t, unit, nl, seq![]);
    let f = formatted(t, unit, le);
    lemma_render_breaks(t, unit, le, seq![]);
    lemma_breaks_newline(le);
    lemma_breaks_concat(r, nl, nl);
    assert(f.subrange(r.len() as int, r.len() + nl.len() as int) =~= nl);
    assert(occurs_at(f, nl, r.len() as int));
    lemma_detected(f, le);
    lemma_breaks_exclude(f, le);
}

/// An indentation unit holds no line break.
pub proof fn lemma_indent_breaks_free(use_spaces: bool, indents: nat)
    ensures
        breaks_free(indent_unit(use_spaces, indents)),
{
}

/// Replacing LF by CR works piece by piece.
pub proof fn lemma_lf_to_cr_concat(a: Seq<char>, b: Seq<char>)
    ensures
        lf_to_cr(a + b) == lf_to_cr(a) + lf_to_cr(b),
{
    assert(lf_to_cr(a + b) =~= lf_to_cr(a) + lf_to_cr(b));
}

/// Text without line breaks has no LF to replace.
pub proof fn lemma_lf_to_cr_plain(a: Seq<char>)
    requires
        breaks_free(a),
    ensures
        lf_to_cr(a) == a,
{
    assert(lf_to_cr(a) =~= a);
}

/// Joining commutes with replacing LF by CR.
pub proof fn lemma_lf_to_cr_join(parts: Seq<Seq<char>>, crs: Seq<Seq<char>>, sep: Seq<char>)
    requires
        crs.len() == parts.len(),
        forall|i: int| 0 <= i < parts.len() ==> #[trigger] crs[i] == lf_to_cr(parts[i]),
    ensures
        join(crs, lf_to_cr(sep)) == lf_to_cr(join(parts, sep)),
    decreases parts.len(),
{
    if parts.len() == 0 {
        assert(lf_to_cr(seq![]) =~= seq![]);
    } else if parts.len() > 1 {
        let d = parts.drop_last();
        lemma_lf_to_cr_join(d, crs.drop_last(), sep);
        lemma_lf_to_cr_concat(join(d, sep), sep);
        lemma_lf_to_cr_concat(join(d, sep) + sep, parts.last());
    }
}

/// The indented text with CR newlines is the one with LF newlines, each LF
/// replaced by CR.
pub proof fn lemma_render_cr(t: JsonTree, unit: Seq<char>, ind: Seq<char>)
    requires
        breaks_free(unit),
        breaks_free(ind),
        plain_numbers(t),
    ensures
        render(t, unit, seq!['\r'], ind) == lf_to_cr(render(t, unit, seq!['\n'], ind)),
    decreases t,
{
    let cr = seq!['\r'];
    let lf = seq!['\n'];
    let child = ind + unit;
    assert(lf_to_cr(lf) =~= cr);
    assert(breaks_free(child));
    lemma_lf_to_cr_plain(ind);
    lemma_lf_to_cr_plain(child);
    let sep = seq![','] + lf;
    assert(lf_to_cr(sep) =~= seq![','] + cr);
    match t {
        JsonTree::Null => {
            lemma_lf_to_cr_plain(seq!['n', 'u', 'l', 'l']);
        },
        JsonTree::Bool(b) => {
            lemma_lf_to_cr_plain(seq!['t', 'r', 'u', 'e']);
            lemma_lf_to_cr_plain(seq!['f', 'a', 'l', 's', 'e']);
        },
        JsonTree::Number(n) => {
            lemma_lf_to_cr_plain(n);
        },
        JsonTree::Str(s) => {
            lemma_quoted_breaks_free(s);
            lemma_lf_to_cr_plain(json_quoted(s));
        },
        JsonTree::Array(xs) => {
            if xs.len() == 0 {
                lemma_lf_to_cr_plain(seq!['[', ']']);
            } else {
                let pl = render_items(xs, unit, lf, child);
                let pc = render_items(xs, unit, cr, child);
                assert forall|i: int| 0 <= i < pl.len() implies #[trigger] pc[i] == lf_to_cr(pl[i]) by {
                    lemma_render_cr(xs[i], unit, child);
                    lemma_lf_to_cr_concat(child, render(xs[i], unit, lf, child));
                }
                lemma_lf_to_cr_join(pl, pc, sep);
                let j = join(pl, sep);
                let open = seq!['['];
                let close = seq![']'];
                lemma_lf_to_cr_plain(open);
                lemma_lf_to_cr_plain(close);
                lemma_lf_to_cr_concat(open, lf);
                lemma_lf_to_cr_concat(open + lf, j);
                lemma_lf_to_cr_concat(open + lf + j, lf);
                lemma_lf_to_cr_concat(open + lf + j + lf, ind);
                lemma_lf_to_cr_concat(open + lf + j + lf + ind, close);
            }
        },
        JsonTree::Object(es) => {
            if es.len() == 0 {
                lemma_lf_to_cr_plain(seq!['{', '}']);
            } else {
                let pl = render_entries(es, unit, lf, child);
                let pc = render_entries(es, unit, cr, child);
                assert forall|i: int| 0 <= i < pl.len() implies #[trigger] pc[i] == lf_to_cr(pl[i]) by {
                    lemma_render_cr(es[i].1, unit, child);
                    let q = json_quoted(es[i].0);
                    lemma_quoted_breaks_free(es[i].0);
                    lemma_lf_to_cr_plain(q);
                    lemma_lf_to_cr_plain(seq![':', ' ']);
                    lemma_lf_to_cr_concat(child, q);
                    lemma_lf_to_cr_concat(child + q, seq![':', ' ']);
                    lemma_lf_to_cr_concat(child + q + seq![':', ' '], render(es[i].1, unit, lf, child));
                }
                lemma_lf_to_cr_join(pl, pc, sep);
                let j = join(pl, sep);
                let open = seq!['{'];
                let close = seq!['}'];
                lemma_lf_to_cr_plain(open);
                lemma_lf_to_cr_plain(close);
                lemma_lf_to_cr_concat(open, lf);
                lemma_lf_to_cr_concat(open + lf, j);
                lemma_lf_to_cr_concat(open + lf + j, lf);
                lemma_lf_to_cr_concat(open + lf + j + lf, ind);
                lemma_lf_to_cr_concat(open + lf + j + lf + ind, close);
            }
        },
    }
}

} // verus!
