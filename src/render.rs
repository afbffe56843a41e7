use vstd::prelude::*;

use crate::codec::{json_quoted, quote};
use crate::json::Json;
use crate::tree::JsonTree;

verus! {

broadcast use vstd::std_specs::vec::axiom_vec_index_decreases;

/// The parts laid end to end, with `sep` between neighbours.
pub open spec fn join(parts: Seq<Seq<char>>, sep: Seq<char>) -> Seq<char>
    decreases parts.len(),
{
    if parts.len() == 0 {
        seq![]
    } else if parts.len() == 1 {
        parts[0]
    } else {
        join(parts.drop_last(), sep) + sep + parts.last()
    }
}

/// The lines of an array's elements, each after the indentation `ind`.
pub open spec fn render_items(
    xs: Seq<JsonTree>,
    unit: Seq<char>,
    nl: Seq<char>,
    ind: Seq<char>,
) -> Seq<Seq<char>>
    decreases xs,
{
    Seq::new(
        xs.len(),
        |i: int|
            if 0 <= i < xs.len() {
                ind + render(xs[i], unit, nl, ind)
            } else {
                seq![]
            },
    )
}

/// The lines of an object's entries, each after the indentation `ind`.
pub open spec fn render_entries(
    es: Seq<(Seq<char>, JsonTree)>,
    unit: Seq<char>,
    nl: Seq<char>,
    ind: Seq<char>,
) -> Seq<Seq<char>>
    decreases es,
{
    Seq::new(
        es.len(),
        |i: int|
            if 0 <= i < es.len() {
                ind + json_quoted(es[i].0) + seq![':', ' '] + render(es[i].1, unit, nl, ind)
            } else {
                seq![]
            },
    )
}

/// The indented text of `t`, whose own lines start at indentation `ind`:
/// a non-empty array or object opens its bracket, puts each child on a line
/// of its own one `unit` deeper, separates children by a comma and `nl`, and
/// closes on a line at `ind`; empty ones are `[]` and `{}`.
pub open spec fn render(t: JsonTree, unit: Seq<char>, nl: Seq<char>, ind: Seq<char>) -> Seq<char>
    decreases t,
{
    match t {
        JsonTree::Null => seq!['n', 'u', 'l', 'l'],
        JsonTree::Bool(b) => if b {
            seq!['t', 'r', 'u', 'e']
        } else {
            seq!['f', 'a', 'l', 's', 'e']
        },
        JsonTree::Number(n) => n,
        JsonTree::Str(s) => json_quoted(s),
        JsonTree::Array(xs) => if xs.len() == 0 {
            seq!['[', ']']
        } else {
            seq!['['] + nl + join(render_items(xs, unit, nl, ind + unit), seq![','] + nl) + nl + ind
                + seq![']']
        },
        JsonTree::Object(es) => if es.len() == 0 {
            seq!['{', '}']
        } else {
            seq!['{'] + nl + join(render_entries(es, unit, nl, ind + unit), seq![','] + nl) + nl
                + ind + seq!['}']
        },
    }
}

proof fn lemma_join_push(parts: Seq<Seq<char>>, sep: Seq<char>, i: int)
    requires
        1 <= i < parts.len(),
    ensures
        join(parts.take(i + 1), sep) == join(parts.take(i), sep) + sep + parts[i],
{
    assert(parts.take(i + 1).drop_last() =~= parts.take(i));
}

fn append_literal(out: &mut String, lit: &str)
    ensures
        final(out)@ == old(out)@ + lit@,
{
    out.append(lit);
}

/// Appends the indented text of `j` (see `render`) to `out`.
pub fn write_json(j: &Json, unit: &str, nl: &str, ind: &String, out: &mut String)
    ensures
        final(out)@ == old(out)@ + render(j@, unit@, nl@, ind@),
    decreases j,
{
    proof {
        reveal_strlit("null");
        reveal_strlit("true");
        reveal_strlit("false");
        reveal_strlit("[]");
        reveal_strlit("{}");
        reveal_strlit("[");
        reveal_strlit("]");
        reveal_strlit("{");
        reveal_strlit("}");
        reveal_strlit(",");
        reveal_strlit(": ");
    }
    match j {
        Json::Null => {
            append_literal(out, "null");
            assert("null"@ =~= seq!['n', 'u', 'l', 'l']);
        },
        Json::Bool(b) => {
            if *b {
                append_literal(out, "true");
                assert("true"@ =~= seq!['t', 'r', 'u', 'e']);
            } else {
                append_literal(out, "false");
                assert("false"@ =~= seq!['f', 'a', 'l', 's', 'e']);
            }
        },
        Json::Number(n) => {
            out.append(n.as_str());
        },
        Json::Str(s) => {
            let q = quote(s.as_str());
            out.append(q.as_str());
        },
        Json::Array(xs) => {
            if xs.len() == 0 {
                append_literal(out, "[]");
                assert("[]"@ =~= seq!['[', ']']);
                return;
            }
            let ghost start = old(out)@;
            let ghost ts = j@->Array_0;
            let mut child = ind.clone();
            child.append(unit);
            let ghost parts = render_items(ts, unit@, nl@, child@);
            let ghost sep = seq![','] + nl@;
            append_literal(out, "[");
            append_literal(out, nl);
            let mut i: usize = 0;
            while i < xs.len()
                invariant
                    i <= xs.len(),
                    ts == j@->Array_0,
                    *j == Json::Array(*xs),
                    parts == render_items(ts, unit@, nl@, child@),
                    sep == seq![','] + nl@,
                    out@ == start + seq!['['] + nl@ + join(parts.take(i as int), sep),
                decreases xs.len() - i,
            {
                if i > 0 {
                    append_literal(out, ",");
                    append_literal(out, nl);
                }
                out.append(child.as_str());
                proof {
                    assert(decreases_to!(j => j->Array_0));
                    assert(decreases_to!(xs => xs[i as int]));
                }
                write_json(&xs[i], unit, nl, &child, out);
                proof {
                    assert(ts[i as int] == xs@[i as int]@);
                    assert(parts[i as int] == child@ + render(ts[i as int], unit@, nl@, child@));
                    reveal_strlit(",");
                    assert(","@ =~= seq![',']);
                    if i == 0 {
                        assert(parts.take(1) =~= seq![parts[0]]);
                    } else {
                        lemma_join_push(parts, sep, i as int);
                    }
                    assert(out@ =~= start + seq!['['] + nl@ + join(parts.take(i + 1), sep));
                }
                i = i + 1;
            }
            append_literal(out, nl);
            out.append(ind.as_str());
            append_literal(out, "]");
            proof {
                assert(parts.take(xs.len() as int) =~= parts);
            }
        },
        Json::Object(ms) => {
            if ms.len() == 0 {
                append_literal(out, "{}");
                assert("{}"@ =~= seq!['{', '}']);
                return;
            }
            let ghost start = old(out)@;
            let ghost es = j@->Object_0;
            let mut child = ind.clone();
            child.append(unit);
            let ghost parts = render_entries(es, unit@, nl@, child@);
            let ghost sep = seq![','] + nl@;
            append_literal(out, "{");
            append_literal(out, nl);
            let mut i: usize = 0;
            while i < ms.len()
                invariant
                    i <= ms.len(),
                    es == j@->Object_0,
                    *j == Json::Object(*ms),
                    parts == render_entries(es, unit@, nl@, child@),
                    sep == seq![','] + nl@,
                    out@ == start + seq!['{'] + nl@ + join(parts.take(i as int), sep),
                decreases ms.len() - i,
            {
                if i > 0 {
                    append_literal(out, ",");
                    append_literal(out, nl);
                }
                out.append(child.as_str());
                let q = quote(ms[i].key.as_str());
                out.append(q.as_str());
                append_literal(out, ": ");
                proof {
                    assert(decreases_to!(j => j->Object_0));
                    assert(decreases_to!(ms => ms[i as int]));
                    assert(decreases_to!(ms[i as int] => ms[i as int].value));
                }
                write_json(&ms[i].value, unit, nl, &child, out);
                proof {
                    assert(es[i as int] == (ms@[i as int].key@, ms@[i as int].value@));
                    reveal_strlit(": ");
                    assert(": "@ =~= seq![':', ' ']);
                    reveal_strlit(",");
                    assert(","@ =~= seq![',']);
                    if i == 0 {
                        assert(parts.take(1) =~= seq![parts[0]]);
                    } else {
                        lemma_join_push(parts, sep, i as int);
                    }
                    assert(out@ =~= start + seq!['{'] + nl@ + join(parts.take(i + 1), sep));
                }
                i = i + 1;
            }
            append_literal(out, nl);
            out.append(ind.as_str());
            append_literal(out, "}");
            proof {
                assert(parts.take(ms.len() as int) =~= parts);
            }
        },
    }
}

} // verus!
