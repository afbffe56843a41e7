use vstd::prelude::*;

use crate::codec::json_parsed;
use crate::lemmas::{
    lemma_canonical_facts, lemma_formatted_facts, lemma_indent_breaks_free, lemma_lf_to_cr_concat,
    lemma_render_cr, lemma_sort_multiset, lemma_sort_strings_facts, lemma_sort_with_key,
};
use crate::lines::{breaks_are, is_concrete, lf_to_cr, resolved, LineEnding};
use crate::render::render;
use crate::sort::{formatted, indent_unit, sorted_text, JsonError};
use crate::text::occurs_in;
use crate::tree::{
    all_strings, canonical, keys_ascending, lower_keyed, ordered, plain_numbers, sort_strings,
    sort_value, well_formed, with_key, JsonTree,
};

verus! {

/// Canonicalizing a canonical document changes nothing.
pub proof fn law_canonical_idempotent(t: JsonTree, sort_arrays: bool)
    ensures
        canonical(canonical(t, sort_arrays), sort_arrays) == canonical(t, sort_arrays),
{
    lemma_canonical_facts(t, sort_arrays);
}

/// Sorting the text that sorting wrote gives that same text, whenever
/// reading that text back yields the canonical document it was written
/// from: the canonical form is stable, and the newline written is the one
/// found again.
pub proof fn law_sort_idempotent(
    input: Seq<char>,
    use_spaces: bool,
    sort_arrays: bool,
    line_ending: LineEnding,
    indents: nat,
    host: LineEnding,
    out: Seq<char>,
)
    requires
        is_concrete(host),
        sorted_text(input, use_spaces, sort_arrays, line_ending, indents, host) == Ok::<
            Seq<char>,
            JsonError,
        >(out),
        json_parsed(input) matches Some(t) && well_formed(t) && json_parsed(out) == Some(
            canonical(t, sort_arrays),
        ),
    ensures
        sorted_text(out, use_spaces, sort_arrays, line_ending, indents, host) == Ok::<
            Seq<char>,
            JsonError,
        >(out),
{
    let t = json_parsed(input)->0;
    let c = canonical(t, sort_arrays);
    let unit = indent_unit(use_spaces, indents);
    let le = resolved(line_ending, input, host);
    lemma_canonical_facts(t, sort_arrays);
    lemma_indent_breaks_free(use_spaces, indents);
    lemma_formatted_facts(c, unit, le);
    assert(out == formatted(c, unit, le));
    assert(resolved(line_ending, out, host) == le);
}

/// In every document that sorting writes, each object holds each key once,
/// in strictly ascending order: parsed documents are well formed (see the
/// `sort_json_string` contract), and sorting keeps that.
pub proof fn law_keys_ascending(t: JsonTree, sort_arrays: bool)
    requires
        well_formed(t),
    ensures
        ordered(canonical(t, sort_arrays)),
{
    lemma_canonical_facts(t, sort_arrays);
}

/// Arrays are reordered only when arrays are to be sorted and hold strings
/// alone; then they are ordered by the lower-case form of their strings,
/// with no string added or dropped, and strings with one lower-case form
/// keep their order (the sort is stable). Any other array keeps each element in
/// its place, and without array sorting nothing below an array is touched.
pub proof fn law_array_sort_gating(xs: Seq<JsonTree>, sort_arrays: bool)
    ensures
        !sort_arrays ==> sort_value(JsonTree::Array(xs), sort_arrays) == JsonTree::Array(xs),
        sort_arrays && !all_strings(xs) ==> (sort_value(JsonTree::Array(xs), sort_arrays) matches JsonTree::Array(ys)
            && ys.len() == xs.len() && forall|i: int|
            0 <= i < xs.len() ==> #[trigger] ys[i] == sort_value(xs[i], sort_arrays)),
        sort_arrays && all_strings(xs) ==> (sort_value(JsonTree::Array(xs), sort_arrays) matches JsonTree::Array(ys)
            && keys_ascending(lower_keyed(ys)) && lower_keyed(ys).to_multiset() == lower_keyed(
            xs,
        ).to_multiset() && forall|k: Seq<char>|
            #[trigger] with_key(lower_keyed(ys), k) == with_key(lower_keyed(xs), k)),
{
    if sort_arrays && all_strings(xs) {
        lemma_sort_strings_facts(xs);
        lemma_sort_multiset(lower_keyed(xs));
        assert forall|k: Seq<char>| #[trigger] with_key(lower_keyed(sort_strings(xs)), k)
            == with_key(lower_keyed(xs), k) by {
            lemma_sort_with_key(lower_keyed(xs), k);
        }
    }
}

/// A text holding CRLF, sorted with `SystemDefault`, is written with CRLF
/// line breaks only; and a text that is already the CRLF rendering of its
/// own canonical form comes back unchanged.
pub proof fn law_crlf_kept(
    input: Seq<char>,
    use_spaces: bool,
    sort_arrays: bool,
    indents: nat,
    host: LineEnding,
)
    requires
        is_concrete(host),
        occurs_in(input, seq!['\r', '\n']),
        json_parsed(input) matches Some(t) ==> plain_numbers(t),
    ensures
        resolved(LineEnding::SystemDefault, input, host) == LineEnding::CrLf,
        sorted_text(input, use_spaces, sort_arrays, LineEnding::SystemDefault, indents, host) matches Ok(
            out,
        ) ==> breaks_are(out, seq!['\r', '\n']),
        json_parsed(input) matches Some(t) ==> (input == formatted(
            canonical(t, sort_arrays),
            indent_unit(use_spaces, indents),
            LineEnding::CrLf,
        ) ==> sorted_text(input, use_spaces, sort_arrays, LineEnding::SystemDefault, indents, host)
            == Ok::<Seq<char>, JsonError>(input)),
{
    if json_parsed(input) is Some {
        let t = json_parsed(input)->0;
        lemma_canonical_facts(t, sort_arrays);
        lemma_indent_breaks_free(use_spaces, indents);
        lemma_formatted_facts(
            canonical(t, sort_arrays),
            indent_unit(use_spaces, indents),
            LineEnding::CrLf,
        );
    }
}

/// Asking for CR writes CR line breaks only, whatever the text used: no LF
/// is left.
pub proof fn law_cr_override(
    input: Seq<char>,
    use_spaces: bool,
    sort_arrays: bool,
    indents: nat,
    host: LineEnding,
)
    requires
        is_concrete(host),
        json_parsed(input) matches Some(t) ==> plain_numbers(t),
    ensures
        sorted_text(input, use_spaces, sort_arrays, LineEnding::Cr, indents, host) matches Ok(out)
            ==> breaks_are(out, seq!['\r']) && forall|i: int| 0 <= i < out.len() ==> out[i] != '\n',
{
    if json_parsed(input) is Some {
        let t = json_parsed(input)->0;
        lemma_canonical_facts(t, sort_arrays);
        lemma_indent_breaks_free(use_spaces, indents);
        lemma_formatted_facts(
            canonical(t, sort_arrays),
            indent_unit(use_spaces, indents),
            LineEnding::Cr,
        );
    }
}

/// Asking for CR gives the text that asking for LF gives, with each LF
/// replaced by CR.
pub proof fn law_cr_is_lf_replaced(
    input: Seq<char>,
    use_spaces: bool,
    sort_arrays: bool,
    indents: nat,
    host: LineEnding,
)
    requires
        is_concrete(host),
        json_parsed(input) matches Some(t) ==> plain_numbers(t),
    ensures
        sorted_text(input, use_spaces, sort_arrays, LineEnding::Cr, indents, host) == match sorted_text(
            input,
            use_spaces,
            sort_arrays,
            LineEnding::Lf,
            indents,
            host,
        ) {
            Ok(out) => Ok::<Seq<char>, JsonError>(lf_to_cr(out)),
            Err(e) => Err(e),
        },
{
    if json_parsed(input) is Some {
        let t = json_parsed(input)->0;
        let c = canonical(t, sort_arrays);
        let unit = indent_unit(use_spaces, indents);
        lemma_canonical_facts(t, sort_arrays);
        lemma_indent_breaks_free(use_spaces, indents);
        lemma_render_cr(c, unit, seq![]);
        let r = render(c, unit, seq!['\n'], seq![]);
        lemma_lf_to_cr_concat(r, seq!['\n']);
        assert(lf_to_cr(seq!['\n']) =~= seq!['\r']);
    }
}

} // verus!
