use vstd::prelude::*;

use crate::codec::{json_parsed, parse_json};
use crate::json::{sort_json_value, Json};
use crate::lemmas::{lemma_canonical_facts, lemma_formatted_facts, lemma_indent_breaks_free};
use crate::lines::{
    breaks_are, detected, host_default, is_concrete, newline_of, resolved, LineEnding,
};
use crate::render::{render, write_json};
use crate::tree::{canonical, well_formed, JsonTree};

verus! {

/// Reason why a document could not be sorted.
#[derive(Debug, Clone, Copy, PartialEq, Eq, Structural)]
pub enum JsonError {
    NotFound,
    ReadError,
    ParseError,
    WriteError,
}

/// The indentation unit: `indents` spaces, or `indents` tabs.
pub open spec fn indent_unit(use_spaces: bool, indents: nat) -> Seq<char> {
    Seq::new(indents, |i: int| if use_spaces { ' ' } else { '\t' })
}

/// The text written for a document: its indented text, then one newline.
pub open spec fn formatted(t: JsonTree, unit: Seq<char>, le: LineEnding) -> Seq<char> {
    render(t, unit, newline_of(le), seq![]) + newline_of(le)
}

/// What sorting the text `input` yields, `host` being the host's newline
/// convention.
pub open spec fn sorted_text(
    input: Seq<char>,
    use_spaces: bool,
    sort_arrays: bool,
    line_ending: LineEnding,
    indents: nat,
    host: LineEnding,
) -> Result<Seq<char>, JsonError> {
    match json_parsed(input) {
        Some(t) => Ok(
            formatted(
                canonical(t, sort_arrays),
                indent_unit(use_spaces, indents),
                resolved(line_ending, input, host),
            ),
        ),
        None => Err(JsonError::ParseError),
    }
}

/// The characters of a text result.
pub open spec fn text_result(r: Result<String, JsonError>) -> Result<Seq<char>, JsonError> {
    match r {
        Ok(s) => Ok(s@),
        Err(e) => Err(e),
    }
}

/// The indentation unit as a string.
pub fn indent_string(use_spaces: bool, indents: usize) -> (r: String)
    ensures
        r@ == indent_unit(use_spaces, indents as nat),
{
    let piece = if use_spaces {
        " "
    } else {
        "\t"
    };
    proof {
        reveal_strlit(" ");
        reveal_strlit("\t");
    }
    let mut r = String::new();
    let mut i: usize = 0;
    while i < indents
        invariant
            i <= indents,
            piece@ == seq![if use_spaces { ' ' } else { '\t' }],
            r@ == indent_unit(use_spaces, i as nat),
        decreases indents - i,
    {
        r.append(piece);
        i = i + 1;
        assert(r@ =~= indent_unit(use_spaces, i as nat));
    }
    r
}

/// Serializes a document: its indented text with the given unit and
/// newline, then one newline.
pub fn serialize_json(json: &Json, use_spaces: bool, indents: usize, line_ending: LineEnding) -> (r:
    String)
    requires
        is_concrete(line_ending),
        well_formed(json@),
    ensures
        r@ == formatted(json@, indent_unit(use_spaces, indents as nat), line_ending),
{
    let unit = indent_string(use_spaces, indents);
    let nl = line_ending.as_str();
    let top = String::new();
    let mut out = String::new();
    write_json(json, unit.as_str(), nl, &top, &mut out);
    out.append(nl);
    out
}

/// Canonicalizes a parsed document and serializes it with a concrete line
/// ending.
pub fn format_tree(
    tree: Json,
    use_spaces: bool,
    sort_arrays: bool,
    line_ending: LineEnding,
    indents: usize,
) -> (r: String)
    requires
        is_concrete(line_ending),
        well_formed(tree@),
    ensures
        r@ == formatted(
            canonical(tree@, sort_arrays),
            indent_unit(use_spaces, indents as nat),
            line_ending,
        ),
{
    let mut json = tree;
    sort_json_value(&mut json, sort_arrays);
    proof {
        lemma_canonical_facts(tree@, sort_arrays);
    }
    serialize_json(&json, use_spaces, indents, line_ending)
}

/// Sorts a JSON text, `host` standing for the host's newline convention
/// where neither the request nor the text names one.
pub fn sort_json_string_with(
    input: &str,
    use_spaces: bool,
    sort_arrays: bool,
    line_ending: &LineEnding,
    indents: usize,
    host: LineEnding,
) -> (r: Result<String, JsonError>)
    requires
        is_concrete(host),
    ensures
        text_result(r) == sorted_text(
            input@,
            use_spaces,
            sort_arrays,
            *line_ending,
            indents as nat,
            host,
        ),
        r is Ok ==> (json_parsed(input@) matches Some(t) && well_formed(t)),
        r matches Ok(s) ==> breaks_are(s@, newline_of(resolved(*line_ending, input@, host))),
        r matches Ok(s) ==> (*line_ending == LineEnding::Cr ==> forall|i: int|
            0 <= i < s@.len() ==> s@[i] != '\n'),
{
    let tree = match parse_json(input) {
        Some(t) => t,
        None => {
            return Err(JsonError::ParseError);
        },
    };
    let desired = line_ending.resolve(input, host);
    proof {
        lemma_canonical_facts(tree@, sort_arrays);
        lemma_indent_breaks_free(use_spaces, indents as nat);
        lemma_formatted_facts(
            canonical(tree@, sort_arrays),
            indent_unit(use_spaces, indents as nat),
            desired,
        );
    }
    Ok(format_tree(tree, use_spaces, sort_arrays, desired, indents))
}

/// Sorts a JSON text: parses it, orders its keys (and, with `sort_arrays`,
/// its string arrays), and writes it again indented by `indents` spaces or
/// tabs, with the requested line ending, or the text's own, or the host's.
pub fn sort_json_string(
    input: &str,
    use_spaces: bool,
    sort_arrays: bool,
    line_ending: &LineEnding,
    indents: usize,
) -> (r: Result<String, JsonError>)
    ensures
        text_result(r) == sorted_text(
            input@,
            use_spaces,
            sort_arrays,
            *line_ending,
            indents as nat,
            LineEnding::Lf,
        ) || text_result(r) == sorted_text(
            input@,
            use_spaces,
            sort_arrays,
            *line_ending,
            indents as nat,
            LineEnding::CrLf,
        ),
        r is Ok ==> (json_parsed(input@) matches Some(t) && well_formed(t)),
        is_concrete(*line_ending) || is_concrete(detected(input@)) ==> text_result(r)
            == sorted_text(
            input@,
            use_spaces,
            sort_arrays,
            *line_ending,
            indents as nat,
            LineEnding::Lf,
        ),
        r matches Ok(s) ==> (is_concrete(*line_ending) || is_concrete(detected(input@)) ==> breaks_are(
            s@,
            newline_of(resolved(*line_ending, input@, LineEnding::Lf)),
        )),
        r matches Ok(s) ==> (*line_ending == LineEnding::Cr ==> forall|i: int|
            0 <= i < s@.len() ==> s@[i] != '\n'),
{
    let host = host_default();
    sort_json_string_with(input, use_spaces, sort_arrays, line_ending, indents, host)
}

} // verus!
