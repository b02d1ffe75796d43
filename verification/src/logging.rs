//! How results are shown.

use crate::database::storage::{SearchResult, SearchResultView};
use vstd::prelude::*;
use vstd::string::StringExecFns;

verus! {

/// How search results are printed.
#[derive(Debug, PartialEq, Eq, Clone, Copy, Structural)]
pub struct SearchPrintOptions {
    /// As json, not as lines of text.
    pub json: bool,
    /// With the tags and attributes of each file, not only its path.
    pub info: bool,
}

/// The line that shows an attribute: key, colon, space, value.
pub open spec fn attribute_line(attribute: (Seq<char>, Seq<char>)) -> Seq<char> {
    attribute.0 + ": "@ + attribute.1
}

/// The line that shows a tag: a dash, a space, the tag.
pub open spec fn tag_line(tag: Seq<char>) -> Seq<char> {
    "- "@ + tag
}

/// The lines that describe a file: its path, a line for each attribute, a
/// line for each tag, and an empty line.
pub open spec fn description(file: SearchResultView) -> Seq<Seq<char>> {
    seq![file.path] + file.attributes.map_values(|a: (Seq<char>, Seq<char>)| attribute_line(a))
        + file.tags.map_values(|t: Seq<char>| tag_line(t)) + seq![Seq::<char>::empty()]
}

/// The lines that describe `result`: its path, then `key: value` for each
/// attribute, then `- tag` for each tag, then an empty line.
pub fn describe_result(result: &SearchResult) -> (lines: Vec<String>)
    ensures
        lines.deep_view() == description(result@),
{
    let ghost attribute_lines = result@.attributes.map_values(
        |a: (Seq<char>, Seq<char>)| attribute_line(a),
    );
    let ghost tag_lines = result@.tags.map_values(|t: Seq<char>| tag_line(t));
    let mut lines: Vec<String> = Vec::new();
    lines.push(result.path.clone());
    assert(lines.deep_view() =~= seq![result@.path] + attribute_lines.take(0));
    let mut i: usize = 0;
    while i < result.attributes.len()
        invariant
            i <= result.attributes.len(),
            attribute_lines == result@.attributes.map_values(
                |a: (Seq<char>, Seq<char>)| attribute_line(a),
            ),
            lines.deep_view() == seq![result@.path] + attribute_lines.take(i as int),
        decreases result.attributes.len() - i,
    {
        let ghost before = lines.deep_view();
        let mut line = result.attributes[i].0.clone();
        line.append(": ");
        line.append(result.attributes[i].1.as_str());
        lines.push(line);
        assert(lines.deep_view() =~= before.push(attribute_lines[i as int]));
        assert(before.push(attribute_lines[i as int]) =~= seq![result@.path]
            + attribute_lines.take(i + 1));
        i = i + 1;
    }
    assert(attribute_lines.take(result.attributes.len() as int) =~= attribute_lines);
    let ghost head = lines.deep_view();
    assert(lines.deep_view() =~= head + tag_lines.take(0));
    let mut k: usize = 0;
    while k < result.tags.len()
        invariant
            k <= result.tags.len(),
            tag_lines == result@.tags.map_values(|t: Seq<char>| tag_line(t)),
            lines.deep_view() == head + tag_lines.take(k as int),
        decreases result.tags.len() - k,
    {
        let ghost before = lines.deep_view();
        let mut line = "- ".to_owned();
        line.append(result.tags[k].as_str());
        lines.push(line);
        assert(lines.deep_view() =~= before.push(tag_lines[k as int]));
        assert(before.push(tag_lines[k as int]) =~= head + tag_lines.take(k + 1));
        k = k + 1;
    }
    assert(tag_lines.take(result.tags.len() as int) =~= tag_lines);
    let ghost body = lines.deep_view();
    lines.push(String::new());
    assert(lines.deep_view() =~= body.push(Seq::<char>::empty()));
    assert(body.push(Seq::<char>::empty()) =~= description(result@));
    lines
}

} // verus!
