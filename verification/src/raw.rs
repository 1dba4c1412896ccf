//! The raw section: the text that the plugins rewrote away, shown below a rewritten hover.
use vstd::prelude::*;

use crate::text::{blank, contains, contains_text, lines, lines_text, texts, trim, trim_text};

verus! {

/// How the proxy renders the raw (pre-transform) type text that it appends below a
/// pretty-printed hover.
///
/// This is a property of the wrapped language server's hover format, so the user
/// configures it per language server; it does not vary per plugin.
#[derive(Debug, Clone)]
pub struct RawConfig {
    /// Whether to append the raw types below the pretty output at all.
    pub enabled: bool,
    /// Header label for the section. Empty omits the header.
    pub label: String,
    /// With a language, the body stands in a fenced block of that language; without one it
    /// is plain text.
    pub fence: Option<String>,
    /// Whether a thematic break (`---`) precedes the section.
    pub separator: bool,
}

impl Default for RawConfig {
    fn default() -> (raw: Self)
        ensures
            !raw.enabled,
            raw.label@ == "Raw:"@,
            raw.fence is None,
            !raw.separator,
    {
        RawConfig { enabled: false, label: "Raw:".to_owned(), fence: None, separator: false }
    }
}

/// The list in one text, with `sep` between its members.
pub open spec fn joined(list: Seq<Seq<char>>, sep: Seq<char>) -> Seq<char>
    decreases list.len(),
{
    if list.len() == 0 {
        seq![]
    } else if list.len() == 1 {
        list[0]
    } else {
        joined(list.drop_last(), sep) + sep + list.last()
    }
}

/// A line that is not blank and no longer stands in the transformed text.
pub open spec fn rewritten_away(line: Seq<char>, transformed: Seq<char>) -> bool {
    trim(line).len() != 0 && !contains(transformed, trim(line))
}

/// The lines of the original that the plugins rewrote away, in their order.
pub open spec fn lost_lines(original: Seq<char>, transformed: Seq<char>) -> Seq<Seq<char>> {
    lines(original).filter(|line: Seq<char>| rewritten_away(line, transformed))
}

/// What the raw section shows: the lines that were rewritten away, or the whole original
/// where no line as a whole is gone.
pub open spec fn raw_body(original: Seq<char>, transformed: Seq<char>) -> Seq<char> {
    if lost_lines(original, transformed).len() == 0 {
        trim(original)
    } else {
        joined(lost_lines(original, transformed), "\n"@)
    }
}

/// The body in its presentation.
pub open spec fn raw_frame(body: Seq<char>, raw: RawConfig) -> Seq<char> {
    let separator = if raw.separator {
        "---\n\n"@
    } else {
        seq![]
    };
    let header = if raw.label@.len() > 0 {
        raw.label@ + "\n\n"@
    } else {
        seq![]
    };
    let block = match raw.fence {
        Some(lang) => "```"@ + lang@ + "\n"@ + body + "\n```"@,
        None => body,
    };
    "\n\n"@ + separator + header + block
}

/// The raw section for a rewritten hover, or nothing where there is nothing to show.
pub open spec fn raw_section(
    original: Seq<char>,
    transformed: Seq<char>,
    raw: RawConfig,
) -> Option<Seq<char>> {
    if raw.enabled && trim(raw_body(original, transformed)).len() > 0 {
        Some(raw_frame(raw_body(original, transformed), raw))
    } else {
        None
    }
}

/// Build the raw section to append below a rewritten hover, or `None` if there is nothing
/// worth showing.
///
/// The body does not depend on the language server: it is the non-blank lines of `original`
/// that are no longer in `transformed`, or the full trimmed original where there are none
/// (when the change was within lines). The presentation comes from the user's `raw`.
pub fn build_raw_section(original: &str, transformed: &str, raw: &RawConfig) -> (section: Option<
    String,
>)
    ensures
        raw_section(original@, transformed@, *raw) == (match section {
            Some(s) => Some(s@),
            None => None,
        }),
{
    if !raw.enabled {
        return None;
    }
    let body = build_raw_body(original, transformed);
    if blank(body.as_str()) {
        return None;
    }
    let mut out = "\n\n".to_owned();
    if raw.separator {
        out.append("---\n\n");
    }
    if raw.label.as_str().unicode_len() > 0 {
        out.append(raw.label.as_str());
        out.append("\n\n");
    }
    match &raw.fence {
        Some(lang) => {
            out.append("```");
            out.append(lang.as_str());
            out.append("\n");
            out.append(body.as_str());
            out.append("\n```");
        },
        None => {
            out.append(body.as_str());
        },
    }
    assert(out@ =~= raw_frame(body@, *raw));
    Some(out)
}

/// What the raw section shows.
fn build_raw_body(original: &str, transformed: &str) -> (body: String)
    ensures
        body@ == raw_body(original@, transformed@),
{
    let found = lines_text(original);
    let ghost all = lines(original@);
    let ghost lost = |line: Seq<char>| rewritten_away(line, transformed@);
    let mut count: usize = 0;
    let mut body = String::new();
    let mut i: usize = 0;
    proof {
        reveal(Seq::filter);
        assert(all.take(0).filter(lost) =~= seq![]);
    }
    while i < found.len()
        invariant
            i <= found@.len(),
            count <= i,
            texts(found@) == all,
            lost == (|line: Seq<char>| rewritten_away(line, transformed@)),
            count == all.take(i as int).filter(lost).len(),
            body@ == joined(all.take(i as int).filter(lost), "\n"@),
        decreases found@.len() - i,
    {
        let ghost before = all.take(i as int).filter(lost);
        let line = trim_text(found[i].as_str());
        assert(all[i as int] == found@[i as int]@);
        assert(all.take(i + 1).drop_last() =~= all.take(i as int));
        proof {
            reveal(Seq::filter);
            reveal_with_fuel(joined, 2);
        }
        if line.as_str().unicode_len() > 0 && !contains_text(transformed, line.as_str()) {
            assert(all.take(i + 1).filter(lost) =~= before.push(all[i as int]));
            assert(before.push(all[i as int]).drop_last() =~= before);
            if count > 0 {
                body.append("\n");
                body.append(found[i].as_str());
            } else {
                body = found[i].clone();
            }
            count = count + 1;
        } else {
            assert(all.take(i + 1).filter(lost) =~= before);
        }
        i = i + 1;
    }
    assert(all.take(i as int) =~= all);
    if count == 0 {
        trim_text(original)
    } else {
        body
    }
}

} // verus!
