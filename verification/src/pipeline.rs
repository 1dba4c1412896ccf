//! The plugin pipeline: which text of a response is rewritten, and how.
//!
//! What a plugin answers is not fixed by its input, so the contracts relate the text that
//! goes in to every text that can come out.
use std::borrow::Cow;
use vstd::prelude::*;

use crate::json::{
    json_parse, json_text, lemma_array_model, lemma_item_below, models, no_fields, opt_ref,
    parse_json, reads_back, write_json, Json, JsonModel, MAX_DEPTH,
};
use crate::lsp::{frame, framed, law_payload_of_frame, payload, payload_of};
use crate::plugin_api::{
    interested, opt_models, plugin_is_interested, plugin_models, ContextModel, OutputModel, Plugin,
    PluginModel, TextKind, TransformContext, TransformOutput,
};
use crate::protocol::with_some;
use crate::raw::{build_raw_section, raw_section, RawConfig};
use crate::tracking::{
    extract_response_id, noted, request_to_track, response_id, tracked_id, Pending,
};

verus! {

// ---- Configuration -------------------------------------------------------------

/// Default per-plugin timeout, in milliseconds, when neither the manifest nor the user
/// specifies one. Generous enough never to trip on real transform work, while still bounding
/// a genuinely stuck plugin.
pub const DEFAULT_PLUGIN_TIMEOUT_MS: u64 = 5000;

/// Runtime display options, typically sourced from env vars or editor config.
#[derive(Debug, Clone)]
pub struct Config {
    pub verbosity: u8,
    pub unicode: bool,
    /// How to render the raw section appended below rewritten hovers.
    pub raw: RawConfig,
    /// Default timeout, in milliseconds, for one round trip to a plugin.
    pub plugin_timeout_ms: u64,
}

impl Default for Config {
    fn default() -> (config: Self)
        ensures
            config.verbosity == 0,
            config.unicode,
            !config.raw.enabled,
            config.raw.label@ == "Raw:"@,
            config.raw.fence is None,
            !config.raw.separator,
            config.plugin_timeout_ms == DEFAULT_PLUGIN_TIMEOUT_MS,
    {
        Config {
            verbosity: 0,
            unicode: true,
            raw: RawConfig::default(),
            plugin_timeout_ms: DEFAULT_PLUGIN_TIMEOUT_MS,
        }
    }
}

// ---- The chain -----------------------------------------------------------------

/// Where a text stands in the chain: what it reads now, and the replacement edits so far.
#[verifier::ext_equal]
pub struct ChainModel {
    pub text: Seq<char>,
    pub edits: Option<Seq<JsonModel>>,
}

/// A text before any plugin ran.
pub open spec fn unrun(text: Seq<char>) -> ChainModel {
    ChainModel { text, edits: None }
}

/// The text and the edits after one plugin's output: its text, and the edits so far where it
/// brings none.
pub open spec fn absorbed(state: ChainModel, out: OutputModel) -> ChainModel {
    ChainModel {
        text: out.text,
        edits: match out.text_edits {
            Some(edits) => Some(edits),
            None => state.edits,
        },
    }
}

/// One plugin takes the text from `from` to `to`; one that is not interested leaves it.
pub open spec fn chain_step(
    plugin: PluginModel,
    ctx: ContextModel,
    from: ChainModel,
    to: ChainModel,
) -> bool {
    if interested(plugin.markers, from.text) {
        exists|out: OutputModel| #[trigger]
            plugin.may_return(from.text, ctx, out) && to == absorbed(from, out)
    } else {
        to == from
    }
}

/// The plugins, one after the other, take the text from `from` to `to`.
pub open spec fn chain_run(
    plugins: Seq<PluginModel>,
    ctx: ContextModel,
    from: ChainModel,
    to: ChainModel,
) -> bool
    decreases plugins.len(),
{
    if plugins.len() == 0 {
        to == from
    } else {
        exists|mid: ChainModel|
            chain_run(plugins.drop_last(), ctx, from, mid) && #[trigger] chain_step(
                plugins.last(),
                ctx,
                mid,
                to,
            )
    }
}

/// What a text and its edits are after one plugin's output.
pub fn absorb(current: &str, edits: Option<Vec<Json>>, out: TransformOutput<'_>) -> (next: (
    String,
    Option<Vec<Json>>,
))
    ensures
        (ChainModel { text: next.0@, edits: opt_models(next.1) }) == absorbed(
            ChainModel { text: current@, edits: opt_models(edits) },
            out@,
        ),
{
    let text = match out.text {
        Cow::Owned(text) => text,
        Cow::Borrowed(text) => text.to_owned(),
    };
    let edits = match out.text_edits {
        Some(replacement) => Some(replacement),
        None => edits,
    };
    (text, edits)
}

/// A text of no interest to any plugin comes out of the chain as it went in.
pub proof fn law_uninterested_chain(
    plugins: Seq<PluginModel>,
    ctx: ContextModel,
    from: ChainModel,
    to: ChainModel,
)
    requires
        forall|i: int|
            0 <= i < plugins.len() ==> !interested((#[trigger] plugins[i]).markers, from.text),
        chain_run(plugins, ctx, from, to),
    ensures
        to == from,
    decreases plugins.len(),
{
    if plugins.len() > 0 {
        let mid = choose|mid: ChainModel|
            chain_run(plugins.drop_last(), ctx, from, mid) && #[trigger] chain_step(
                plugins.last(),
                ctx,
                mid,
                to,
            );
        assert forall|i: int| 0 <= i < plugins.drop_last().len() implies !interested(
            (#[trigger] plugins.drop_last()[i]).markers,
            from.text,
        ) by {
            assert(plugins.drop_last()[i] == plugins[i]);
        }
        law_uninterested_chain(plugins.drop_last(), ctx, from, mid);
        assert(plugins.last() == plugins[plugins.len() - 1]);
    }
}

/// Plugins compose: a chain of two parts takes a text just where the one part and then the
/// other take it.
pub proof fn law_chain_composes(
    first: Seq<PluginModel>,
    second: Seq<PluginModel>,
    ctx: ContextModel,
    from: ChainModel,
    to: ChainModel,
)
    ensures
        chain_run(first + second, ctx, from, to) <==> exists|mid: ChainModel| #[trigger]
            chain_run(first, ctx, from, mid) && chain_run(second, ctx, mid, to),
    decreases second.len(),
{
    if second.len() == 0 {
        assert(first + second =~= first);
        if chain_run(first, ctx, from, to) {
            assert(chain_run(second, ctx, to, to));
        }
    } else {
        let front = second.drop_last();
        let last = second.last();
        assert((first + second).drop_last() =~= first + front);
        assert((first + second).last() == last);
        if chain_run(first + second, ctx, from, to) {
            let before = choose|before: ChainModel|
                chain_run(first + front, ctx, from, before) && #[trigger] chain_step(
                    last,
                    ctx,
                    before,
                    to,
                );
            law_chain_composes(first, front, ctx, from, before);
            let mid = choose|mid: ChainModel| #[trigger]
                chain_run(first, ctx, from, mid) && chain_run(front, ctx, mid, before);
            assert(chain_run(second, ctx, mid, to));
        }
        if exists|mid: ChainModel| #[trigger]
            chain_run(first, ctx, from, mid) && chain_run(second, ctx, mid, to) {
            let mid = choose|mid: ChainModel| #[trigger]
                chain_run(first, ctx, from, mid) && chain_run(second, ctx, mid, to);
            let before = choose|before: ChainModel|
                chain_run(front, ctx, mid, before) && #[trigger] chain_step(last, ctx, before, to);
            law_chain_composes(first, front, ctx, from, before);
            assert(chain_run(first + front, ctx, from, before));
            assert(chain_step(last, ctx, before, to));
            assert(chain_run(first + second, ctx, from, to));
        }
    }
}

/// If every plugin has at most one answer to an input, so has the chain.
pub proof fn law_chain_is_determined(
    plugins: Seq<PluginModel>,
    ctx: ContextModel,
    from: ChainModel,
    one: ChainModel,
    two: ChainModel,
)
    requires
        forall|i: int, text: Seq<char>, a: OutputModel, b: OutputModel|
            0 <= i < plugins.len() && #[trigger] plugins[i].may_return(text, ctx, a)
                && #[trigger] plugins[i].may_return(text, ctx, b) ==> a == b,
        chain_run(plugins, ctx, from, one),
        chain_run(plugins, ctx, from, two),
    ensures
        one == two,
    decreases plugins.len(),
{
    if plugins.len() > 0 {
        let front = plugins.drop_last();
        let mid_one = choose|mid: ChainModel|
            chain_run(front, ctx, from, mid) && #[trigger] chain_step(plugins.last(), ctx, mid, one);
        let mid_two = choose|mid: ChainModel|
            chain_run(front, ctx, from, mid) && #[trigger] chain_step(plugins.last(), ctx, mid, two);
        assert forall|i: int, text: Seq<char>, a: OutputModel, b: OutputModel|
            0 <= i < front.len() && #[trigger] front[i].may_return(text, ctx, a)
                && #[trigger] front[i].may_return(text, ctx, b) implies a == b by {
            assert(front[i] == plugins[i]);
            assert(plugins[i].may_return(text, ctx, a) && plugins[i].may_return(text, ctx, b));
        }
        law_chain_is_determined(front, ctx, from, mid_one, mid_two);
        let last = plugins.len() - 1;
        if interested(plugins.last().markers, mid_one.text) {
            let a = choose|out: OutputModel| #[trigger]
                plugins.last().may_return(mid_one.text, ctx, out) && one == absorbed(mid_one, out);
            let b = choose|out: OutputModel| #[trigger]
                plugins.last().may_return(mid_one.text, ctx, out) && two == absorbed(mid_one, out);
            assert(plugins[last].may_return(mid_one.text, ctx, a));
            assert(plugins[last].may_return(mid_one.text, ctx, b));
        }
    }
}

// ---- Hovers --------------------------------------------------------------------

/// What a rewriter is: its plugins in order, and the display options.
pub struct RewriterModel {
    pub plugins: Seq<PluginModel>,
    pub config: Config,
}

/// The context in which a text runs through the chain.
pub open spec fn context(
    config: Config,
    kind: TextKind,
    original: Seq<char>,
    position: Option<JsonModel>,
    text_edits: Option<JsonModel>,
) -> ContextModel {
    ContextModel {
        kind,
        original,
        verbosity: config.verbosity,
        unicode: config.unicode,
        position,
        text_edits,
    }
}

/// A hover after the chain: what changed gets the raw section below it.
pub open spec fn finished_hover(original: Seq<char>, current: Seq<char>, raw: RawConfig) -> Seq<
    char,
> {
    if current == original {
        original
    } else {
        match raw_section(original, current, raw) {
            Some(section) => current + section,
            None => current,
        }
    }
}

/// A hover that went into the chain as `original` and came out as `current`, with the
/// configured raw section below it where it changed.
pub fn finish_hover(original: &str, current: String, raw: &RawConfig) -> (hover: (String, bool))
    ensures
        hover.0@ == finished_hover(original@, current@, *raw),
        hover.1 == (current@ != original@),
{
    if original.to_owned() == current {
        return (current, false);
    }
    let mut hover = current;
    match build_raw_section(original, hover.as_str(), raw) {
        Some(section) => {
            hover.append(section.as_str());
        },
        None => {},
    }
    (hover, true)
}

/// The hover text `before` can become `after`; `changed` tells whether the chain changed it.
pub open spec fn hover_string_rewritten(
    rewriter: RewriterModel,
    before: Seq<char>,
    after: Seq<char>,
    changed: bool,
) -> bool {
    exists|run: ChainModel| #[trigger]
        chain_run(
            rewriter.plugins,
            context(rewriter.config, TextKind::Hover, before, None, None),
            unrun(before),
            run,
        ) && after == finished_hover(before, run.text, rewriter.config.raw) && changed == (run.text
            != before)
}

/// A hover text of no interest to any plugin stays as it is, raw section and all.
pub proof fn law_uninterested_hover(
    rewriter: RewriterModel,
    before: Seq<char>,
    after: Seq<char>,
    changed: bool,
)
    requires
        forall|i: int|
            0 <= i < rewriter.plugins.len() ==> !interested(
                (#[trigger] rewriter.plugins[i]).markers,
                before,
            ),
        hover_string_rewritten(rewriter, before, after, changed),
    ensures
        after == before,
        !changed,
{
    let ctx = context(rewriter.config, TextKind::Hover, before, None, None);
    let run = choose|run: ChainModel| #[trigger]
        chain_run(rewriter.plugins, ctx, unrun(before), run) && after == finished_hover(
            before,
            run.text,
            rewriter.config.raw,
        ) && changed == (run.text != before);
    law_uninterested_chain(rewriter.plugins, ctx, unrun(before), run);
}

/// The object `before` can become `after` by its `value`, where that is a string.
pub open spec fn hover_value_rewritten(
    rewriter: RewriterModel,
    before: JsonModel,
    after: JsonModel,
    changed: bool,
) -> bool {
    match before.get_str("value"@) {
        Some(text) => exists|new: Seq<char>| #[trigger]
            hover_string_rewritten(rewriter, text, new, changed) && after == before.with(
                "value"@,
                JsonModel::Str(new),
            ),
        None => after == before && !changed,
    }
}

/// The string `text` can become `after`.
pub open spec fn hover_text_rewritten(
    rewriter: RewriterModel,
    text: Seq<char>,
    after: JsonModel,
    changed: bool,
) -> bool {
    exists|new: Seq<char>| #[trigger]
        hover_string_rewritten(rewriter, text, new, changed) && after == JsonModel::Str(new)
}

/// The hover contents `before` can become `after`: a `MarkupContent` or `MarkedString`
/// object by its `value`, a plain string, or an array of contents one by one.
pub open spec fn hover_contents_rewritten(
    rewriter: RewriterModel,
    before: JsonModel,
    after: JsonModel,
    changed: bool,
) -> bool
    decreases before,
{
    match before {
        JsonModel::Object(_) => hover_value_rewritten(rewriter, before, after, changed),
        JsonModel::Str(text) => hover_text_rewritten(rewriter, text, after, changed),
        JsonModel::Array(items) => match after {
            JsonModel::Array(news) => {
                &&& news.len() == items.len()
                &&& exists|flags: Seq<bool>|
                    {
                        &&& flags.len() == items.len()
                        &&& changed == #[trigger] flags.contains(true)
                        &&& forall|i: int|
                            0 <= i < items.len() ==> hover_contents_rewritten(
                                rewriter,
                                #[trigger] items[i],
                                news[i],
                                flags[i],
                            )
                    }
            },
            _ => false,
        },
        _ => after == before && !changed,
    }
}

// ---- Inlay hints ---------------------------------------------------------------

/// The values of some label parts, one after the other.
pub open spec fn parts_text(parts: Seq<JsonModel>) -> Seq<char>
    decreases parts.len(),
{
    if parts.len() == 0 {
        seq![]
    } else {
        parts_text(parts.drop_last()) + (match parts.last().get_str("value"@) {
            Some(value) => value,
            None => seq![],
        })
    }
}

/// The location of the first label part that has one.
pub open spec fn first_location(parts: Seq<JsonModel>) -> Option<JsonModel>
    decreases parts.len(),
{
    if parts.len() == 0 {
        None
    } else {
        match first_location(parts.drop_last()) {
            Some(location) => Some(location),
            None => parts.last().get("location"@),
        }
    }
}

/// The text of a hint: its label, or the parts of its label in one.
pub open spec fn hint_text(hint: JsonModel) -> Option<Seq<char>> {
    match hint.get("label"@) {
        Some(JsonModel::Str(text)) => Some(text),
        Some(JsonModel::Array(parts)) => Some(parts_text(parts)),
        _ => None,
    }
}

/// A label with another text, in the shape of the old one: a string, or a single part that
/// keeps the first location.
pub open spec fn new_label(label: JsonModel, text: Seq<char>) -> JsonModel {
    match label {
        JsonModel::Array(parts) => JsonModel::Array(
            seq![
                JsonModel::Object(
                    with_some(
                        no_fields().insert("value"@, JsonModel::Str(text)),
                        "location"@,
                        first_location(parts),
                    ),
                ),
            ],
        ),
        _ => JsonModel::Str(text),
    }
}

/// A hint after the chain: a new label where the text changed, and new edits where a plugin
/// gave some.
pub open spec fn finished_hint(hint: JsonModel, run: ChainModel) -> JsonModel {
    let labelled = if hint_text(hint) == Some(run.text) {
        hint
    } else {
        match hint.get("label"@) {
            Some(label) => hint.with("label"@, new_label(label, run.text)),
            None => hint,
        }
    };
    match run.edits {
        Some(edits) => labelled.with("textEdits"@, JsonModel::Array(edits)),
        None => labelled,
    }
}

/// The inlay hint `before` can become `after`; `changed` tells whether it got a new label or
/// new edits.
pub open spec fn hint_rewritten(
    rewriter: RewriterModel,
    before: JsonModel,
    after: JsonModel,
    changed: bool,
) -> bool {
    match hint_text(before) {
        Some(text) => exists|run: ChainModel| #[trigger]
            chain_run(
                rewriter.plugins,
                context(
                    rewriter.config,
                    TextKind::InlayHint,
                    text,
                    before.get("position"@),
                    before.get("textEdits"@),
                ),
                unrun(text),
                run,
            ) && after == finished_hint(before, run) && changed == (run.text != text
                || run.edits is Some),
        None => after == before && !changed,
    }
}

/// The text of a hint: its label, or the parts of its label in one.
pub fn label_text(hint: &Json) -> (text: Option<String>)
    ensures
        hint_text(hint@) == (match text {
            Some(t) => Some(t@),
            None => None,
        }),
{
    match hint.get("label") {
        Some(Json::Str(text)) => Some(text.clone()),
        Some(Json::Array(parts)) => {
            proof {
                lemma_array_model(*parts);
            }
            let ghost all = models(parts@);
            let mut full = String::new();
            let mut i: usize = 0;
            assert(parts_text(all.take(0)) =~= seq![]);
            while i < parts.len()
                invariant
                    i <= parts@.len(),
                    all == models(parts@),
                    full@ == parts_text(all.take(i as int)),
                decreases parts@.len() - i,
            {
                assert(all.take(i + 1).drop_last() =~= all.take(i as int));
                assert(all.take(i + 1).last() == parts@[i as int]@);
                match parts[i].get_str("value") {
                    Some(value) => {
                        full.append(value);
                    },
                    None => {
                        assert(full@ + seq![] =~= full@);
                    },
                }
                i = i + 1;
            }
            assert(all.take(i as int) =~= all);
            Some(full)
        },
        _ => None,
    }
}

/// The location of the first label part that has one.
fn location_of(parts: &Vec<Json>) -> (location: Option<Json>)
    ensures
        first_location(models(parts@)) == crate::json::opt(location),
{
    let ghost all = models(parts@);
    let mut i: usize = 0;
    assert(first_location(all.take(0)) is None);
    while i < parts.len()
        invariant
            i <= parts@.len(),
            all == models(parts@),
            first_location(all.take(i as int)) is None,
        decreases parts@.len() - i,
    {
        assert(all.take(i + 1).drop_last() =~= all.take(i as int));
        assert(all.take(i + 1).last() == parts@[i as int]@);
        match parts[i].get("location") {
            Some(location) => {
                proof {
                    lemma_first_location(all, i + 1);
                }
                return Some(location.dup());
            },
            None => {},
        }
        i = i + 1;
    }
    assert(all.take(i as int) =~= all);
    None
}

/// More parts do not change where the first location is.
proof fn lemma_first_location(parts: Seq<JsonModel>, count: int)
    requires
        0 <= count <= parts.len(),
        first_location(parts.take(count)) is Some,
    ensures
        first_location(parts) == first_location(parts.take(count)),
    decreases parts.len(),
{
    if count == parts.len() {
        assert(parts.take(count) =~= parts);
    } else {
        assert(parts.drop_last().take(count) =~= parts.take(count));
        lemma_first_location(parts.drop_last(), count);
    }
}

/// A hint that came out of the chain with the text `current` and the replacement `edits`:
/// it gets a new label where the text is another one, and the edits where there are some.
/// Also whether it got any of the two.
pub fn finish_hint(hint: &Json, current: &str, edits: Option<Vec<Json>>) -> (finished: (Json, bool))
    requires
        hint_text(hint@) is Some,
    ensures
        finished.0@ == finished_hint(
            hint@,
            ChainModel { text: current@, edits: opt_models(edits) },
        ),
        finished.1 == (hint_text(hint@) != Some(current@) || edits is Some),
{
    let same = match label_text(hint) {
        Some(text) => text == current.to_owned(),
        None => false,
    };
    let mut out = hint.dup();
    let mut changed = false;
    if !same {
        let label = match hint.get("label") {
            Some(Json::Array(parts)) => {
                proof {
                    lemma_array_model(*parts);
                }
                let mut part = Json::object().with("value", Json::text(current));
                match location_of(parts) {
                    Some(location) => {
                        part = part.with("location", location);
                    },
                    None => {},
                }
                let mut list: Vec<Json> = Vec::new();
                list.push(part);
                proof {
                    lemma_array_model(list);
                    assert(models(list@) =~= seq![part@]);
                }
                Json::Array(list)
            },
            _ => Json::text(current),
        };
        out = out.with("label", label);
        changed = true;
    }
    match edits {
        Some(list) => {
            proof {
                lemma_array_model(list);
            }
            out = out.with("textEdits", Json::Array(list));
            changed = true;
        },
        None => {},
    }
    (out, changed)
}

/// A hint keeps every field but its label and its edits.
pub proof fn law_hint_keeps_fields(hint: JsonModel, run: ChainModel, key: Seq<char>)
    requires
        hint_text(hint) is Some,
        key != "label"@,
        key != "textEdits"@,
    ensures
        finished_hint(hint, run).get(key) == hint.get(key),
{
}

/// A hint without new edits keeps its old ones.
pub proof fn law_hint_keeps_edits(hint: JsonModel, run: ChainModel)
    requires
        hint_text(hint) is Some,
        run.edits is None,
    ensures
        finished_hint(hint, run).get("textEdits"@) == hint.get("textEdits"@),
{
    reveal_strlit("label");
    reveal_strlit("textEdits");
    assert("label"@.len() == 5 && "textEdits"@.len() == 9);
}

// ---- Results and messages ------------------------------------------------------

/// The result `before` of a response can become `after`: a hover by its `contents`, an array
/// of inlay hints one by one, or a single hint.
pub open spec fn result_rewritten(
    rewriter: RewriterModel,
    before: JsonModel,
    after: JsonModel,
    changed: bool,
) -> bool {
    match before.get("contents"@) {
        Some(contents) => exists|new: JsonModel| #[trigger]
            hover_contents_rewritten(rewriter, contents, new, changed) && after == before.with(
                "contents"@,
                new,
            ),
        None => match before {
            JsonModel::Array(hints) => match after {
                JsonModel::Array(news) => {
                    &&& news.len() == hints.len()
                    &&& exists|flags: Seq<bool>|
                        {
                            &&& flags.len() == hints.len()
                            &&& changed == #[trigger] flags.contains(true)
                            &&& forall|i: int|
                                0 <= i < hints.len() ==> hint_rewritten(
                                    rewriter,
                                    #[trigger] hints[i],
                                    news[i],
                                    flags[i],
                                )
                        }
                },
                _ => false,
            },
            _ => if before.get("label"@) is Some {
                hint_rewritten(rewriter, before, after, changed)
            } else {
                after == before && !changed
            },
        },
    }
}

/// Some plugin cares about the payload.
pub open spec fn any_interested(plugins: Seq<PluginModel>, json: Seq<char>) -> bool {
    exists|i: int| 0 <= i < plugins.len() && interested((#[trigger] plugins[i]).markers, json)
}

/// The JSON that a framed message carries.
pub open spec fn message_value(raw: Seq<char>) -> Option<JsonModel> {
    match payload_of(raw) {
        Some(json) => json_parse(json),
        None => None,
    }
}

/// A message is a value written and framed; whoever unwraps and reads it finds the value.
pub open spec fn carries(message: Seq<char>, v: JsonModel) -> bool {
    &&& message == framed(json_text(v))
    &&& reads_back(v, MAX_DEPTH as nat) ==> message_value(message) == Some(v)
}

/// The response `message` with the payload `json` can be forwarded as `out`: as it is where
/// no plugin cares, where it is no JSON, where it has no result or where nothing changed.
pub open spec fn response_rewritten(
    rewriter: RewriterModel,
    message: Seq<char>,
    json: Seq<char>,
    out: Seq<char>,
) -> bool {
    if !any_interested(rewriter.plugins, json) {
        out == message
    } else {
        match json_parse(json) {
            None => out == message,
            Some(msg) => match msg.get("result"@) {
                None => out == message,
                Some(result) => exists|new: JsonModel, changed: bool| #[trigger]
                    result_rewritten(rewriter, result, new, changed) && if changed {
                        carries(out, msg.with("result"@, new))
                    } else {
                        out == message
                    },
            },
        }
    }
}

/// Everything in a response but its result is kept, its id first of all.
pub proof fn law_envelope_kept(msg: JsonModel, new: JsonModel, key: Seq<char>)
    requires
        msg.get("result"@) is Some,
        key != "result"@,
    ensures
        msg.with("result"@, new).get(key) == msg.get(key),
        msg.with("result"@, new).get("result"@) == Some(new),
{
}

/// A hover keeps everything but its contents; in particular it gets no edits.
pub proof fn law_hover_keeps_fields(
    rewriter: RewriterModel,
    before: JsonModel,
    after: JsonModel,
    changed: bool,
    key: Seq<char>,
)
    requires
        before.get("contents"@) is Some,
        key != "contents"@,
        result_rewritten(rewriter, before, after, changed),
    ensures
        after.get(key) == before.get(key),
{
}

/// The ordered set of plugins plus the display options.
pub struct Rewriter {
    pub plugins: Vec<Box<dyn Plugin>>,
    pub config: Config,
}

impl View for Rewriter {
    type V = RewriterModel;

    open spec fn view(&self) -> RewriterModel {
        RewriterModel { plugins: plugin_models(self.plugins@), config: self.config }
    }
}

impl Rewriter {
    /// Run `text` through every interested plugin in order (mutating it in place), threading
    /// the `position` and the existing edits of an inlay hint so that a plugin can emit
    /// replacement `textEdits`. Gives back whether the text changed, and the replacement
    /// edits, where the last plugin to return edits wins.
    pub fn apply_chain(
        &self,
        text: &mut String,
        kind: TextKind,
        position: Option<&Json>,
        existing_edits: Option<&Json>,
    ) -> (outcome: (bool, Option<Vec<Json>>))
        ensures
            chain_run(
                self@.plugins,
                context(
                    self.config,
                    kind,
                    old(text)@,
                    opt_ref(position),
                    opt_ref(existing_edits),
                ),
                unrun(old(text)@),
                ChainModel { text: final(text)@, edits: opt_models(outcome.1) },
            ),
            outcome.0 == (final(text)@ != old(text)@),
    {
        let original = text.clone();
        let mut current = text.clone();
        let mut edits: Option<Vec<Json>> = None;
        let ghost ctx_model = context(
            self.config,
            kind,
            original@,
            opt_ref(position),
            opt_ref(existing_edits),
        );
        let mut i: usize = 0;
        while i < self.plugins.len()
            invariant
                i <= self.plugins@.len(),
                ctx_model == context(
                    self.config,
                    kind,
                    original@,
                    opt_ref(position),
                    opt_ref(existing_edits),
                ),
                chain_run(
                    self@.plugins.take(i as int),
                    ctx_model,
                    unrun(original@),
                    ChainModel { text: current@, edits: opt_models(edits) },
                ),
            decreases self.plugins@.len() - i,
        {
            let ghost before = ChainModel { text: current@, edits: opt_models(edits) };
            let ghost plugin_model = self@.plugins[i as int];
            if plugin_is_interested(&*self.plugins[i], current.as_str()) {
                let ctx = TransformContext {
                    kind,
                    original: original.as_str(),
                    verbosity: self.config.verbosity,
                    unicode: self.config.unicode,
                    position,
                    text_edits: existing_edits,
                };
                assert(ctx@ == ctx_model);
                let out = self.plugins[i].transform(current.as_str(), &ctx);
                let ghost out_model = out@;
                assert(plugin_model.may_return(before.text, ctx_model, out_model));
                let (next, next_edits) = absorb(current.as_str(), edits, out);
                current = next;
                edits = next_edits;
            }
            proof {
                let after = ChainModel { text: current@, edits: opt_models(edits) };
                assert(chain_step(plugin_model, ctx_model, before, after));
                assert(self@.plugins.take(i + 1).drop_last() =~= self@.plugins.take(i as int));
                assert(self@.plugins.take(i + 1).last() == plugin_model);
                assert(chain_run(self@.plugins.take(i + 1), ctx_model, unrun(original@), after));
            }
            i = i + 1;
        }
        assert(self@.plugins.take(i as int) =~= self@.plugins);
        let changed = current != original;
        if changed {
            *text = current;
        }
        (changed, edits)
    }

    /// Text-only convenience over [`Rewriter::apply_chain`] for spans with no inlay context.
    /// Gives back whether the text changed.
    pub fn apply_in_place(&self, text: &mut String, kind: TextKind) -> (changed: bool)
        ensures
            exists|edits: Option<Seq<JsonModel>>|
                chain_run(
                    self@.plugins,
                    context(self.config, kind, old(text)@, None, None),
                    unrun(old(text)@),
                    #[trigger] chain_end(final(text)@, edits),
                ),
            changed == (final(text)@ != old(text)@),
    {
        let outcome = self.apply_chain(text, kind, None, None);
        proof {
            let edits = opt_models(outcome.1);
            assert(chain_end(text@, edits) == ChainModel { text: text@, edits });
        }
        outcome.0
    }

    /// Run one hover string through the plugin chain and, if it changed, append the
    /// user-configured raw section (see [`RawConfig`]).
    pub fn rewrite_hover_string(&self, text: &mut String) -> (changed: bool)
        ensures
            hover_string_rewritten(self@, old(text)@, final(text)@, changed),
    {
        let original = text.clone();
        let mut current = text.clone();
        self.apply_in_place(&mut current, TextKind::Hover);
        let ghost end = current@;
        let (hover, changed) = finish_hover(original.as_str(), current, &self.config.raw);
        proof {
            let ctx = context(self.config, TextKind::Hover, original@, None, None);
            let edits = choose|edits: Option<Seq<JsonModel>>|
                chain_run(self@.plugins, ctx, unrun(original@), #[trigger] chain_end(end, edits));
            assert(chain_run(self@.plugins, ctx, unrun(original@), chain_end(end, edits)));
        }
        *text = hover;
        changed
    }

    /// Rewrite the contents of a hover.
    pub fn rewrite_hover_contents(&self, contents: &Json) -> (rewritten: (Json, bool))
        ensures
            hover_contents_rewritten(self@, contents@, rewritten.0@, rewritten.1),
        decreases contents,
    {
        match contents {
            Json::Object(_) => {
                match contents.get_str("value") {
                    Some(text) => {
                        let mut new = text.to_owned();
                        let changed = self.rewrite_hover_string(&mut new);
                        assert(hover_string_rewritten(
                            self@,
                            contents@.get_str("value"@)->0,
                            new@,
                            changed,
                        ));
                        let value = Json::Str(new);
                        assert(value@ == JsonModel::Str(new@));
                        (contents.dup().with("value", value), changed)
                    },
                    None => (contents.dup(), false),
                }
            },
            Json::Str(text) => {
                let mut new = text.clone();
                let changed = self.rewrite_hover_string(&mut new);
                assert(hover_string_rewritten(self@, text@, new@, changed));
                (Json::Str(new), changed)
            },
            Json::Array(items) => {
                let mut news: Vec<Json> = Vec::new();
                let mut changed = false;
                let ghost mut flags: Seq<bool> = seq![];
                let mut i: usize = 0;
                while i < items.len()
                    invariant
                        i <= items@.len(),
                        contents == Json::Array(*items),
                        news@.len() == i,
                        flags.len() == i,
                        changed == flags.contains(true),
                        forall|j: int|
                            0 <= j < i ==> hover_contents_rewritten(
                                self@,
                                items@[j]@,
                                (#[trigger] news@[j])@,
                                flags[j],
                            ),
                    decreases items@.len() - i,
                {
                    proof {
                        lemma_item_below(*contents, i as int);
                    }
                    let (new, flag) = self.rewrite_hover_contents(&items[i]);
                    news.push(new);
                    proof {
                        lemma_push_flag(flags, flag);
                        flags = flags.push(flag);
                    }
                    changed = changed || flag;
                    i = i + 1;
                }
                proof {
                    lemma_array_model(*items);
                    lemma_array_model(news);
                    assert forall|j: int| 0 <= j < items@.len() implies hover_contents_rewritten(
                        self@,
                        #[trigger] models(items@)[j],
                        models(news@)[j],
                        flags[j],
                    ) by {
                        assert(models(news@)[j] == news@[j]@);
                    }
                }
                (Json::Array(news), changed)
            },
            _ => (contents.dup(), false),
        }
    }

    /// Rewrite one inlay hint.
    ///
    /// A server may split a single type across many label parts. A plugin must see the
    /// *whole* type, so the parts run through the chain as one text and, if it changed, come
    /// out as a single part that keeps the first location.
    pub fn rewrite_inlay_hint(&self, hint: &Json) -> (rewritten: (Json, bool))
        ensures
            hint_rewritten(self@, hint@, rewritten.0@, rewritten.1),
    {
        match label_text(hint) {
            Some(text) => {
                let mut current = text.clone();
                let outcome = self.apply_chain(
                    &mut current,
                    TextKind::InlayHint,
                    hint.get("position"),
                    hint.get("textEdits"),
                );
                finish_hint(hint, current.as_str(), outcome.1)
            },
            None => (hint.dup(), false),
        }
    }

    /// Dispatch on the shape of `result` to find rewritable text. Gives back the new result
    /// and whether anything changed.
    pub fn rewrite_result(&self, result: &Json) -> (rewritten: (Json, bool))
        ensures
            result_rewritten(self@, result@, rewritten.0@, rewritten.1),
    {
        match result.get("contents") {
            Some(contents) => {
                let (new, changed) = self.rewrite_hover_contents(contents);
                assert(hover_contents_rewritten(self@, contents@, new@, changed));
                return (result.dup().with("contents", new), changed);
            },
            None => {},
        }
        match result {
            Json::Array(hints) => {
                let mut news: Vec<Json> = Vec::new();
                let mut changed = false;
                let ghost mut flags: Seq<bool> = seq![];
                let mut i: usize = 0;
                while i < hints.len()
                    invariant
                        i <= hints@.len(),
                        news@.len() == i,
                        flags.len() == i,
                        changed == flags.contains(true),
                        forall|j: int|
                            0 <= j < i ==> hint_rewritten(
                                self@,
                                hints@[j]@,
                                (#[trigger] news@[j])@,
                                flags[j],
                            ),
                    decreases hints@.len() - i,
                {
                    let (new, flag) = self.rewrite_inlay_hint(&hints[i]);
                    news.push(new);
                    proof {
                        lemma_push_flag(flags, flag);
                        flags = flags.push(flag);
                    }
                    changed = changed || flag;
                    i = i + 1;
                }
                proof {
                    lemma_array_model(*hints);
                    lemma_array_model(news);
                    assert forall|j: int| 0 <= j < hints@.len() implies hint_rewritten(
                        self@,
                        #[trigger] models(hints@)[j],
                        models(news@)[j],
                        flags[j],
                    ) by {
                        assert(models(news@)[j] == news@[j]@);
                    }
                }
                (Json::Array(news), changed)
            },
            _ => if result.has("label") {
                self.rewrite_inlay_hint(result)
            } else {
                (result.dup(), false)
            },
        }
    }

    /// Whether some plugin cares about the payload.
    pub fn any_interested(&self, json: &str) -> (yes: bool)
        ensures
            yes == any_interested(self@.plugins, json@),
    {
        let mut i: usize = 0;
        while i < self.plugins.len()
            invariant
                i <= self.plugins@.len(),
                forall|j: int|
                    0 <= j < i ==> !interested((#[trigger] self@.plugins[j]).markers, json@),
            decreases self.plugins@.len() - i,
        {
            if plugin_is_interested(&*self.plugins[i], json) {
                assert(interested(self@.plugins[i as int].markers, json@));
                return true;
            }
            i = i + 1;
        }
        false
    }

    /// Rewrite the type text of one response. The message comes back untouched whenever
    /// nothing matches or anything goes wrong, so that a plugin bug can never break the
    /// editor session.
    pub fn rewrite(&self, message: &str) -> (out: String)
        ensures
            match payload_of(message@) {
                Some(json) => response_rewritten(self@, message@, json, out@),
                None => out@ == message@,
            },
    {
        let json = match payload(message) {
            Some(json) => json,
            None => {
                return message.to_owned();
            },
        };
        if !self.any_interested(json) {
            return message.to_owned();
        }
        let msg = match parse_json(json) {
            Some(msg) => msg,
            None => {
                return message.to_owned();
            },
        };
        let result = match msg.get("result") {
            Some(result) => result,
            None => {
                return message.to_owned();
            },
        };
        let (new, changed) = self.rewrite_result(result);
        let ghost new_model = new@;
        assert(result_rewritten(self@, result@, new_model, changed));
        if !changed {
            return message.to_owned();
        }
        let text = write_json(&msg.dup().with("result", new));
        proof {
            law_payload_of_frame(text@);
        }
        frame(text.as_str())
    }
}

/// The end of a run through the chain.
pub open spec fn chain_end(text: Seq<char>, edits: Option<Seq<JsonModel>>) -> ChainModel {
    ChainModel { text, edits }
}

proof fn lemma_push_flag(flags: Seq<bool>, flag: bool)
    ensures
        flags.push(flag).contains(true) == (flags.contains(true) || flag),
{
    let pushed = flags.push(flag);
    if flags.contains(true) {
        let i = choose|i: int| 0 <= i < flags.len() && flags[i] == true;
        assert(pushed[i] == true);
    }
    if flag {
        assert(pushed[flags.len() as int] == true);
    }
    if pushed.contains(true) && !flag {
        let i = choose|i: int| 0 <= i < pushed.len() && pushed[i] == true;
        assert(flags[i] == true);
    }
}

// ---- The pipeline --------------------------------------------------------------

/// The tracked ids after a message went from the editor to the backend.
pub open spec fn ids_after_outgoing(ids: Set<i64>, message: Seq<char>) -> Set<i64> {
    match payload_of(message) {
        Some(json) => match tracked_id(json) {
            Some(id) => noted(ids, id),
            None => ids,
        },
        None => ids,
    }
}

/// A payload is JSON that is no response under an id: it names a method, or its own id is no
/// number or another integer.
pub open spec fn is_other(json: Seq<char>, id: i64) -> bool {
    match json_parse(json) {
        Some(v) => v.get("method"@) is Some || match v.get("id"@) {
            Some(JsonModel::Number(own)) => own.int matches Some(n) && n != id,
            _ => true,
        },
        None => false,
    }
}

/// The tracked request that a message from the backend settles, if it settles one: that of the
/// id which is read from it. A request of the backend's own settles nothing, whatever its id,
/// and neither does a message that merely holds such an id somewhere below its own.
pub open spec fn claimed_id(ids: Set<i64>, message: Seq<char>) -> Option<i64> {
    match payload_of(message) {
        Some(json) => match response_id(json) {
            Some(id) => if ids.contains(id) && !is_other(json, id) {
                Some(id)
            } else {
                None
            },
            None => None,
        },
        None => None,
    }
}

/// The tracked ids after a message came from the backend.
pub open spec fn ids_after_incoming(ids: Set<i64>, message: Seq<char>) -> Set<i64> {
    match claimed_id(ids, message) {
        Some(id) => ids.remove(id),
        None => ids,
    }
}

/// Record the id of a hover or inlay-hint request that goes to the backend.
pub fn note_outgoing(pending: &mut Pending, message: &str)
    ensures
        final(pending)@ == ids_after_outgoing(old(pending)@, message@),
{
    match payload(message) {
        Some(json) => match request_to_track(json) {
            Some(id) => {
                pending.note(id);
            },
            None => {},
        },
        None => {},
    }
}

/// Whether a payload is JSON that is no response under an id.
fn answers_other(json: &str, id: i64) -> (yes: bool)
    ensures
        yes == is_other(json@, id),
{
    match parse_json(json) {
        Some(v) => if v.has("method") {
            true
        } else {
            match v.get("id") {
                Some(own) => match own {
                    Json::Number(_) => match own.as_i64() {
                        Some(n) => n != id,
                        None => false,
                    },
                    _ => {
                        assert(!(own@ is Number));
                        true
                    },
                },
                None => true,
            }
        },
        None => false,
    }
}

/// Whether a message from the backend settles a tracked request. Only a message under the id
/// of such a request is looked at any closer.
pub fn claim_incoming(pending: &mut Pending, message: &str) -> (claimed: bool)
    ensures
        claimed == (claimed_id(old(pending)@, message@) is Some),
        final(pending)@ == ids_after_incoming(old(pending)@, message@),
{
    match payload(message) {
        Some(json) => match extract_response_id(json) {
            Some(id) => if pending.has(id) && !answers_other(json, id) {
                pending.claim(id)
            } else {
                false
            },
            None => false,
        },
        None => false,
    }
}

/// What a message from the backend can be forwarded as: only the answer to a tracked
/// request is ever rewritten.
pub open spec fn incoming_rewritten(
    rewriter: RewriterModel,
    ids: Set<i64>,
    message: Seq<char>,
    out: Seq<char>,
) -> bool {
    match payload_of(message) {
        Some(json) => if claimed_id(ids, message) is Some {
            response_rewritten(rewriter, message, json, out)
        } else {
            out == message
        },
        None => out == message,
    }
}

/// A tracked request is answered once: whatever comes later under the same id is forwarded
/// as it is, until the editor asks again.
pub proof fn law_answered_once(
    rewriter: RewriterModel,
    ids: Set<i64>,
    first: Seq<char>,
    second: Seq<char>,
    first_json: Seq<char>,
    second_json: Seq<char>,
    out: Seq<char>,
)
    requires
        payload_of(first) == Some(first_json),
        payload_of(second) == Some(second_json),
        response_id(first_json) matches Some(id) && !is_other(first_json, id),
        response_id(first_json) == response_id(second_json),
        incoming_rewritten(rewriter, ids_after_incoming(ids, first), second, out),
    ensures
        out == second,
{
}

/// A response whose id no request was tracked under is forwarded as it is.
pub proof fn law_untracked_untouched(
    rewriter: RewriterModel,
    ids: Set<i64>,
    message: Seq<char>,
    out: Seq<char>,
)
    requires
        claimed_id(ids, message) is None,
        incoming_rewritten(rewriter, ids, message, out),
    ensures
        out == message,
        ids_after_incoming(ids, message) == ids,
{
}

/// A request or a notification of the backend is forwarded as it is, and every tracked
/// request is still tracked, also one under the same id.
pub proof fn law_server_request_claims_nothing(
    rewriter: RewriterModel,
    ids: Set<i64>,
    message: Seq<char>,
    v: JsonModel,
    out: Seq<char>,
)
    requires
        message_value(message) == Some(v),
        v.get("method"@) is Some,
        incoming_rewritten(rewriter, ids, message, out),
    ensures
        out == message,
        ids_after_incoming(ids, message) == ids,
{
}

/// A response in which no plugin's marker stands is forwarded as it is.
pub proof fn law_unmarked_untouched(
    rewriter: RewriterModel,
    ids: Set<i64>,
    message: Seq<char>,
    json: Seq<char>,
    out: Seq<char>,
)
    requires
        payload_of(message) == Some(json),
        !any_interested(rewriter.plugins, json),
        incoming_rewritten(rewriter, ids, message, out),
    ensures
        out == message,
{
}

/// The plugins, the display options and the requests in flight.
pub struct Pipeline {
    pub rewriter: Rewriter,
    pub pending: Pending,
}

impl Pipeline {
    /// A pipeline with no request in flight.
    pub fn new(plugins: Vec<Box<dyn Plugin>>, config: Config) -> (pipeline: Self)
        ensures
            pipeline.rewriter.plugins == plugins,
            pipeline.rewriter.config == config,
            pipeline.pending@ == Set::<i64>::empty(),
    {
        Pipeline { rewriter: Rewriter { plugins, config }, pending: Pending::new() }
    }

    /// The names of the plugins, in the order in which they run.
    pub fn plugin_names(&self) -> (names: Vec<&str>)
        ensures
            names@.len() == self.rewriter.plugins@.len(),
            forall|i: int|
                0 <= i < names@.len() ==> (#[trigger] names@[i])@
                    == self.rewriter.plugins@[i].name_text(),
    {
        let mut names: Vec<&str> = Vec::new();
        let mut i: usize = 0;
        while i < self.rewriter.plugins.len()
            invariant
                i <= self.rewriter.plugins@.len(),
                names@.len() == i,
                forall|j: int|
                    0 <= j < i ==> (#[trigger] names@[j])@
                        == self.rewriter.plugins@[j].name_text(),
            decreases self.rewriter.plugins@.len() - i,
        {
            names.push(self.rewriter.plugins[i].name());
            i = i + 1;
        }
        names
    }

    /// Editor -> backend. Requests are forwarded unchanged, but the ids of hover and
    /// inlay-hint requests are recorded, so that it is known which responses to rewrite.
    pub fn process_outgoing(&mut self, message: &str) -> (out: String)
        ensures
            out@ == message@,
            final(self).pending@ == ids_after_outgoing(old(self).pending@, message@),
            final(self).rewriter == old(self).rewriter,
    {
        note_outgoing(&mut self.pending, message);
        message.to_owned()
    }

    /// Backend -> editor. Rewrites hover and inlay-hint type text.
    ///
    /// Only responses to tracked requests are considered; all other messages are forwarded
    /// after a cheap id check, never parsed in full and never sent to a plugin.
    pub fn process_incoming(&mut self, message: &str) -> (out: String)
        ensures
            incoming_rewritten(old(self).rewriter@, old(self).pending@, message@, out@),
            final(self).pending@ == ids_after_incoming(old(self).pending@, message@),
            final(self).rewriter == old(self).rewriter,
    {
        if claim_incoming(&mut self.pending, message) {
            self.rewriter.rewrite(message)
        } else {
            message.to_owned()
        }
    }
}

} // verus!
