//! What holds of the pipeline: what a plugin is told and what becomes of its answer, which
//! texts of a response are rewritten and in what shape they go back, and which responses count.
use vstd::prelude::*;

use crate::json::{json_parse, json_text, JsonModel};
use crate::lsp::{framed, law_payload_of_frame, payload_of};
use crate::pipeline::{
    absorbed, any_interested, carries, chain_run, chain_step, claimed_id, context, finished_hint,
    finished_hover, first_location, hint_rewritten, hint_text, hover_contents_rewritten,
    hover_string_rewritten, ids_after_incoming, ids_after_outgoing, incoming_rewritten,
    message_value, parts_text, response_rewritten, result_rewritten, unrun, ChainModel, Config,
    RewriterModel,
};
use crate::plugin_api::{interested, ContextModel, OutputModel, PluginModel, TextKind};
use crate::raw::{joined, lost_lines, raw_body, raw_frame, raw_section, rewritten_away, RawConfig};
use crate::text::{contains, lines, occurs_at, trim};
use crate::tracking::{mentions_tracked, response_id, tracked_methods};

verus! {

// ---- What a plugin is told -----------------------------------------------------

/// A plugin is told the display options as they are configured, the kind of the text, the text
/// before any plugin ran, and the position and the edits of the hint.
pub proof fn law_context(
    config: Config,
    kind: TextKind,
    original: Seq<char>,
    position: Option<JsonModel>,
    text_edits: Option<JsonModel>,
)
    ensures
        context(config, kind, original, position, text_edits).verbosity == config.verbosity,
        context(config, kind, original, position, text_edits).unicode == config.unicode,
        context(config, kind, original, position, text_edits).kind == kind,
        context(config, kind, original, position, text_edits).original == original,
        context(config, kind, original, position, text_edits).position == position,
        context(config, kind, original, position, text_edits).text_edits == text_edits,
{
}

/// What a plugin is told of a hover text.
pub open spec fn told_of_hover(config: Config, text: Seq<char>) -> ContextModel {
    ContextModel {
        kind: TextKind::Hover,
        original: text,
        verbosity: config.verbosity,
        unicode: config.unicode,
        position: None,
        text_edits: None,
    }
}

/// What a plugin is told of a hint with the given text.
pub open spec fn told_of_hint(config: Config, hint: JsonModel, text: Seq<char>) -> ContextModel {
    ContextModel {
        kind: TextKind::InlayHint,
        original: text,
        verbosity: config.verbosity,
        unicode: config.unicode,
        position: hint.get("position"@),
        text_edits: hint.get("textEdits"@),
    }
}

/// A plugin is interested where it has no markers, or where one of them can be read in the
/// text.
pub proof fn law_interest(markers: Seq<Seq<char>>, text: Seq<char>, i: int, at: int)
    ensures
        markers.len() == 0 ==> interested(markers, text),
        0 <= i < markers.len() && 0 <= at && at + markers[i].len() <= text.len() && text.subrange(
            at,
            at + markers[i].len(),
        ) == markers[i] ==> interested(markers, text),
        interested(markers, text) && markers.len() > 0 ==> exists|k: int, from: int|
            0 <= k < markers.len() && #[trigger] occurs_at(text, markers[k], from),
        markers.len() == 1 ==> interested(markers, text) == contains(text, markers[0]),
{
    if 0 <= i < markers.len() && 0 <= at && at + markers[i].len() <= text.len() && text.subrange(
        at,
        at + markers[i].len(),
    ) == markers[i] {
        assert(occurs_at(text, markers[i], at));
    }
    if interested(markers, text) && markers.len() > 0 {
        let k = choose|k: int| 0 <= k < markers.len() && contains(text, #[trigger] markers[k]);
        let from = choose|from: int| occurs_at(text, markers[k], from);
        assert(occurs_at(text, markers[k], from));
    }
}

// ---- What becomes of an answer -------------------------------------------------

/// A chain without plugins leaves everything. One plugin that is interested answers for the
/// text: its text takes the place of the text, and its edits that of the edits so far, which
/// stay where it gives none. One that is not interested leaves both.
pub proof fn law_one_plugin(
    plugin: PluginModel,
    ctx: ContextModel,
    from: ChainModel,
    to: ChainModel,
)
    ensures
        chain_run(seq![], ctx, from, to) == (to == from),
        !interested(plugin.markers, from.text) ==> chain_run(seq![plugin], ctx, from, to) == (to
            == from),
        interested(plugin.markers, from.text) ==> chain_run(seq![plugin], ctx, from, to) == (exists|
            out: OutputModel,
        | #[trigger]
            plugin.may_return(from.text, ctx, out) && to.text == out.text && to.edits == (
            if out.text_edits is Some {
                out.text_edits
            } else {
                from.edits
            })),
{
    let one = seq![plugin];
    assert(one.drop_last() =~= seq![]);
    assert(one.last() == plugin);
    assert(chain_run(one.drop_last(), ctx, from, from));
    if chain_run(one, ctx, from, to) {
        let mid = choose|mid: ChainModel|
            chain_run(one.drop_last(), ctx, from, mid) && #[trigger] chain_step(
                one.last(),
                ctx,
                mid,
                to,
            );
        assert(chain_run(one.drop_last(), ctx, from, mid) == (mid == from));
        assert(chain_step(plugin, ctx, from, to));
    }
    if chain_step(plugin, ctx, from, to) {
        assert(chain_step(one.last(), ctx, from, to));
        assert(chain_run(one, ctx, from, to));
    }
    if interested(plugin.markers, from.text) && exists|out: OutputModel| #[trigger]
        plugin.may_return(from.text, ctx, out) && to.text == out.text && to.edits == (
        if out.text_edits is Some {
            out.text_edits
        } else {
            from.edits
        }) {
        let out = choose|out: OutputModel| #[trigger]
            plugin.may_return(from.text, ctx, out) && to.text == out.text && to.edits == (
            if out.text_edits is Some {
                out.text_edits
            } else {
                from.edits
            });
        assert(plugin.may_return(from.text, ctx, out) && to == absorbed(from, out));
    }
}

/// A hover text before any plugin ran is as it came, without edits; the plugins are told of it
/// as it came; and what they make of it is shown, with the raw section below it just where they
/// changed it.
pub proof fn law_hover_text(
    rewriter: RewriterModel,
    before: Seq<char>,
    after: Seq<char>,
    changed: bool,
)
    ensures
        hover_string_rewritten(rewriter, before, after, changed) == (exists|
            text: Seq<char>,
            edits: Option<Seq<JsonModel>>,
        |
            {
                &&& #[trigger] chain_run(
                    rewriter.plugins,
                    told_of_hover(rewriter.config, before),
                    ChainModel { text: before, edits: None },
                    ChainModel { text, edits },
                )
                &&& changed == (text != before)
                &&& text == before ==> after == before
                &&& text != before ==> after == text + (match raw_section(
                    before,
                    text,
                    rewriter.config.raw,
                ) {
                    Some(section) => section,
                    None => seq![],
                })
            }),
{
    let ctx = told_of_hover(rewriter.config, before);
    let from = ChainModel { text: before, edits: None };
    if hover_string_rewritten(rewriter, before, after, changed) {
        let run = choose|run: ChainModel| #[trigger]
            chain_run(
                rewriter.plugins,
                context(rewriter.config, TextKind::Hover, before, None, None),
                unrun(before),
                run,
            ) && after == finished_hover(before, run.text, rewriter.config.raw) && changed == (
            run.text != before);
        let text = run.text;
        let edits = run.edits;
        assert(run == ChainModel { text, edits });
        assert(chain_run(rewriter.plugins, ctx, from, ChainModel { text, edits }));
        assert(text + Seq::<char>::empty() =~= text);
    }
    if exists|text: Seq<char>, edits: Option<Seq<JsonModel>>|
        {
            &&& #[trigger] chain_run(rewriter.plugins, ctx, from, ChainModel { text, edits })
            &&& changed == (text != before)
            &&& text == before ==> after == before
            &&& text != before ==> after == text + (match raw_section(
                before,
                text,
                rewriter.config.raw,
            ) {
                Some(section) => section,
                None => seq![],
            })
        } {
        let (text, edits) = choose|text: Seq<char>, edits: Option<Seq<JsonModel>>|
            {
                &&& #[trigger] chain_run(rewriter.plugins, ctx, from, ChainModel { text, edits })
                &&& changed == (text != before)
                &&& text == before ==> after == before
                &&& text != before ==> after == text + (match raw_section(
                    before,
                    text,
                    rewriter.config.raw,
                ) {
                    Some(section) => section,
                    None => seq![],
                })
            };
        let run = ChainModel { text, edits };
        assert(text + Seq::<char>::empty() =~= text);
        assert(chain_run(
            rewriter.plugins,
            context(rewriter.config, TextKind::Hover, before, None, None),
            unrun(before),
            run,
        ));
    }
}

/// A hint goes through the plugins by its text, which they are told of together with its
/// position and its edits; it changed where the text did or where a plugin gave edits. A hint
/// without a text is left.
pub proof fn law_hint(
    rewriter: RewriterModel,
    before: JsonModel,
    after: JsonModel,
    changed: bool,
    text: Seq<char>,
)
    ensures
        hint_text(before) is None ==> hint_rewritten(rewriter, before, after, changed) == (after
            == before && !changed),
        hint_text(before) == Some(text) ==> hint_rewritten(rewriter, before, after, changed) == (
        exists|run: ChainModel| #[trigger]
            chain_run(
                rewriter.plugins,
                told_of_hint(rewriter.config, before, text),
                ChainModel { text, edits: None },
                run,
            ) && after == finished_hint(before, run) && changed == (run.text != text
                || run.edits is Some)),
{
}

// ---- Labels --------------------------------------------------------------------

/// The lengths of the values of some label parts, in sum.
pub open spec fn values_length(parts: Seq<JsonModel>) -> nat
    decreases parts.len(),
{
    if parts.len() == 0 {
        0
    } else {
        values_length(parts.drop_last()) + (match parts.last().get_str("value"@) {
            Some(value) => value.len(),
            None => 0,
        })
    }
}

proof fn lemma_parts_length(parts: Seq<JsonModel>)
    ensures
        parts_text(parts).len() == values_length(parts),
    decreases parts.len(),
{
    if parts.len() > 0 {
        lemma_parts_length(parts.drop_last());
    }
}

/// The text of some label parts is the values of the parts, character for character and one
/// after the other: that of two lists of parts is the text of the first and then that of the
/// second, and that of one part is its value. A part whose value is no string counts for
/// nothing.
pub proof fn law_parts(first: Seq<JsonModel>, second: Seq<JsonModel>, part: JsonModel)
    ensures
        parts_text(Seq::empty()) == Seq::<char>::empty(),
        part.get_str("value"@) matches Some(value) ==> parts_text(seq![part]) == value,
        part.get_str("value"@) is None ==> parts_text(seq![part]) == Seq::<char>::empty(),
        parts_text(first + second) == parts_text(first) + parts_text(second),
    decreases second.len(),
{
    let one = seq![part];
    assert(one.drop_last() =~= seq![]);
    assert(one.last() == part);
    let none = Seq::<char>::empty();
    assert(parts_text(one.drop_last()) =~= none);
    if let Some(value) = part.get_str("value"@) {
        assert(none + value =~= value);
    } else {
        assert(none + none =~= none);
    }
    if second.len() == 0 {
        assert(first + second =~= first);
        assert(parts_text(first) + parts_text(second) =~= parts_text(first));
    } else {
        assert((first + second).drop_last() =~= first + second.drop_last());
        assert((first + second).last() == second.last());
        law_parts(first, second.drop_last(), part);
        assert(parts_text(first + second) =~= parts_text(first) + parts_text(second));
    }
}

/// In the text of some label parts each value stands where the values before it end, and the
/// text is as long as they are together.
pub proof fn law_part_by_part(parts: Seq<JsonModel>, i: int, value: Seq<char>)
    requires
        0 <= i < parts.len(),
        parts[i].get_str("value"@) == Some(value),
    ensures
        parts_text(parts).len() == values_length(parts),
        values_length(parts.take(i)) + value.len() <= parts_text(parts).len(),
        parts_text(parts).subrange(
            values_length(parts.take(i)) as int,
            (values_length(parts.take(i)) + value.len()) as int,
        ) == value,
{
    let before = parts.take(i);
    let later = parts.skip(i + 1);
    lemma_parts_length(parts);
    lemma_parts_length(before);
    assert(parts =~= before + seq![parts[i]] + later);
    law_parts(before + seq![parts[i]], later, parts[i]);
    law_parts(before, seq![parts[i]], parts[i]);
    let text = parts_text(before) + value + parts_text(later);
    assert(parts_text(parts) == text);
    let at = values_length(before) as int;
    assert(text.subrange(at, at + value.len()) =~= value);
}

/// The text of a hint is its label where that is a string, and the text of the parts where it
/// is a list; a hint with another label, or none, has no text.
pub proof fn law_hint_text(hint: JsonModel, text: Seq<char>, parts: Seq<JsonModel>)
    ensures
        hint.get("label"@) == Some(JsonModel::Str(text)) ==> hint_text(hint) == Some(text),
        hint.get("label"@) == Some(JsonModel::Array(parts)) ==> hint_text(hint) == Some(
            parts_text(parts),
        ),
        (hint.get("label"@) matches Some(label) ==> !(label is Str) && !(label is Array))
            ==> hint_text(hint) is None,
        hint.get("label"@) == Some(JsonModel::Array(seq![])) ==> hint_text(hint) == Some(
            Seq::<char>::empty(),
        ),
        parts.len() == 1 && hint.get("label"@) == Some(JsonModel::Array(parts))
            && parts[0].get_str("value"@) == Some(text) ==> hint_text(hint) == Some(text),
{
    if parts.len() == 1 {
        assert(parts =~= seq![parts[0]]);
        law_parts(seq![], seq![], parts[0]);
    }
}

/// The location of some label parts is that of the first part that has one.
pub proof fn law_first_location(parts: Seq<JsonModel>, i: int)
    ensures
        0 <= i < parts.len() && parts[i].get("location"@) is Some && (forall|k: int|
            0 <= k < i ==> (#[trigger] parts[k]).get("location"@) is None) ==> first_location(parts)
            == parts[i].get("location"@),
        (forall|k: int| 0 <= k < parts.len() ==> (#[trigger] parts[k]).get("location"@) is None)
            ==> first_location(parts) is None,
    decreases parts.len(),
{
    if parts.len() > 0 {
        let front = parts.drop_last();
        law_first_location(front, i);
        assert forall|k: int| 0 <= k < front.len() implies front[k] == #[trigger] parts[k] by {}
        if 0 <= i < parts.len() && parts[i].get("location"@) is Some && (forall|k: int|
            0 <= k < i ==> (#[trigger] parts[k]).get("location"@) is None) {
            if i < front.len() {
                assert(front[i] == parts[i]);
                assert forall|k: int| 0 <= k < i implies (#[trigger] front[k]).get(
                    "location"@,
                ) is None by {
                    assert(front[k] == parts[k]);
                }
            } else {
                assert forall|k: int| 0 <= k < front.len() implies (#[trigger] front[k]).get(
                    "location"@,
                ) is None by {
                    assert(front[k] == parts[k]);
                }
            }
        }
        if forall|k: int| 0 <= k < parts.len() ==> (#[trigger] parts[k]).get("location"@) is None {
            assert forall|k: int| 0 <= k < front.len() implies (#[trigger] front[k]).get(
                "location"@,
            ) is None by {
                assert(front[k] == parts[k]);
            }
            assert(parts.last() == parts[parts.len() - 1]);
        }
    }
}

/// A hint after the plugins. Its label is as it was where the text is; else it is a string where
/// it was one, and where it was a list a single part with the new text and the first location,
/// and nothing else. Its edits are those that a plugin gave, else as they were.
pub proof fn law_finished_hint(hint: JsonModel, run: ChainModel, key: Seq<char>)
    ensures
        hint_text(hint) == Some(run.text) ==> finished_hint(hint, run).get("label"@) == hint.get(
            "label"@,
        ),
        hint_text(hint) != Some(run.text) && hint.get("label"@) is Some && !(hint.get("label"@)->0
            is Array) ==> finished_hint(hint, run).get("label"@) == Some(JsonModel::Str(run.text)),
        hint_text(hint) != Some(run.text) ==> (hint.get("label"@) matches Some(
            JsonModel::Array(parts),
        ) ==> {
            let label = finished_hint(hint, run).get("label"@)->0;
            let part = label->Array_0[0];
            &&& finished_hint(hint, run).get("label"@) is Some
            &&& label is Array
            &&& label->Array_0.len() == 1
            &&& part.get("value"@) == Some(JsonModel::Str(run.text))
            &&& part.get("location"@) == first_location(parts)
            &&& key != "value"@ && key != "location"@ ==> part.get(key) is None
        }),
        run.edits is None ==> finished_hint(hint, run).get("textEdits"@) == hint.get("textEdits"@),
        run.edits matches Some(edits) ==> finished_hint(hint, run).get("textEdits"@) == Some(
            JsonModel::Array(edits),
        ),
{
    reveal_strlit("label");
    reveal_strlit("textEdits");
    reveal_strlit("value");
    reveal_strlit("location");
    assert("label"@.len() == 5 && "textEdits"@.len() == 9);
    assert("value"@.len() == 5 && "location"@.len() == 8);
}

// ---- Results -------------------------------------------------------------------

/// Hover contents keep their shape: a string becomes a string by its text, an object gets a new
/// `value` where that is a string and keeps all else, and whatever is neither of these nor a
/// list is left.
pub proof fn law_hover_shapes(
    rewriter: RewriterModel,
    before: JsonModel,
    after: JsonModel,
    changed: bool,
    text: Seq<char>,
    new: Seq<char>,
    key: Seq<char>,
)
    ensures
        hover_contents_rewritten(
            rewriter,
            JsonModel::Str(text),
            JsonModel::Str(new),
            changed,
        ) == hover_string_rewritten(rewriter, text, new, changed),
        hover_contents_rewritten(rewriter, JsonModel::Str(text), after, changed) ==> after is Str,
        before is Object && before.get_str("value"@) == Some(text) && hover_contents_rewritten(
            rewriter,
            before,
            after,
            changed,
        ) ==> {
            &&& after.get_str("value"@) is Some
            &&& hover_string_rewritten(rewriter, text, after.get_str("value"@)->0, changed)
            &&& key != "value"@ ==> after.get(key) == before.get(key)
        },
        before is Object && before.get_str("value"@) is None && hover_contents_rewritten(
            rewriter,
            before,
            after,
            changed,
        ) ==> after == before && !changed,
        (before is Null || before is Bool || before is Number) && hover_contents_rewritten(
            rewriter,
            before,
            after,
            changed,
        ) ==> after == before && !changed,
{
    if hover_string_rewritten(rewriter, text, new, changed) {
        assert(hover_contents_rewritten(
            rewriter,
            JsonModel::Str(text),
            JsonModel::Str(new),
            changed,
        ));
    }
}

/// A list of hover contents, and a list of hints, keeps its length and its order; each item is
/// rewritten by itself, and the list changed where one of them did.
pub proof fn law_lists_item_by_item(
    rewriter: RewriterModel,
    items: Seq<JsonModel>,
    after: JsonModel,
    changed: bool,
)
    ensures
        hover_contents_rewritten(rewriter, JsonModel::Array(items), after, changed) ==> {
            &&& after is Array
            &&& after->Array_0.len() == items.len()
            &&& forall|i: int|
                0 <= i < items.len() ==> hover_contents_rewritten(
                    rewriter,
                    #[trigger] items[i],
                    after->Array_0[i],
                    true,
                ) || hover_contents_rewritten(rewriter, items[i], after->Array_0[i], false)
            &&& changed ==> exists|i: int|
                0 <= i < items.len() && hover_contents_rewritten(
                    rewriter,
                    #[trigger] items[i],
                    after->Array_0[i],
                    true,
                )
            &&& !changed ==> forall|i: int|
                0 <= i < items.len() ==> hover_contents_rewritten(
                    rewriter,
                    #[trigger] items[i],
                    after->Array_0[i],
                    false,
                )
        },
        result_rewritten(rewriter, JsonModel::Array(items), after, changed) ==> {
            &&& after is Array
            &&& after->Array_0.len() == items.len()
            &&& forall|i: int|
                0 <= i < items.len() ==> hint_rewritten(
                    rewriter,
                    #[trigger] items[i],
                    after->Array_0[i],
                    true,
                ) || hint_rewritten(rewriter, items[i], after->Array_0[i], false)
            &&& changed ==> exists|i: int|
                0 <= i < items.len() && hint_rewritten(
                    rewriter,
                    #[trigger] items[i],
                    after->Array_0[i],
                    true,
                )
            &&& !changed ==> forall|i: int|
                0 <= i < items.len() ==> hint_rewritten(
                    rewriter,
                    #[trigger] items[i],
                    after->Array_0[i],
                    false,
                )
        },
{
    if hover_contents_rewritten(rewriter, JsonModel::Array(items), after, changed) {
        let news = after->Array_0;
        let flags = choose|flags: Seq<bool>|
            {
                &&& flags.len() == items.len()
                &&& changed == #[trigger] flags.contains(true)
                &&& forall|i: int|
                    0 <= i < items.len() ==> hover_contents_rewritten(
                        rewriter,
                        #[trigger] items[i],
                        news[i],
                        flags[i],
                    )
            };
        assert forall|i: int| 0 <= i < items.len() implies hover_contents_rewritten(
            rewriter,
            #[trigger] items[i],
            news[i],
            true,
        ) || hover_contents_rewritten(rewriter, items[i], news[i], false) by {
            assert(hover_contents_rewritten(rewriter, items[i], news[i], flags[i]));
        }
        if changed {
            let i = choose|i: int| 0 <= i < flags.len() && flags[i] == true;
            assert(hover_contents_rewritten(rewriter, items[i], news[i], flags[i]));
        } else {
            assert forall|i: int| 0 <= i < items.len() implies hover_contents_rewritten(
                rewriter,
                #[trigger] items[i],
                news[i],
                false,
            ) by {
                assert(hover_contents_rewritten(rewriter, items[i], news[i], flags[i]));
                if flags[i] {
                    assert(flags.contains(true));
                }
            }
        }
    }
    if result_rewritten(rewriter, JsonModel::Array(items), after, changed) {
        let news = after->Array_0;
        let flags = choose|flags: Seq<bool>|
            {
                &&& flags.len() == items.len()
                &&& changed == #[trigger] flags.contains(true)
                &&& forall|i: int|
                    0 <= i < items.len() ==> hint_rewritten(
                        rewriter,
                        #[trigger] items[i],
                        news[i],
                        flags[i],
                    )
            };
        assert forall|i: int| 0 <= i < items.len() implies hint_rewritten(
            rewriter,
            #[trigger] items[i],
            news[i],
            true,
        ) || hint_rewritten(rewriter, items[i], news[i], false) by {
            assert(hint_rewritten(rewriter, items[i], news[i], flags[i]));
        }
        if changed {
            let i = choose|i: int| 0 <= i < flags.len() && flags[i] == true;
            assert(hint_rewritten(rewriter, items[i], news[i], flags[i]));
        } else {
            assert forall|i: int| 0 <= i < items.len() implies hint_rewritten(
                rewriter,
                #[trigger] items[i],
                news[i],
                false,
            ) by {
                assert(hint_rewritten(rewriter, items[i], news[i], flags[i]));
                if flags[i] {
                    assert(flags.contains(true));
                }
            }
        }
    }
}

/// A result with `contents` is a hover, and its contents are rewritten; one without, but with a
/// `label`, is a hint; any other object, and what is no object and no list, is left.
pub proof fn law_kinds_of_results(
    rewriter: RewriterModel,
    before: JsonModel,
    after: JsonModel,
    changed: bool,
    contents: JsonModel,
)
    requires
        !(before is Array),
        result_rewritten(rewriter, before, after, changed),
    ensures
        before.get("contents"@) == Some(contents) ==> after.get("contents"@) is Some
            && hover_contents_rewritten(rewriter, contents, after.get("contents"@)->0, changed),
        before.get("contents"@) is None && before.get("label"@) is Some ==> hint_rewritten(
            rewriter,
            before,
            after,
            changed,
        ),
        before.get("contents"@) is None && before.get("label"@) is None ==> after == before
            && !changed,
{
}

/// A response that counts and that a plugin cares about goes on with its result rewritten, and
/// all else as it was, where that changed it; else it goes on as it is.
pub proof fn law_rewritten_response(
    rewriter: RewriterModel,
    ids: Set<i64>,
    message: Seq<char>,
    json: Seq<char>,
    msg: JsonModel,
    result: JsonModel,
    out: Seq<char>,
)
    requires
        payload_of(message) == Some(json),
        json_parse(json) == Some(msg),
        msg.get("result"@) == Some(result),
        claimed_id(ids, message) is Some,
        exists|i: int|
            0 <= i < rewriter.plugins.len() && interested(
                (#[trigger] rewriter.plugins[i]).markers,
                json,
            ),
    ensures
        incoming_rewritten(rewriter, ids, message, out) ==> exists|new: JsonModel, changed: bool|
         #[trigger]
            result_rewritten(rewriter, result, new, changed) && (!changed ==> out == message) && (
            changed ==> out == framed(json_text(msg.with("result"@, new)))),
{
    if incoming_rewritten(rewriter, ids, message, out) {
        assert(any_interested(rewriter.plugins, json));
        assert(response_rewritten(rewriter, message, json, out));
        let (new, changed) = choose|new: JsonModel, changed: bool| #[trigger]
            result_rewritten(rewriter, result, new, changed) && if changed {
                carries(out, msg.with("result"@, new))
            } else {
                out == message
            };
        assert(result_rewritten(rewriter, result, new, changed));
    }
}

/// A response without a result, such as an error, one that is no JSON and one that no plugin
/// cares about go on as they are, whatever the plugins are.
pub proof fn law_nothing_to_rewrite(
    rewriter: RewriterModel,
    ids: Set<i64>,
    message: Seq<char>,
    json: Seq<char>,
    out: Seq<char>,
)
    requires
        incoming_rewritten(rewriter, ids, message, out),
        payload_of(message) == Some(json),
        ({
            ||| json_parse(json) is None
            ||| json_parse(json)->0.get("result"@) is None
            ||| forall|i: int|
                0 <= i < rewriter.plugins.len() ==> !interested(
                    (#[trigger] rewriter.plugins[i]).markers,
                    json,
                )
        }),
    ensures
        out == message,
{
}

/// What a message says is the JSON of its payload.
pub proof fn law_what_a_message_says(message: Seq<char>, json: Seq<char>)
    ensures
        payload_of(message) == Some(json) ==> message_value(message) == json_parse(json),
        payload_of(message) is None ==> message_value(message) is None,
        message_value(framed(json)) == json_parse(json),
{
    law_payload_of_frame(json);
}

// ---- Which responses count -----------------------------------------------------

/// The responses to three kinds of request are rewritten.
pub proof fn law_three_methods(method: Seq<char>)
    ensures
        tracked_methods().contains(method) == (method == "textDocument/hover"@ || method
            == "textDocument/inlayHint"@ || method == "inlayHint/resolve"@),
{
    let all = tracked_methods();
    assert(all[0] == "textDocument/hover"@);
    assert(all[1] == "textDocument/inlayHint"@);
    assert(all[2] == "inlayHint/resolve"@);
    assert(all.len() == 3);
}

/// A request of one of these methods, in whose text the method can be read, is awaited under its
/// integer id, with those that were awaited before it unless there are too many; nothing else
/// is.
pub proof fn law_awaited(
    ids: Set<i64>,
    message: Seq<char>,
    json: Seq<char>,
    v: JsonModel,
    method: Seq<char>,
    id: i64,
)
    requires
        payload_of(message) == Some(json),
        json_parse(json) == Some(v),
    ensures
        tracked_methods().contains(method) && v.get_str("method"@) == Some(method) && v.get(
            "id"@,
        ) is Some && v.get("id"@)->0.as_i64() == Some(id) && contains(json, method) && ids.finite()
            && ids.len() < 4096 ==> ids_after_outgoing(ids, message) == ids.insert(id),
        tracked_methods().contains(method) && v.get_str("method"@) == Some(method) && v.get(
            "id"@,
        ) is Some && v.get("id"@)->0.as_i64() == Some(id) && contains(json, method) && ids.len()
            >= 4096 ==> ids_after_outgoing(ids, message) == set![id],
        (v.get_str("method"@) is None || !tracked_methods().contains(v.get_str("method"@)->0))
            ==> ids_after_outgoing(ids, message) == ids,
        (v.get("id"@) is None || v.get("id"@)->0.as_i64() is None) ==> ids_after_outgoing(
            ids,
            message,
        ) == ids,
        !contains(json, "textDocument/hover"@) && !contains(json, "textDocument/inlayHint"@)
            && !contains(json, "inlayHint/resolve"@) ==> ids_after_outgoing(ids, message) == ids,
{
    if tracked_methods().contains(method) && contains(json, method) {
        let all = tracked_methods();
        let i = choose|i: int| 0 <= i < all.len() && all[i] == method;
        assert(contains(json, all[i]));
        assert(mentions_tracked(json));
    }
    if mentions_tracked(json) {
        let all = tracked_methods();
        let i = choose|i: int| 0 <= i < all.len() && contains(json, #[trigger] all[i]);
        assert(all.contains(all[i]));
        law_three_methods(all[i]);
    }
}

/// A response under an awaited id counts, and is then no longer awaited; the others still are.
pub proof fn law_claimed(
    ids: Set<i64>,
    message: Seq<char>,
    json: Seq<char>,
    v: JsonModel,
    id: i64,
    other: i64,
)
    requires
        payload_of(message) == Some(json),
        json_parse(json) == Some(v),
        v.get("method"@) is None,
        v.get("id"@) is Some,
        v.get("id"@)->0.as_i64() == Some(id),
        response_id(json) == Some(id),
    ensures
        ids.contains(id) ==> claimed_id(ids, message) == Some(id),
        !ids.contains(id) ==> claimed_id(ids, message) is None,
        !ids_after_incoming(ids, message).contains(id),
        other != id ==> ids_after_incoming(ids, message).contains(other) == ids.contains(other),
{
}

/// Only a response under the very id counts: what has a method, or whose own id is no number or
/// is another integer, claims nothing, whatever can be read in its text.
pub proof fn law_only_the_response_claims(
    ids: Set<i64>,
    message: Seq<char>,
    v: JsonModel,
    id: i64,
)
    requires
        message_value(message) == Some(v),
        claimed_id(ids, message) == Some(id),
    ensures
        ids.contains(id),
        v.get("method"@) is None,
        v.get("id"@) matches Some(own) && own is Number && (own.as_i64() is None || own.as_i64()
            == Some(id)),
{
}

// ---- The raw section -----------------------------------------------------------

/// A line of the original is shown in the raw section just where it holds something, and what
/// it holds can no longer be read in the new text; the lines that are shown are lines of the
/// original.
pub proof fn law_lost_lines(original: Seq<char>, transformed: Seq<char>, line: Seq<char>)
    ensures
        lost_lines(original, transformed).contains(line) == (lines(original).contains(line) && trim(
            line,
        ).len() > 0 && !contains(transformed, trim(line))),
        lost_lines(original, transformed).len() <= lines(original).len(),
{
    let keep = |l: Seq<char>| rewritten_away(l, transformed);
    let all = lines(original);
    let lost = lost_lines(original, transformed);
    all.lemma_filter_len(keep);
    if lost.contains(line) {
        all.lemma_filter_contains_rev(keep, line);
        let i = choose|i: int| 0 <= i < lost.len() && lost[i] == line;
        all.lemma_filter_pred(keep, i);
    }
    if all.contains(line) && keep(line) {
        let i = choose|i: int| 0 <= i < all.len() && all[i] == line;
        all.lemma_filter_contains(keep, i);
    }
}

/// The lost lines come in their order, each as often as it stands in the original.
pub proof fn law_lost_lines_in_order(line: Seq<char>, rest: Seq<char>, transformed: Seq<char>)
    requires
        !line.contains('\n'),
        line.len() == 0 || line.last() != '\r',
    ensures
        lost_lines(line + seq!['\n'] + rest, transformed) == (if trim(line).len() > 0
            && !contains(transformed, trim(line)) {
            seq![line]
        } else {
            seq![]
        }) + lost_lines(rest, transformed),
{
    crate::text_laws::law_lines(line, rest);
    let keep = |l: Seq<char>| rewritten_away(l, transformed);
    let one = seq![line];
    Seq::filter_distributes_over_add(one, lines(rest), keep);
    reveal_with_fuel(Seq::filter, 2);
    assert(one.drop_last() =~= seq![]);
    assert(one.last() == line);
    assert(one.filter(keep) =~= (if keep(line) {
        one
    } else {
        seq![]
    }));
}

/// The raw section shows the lost lines, one below the other, or the original without the white
/// space around it where no line was lost. There is none where it is switched off or where
/// there is nothing to show.
pub proof fn law_raw_section(original: Seq<char>, transformed: Seq<char>, raw: RawConfig)
    ensures
        !raw.enabled ==> raw_section(original, transformed, raw) is None,
        lost_lines(original, transformed).len() == 0 ==> raw_body(original, transformed) == trim(
            original,
        ),
        lost_lines(original, transformed).len() > 0 ==> raw_body(original, transformed) == joined(
            lost_lines(original, transformed),
            seq!['\n'],
        ),
        raw.enabled && trim(raw_body(original, transformed)).len() == 0 ==> raw_section(
            original,
            transformed,
            raw,
        ) is None,
        raw.enabled && trim(raw_body(original, transformed)).len() > 0 ==> raw_section(
            original,
            transformed,
            raw,
        ) == Some(raw_frame(raw_body(original, transformed), raw)),
{
    reveal_strlit("\n");
    assert("\n"@ =~= seq!['\n']);
}

/// The raw section starts with an empty line and ends with the body, in a fence of the language
/// where there is one. Before that stand a rule and the label where they are asked for, each
/// with an empty line below it.
pub proof fn law_raw_frame(body: Seq<char>, raw: RawConfig, lang: String)
    ensures
        !raw.separator && raw.label@.len() == 0 && raw.fence is None ==> raw_frame(body, raw)
            == "\n\n"@ + body,
        !raw.separator && raw.label@.len() == 0 && raw.fence == Some(lang) ==> raw_frame(body, raw)
            == "\n\n```"@ + lang@ + "\n"@ + body + "\n```"@,
        !raw.separator && raw.label@.len() > 0 && raw.fence is None ==> raw_frame(body, raw)
            == "\n\n"@ + raw.label@ + "\n\n"@ + body,
        !raw.separator && raw.label@.len() > 0 && raw.fence == Some(lang) ==> raw_frame(body, raw)
            == "\n\n"@ + raw.label@ + "\n\n```"@ + lang@ + "\n"@ + body + "\n```"@,
        raw_frame(body, RawConfig { separator: true, ..raw }) == "\n\n---"@ + raw_frame(
            body,
            RawConfig { separator: false, ..raw },
        ),
{
    reveal_strlit("\n\n");
    reveal_strlit("```");
    reveal_strlit("\n\n```");
    reveal_strlit("---\n\n");
    reveal_strlit("\n\n---");
    assert("\n\n```"@ =~= "\n\n"@ + "```"@);
    assert("\n\n"@ + "---\n\n"@ =~= "\n\n---"@ + "\n\n"@);
    let none = Seq::<char>::empty();
    if raw.label@.len() == 0 && raw.fence is None {
        assert("\n\n"@ + none + none + body =~= "\n\n"@ + body);
    }
    if raw.label@.len() == 0 && raw.fence == Some(lang) {
        assert("\n\n"@ + none + none + ("```"@ + lang@ + "\n"@ + body + "\n```"@) =~= "\n\n```"@
            + lang@ + "\n"@ + body + "\n```"@);
    }
    if raw.label@.len() > 0 && raw.fence is None {
        assert("\n\n"@ + none + (raw.label@ + "\n\n"@) + body =~= "\n\n"@ + raw.label@ + "\n\n"@
            + body);
    }
    if raw.label@.len() > 0 && raw.fence == Some(lang) {
        assert("\n\n"@ + none + (raw.label@ + "\n\n"@) + ("```"@ + lang@ + "\n"@ + body + "\n```"@)
            =~= "\n\n"@ + raw.label@ + "\n\n```"@ + lang@ + "\n"@ + body + "\n```"@);
    }
    let plain = RawConfig { separator: false, ..raw };
    let ruled = RawConfig { separator: true, ..raw };
    let header = if raw.label@.len() > 0 {
        raw.label@ + "\n\n"@
    } else {
        none
    };
    let block = match raw.fence {
        Some(l) => "```"@ + l@ + "\n"@ + body + "\n```"@,
        None => body,
    };
    assert(raw_frame(body, plain) == "\n\n"@ + none + header + block);
    assert(raw_frame(body, ruled) == "\n\n"@ + "---\n\n"@ + header + block);
    assert("\n\n"@ + "---\n\n"@ + header + block =~= "\n\n---"@ + ("\n\n"@ + none + header
        + block));
}

} // verus!
