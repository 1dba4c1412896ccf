//! What a plugin is.
//!
//! A plugin teaches the proxy how one library's types should be displayed. Several
//! plugins compose: every rewritable string runs through each interested plugin in turn.
use std::borrow::Cow;
use vstd::prelude::*;

use crate::json::{models, opt_ref, Json, JsonModel};
use crate::text::{contains, contains_text};

verus! {

/// Where a piece of text came from in the LSP stream.
#[derive(Debug, Clone, Copy, PartialEq, Eq, Structural)]
pub enum TextKind {
    /// A hover tooltip body.
    Hover,
    /// An inlay-hint label.
    InlayHint,
    /// A diagnostic message body.
    Diagnostic,
    /// Any other rewritable string.
    Other,
}

/// Context handed to a plugin for a single rewrite.
pub struct TransformContext<'a> {
    /// What kind of text is being transformed.
    pub kind: TextKind,
    /// The text before any plugin ran; it never changes within a chain.
    pub original: &'a str,
    /// Verbosity requested by the user (0 = terse, higher = more detail).
    pub verbosity: u8,
    /// Whether unicode symbols are allowed in output.
    pub unicode: bool,
    /// The `position` of an inlay hint.
    pub position: Option<&'a Json>,
    /// The existing `textEdits` of an inlay hint.
    pub text_edits: Option<&'a Json>,
}

/// What a context says.
#[verifier::ext_equal]
pub struct ContextModel {
    pub kind: TextKind,
    pub original: Seq<char>,
    pub verbosity: u8,
    pub unicode: bool,
    pub position: Option<JsonModel>,
    pub text_edits: Option<JsonModel>,
}

impl<'a> View for TransformContext<'a> {
    type V = ContextModel;

    open spec fn view(&self) -> ContextModel {
        ContextModel {
            kind: self.kind,
            original: self.original@,
            verbosity: self.verbosity,
            unicode: self.unicode,
            position: opt_ref(self.position),
            text_edits: opt_ref(self.text_edits),
        }
    }
}

/// The result of a single [`Plugin::transform`].
pub struct TransformOutput<'a> {
    /// The rewritten text. `Cow::Borrowed` of the input means "no change".
    pub text: Cow<'a, str>,
    /// Replacement `textEdits` of an inlay hint. `None` leaves the existing edits untouched.
    pub text_edits: Option<Vec<Json>>,
}

/// What an output says: the text, and the edits that take the place of the old ones, if any.
#[verifier::ext_equal]
pub struct OutputModel {
    pub text: Seq<char>,
    pub text_edits: Option<Seq<JsonModel>>,
}

/// An output that changes nothing about a text.
pub open spec fn no_change(text: Seq<char>) -> OutputModel {
    OutputModel { text, text_edits: None }
}

/// What an optional list of JSON values is.
pub open spec fn opt_models(items: Option<Vec<Json>>) -> Option<Seq<JsonModel>> {
    match items {
        Some(list) => Some(models(list@)),
        None => None,
    }
}

impl<'a> View for TransformOutput<'a> {
    type V = OutputModel;

    open spec fn view(&self) -> OutputModel {
        OutputModel { text: self.text@, text_edits: opt_models(self.text_edits) }
    }
}

/// A string, borrowed or owned, that can be the text of an output.
pub trait IntoText<'a>: Sized {
    /// The characters of the string.
    spec fn chars(self) -> Seq<char>;

    /// The string as an output holds it.
    fn into_cow(self) -> (text: Cow<'a, str>)
        ensures
            text@ == self.chars(),
    ;
}

impl<'a> IntoText<'a> for &'a str {
    open spec fn chars(self) -> Seq<char> {
        self@
    }

    fn into_cow(self) -> (text: Cow<'a, str>) {
        Cow::Borrowed(self)
    }
}

impl<'a> IntoText<'a> for &'a String {
    open spec fn chars(self) -> Seq<char> {
        self@
    }

    fn into_cow(self) -> (text: Cow<'a, str>) {
        Cow::Borrowed(self.as_str())
    }
}

impl<'a> IntoText<'a> for String {
    open spec fn chars(self) -> Seq<char> {
        self@
    }

    fn into_cow(self) -> (text: Cow<'a, str>) {
        Cow::Owned(self)
    }
}

impl<'a> IntoText<'a> for Cow<'a, str> {
    open spec fn chars(self) -> Seq<char> {
        self@
    }

    fn into_cow(self) -> (text: Cow<'a, str>) {
        self
    }
}

impl<'a> TransformOutput<'a> {
    /// No change: borrow the input and attach no edits.
    pub fn unchanged(text: &'a str) -> (out: Self)
        ensures
            out.text == Cow::<'a, str>::Borrowed(text),
            out@ == no_change(text@),
    {
        TransformOutput { text: Cow::Borrowed(text), text_edits: None }
    }

    /// Just a rewritten string, no structured edits.
    pub fn text<T: IntoText<'a>>(text: T) -> (out: Self)
        ensures
            out@ == no_change(text.chars()),
    {
        TransformOutput { text: text.into_cow(), text_edits: None }
    }
}

/// The texts of a list of markers.
pub open spec fn marker_texts(markers: Seq<Cow<'static, str>>) -> Seq<Seq<char>> {
    markers.map_values(|m: Cow<'static, str>| m@)
}

/// A composable type pretty-printer.
///
/// What a plugin answers is its own business: [`Plugin::may_return`] relates the text and
/// the context that it was given to the outputs that it can give back. A plugin that does not
/// say so can answer anything.
///
/// [`Plugin::name_text`] and [`Plugin::marker_list`] are for a plugin to give. One that keeps
/// the defaults gives nothing: they are one unknown text and one unknown list, the same for
/// every such plugin, so what is proved by way of its name or its markers holds of it only as
/// far as they are those.
pub trait Plugin: Send + Sync {
    /// The name of the plugin.
    open spec fn name_text(&self) -> Seq<char> {
        arbitrary()
    }

    /// The markers of the plugin.
    open spec fn marker_list(&self) -> Seq<Seq<char>> {
        arbitrary()
    }

    /// Whether the plugin can answer `out` for `text` in the context `ctx`.
    open spec fn may_return(&self, text: Seq<char>, ctx: ContextModel, out: OutputModel) -> bool {
        true
    }

    /// Stable identifier, used for logging and config.
    fn name(&self) -> (name: &str)
        ensures
            name@ == self.name_text(),
    ;

    /// Cheap substrings that indicate that this plugin *might* be interested in a message.
    /// No markers at all means that every message is of interest.
    fn markers(&self) -> (markers: &[Cow<'static, str>])
        ensures
            marker_texts(markers@) == self.marker_list(),
    ;

    /// Rewrite one span of text, optionally attaching replacement `textEdits`.
    fn transform<'a>(&self, text: &'a str, ctx: &TransformContext<'_>) -> (out: TransformOutput<'a>)
        ensures
            self.may_return(text@, ctx@, out@),
    ;
}

/// What a plugin is: its name, its markers, and the answers that it can give.
pub struct PluginModel {
    pub name: Seq<char>,
    pub markers: Seq<Seq<char>>,
    pub answers: spec_fn(Seq<char>, ContextModel, OutputModel) -> bool,
}

impl PluginModel {
    /// Whether the plugin can answer `out` for `text` in the context `ctx`.
    pub open spec fn may_return(self, text: Seq<char>, ctx: ContextModel, out: OutputModel) -> bool {
        (self.answers)(text, ctx, out)
    }
}

/// What the plugins of a list are.
pub open spec fn plugin_models(plugins: Seq<Box<dyn Plugin>>) -> Seq<PluginModel> {
    Seq::new(
        plugins.len(),
        |i: int|
            PluginModel {
                name: plugins[i].name_text(),
                markers: plugins[i].marker_list(),
                answers: |text: Seq<char>, ctx: ContextModel, out: OutputModel|
                    plugins[i].may_return(text, ctx, out),
            },
    )
}

/// One of the markers stands in the payload, or there are none.
pub open spec fn interested(markers: Seq<Seq<char>>, payload: Seq<char>) -> bool {
    markers.len() == 0 || exists|i: int|
        0 <= i < markers.len() && contains(payload, #[trigger] markers[i])
}

/// Does any marker for this plugin appear in `payload`?
pub fn plugin_is_interested<P: Plugin + ?Sized>(plugin: &P, payload: &str) -> (yes: bool)
    ensures
        yes == interested(plugin.marker_list(), payload@),
{
    let markers = plugin.markers();
    if markers.len() == 0 {
        return true;
    }
    let mut i: usize = 0;
    while i < markers.len()
        invariant
            i <= markers@.len(),
            marker_texts(markers@) == plugin.marker_list(),
            forall|j: int| 0 <= j < i ==> !contains(payload@, #[trigger] markers@[j]@),
        decreases markers@.len() - i,
    {
        let marker: &str = match &markers[i] {
            Cow::Borrowed(m) => m,
            Cow::Owned(m) => m.as_str(),
        };
        if contains_text(payload, marker) {
            assert(marker_texts(markers@)[i as int] == markers@[i as int]@);
            return true;
        }
        i = i + 1;
    }
    assert forall|j: int| 0 <= j < marker_texts(markers@).len() implies !contains(
        payload@,
        #[trigger] marker_texts(markers@)[j],
    ) by {
        assert(marker_texts(markers@)[j] == markers@[j]@);
    }
    false
}

} // verus!
