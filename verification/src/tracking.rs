//! Which responses carry text to rewrite: the ids of the hover and inlay-hint requests that
//! are in flight.
use std::collections::HashSet;
use vstd::prelude::*;

use crate::json::{json_parse, parse_json};
use crate::number::{digits_value, is_digit, read_digits};
use crate::text::{
    chars_of, contains, contains_text, find, find_chars, lemma_find_first, same_text, skip_space,
    trim_start,
};

verus! {

broadcast use vstd::std_specs::hash::group_hash_axioms;

/// Cap on outstanding tracked request ids, to bound memory if some requests never receive a
/// response.
pub const MAX_PENDING: usize = 4096;

/// LSP request methods whose *responses* carry type text to rewrite.
pub open spec fn tracked_methods() -> Seq<Seq<char>> {
    seq!["textDocument/hover"@, "textDocument/inlayHint"@, "inlayHint/resolve"@]
}

/// Whether the responses to requests of this method carry type text to rewrite.
pub fn is_tracked(method: &str) -> (yes: bool)
    ensures
        yes == tracked_methods().contains(method@),
{
    let ghost all = tracked_methods();
    assert(all[0] == "textDocument/hover"@ && all[1] == "textDocument/inlayHint"@ && all[2]
        == "inlayHint/resolve"@);
    same_text(method, "textDocument/hover") || same_text(method, "textDocument/inlayHint")
        || same_text(method, "inlayHint/resolve")
}

/// The payload mentions one of the tracked methods.
pub open spec fn mentions_tracked(payload: Seq<char>) -> bool {
    exists|i: int|
        0 <= i < tracked_methods().len() && contains(payload, #[trigger] tracked_methods()[i])
}

fn mentions_tracked_method(payload: &str) -> (yes: bool)
    ensures
        yes == mentions_tracked(payload@),
{
    let ghost all = tracked_methods();
    assert(all[0] == "textDocument/hover"@ && all[1] == "textDocument/inlayHint"@ && all[2]
        == "inlayHint/resolve"@);
    contains_text(payload, "textDocument/hover") || contains_text(payload, "textDocument/inlayHint")
        || contains_text(payload, "inlayHint/resolve")
}

/// The id of a tracked request: the payload mentions a tracked method, and it is JSON with
/// that method and with an integer for its id.
pub open spec fn tracked_id(payload: Seq<char>) -> Option<i64> {
    if mentions_tracked(payload) {
        match json_parse(payload) {
            Some(v) => match (v.get("id"@), v.get_str("method"@)) {
                (Some(id), Some(method)) => if tracked_methods().contains(method) {
                    id.as_i64()
                } else {
                    None
                },
                _ => None,
            },
            None => None,
        }
    } else {
        None
    }
}

/// The id under which the response to this request will carry type text to rewrite, if it is
/// such a request. The cheap search comes before the parse.
pub fn request_to_track(payload: &str) -> (id: Option<i64>)
    ensures
        id == tracked_id(payload@),
{
    if !mentions_tracked_method(payload) {
        return None;
    }
    match parse_json(payload) {
        Some(v) => match (v.get("id"), v.get_str("method")) {
            (Some(id), Some(method)) => if is_tracked(method) {
                id.as_i64()
            } else {
                None
            },
            _ => None,
        },
        None => None,
    }
}

/// How many digits stand at the start of a text.
pub open spec fn leading_digits(text: Seq<char>) -> nat
    decreases text.len(),
{
    if text.len() > 0 && is_digit(text[0]) {
        1 + leading_digits(text.drop_first())
    } else {
        0
    }
}

/// There are no more leading digits than characters, and they are digits.
proof fn lemma_leading_digits(text: Seq<char>)
    ensures
        leading_digits(text) <= text.len(),
        forall|i: int| 0 <= i < leading_digits(text) ==> is_digit(#[trigger] text[i]),
    decreases text.len(),
{
    if text.len() > 0 && is_digit(text[0]) {
        let rest = text.drop_first();
        lemma_leading_digits(rest);
        assert forall|i: int| 0 <= i < leading_digits(text) implies is_digit(
            #[trigger] text[i],
        ) by {
            if i > 0 {
                assert(text[i] == rest[i - 1]);
            }
        }
    }
}

/// The integer at the start of a text, where there is one in the range of `i64`.
pub open spec fn leading_integer(text: Seq<char>) -> Option<i64> {
    let negative = text.len() > 0 && text[0] == '-';
    let digits = if negative {
        text.drop_first()
    } else {
        text
    };
    let count = leading_digits(digits) as int;
    let size = digits_value(digits.take(count)) as int;
    let value = if negative {
        -size
    } else {
        size
    };
    if count > 0 && i64::MIN <= value <= i64::MAX {
        Some(value as i64)
    } else {
        None
    }
}

/// The integer that follows the first `"id":` of a payload.
pub open spec fn response_id(payload: Seq<char>) -> Option<i64> {
    match find(payload, "\"id\":"@) {
        Some(at) => leading_integer(trim_start(payload.skip(at + 5))),
        None => None,
    }
}

/// Cheaply extract the top-level integer `id` from a JSON-RPC payload, without a full parse.
///
/// Gives nothing for notifications (no id) and string ids (which tracked requests never
/// use). Uses the first `"id":` occurrence, which is the top-level id in practice (it
/// precedes `result`).
pub fn extract_response_id(payload: &str) -> (id: Option<i64>)
    ensures
        id == response_id(payload@),
{
    let chars = chars_of(payload);
    let key = chars_of("\"id\":");
    proof {
        reveal_strlit("\"id\":");
        lemma_find_first(chars@, key@);
    }
    match find_chars(&chars, &key) {
        Some(at) => {
            assert(at + 5 <= chars.len());
            let from = skip_space(&chars, at + 5);
            integer_at(&chars, from)
        },
        None => None,
    }
}

/// The integer at `chars[from..]`.
fn integer_at(chars: &Vec<char>, from: usize) -> (value: Option<i64>)
    requires
        from <= chars@.len(),
    ensures
        value == leading_integer(chars@.skip(from as int)),
{
    let ghost text = chars@.skip(from as int);
    let negative = from < chars.len() && chars[from] == '-';
    let start = if negative {
        from + 1
    } else {
        from
    };
    let ghost digits = chars@.skip(start as int);
    assert(negative ==> text.drop_first() =~= digits);
    let mut end: usize = start;
    while end < chars.len() && '0' <= chars[end] && chars[end] <= '9'
        invariant
            start <= end <= chars@.len(),
            digits == chars@.skip(start as int),
            leading_digits(digits) == (end - start) + leading_digits(chars@.skip(end as int)),
        decreases chars@.len() - end,
    {
        assert(chars@.skip(end as int).drop_first() =~= chars@.skip(end + 1));
        end = end + 1;
    }
    assert(digits.take(end - start) =~= chars@.subrange(start as int, end as int));
    proof {
        lemma_leading_digits(digits);
    }
    if negative {
        match read_digits(chars, start, end, 0x8000_0000_0000_0000) {
            Some(size) => if size == 0x8000_0000_0000_0000 {
                Some(i64::MIN)
            } else {
                Some(-(size as i64))
            },
            None => None,
        }
    } else {
        match read_digits(chars, start, end, 0x7fff_ffff_ffff_ffff) {
            Some(size) => Some(size as i64),
            None => None,
        }
    }
}

/// The ids of the tracked requests that are in flight. Only responses to these are
/// candidates for rewriting.
pub struct Pending {
    ids: HashSet<i64>,
}

impl View for Pending {
    type V = Set<i64>;

    closed spec fn view(&self) -> Set<i64> {
        self.ids@
    }
}

/// The ids in flight after one more request; a full set is emptied first.
pub open spec fn noted(ids: Set<i64>, id: i64) -> Set<i64> {
    if ids.len() >= MAX_PENDING {
        Set::empty().insert(id)
    } else {
        ids.insert(id)
    }
}

impl Pending {
    /// The ids are bounded in number.
    #[verifier::type_invariant]
    spec fn bounded(self) -> bool {
        self.ids@.finite() && self.ids@.len() <= MAX_PENDING
    }

    /// No request is in flight.
    pub fn new() -> (pending: Pending)
        ensures
            pending@ == Set::<i64>::empty(),
    {
        Pending { ids: HashSet::new() }
    }

    /// A tracked request goes out.
    pub fn note(&mut self, id: i64)
        ensures
            final(self)@ == noted(old(self)@, id),
            final(self)@.finite(),
            final(self)@.len() <= MAX_PENDING,
    {
        proof {
            use_type_invariant(&*self);
        }
        let mut ids: HashSet<i64> = HashSet::new();
        std::mem::swap(&mut ids, &mut self.ids);
        if ids.len() >= MAX_PENDING {
            ids.clear();
        }
        ids.insert(id);
        self.ids = ids;
    }

    /// Whether a request is in flight under this id.
    pub fn has(&self, id: i64) -> (yes: bool)
        ensures
            yes == self@.contains(id),
    {
        self.ids.contains(&id)
    }

    /// A response comes in: whether it answers a tracked request, which is then no longer in
    /// flight.
    pub fn claim(&mut self, id: i64) -> (found: bool)
        ensures
            found == old(self)@.contains(id),
            final(self)@ == old(self)@.remove(id),
            final(self)@.finite(),
            final(self)@.len() <= MAX_PENDING,
    {
        proof {
            use_type_invariant(&*self);
        }
        let mut ids: HashSet<i64> = HashSet::new();
        std::mem::swap(&mut ids, &mut self.ids);
        let found = ids.remove(&id);
        self.ids = ids;
        assert(self@ =~= old(self)@.remove(id));
        found
    }
}

} // verus!
