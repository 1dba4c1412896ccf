//! Text as sequences of characters: searching, trimming, splitting and ASCII case.
//!
//! Strings are viewed as `Seq<char>`. The executable functions work on vectors of
//! characters and hand strings back.
use vstd::prelude::*;

verus! {

// ---- Conversions ---------------------------------------------------------------

/// `String::push`: the character goes to the end of the string, nothing else changes.
pub assume_specification[ String::push ](text: &mut String, c: char)
    ensures
        final(text)@ == old(text)@.push(c),
;

/// The texts of a list of strings.
pub open spec fn texts(list: Seq<String>) -> Seq<Seq<char>> {
    list.map_values(|s: String| s@)
}

/// The characters of `text`, in order.
pub fn chars_of(text: &str) -> (chars: Vec<char>)
    ensures
        chars@ == text@,
{
    let mut chars: Vec<char> = Vec::new();
    for c in it: text.chars()
        invariant
            chars@ == text@.take(it.index()),
            it.seq() == text@,
    {
        chars.push(c);
    }
    chars
}

/// The string whose characters are `chars[from..to]`.
pub fn slice_text(chars: &Vec<char>, from: usize, to: usize) -> (text: String)
    requires
        from <= to <= chars@.len(),
    ensures
        text@ == chars@.subrange(from as int, to as int),
{
    let mut text = String::new();
    let mut i: usize = from;
    while i < to
        invariant
            from <= i <= to <= chars@.len(),
            text@ == chars@.subrange(from as int, i as int),
        decreases to - i,
    {
        text.push(chars[i]);
        i = i + 1;
        assert(chars@.subrange(from as int, i as int) =~= chars@.subrange(
            from as int,
            i - 1,
        ).push(chars@[i - 1]));
    }
    text
}

/// Whether two texts are the same.
pub fn same_text(a: &str, b: &str) -> (same: bool)
    ensures
        same == (a@ == b@),
{
    a.to_owned() == b.to_owned()
}

/// Whether `list` holds a string equal to `text`.
pub fn list_holds(list: &Vec<String>, text: &str) -> (held: bool)
    ensures
        held == texts(list@).contains(text@),
{
    let mut i: usize = 0;
    while i < list.len()
        invariant
            i <= list@.len(),
            forall|j: int| 0 <= j < i ==> list@[j]@ != text@,
        decreases list@.len() - i,
    {
        if same_text(list[i].as_str(), text) {
            assert(texts(list@)[i as int] == text@);
            return true;
        }
        i = i + 1;
    }
    assert forall|j: int| 0 <= j < texts(list@).len() implies texts(list@)[j] != text@ by {
        assert(texts(list@)[j] == list@[j]@);
    }
    false
}

/// A list with the same texts.
pub fn copy_list(list: &Vec<String>) -> (copy: Vec<String>)
    ensures
        texts(copy@) == texts(list@),
{
    let mut copy: Vec<String> = Vec::new();
    let mut i: usize = 0;
    while i < list.len()
        invariant
            i <= list@.len(),
            texts(copy@) == texts(list@).take(i as int),
        decreases list@.len() - i,
    {
        let ghost before = texts(copy@);
        copy.push(list[i].clone());
        i = i + 1;
        assert(texts(copy@) =~= before.push(list@[i - 1]@));
        assert(texts(list@).take(i as int) =~= texts(list@).take(i - 1).push(list@[i - 1]@));
    }
    assert(texts(list@).take(i as int) =~= texts(list@));
    copy
}

// ---- Searching -----------------------------------------------------------------

/// `needle` stands in `hay` at position `at`.
pub open spec fn occurs_at(hay: Seq<char>, needle: Seq<char>, at: int) -> bool {
    &&& 0 <= at
    &&& at + needle.len() <= hay.len()
    &&& hay.subrange(at, at + needle.len()) == needle
}

/// `needle` stands somewhere in `hay`.
pub open spec fn contains(hay: Seq<char>, needle: Seq<char>) -> bool {
    exists|at: int| occurs_at(hay, needle, at)
}

/// `at` is where `needle` stands in `hay` for the first time.
pub open spec fn first_at(hay: Seq<char>, needle: Seq<char>, at: int) -> bool {
    &&& occurs_at(hay, needle, at)
    &&& forall|before: int| 0 <= before < at ==> !occurs_at(hay, needle, before)
}

/// The position at which `needle` stands in `hay` for the first time, if it does.
pub open spec fn find(hay: Seq<char>, needle: Seq<char>) -> Option<int> {
    if contains(hay, needle) {
        Some(choose|at: int| first_at(hay, needle, at))
    } else {
        None
    }
}

/// There is only one first position.
pub proof fn lemma_find_is(hay: Seq<char>, needle: Seq<char>, at: int)
    requires
        first_at(hay, needle, at),
    ensures
        find(hay, needle) == Some(at),
{
    let chosen = choose|at: int| first_at(hay, needle, at);
    assert(first_at(hay, needle, chosen));
    if chosen < at {
        assert(!occurs_at(hay, needle, chosen));
    }
    if at < chosen {
        assert(!occurs_at(hay, needle, at));
    }
}

/// Whatever is found is found for the first time.
pub proof fn lemma_find_first(hay: Seq<char>, needle: Seq<char>)
    ensures
        find(hay, needle) matches Some(at) ==> first_at(hay, needle, at),
{
    if contains(hay, needle) {
        let some = choose|at: int| occurs_at(hay, needle, at);
        lemma_least_occurrence(hay, needle, some);
    }
}

proof fn lemma_least_occurrence(hay: Seq<char>, needle: Seq<char>, at: int)
    requires
        occurs_at(hay, needle, at),
    ensures
        exists|first: int| first_at(hay, needle, first),
    decreases at,
{
    if exists|before: int| 0 <= before < at && occurs_at(hay, needle, before) {
        let before = choose|before: int| 0 <= before < at && occurs_at(hay, needle, before);
        lemma_least_occurrence(hay, needle, before);
    } else {
        assert(first_at(hay, needle, at));
    }
}

/// Whether `needle` stands in `hay` at position `at`.
pub fn stands_at(hay: &Vec<char>, needle: &Vec<char>, at: usize) -> (found: bool)
    ensures
        found == occurs_at(hay@, needle@, at as int),
{
    if needle.len() > hay.len() || at > hay.len() - needle.len() {
        return false;
    }
    let mut i: usize = 0;
    while i < needle.len()
        invariant
            i <= needle@.len(),
            at + needle@.len() <= hay.len(),
            forall|j: int| 0 <= j < i ==> hay@[at + j] == needle@[j],
        decreases needle@.len() - i,
    {
        if hay[at + i] != needle[i] {
            assert(hay@.subrange(at as int, at + needle@.len())[i as int] != needle@[i as int]);
            return false;
        }
        i = i + 1;
    }
    assert(hay@.subrange(at as int, at + needle@.len()) =~= needle@);
    true
}

/// Where `needle` stands in `hay` for the first time.
pub fn find_chars(hay: &Vec<char>, needle: &Vec<char>) -> (at: Option<usize>)
    ensures
        find(hay@, needle@) == (match at {
            Some(i) => Some(i as int),
            None => None,
        }),
{
    if needle.len() > hay.len() {
        return None;
    }
    let last = hay.len() - needle.len();
    let mut i: usize = 0;
    loop
        invariant
            i <= last,
            last + needle@.len() == hay@.len(),
            forall|before: int| 0 <= before < i ==> !occurs_at(hay@, needle@, before),
        decreases last - i,
    {
        if stands_at(hay, needle, i) {
            proof {
                lemma_find_is(hay@, needle@, i as int);
            }
            return Some(i);
        }
        if i == last {
            return None;
        }
        i = i + 1;
    }
}

/// Whether `needle` stands somewhere in `hay`.
pub fn contains_text(hay: &str, needle: &str) -> (found: bool)
    ensures
        found == contains(hay@, needle@),
{
    find_chars(&chars_of(hay), &chars_of(needle)).is_some()
}

// ---- White space ---------------------------------------------------------------

/// The characters with the Unicode property `White_Space`.
pub open spec fn is_space(c: char) -> bool {
    let u = c as u32;
    ||| 0x9 <= u <= 0xd
    ||| u == 0x20
    ||| u == 0x85
    ||| u == 0xa0
    ||| u == 0x1680
    ||| 0x2000 <= u <= 0x200a
    ||| u == 0x2028
    ||| u == 0x2029
    ||| u == 0x202f
    ||| u == 0x205f
    ||| u == 0x3000
}

/// Whether `c` is white space.
pub fn space(c: char) -> (yes: bool)
    ensures
        yes == is_space(c),
{
    let u = c as u32;
    (0x9 <= u && u <= 0xd) || u == 0x20 || u == 0x85 || u == 0xa0 || u == 0x1680 || (0x2000 <= u
        && u <= 0x200a) || u == 0x2028 || u == 0x2029 || u == 0x202f || u == 0x205f || u == 0x3000
}

/// `text` without the white space at its start.
pub open spec fn trim_start(text: Seq<char>) -> Seq<char>
    decreases text.len(),
{
    if text.len() > 0 && is_space(text[0]) {
        trim_start(text.drop_first())
    } else {
        text
    }
}

/// `text` without the white space at its end.
pub open spec fn trim_end(text: Seq<char>) -> Seq<char>
    decreases text.len(),
{
    if text.len() > 0 && is_space(text.last()) {
        trim_end(text.drop_last())
    } else {
        text
    }
}

/// `text` without the white space at both ends.
pub open spec fn trim(text: Seq<char>) -> Seq<char> {
    trim_end(trim_start(text))
}

/// The position of the first character of `chars[from..]` that is no white space, or the end.
pub fn skip_space(chars: &Vec<char>, from: usize) -> (at: usize)
    requires
        from <= chars@.len(),
    ensures
        from <= at <= chars@.len(),
        trim_start(chars@.skip(from as int)) == chars@.skip(at as int),
{
    let mut i: usize = from;
    while i < chars.len() && space(chars[i])
        invariant
            from <= i <= chars@.len(),
            trim_start(chars@.skip(from as int)) == trim_start(chars@.skip(i as int)),
        decreases chars@.len() - i,
    {
        assert(chars@.skip(i as int).drop_first() =~= chars@.skip(i + 1));
        i = i + 1;
    }
    i
}

/// The bounds of `chars` without the white space at both ends.
pub fn trim_bounds(chars: &Vec<char>) -> (bounds: (usize, usize))
    ensures
        bounds.0 <= bounds.1 <= chars@.len(),
        trim(chars@) == chars@.subrange(bounds.0 as int, bounds.1 as int),
{
    assert(chars@.skip(0) =~= chars@);
    let from = skip_space(chars, 0);
    let mut to: usize = chars.len();
    assert(chars@.subrange(from as int, to as int) =~= chars@.skip(from as int));
    while to > from && space(chars[to - 1])
        invariant
            from <= to <= chars@.len(),
            trim(chars@) == trim_end(chars@.subrange(from as int, to as int)),
        decreases to,
    {
        assert(chars@.subrange(from as int, to as int).drop_last() =~= chars@.subrange(
            from as int,
            to - 1,
        ));
        to = to - 1;
    }
    (from, to)
}

/// `text` without the white space at both ends.
pub fn trim_text(text: &str) -> (trimmed: String)
    ensures
        trimmed@ == trim(text@),
{
    let chars = chars_of(text);
    let bounds = trim_bounds(&chars);
    slice_text(&chars, bounds.0, bounds.1)
}

/// Whether `text` holds nothing but white space.
pub fn blank(text: &str) -> (yes: bool)
    ensures
        yes == (trim(text@).len() == 0),
{
    let chars = chars_of(text);
    let bounds = trim_bounds(&chars);
    bounds.0 == bounds.1
}

// ---- ASCII case ----------------------------------------------------------------

/// The lower-case letter for an ASCII capital; any other character is itself.
pub open spec fn lower_char(c: char) -> char {
    if 'A' <= c && c <= 'Z' {
        ((c as u8) + 32) as char
    } else {
        c
    }
}

/// `text` with every ASCII capital lowered.
pub open spec fn lower(text: Seq<char>) -> Seq<char> {
    text.map_values(|c: char| lower_char(c))
}

/// `text` with every ASCII capital lowered.
pub fn lower_text(text: &str) -> (low: String)
    ensures
        low@ == lower(text@),
{
    let chars = chars_of(text);
    let mut low = String::new();
    let mut i: usize = 0;
    while i < chars.len()
        invariant
            i <= chars@.len(),
            low@ == lower(chars@).take(i as int),
        decreases chars@.len() - i,
    {
        let c = chars[i];
        if 'A' <= c && c <= 'Z' {
            low.push(((c as u8) + 32) as char);
        } else {
            low.push(c);
        }
        i = i + 1;
        assert(lower(chars@).take(i as int) =~= lower(chars@).take(i - 1).push(
            lower(chars@)[i - 1],
        ));
    }
    assert(lower(chars@).take(i as int) =~= lower(chars@));
    low
}

// ---- Splitting -----------------------------------------------------------------

/// The position of the first `sep` in `text`, if there is one.
pub open spec fn find_char(text: Seq<char>, sep: char) -> Option<int> {
    find(text, seq![sep])
}

proof fn lemma_one_char(text: Seq<char>, sep: char, at: int)
    ensures
        occurs_at(text, seq![sep], at) <==> 0 <= at < text.len() && text[at] == sep,
{
    if 0 <= at < text.len() {
        assert(text.subrange(at, at + 1) =~= seq![text[at]]);
        if text[at] != sep {
            assert(text.subrange(at, at + 1)[0] != seq![sep][0]);
        }
    }
}

/// What it means to be found, for a single character.
pub proof fn lemma_find_char(text: Seq<char>, sep: char)
    ensures
        match find_char(text, sep) {
            Some(at) => 0 <= at < text.len() && text[at] == sep && forall|before: int|
                0 <= before < at ==> text[before] != sep,
            None => !text.contains(sep),
        },
{
    lemma_find_first(text, seq![sep]);
    assert forall|at: int|
        occurs_at(text, seq![sep], at) <==> 0 <= at < text.len() && text[at] == sep by {
        lemma_one_char(text, sep, at);
    }
    if find_char(text, sep) is None && text.contains(sep) {
        let at = choose|at: int| 0 <= at < text.len() && text[at] == sep;
        assert(occurs_at(text, seq![sep], at));
    }
    if let Some(at) = find_char(text, sep) {
        assert forall|before: int| 0 <= before < at implies text[before] != sep by {
            assert(!occurs_at(text, seq![sep], before));
        }
    }
}

/// A position with the character, and none before it, is where the character is found.
pub proof fn lemma_find_char_is(text: Seq<char>, sep: char, at: int)
    requires
        0 <= at < text.len(),
        text[at] == sep,
        forall|before: int| 0 <= before < at ==> text[before] != sep,
    ensures
        find_char(text, sep) == Some(at),
{
    lemma_find_char(text, sep);
}

/// Where the first `sep` stands in `chars[from..]`, counted from `from`.
pub fn seek_char(chars: &Vec<char>, from: usize, sep: char) -> (at: Option<usize>)
    requires
        from <= chars@.len(),
    ensures
        at matches Some(i) ==> from <= i < chars@.len() && find_char(
            chars@.skip(from as int),
            sep,
        ) == Some(i - from),
        at is None ==> find_char(chars@.skip(from as int), sep) is None,
{
    let mut i: usize = from;
    while i < chars.len()
        invariant
            from <= i <= chars@.len(),
            forall|j: int| from <= j < i ==> chars@[j] != sep,
        decreases chars@.len() - i,
    {
        if chars[i] == sep {
            proof {
                lemma_find_char_is(chars@.skip(from as int), sep, i - from);
            }
            return Some(i);
        }
        i = i + 1;
    }
    proof {
        lemma_find_char(chars@.skip(from as int), sep);
    }
    None
}

/// The pieces of `text` between the occurrences of `sep`; there is always one.
pub open spec fn split(text: Seq<char>, sep: char) -> Seq<Seq<char>>
    decreases text.len(),
{
    match find_char(text, sep) {
        Some(at) => if 0 <= at < text.len() {
            seq![text.take(at)] + split(text.skip(at + 1), sep)
        } else {
            seq![text]
        },
        None => seq![text],
    }
}

/// The pieces of `text` between the occurrences of `sep`.
pub fn split_text(text: &str, sep: char) -> (pieces: Vec<String>)
    ensures
        texts(pieces@) == split(text@, sep),
{
    let chars = chars_of(text);
    let mut pieces: Vec<String> = Vec::new();
    let mut from: usize = 0;
    assert(chars@.skip(0) =~= chars@);
    assert(texts(pieces@) + split(chars@, sep) =~= split(chars@, sep));
    loop
        invariant
            from <= chars@.len(),
            texts(pieces@) + split(chars@.skip(from as int), sep) == split(text@, sep),
        decreases chars@.len() - from,
    {
        let ghost before = texts(pieces@);
        let ghost rest = chars@.skip(from as int);
        match seek_char(&chars, from, sep) {
            Some(at) => {
                pieces.push(slice_text(&chars, from, at));
                proof {
                    assert(rest.take(at - from) =~= chars@.subrange(from as int, at as int));
                    assert(rest.skip(at - from + 1) =~= chars@.skip(at + 1));
                    assert(texts(pieces@) =~= before.push(rest.take(at - from)));
                    assert(texts(pieces@) + split(chars@.skip(at + 1), sep) =~= before + split(
                        rest,
                        sep,
                    ));
                }
                assert(at < chars.len());
                from = at + 1;
            },
            None => {
                pieces.push(slice_text(&chars, from, chars.len()));
                proof {
                    assert(rest =~= chars@.subrange(from as int, chars@.len() as int));
                    assert(texts(pieces@) =~= before + split(rest, sep));
                }
                return pieces;
            },
        }
    }
}

/// `line` without one carriage return at its end.
pub open spec fn strip_return(line: Seq<char>) -> Seq<char> {
    if line.len() > 0 && line.last() == '\r' {
        line.drop_last()
    } else {
        line
    }
}

/// The lines of `text`: each ends with a line feed, or with a carriage return and a line feed,
/// neither of which belongs to it. The last line need not end with either.
pub open spec fn lines(text: Seq<char>) -> Seq<Seq<char>>
    decreases text.len(),
{
    if text.len() == 0 {
        seq![]
    } else {
        match find_char(text, '\n') {
            Some(at) => if 0 <= at < text.len() {
                seq![strip_return(text.take(at))] + lines(text.skip(at + 1))
            } else {
                seq![text]
            },
            None => seq![text],
        }
    }
}

/// The lines of `text`.
pub fn lines_text(text: &str) -> (found: Vec<String>)
    ensures
        texts(found@) == lines(text@),
{
    let chars = chars_of(text);
    let mut found: Vec<String> = Vec::new();
    let mut from: usize = 0;
    assert(chars@.skip(0) =~= chars@);
    assert(texts(found@) + lines(chars@) =~= lines(chars@));
    while from < chars.len()
        invariant
            from <= chars@.len(),
            texts(found@) + lines(chars@.skip(from as int)) == lines(text@),
        decreases chars@.len() - from,
    {
        let ghost before = texts(found@);
        let ghost rest = chars@.skip(from as int);
        match seek_char(&chars, from, '\n') {
            Some(at) => {
                let end = if at > from && chars[at - 1] == '\r' {
                    at - 1
                } else {
                    at
                };
                found.push(slice_text(&chars, from, end));
                proof {
                    assert(strip_return(rest.take(at - from)) =~= chars@.subrange(
                        from as int,
                        end as int,
                    ));
                    assert(rest.skip(at - from + 1) =~= chars@.skip(at + 1));
                    assert(texts(found@) =~= before.push(strip_return(rest.take(at - from))));
                    assert(texts(found@) + lines(chars@.skip(at + 1)) =~= before + lines(rest));
                }
                assert(at < chars.len());
                from = at + 1;
            },
            None => {
                found.push(slice_text(&chars, from, chars.len()));
                proof {
                    assert(rest =~= chars@.subrange(from as int, chars@.len() as int));
                    assert(texts(found@) =~= before + lines(rest));
                }
                return found;
            },
        }
    }
    proof {
        assert(lines(chars@.skip(from as int)) =~= seq![]);
        assert(texts(found@) =~= texts(found@) + lines(chars@.skip(from as int)));
    }
    found
}

} // verus!
