//! What holds of texts, numbers, headers and paths.
use vstd::prelude::*;

use crate::lsp::{header_step, payload_of, HeaderModel};
use crate::number::{
    all_digits, decimal, decimal_int, is_digit, lemma_decimal_round_trip, parse_unsigned,
};
use crate::paths::{components, components_on, is_drive, lies_in, names, on_share, parent, slashed};
use crate::raw::joined;
use crate::text::{
    contains, find_char, is_space, lemma_find_char, lemma_find_char_is, lines, lower, occurs_at,
    split, trim, trim_end, trim_start,
};
use crate::tracking::{leading_digits, response_id};

verus! {

// ---- White space ---------------------------------------------------------------

/// Every character is white space.
pub open spec fn all_space(text: Seq<char>) -> bool {
    forall|i: int| 0 <= i < text.len() ==> is_space(#[trigger] text[i])
}

/// White space is the space, the tab, the line feed, the carriage return and the like, the
/// no-break space and the wide one; nothing that can be seen in ASCII is.
pub proof fn law_white_space(c: char)
    ensures
        c == ' ' || c == '\t' || c == '\n' || c == '\r' ==> is_space(c),
        c as u32 == 0xb || c as u32 == 0xc || c as u32 == 0xa0 || c as u32 == 0x3000 ==> is_space(c),
        '!' <= c && c <= '~' ==> !is_space(c),
{
}

proof fn lemma_trim_start(text: Seq<char>)
    ensures
        trim_start(text).len() <= text.len(),
        trim_start(text) == text.skip(text.len() - trim_start(text).len()),
        all_space(text.take(text.len() - trim_start(text).len())),
        trim_start(text).len() > 0 ==> !is_space(trim_start(text)[0]),
    decreases text.len(),
{
    if text.len() > 0 && is_space(text[0]) {
        let rest = text.drop_first();
        lemma_trim_start(rest);
        let n = text.len() - trim_start(text).len();
        assert(rest.skip(n - 1) =~= text.skip(n));
        assert forall|i: int| 0 <= i < text.take(n).len() implies is_space(
            #[trigger] text.take(n)[i],
        ) by {
            if i > 0 {
                assert(rest.take(n - 1)[i - 1] == text[i]);
            }
        }
    } else {
        assert(text.skip(0) =~= text);
    }
}

proof fn lemma_trim_end(text: Seq<char>)
    ensures
        trim_end(text).len() <= text.len(),
        trim_end(text) == text.take(trim_end(text).len() as int),
        all_space(text.skip(trim_end(text).len() as int)),
        trim_end(text).len() > 0 ==> !is_space(trim_end(text).last()),
    decreases text.len(),
{
    if text.len() > 0 && is_space(text.last()) {
        let rest = text.drop_last();
        lemma_trim_end(rest);
        let n = trim_end(text).len() as int;
        assert(rest.take(n) =~= text.take(n));
        assert forall|i: int| 0 <= i < text.skip(n).len() implies is_space(
            #[trigger] text.skip(n)[i],
        ) by {
            if n + i < rest.len() {
                assert(rest.skip(n)[i] == text[n + i]);
            }
        }
    } else {
        assert(text.take(text.len() as int) =~= text);
    }
}

/// A text is what is left of it when it is trimmed, between white space; and what is left
/// neither starts nor ends with any.
pub proof fn law_trim(text: Seq<char>)
    ensures
        exists|before: Seq<char>, after: Seq<char>|
            text == before + trim(text) + after && #[trigger] all_space(before)
                && #[trigger] all_space(after),
        trim(text).len() > 0 ==> !is_space(trim(text)[0]) && !is_space(trim(text).last()),
        (exists|i: int| 0 <= i < text.len() && !is_space(#[trigger] text[i])) ==> trim(text).len()
            > 0,
{
    lemma_trim_start(text);
    let rest = trim_start(text);
    lemma_trim_end(rest);
    let n = text.len() - rest.len();
    let before = text.take(n);
    let after = rest.skip(trim(text).len() as int);
    assert(rest =~= trim(text) + after);
    assert(text =~= before + rest);
    assert(text =~= before + trim(text) + after);
    assert(all_space(before) && all_space(after));
    if exists|i: int| 0 <= i < text.len() && !is_space(#[trigger] text[i]) {
        let i = choose|i: int| 0 <= i < text.len() && !is_space(#[trigger] text[i]);
        if trim(text).len() == 0 {
            assert(text =~= before + after);
            if i < before.len() {
                assert(before[i] == text[i]);
            } else {
                assert(after[i - before.len()] == text[i]);
            }
        }
    }
    if trim(text).len() > 0 {
        assert(trim(text)[0] == rest[0]);
    }
}

/// Nothing is left of a text of white space.
pub proof fn law_trim_of_blank(text: Seq<char>)
    ensures
        all_space(text) ==> trim(text).len() == 0,
{
    law_trim(text);
    lemma_trim_start(text);
    lemma_trim_end(trim_start(text));
    if all_space(text) && trim(text).len() > 0 {
        let n = text.len() - trim_start(text).len();
        assert(trim(text)[0] == trim_start(text)[0]);
        assert(trim_start(text)[0] == text[n]);
    }
}

/// White space around a text does not count when it is trimmed.
pub proof fn law_space_around_does_not_count(before: Seq<char>, text: Seq<char>, after: Seq<char>)
    requires
        all_space(before),
        all_space(after),
        text.len() > 0,
        !is_space(text[0]),
        !is_space(text.last()),
    ensures
        trim(before + text + after) == text,
{
    lemma_skip_start(before, text + after);
    assert(before + text + after =~= before + (text + after));
    assert((text + after)[0] == text[0]);
    lemma_skip_end(text, after);
}

proof fn lemma_skip_start(before: Seq<char>, text: Seq<char>)
    requires
        all_space(before),
        text.len() > 0,
        !is_space(text[0]),
    ensures
        trim_start(before + text) == text,
    decreases before.len(),
{
    if before.len() == 0 {
        assert(before + text =~= text);
    } else {
        let rest = before.drop_first();
        assert forall|i: int| 0 <= i < rest.len() implies is_space(#[trigger] rest[i]) by {
            assert(before[i + 1] == rest[i]);
        }
        lemma_skip_start(rest, text);
        assert((before + text)[0] == before[0]);
        assert((before + text).drop_first() =~= rest + text);
    }
}

pub(crate) proof fn lemma_skip_end(text: Seq<char>, after: Seq<char>)
    requires
        all_space(after),
        text.len() > 0,
        !is_space(text.last()),
    ensures
        trim_end(text + after) == text,
    decreases after.len(),
{
    if after.len() == 0 {
        assert(text + after =~= text);
    } else {
        let rest = after.drop_last();
        assert forall|i: int| 0 <= i < rest.len() implies is_space(#[trigger] rest[i]) by {
            assert(after[i] == rest[i]);
        }
        lemma_skip_end(text, rest);
        assert((text + after).last() == after.last());
        assert((text + after).drop_last() =~= text + rest);
    }
}

// ---- Pieces and lines ----------------------------------------------------------

/// The pieces of a text, put together again with the separator between them, are the text;
/// and no piece holds the separator.
pub proof fn law_split(text: Seq<char>, sep: char)
    ensures
        split(text, sep).len() > 0,
        joined(split(text, sep), seq![sep]) == text,
        forall|i: int|
            0 <= i < split(text, sep).len() ==> !(#[trigger] split(text, sep)[i]).contains(sep),
    decreases text.len(),
{
    lemma_find_char(text, sep);
    match find_char(text, sep) {
        Some(at) => {
            let head = text.take(at);
            let rest = split(text.skip(at + 1), sep);
            law_split(text.skip(at + 1), sep);
            lemma_joined_front(head, rest, seq![sep]);
            assert(seq![head] + rest =~= split(text, sep));
            assert(head + seq![sep] + text.skip(at + 1) =~= text);
            assert forall|i: int| 0 <= i < split(text, sep).len() implies !(#[trigger] split(
                text,
                sep,
            )[i]).contains(sep) by {
                if i > 0 {
                    assert(split(text, sep)[i] == rest[i - 1]);
                } else if head.contains(sep) {
                    let k = choose|k: int| 0 <= k < head.len() && head[k] == sep;
                    assert(text[k] == sep);
                }
            }
        },
        None => {
            assert(split(text, sep) =~= seq![text]);
            assert(split(text, sep)[0] == text);
        },
    }
}

/// A list with one more member at the front.
proof fn lemma_joined_front(head: Seq<char>, rest: Seq<Seq<char>>, sep: Seq<char>)
    requires
        rest.len() > 0,
    ensures
        joined(seq![head] + rest, sep) == head + sep + joined(rest, sep),
    decreases rest.len(),
{
    let whole = seq![head] + rest;
    if rest.len() == 1 {
        reveal_with_fuel(joined, 2);
        assert(whole.drop_last() =~= seq![head]);
        assert(whole.last() == rest[0]);
        assert(joined(seq![head], sep) == head);
        assert(joined(rest, sep) == rest[0]);
    } else {
        assert(whole.drop_last() =~= seq![head] + rest.drop_last());
        assert(whole.last() == rest.last());
        lemma_joined_front(head, rest.drop_last(), sep);
        assert(joined(whole, sep) =~= head + sep + joined(rest, sep));
    }
}

/// A list in one text: nothing for no member, the member itself for one, and the separator
/// between each two.
pub proof fn law_joined(
    first: Seq<Seq<char>>,
    second: Seq<Seq<char>>,
    sep: Seq<char>,
    one: Seq<char>,
)
    ensures
        joined(Seq::empty(), sep) == Seq::<char>::empty(),
        joined(seq![one], sep) == one,
        first.len() > 0 && second.len() > 0 ==> joined(first + second, sep) == joined(first, sep)
            + sep + joined(second, sep),
    decreases first.len(),
{
    if first.len() > 0 && second.len() > 0 {
        if first.len() == 1 {
            assert(first =~= seq![first[0]]);
            lemma_joined_front(first[0], second, sep);
        } else {
            let tail = first.drop_first();
            law_joined(tail, second, sep, one);
            lemma_joined_front(first[0], tail, sep);
            lemma_joined_front(first[0], tail + second, sep);
            assert(seq![first[0]] + tail =~= first);
            assert(seq![first[0]] + (tail + second) =~= first + second);
            assert(first[0] + sep + (joined(tail, sep) + sep + joined(second, sep)) =~= first[0]
                + sep + joined(tail, sep) + sep + joined(second, sep));
        }
    }
}

/// The lines of a text: the first is what stands before the first line feed, without a carriage
/// return right before it, and the others are the lines of what follows.
pub proof fn law_lines(line: Seq<char>, rest: Seq<char>)
    requires
        !line.contains('\n'),
    ensures
        lines(Seq::empty()).len() == 0,
        line.len() > 0 ==> lines(line) == seq![line],
        lines(line + seq!['\n'] + rest) == seq![
            if line.len() > 0 && line.last() == '\r' {
                line.drop_last()
            } else {
                line
            },
        ] + lines(rest),
{
    lemma_find_char(line, '\n');
    let whole = line + seq!['\n'] + rest;
    assert forall|i: int| 0 <= i < line.len() implies whole[i] != '\n' by {
        assert(line.contains(line[i]));
    }
    lemma_find_char_is(whole, '\n', line.len() as int);
    assert(whole.take(line.len() as int) =~= line);
    assert(whole.skip(line.len() as int + 1) =~= rest);
}

// ---- Case ----------------------------------------------------------------------

/// Lowering changes the twenty-six capitals to their small letters, one for one, and nothing
/// else.
pub proof fn law_lower(text: Seq<char>, i: int)
    requires
        0 <= i < text.len(),
    ensures
        lower(text).len() == text.len(),
        'A' <= text[i] <= 'Z' ==> lower(text)[i] as u32 == text[i] as u32 + 32,
        !('A' <= text[i] <= 'Z') ==> lower(text)[i] == text[i],
        lower(lower(text)) == lower(text),
{
    assert forall|k: int| 0 <= k < text.len() implies lower(lower(text))[k] == lower(text)[k] by {
        let c = text[k];
        if 'A' <= c && c <= 'Z' {
            assert(lower(text)[k] as u32 == c as u32 + 32);
        }
    }
    assert(lower(lower(text)) =~= lower(text));
}

// ---- Numbers -------------------------------------------------------------------

/// A number is read back as it is written, with or without a plus sign, and a text that holds
/// anything but digits after that sign, or no digit, or too large a number, is none.
pub proof fn law_numbers(n: nat, max: nat, text: Seq<char>)
    ensures
        n <= max ==> parse_unsigned(decimal(n), max) == Some(n),
        n <= max ==> parse_unsigned(seq!['+'] + decimal(n), max) == Some(n),
        n > max ==> parse_unsigned(decimal(n), max) is None,
        parse_unsigned(Seq::empty(), max) is None,
        (exists|i: int|
            0 <= i < text.len() && !is_digit(#[trigger] text[i]) && !(i == 0 && text[i] == '+'))
            ==> parse_unsigned(text, max) is None,
{
    lemma_decimal_round_trip(n);
    assert(is_digit(decimal(n)[0]));
    assert((seq!['+'] + decimal(n)).drop_first() =~= decimal(n));
    if exists|i: int|
        0 <= i < text.len() && !is_digit(#[trigger] text[i]) && !(i == 0 && text[i] == '+') {
        let i = choose|i: int|
            0 <= i < text.len() && !is_digit(#[trigger] text[i]) && !(i == 0 && text[i] == '+');
        if text[0] == '+' {
            assert(text.drop_first()[i - 1] == text[i]);
        }
    }
}

proof fn lemma_leading_digits_are(digits: Seq<char>, rest: Seq<char>)
    requires
        all_digits(digits),
        rest.len() == 0 || !is_digit(rest[0]),
    ensures
        leading_digits(digits + rest) == digits.len(),
    decreases digits.len(),
{
    if digits.len() == 0 {
        assert(digits + rest =~= rest);
    } else {
        let tail = digits.drop_first();
        assert forall|i: int| 0 <= i < tail.len() implies is_digit(#[trigger] tail[i]) by {
            assert(digits[i + 1] == tail[i]);
        }
        lemma_leading_digits_are(tail, rest);
        assert((digits + rest)[0] == digits[0]);
        assert((digits + rest).drop_first() =~= tail + rest);
    }
}

/// The id of a payload is the integer that follows its first `"id":`, white space aside.
pub proof fn law_response_id(before: Seq<char>, space: Seq<char>, id: i64, rest: Seq<char>)
    requires
        all_space(space),
        rest.len() == 0 || !is_digit(rest[0]),
        !contains(before + "\"id\":"@.drop_last(), "\"id\":"@),
    ensures
        response_id(before + "\"id\":"@ + space + decimal_int(id as int) + rest) == Some(id),
{
    reveal_strlit("\"id\":");
    let key = "\"id\":"@;
    let number = decimal_int(id as int);
    let payload = before + key + space + number + rest;
    let at = before.len() as int;
    assert(payload.subrange(at, at + 5) =~= key);
    assert forall|i: int| 0 <= i < at implies !occurs_at(payload, key, i) by {
        if occurs_at(payload, key, i) {
            let head = before + key.drop_last();
            assert(payload.subrange(i, i + 5) =~= head.subrange(i, i + 5));
            assert(occurs_at(head, key, i));
        }
    }
    crate::text::lemma_find_is(payload, key, at);
    let size = if id < 0 {
        (-id) as nat
    } else {
        id as nat
    };
    lemma_decimal_round_trip(size);
    assert(is_digit(decimal(size)[0]));
    assert(payload.skip(at + 5) =~= space + (number + rest));
    assert((number + rest)[0] == number[0]);
    lemma_skip_start(space, number + rest);
    lemma_leading_digits_are(decimal(size), rest);
    let text = number + rest;
    if id < 0 {
        assert(text.drop_first() =~= decimal(size) + rest);
        assert(text.drop_first().take(decimal(size).len() as int) =~= decimal(size));
    } else {
        assert(text.take(decimal(size).len() as int) =~= decimal(size));
    }
}

/// A payload without `"id":` has no id.
pub proof fn law_no_id(payload: Seq<char>)
    requires
        !contains(payload, "\"id\":"@),
    ensures
        response_id(payload) is None,
{
}

// ---- Headers -------------------------------------------------------------------

/// A header line of the content length, whatever the case of its name and the white space
/// around its value, sets the length; the last such line counts.
pub proof fn law_length_header(
    name: Seq<char>,
    before: Seq<char>,
    n: nat,
    earlier: Option<nat>,
)
    requires
        lower(name) == "content-length"@,
        all_space(before),
        n <= usize::MAX,
    ensures
        header_step(earlier, name + ":"@ + before + decimal(n) + "\r\n"@) == HeaderModel::More(
            Some(n),
        ),
{
    reveal_strlit("content-length");
    reveal_strlit(":");
    reveal_strlit("\r\n");
    lemma_decimal_round_trip(n);
    let header = name + ":"@ + before + decimal(n);
    let line = header + "\r\n"@;
    assert(line =~= name + ":"@ + before + decimal(n) + "\r\n"@);
    reveal_with_fuel(crate::lsp::without_line_end, 3);
    assert(line.drop_last().drop_last() =~= header);
    assert(header.last() == decimal(n).last());
    assert(is_digit(decimal(n).last()));
    assert(crate::lsp::without_line_end(line) == header);
    assert forall|i: int| 0 <= i < name.len() implies header[i] != ':' by {
        assert(header[i] == name[i]);
        assert(name.len() == "content-length"@.len());
        assert(lower(name)[i] == "content-length"@[i]);
        assert("content-length"@[i] != ':');
        law_lower(name, i);
    }
    lemma_find_char_is(header, ':', name.len() as int);
    assert(header.take(name.len() as int) =~= name);
    assert(header.skip(name.len() as int + 1) =~= before + decimal(n));
    lemma_skip_start(before, decimal(n));
    assert(is_digit(decimal(n)[0]));
    assert(trim_end(decimal(n)) == decimal(n));
    law_numbers(n, usize::MAX as nat, decimal(n));
}

/// A header line of any other name, and a line without a colon, does not count; an empty line
/// ends the block.
pub proof fn law_other_headers(length: Option<nat>, name: Seq<char>, value: Seq<char>)
    requires
        name.len() > 0,
        !name.contains(':'),
        lower(name) != "content-length"@,
        value.len() > 0,
        value.last() != '\r',
        value.last() != '\n',
    ensures
        header_step(length, name + ":"@ + value + "\r\n"@) == HeaderModel::More(length),
        name.last() != '\r' && name.last() != '\n' ==> header_step(length, name + "\r\n"@)
            == HeaderModel::More(length),
        header_step(length, "\r\n"@) == (match length {
            Some(n) => HeaderModel::Body(n),
            None => HeaderModel::Missing,
        }),
{
    reveal_strlit(":");
    reveal_strlit("\r\n");
    reveal_with_fuel(crate::lsp::without_line_end, 3);
    let header = name + ":"@ + value;
    let line = header + "\r\n"@;
    assert(line =~= name + ":"@ + value + "\r\n"@);
    assert(line.drop_last().drop_last() =~= header);
    assert(header.last() == value.last());
    assert forall|i: int| 0 <= i < name.len() implies header[i] != ':' by {
        assert(name.contains(name[i]));
    }
    lemma_find_char_is(header, ':', name.len() as int);
    assert(header.take(name.len() as int) =~= name);
    let bare = name + "\r\n"@;
    assert(bare.drop_last().drop_last() =~= name);
    lemma_find_char(name, ':');
    let end = "\r\n"@;
    assert(end.drop_last().drop_last() =~= Seq::<char>::empty());
}

// ---- Paths ---------------------------------------------------------------------

/// The directory above a path is the path without its last name, and the path lies in it; a
/// path lies in another just where the other is a first part of it.
pub proof fn law_paths(path: Seq<Seq<char>>, name: Seq<char>, more: Seq<Seq<char>>)
    requires
        name.len() > 0,
        name.last() != '/',
    ensures
        parent(path.push(name)) == Some(path),
        parent(Seq::empty()) is None,
        parent(path.push("/"@)) is None,
        lies_in(path + more, path),
        more.len() > 0 ==> !lies_in(path, path + more),
{
    reveal_strlit("/");
    assert(path.push(name).drop_last() =~= path);
    assert((path + more).take(path.len() as int) =~= path);
}

proof fn lemma_one_kept(part: Seq<char>)
    ensures
        seq![part].filter(|p: Seq<char>| names(p)) == (if names(part) {
            seq![part]
        } else {
            seq![]
        }),
{
    let one = seq![part];
    reveal_with_fuel(Seq::filter, 2);
    assert(one.drop_last() =~= seq![]);
    assert(one.last() == part);
    assert(Seq::<Seq<char>>::empty().push(part) =~= one);
}

proof fn lemma_whole_piece(name: Seq<char>)
    requires
        !name.contains('/'),
    ensures
        split(name, '/') == seq![name],
{
    lemma_find_char(name, '/');
    assert(split(name, '/') =~= seq![name]);
}

/// What follows a slash is one component more where it is a name; a slash at the end, a second
/// slash and a dot add none.
pub proof fn law_component_below(path: Seq<char>, name: Seq<char>)
    requires
        path.len() > 0,
        !name.contains('/'),
    ensures
        components(path + seq!['/'] + name) == (if name.len() == 0 || name == "."@ {
            components(path)
        } else {
            components(path).push(name)
        }),
{
    let whole = path + seq!['/'] + name;
    let keep = |part: Seq<char>| names(part);
    lemma_split_sum(path, name, '/');
    lemma_whole_piece(name);
    law_split(path, '/');
    assert(split(whole, '/')[0] == split(path, '/')[0]);
    assert(whole[0] == path[0]);
    Seq::filter_distributes_over_add(split(path, '/'), seq![name], keep);
    lemma_one_kept(name);
    assert(components(whole) =~= components(path) + seq![name].filter(keep));
    assert(components(whole) =~= (if name.len() == 0 || name == "."@ {
        components(path)
    } else {
        components(path).push(name)
    }));
}

/// A name alone is the one component of a path; an empty path has none.
pub proof fn law_component_alone(name: Seq<char>)
    requires
        !name.contains('/'),
        name != "."@,
    ensures
        components(name) == (if name.len() == 0 {
            seq![]
        } else {
            seq![name]
        }),
{
    lemma_whole_piece(name);
    lemma_one_kept(name);
    if name.len() > 0 && name[0] == '/' {
        assert(name.contains(name[0]));
    }
    assert(seq![name][0] == name);
    assert(components(name) =~= (if name.len() == 0 {
        seq![]
    } else {
        seq![name]
    }));
}

/// A path that starts with a slash starts in the root.
pub proof fn law_component_of_root(name: Seq<char>)
    requires
        !name.contains('/'),
        name != "."@,
    ensures
        components(seq!['/'] + name) == (if name.len() == 0 {
            seq!["/"@]
        } else {
            seq!["/"@, name]
        }),
{
    let whole = seq!['/'] + name;
    let tail = if name.len() == 0 {
        Seq::<Seq<char>>::empty()
    } else {
        seq![name]
    };
    assert(split(whole, '/').filter(|part: Seq<char>| names(part)) == tail) by {
        lemma_pieces_of_root(name, tail);
    }
    assert(whole.len() > 0 && whole[0] == '/');
    assert(components(whole) == seq!["/"@] + tail);
    assert(seq!["/"@] + tail =~= (if name.len() == 0 {
        seq!["/"@]
    } else {
        seq!["/"@, name]
    }));
}

proof fn lemma_pieces_of_root(name: Seq<char>, tail: Seq<Seq<char>>)
    requires
        !name.contains('/'),
        name != "."@,
        tail == (if name.len() == 0 {
            Seq::<Seq<char>>::empty()
        } else {
            seq![name]
        }),
    ensures
        split(seq!['/'] + name, '/').filter(|part: Seq<char>| names(part)) == tail,
{
    let keep = |part: Seq<char>| names(part);
    let none = Seq::<char>::empty();
    lemma_split_sum(none, name, '/');
    assert(none + seq!['/'] + name =~= seq!['/'] + name);
    lemma_whole_piece(none);
    lemma_whole_piece(name);
    lemma_one_kept(none);
    lemma_one_kept(name);
    Seq::filter_distributes_over_add(seq![none], seq![name], keep);
    assert(Seq::<Seq<char>>::empty() + seq![name].filter(keep) =~= tail);
}

pub(crate) proof fn lemma_split_sum(a: Seq<char>, b: Seq<char>, sep: char)
    ensures
        split(a + seq![sep] + b, sep) == split(a, sep) + split(b, sep),
    decreases a.len(),
{
    let whole = a + seq![sep] + b;
    lemma_find_char(a, sep);
    match find_char(a, sep) {
        Some(at) => {
            let rest = a.skip(at + 1);
            assert forall|i: int| 0 <= i < at implies whole[i] != sep by {
                assert(whole[i] == a[i]);
            }
            lemma_find_char_is(whole, sep, at);
            assert(whole.take(at) =~= a.take(at));
            assert(whole.skip(at + 1) =~= rest + seq![sep] + b);
            lemma_split_sum(rest, b, sep);
            assert(split(whole, sep) =~= split(a, sep) + split(b, sep));
        },
        None => {
            assert forall|i: int| 0 <= i < a.len() implies whole[i] != sep by {
                assert(whole[i] == a[i]);
            }
            lemma_find_char_is(whole, sep, a.len() as int);
            assert(whole.take(a.len() as int) =~= a);
            assert(whole.skip(a.len() + 1int) =~= b);
            assert(split(whole, sep) =~= split(a, sep) + split(b, sep));
        },
    }
}

/// On Windows a backslash separates like a slash; elsewhere it is a character like any other.
pub proof fn law_backslashes(path: Seq<char>)
    ensures
        components_on(path, false) == components(path),
        components_on(path, true) == components_on(slashed(path), true),
        slashed(path).len() == path.len(),
        forall|i: int|
            0 <= i < path.len() ==> #[trigger] slashed(path)[i] == (if path[i] == '\\' {
                '/'
            } else {
                path[i]
            }),
{
    assert(slashed(slashed(path)) =~= slashed(path));
}

/// The components of a path; hidden from the solver, as are those on Windows.
#[verifier::opaque]
spec fn parts_of(path: Seq<char>) -> Seq<Seq<char>> {
    components(path)
}

#[verifier::opaque]
spec fn windows_parts_of(path: Seq<char>) -> Seq<Seq<char>> {
    components_on(path, true)
}

proof fn lemma_parts_alone(name: Seq<char>)
    requires
        name.len() > 0,
        !name.contains('/'),
        name != "."@,
    ensures
        parts_of(name) == seq![name],
{
    reveal(parts_of);
    law_component_alone(name);
}

proof fn lemma_parts_below(path: Seq<char>, name: Seq<char>)
    requires
        path.len() > 0,
        !name.contains('/'),
        name != "."@,
    ensures
        parts_of(path + seq!['/'] + name) == (if name.len() == 0 {
            parts_of(path)
        } else {
            parts_of(path).push(name)
        }),
{
    reveal(parts_of);
    law_component_below(path, name);
}

proof fn lemma_parts_of_root(name: Seq<char>)
    requires
        name.len() == 0,
    ensures
        parts_of(seq!['/'] + name) == seq!["/"@],
{
    reveal(parts_of);
    reveal_strlit(".");
    assert("."@.len() == 1);
    law_component_of_root(name);
}

proof fn lemma_parts_on_drive(path: Seq<char>, plain: Seq<char>, parts: Seq<Seq<char>>)
    requires
        slashed(path) == plain,
        parts_of(plain) == parts,
        parts.len() > 0,
        is_drive(parts[0]),
    ensures
        windows_parts_of(path) == parts.update(0, lower(parts[0]) + "/"@),
{
    reveal(parts_of);
    reveal(windows_parts_of);
}

proof fn lemma_parts_on_share(path: Seq<char>, parts: Seq<Seq<char>>)
    requires
        slashed(path) == path,
        parts_of(path) == parts,
        parts.len() > 2,
        parts[0].len() == 1,
        on_share(path),
    ensures
        windows_parts_of(path) == seq!["//"@ + parts[1] + "/"@ + parts[2] + "/"@] + parts.skip(3),
{
    reveal(parts_of);
    reveal(windows_parts_of);
}

proof fn lemma_drive(letter: char, name: Seq<char>)
    requires
        'a' <= letter <= 'z' || 'A' <= letter <= 'Z',
        name != "."@,
        !name.contains('/'),
        !name.contains('\\'),
    ensures
        windows_parts_of(seq![letter, ':', '\\'] + name) == (if name.len() == 0 {
            seq![lower(seq![letter]) + seq![':', '/']]
        } else {
            seq![lower(seq![letter]) + seq![':', '/'], name]
        }),
{
    let drive = seq![letter, ':'];
    let root = lower(seq![letter]) + seq![':', '/'];
    let path = seq![letter, ':', '\\'] + name;
    let plain = drive + seq!['/'] + name;
    reveal_strlit(".");
    reveal_strlit("/");
    assert("."@.len() == 1);
    assert(lower(drive) + "/"@ =~= root);
    assert forall|i: int| 0 <= i < name.len() implies name[i] != '\\' by {
        assert(name.contains(name[i]));
    }
    assert(slashed(path) =~= plain);
    assert(drive[0] != '/' && drive[1] != '/');
    lemma_parts_alone(drive);
    lemma_parts_below(drive, name);
    let parts = parts_of(plain);
    assert(parts[0] == drive);
    lemma_parts_on_drive(path, plain, parts);
    assert(parts.update(0, root) =~= (if name.len() == 0 {
        seq![root]
    } else {
        seq![root, name]
    }));
}

/// On Windows a drive is a root, and its case does not count.
pub proof fn law_drives(letter: char, name: Seq<char>)
    requires
        'a' <= letter <= 'z' || 'A' <= letter <= 'Z',
        name != "."@,
        !name.contains('/'),
        !name.contains('\\'),
    ensures
        components_on(seq![letter, ':', '\\'] + name, true) == (if name.len() == 0 {
            seq![lower(seq![letter]) + seq![':', '/']]
        } else {
            seq![lower(seq![letter]) + seq![':', '/'], name]
        }),
{
    lemma_drive(letter, name);
    reveal(windows_parts_of);
}

proof fn lemma_share(server: Seq<char>, share: Seq<char>, name: Seq<char>, root: Seq<char>)
    requires
        server.len() > 0,
        server[0] != '?',
        server[0] != '.',
        !server.contains('/'),
        !server.contains('\\'),
        share.len() > 0,
        share != "."@,
        !share.contains('/'),
        !share.contains('\\'),
        name != "."@,
        !name.contains('/'),
        !name.contains('\\'),
        root == seq!['/', '/'] + server + seq!['/'] + share,
    ensures
        windows_parts_of(root + seq!['/'] + name) == (if name.len() == 0 {
            seq![root + seq!['/']]
        } else {
            seq![root + seq!['/'], name]
        }),
{
    let none = Seq::<char>::empty();
    let path = root + seq!['/'] + name;
    reveal_strlit(".");
    reveal_strlit("/");
    reveal_strlit("//");
    assert("."@.len() == 1 && "."@[0] == '.');
    assert forall|i: int| 0 <= i < server.len() implies server[i] != '\\' by {
        assert(server.contains(server[i]));
    }
    assert forall|i: int| 0 <= i < share.len() implies share[i] != '\\' by {
        assert(share.contains(share[i]));
    }
    assert forall|i: int| 0 <= i < name.len() implies name[i] != '\\' by {
        assert(name.contains(name[i]));
    }
    assert(slashed(path) =~= path);
    assert(server.contains(server[0]));
    assert(path[0] == '/' && path[1] == '/' && path[2] == server[0]);
    let first = seq!['/'];
    let second = seq!['/', '/'] + server;
    lemma_parts_of_root(none);
    assert(first + none =~= first);
    lemma_parts_below(first, server);
    assert(first + seq!['/'] + server =~= second);
    lemma_parts_below(second, share);
    assert(second + seq!['/'] + share =~= root);
    lemma_parts_below(root, name);
    let parts = parts_of(path);
    assert(parts[0] == "/"@ && parts[1] == server && parts[2] == share);
    lemma_parts_on_share(path, parts);
    assert("//"@ + server + "/"@ + share + "/"@ =~= root + seq!['/']);
    assert(seq![root + seq!['/']] + parts.skip(3) =~= (if name.len() == 0 {
        seq![root + seq!['/']]
    } else {
        seq![root + seq!['/'], name]
    }));
}

/// On Windows a network share is a root.
pub proof fn law_shares(server: Seq<char>, share: Seq<char>, name: Seq<char>, root: Seq<char>)
    requires
        server.len() > 0,
        server[0] != '?',
        server[0] != '.',
        !server.contains('/'),
        !server.contains('\\'),
        share.len() > 0,
        share != "."@,
        !share.contains('/'),
        !share.contains('\\'),
        name != "."@,
        !name.contains('/'),
        !name.contains('\\'),
        root == seq!['/', '/'] + server + seq!['/'] + share,
    ensures
        components_on(root + seq!['/'] + name, true) == (if name.len() == 0 {
            seq![root + seq!['/']]
        } else {
            seq![root + seq!['/'], name]
        }),
{
    lemma_share(server, share, name, root);
    reveal(windows_parts_of);
}

// ---- Messages ------------------------------------------------------------------

/// The payload of a message is what follows its first empty line, whatever its headers are; a
/// message without an empty line has none.
pub proof fn law_payload(headers: Seq<char>, body: Seq<char>, message: Seq<char>)
    ensures
        !contains(headers + seq!['\r', '\n', '\r'], "\r\n\r\n"@) ==> payload_of(
            headers + "\r\n\r\n"@ + body,
        ) == Some(body),
        !contains(message, "\r\n\r\n"@) ==> payload_of(message) is None,
{
    reveal_strlit("\r\n\r\n");
    let end = "\r\n\r\n"@;
    if !contains(headers + seq!['\r', '\n', '\r'], end) {
        let whole = headers + end + body;
        let at = headers.len() as int;
        assert(whole.subrange(at, at + 4) =~= end);
        assert forall|i: int| 0 <= i < at implies !occurs_at(whole, end, i) by {
            if occurs_at(whole, end, i) {
                let head = headers + seq!['\r', '\n', '\r'];
                assert(whole.subrange(i, i + 4) =~= head.subrange(i, i + 4));
                assert(occurs_at(head, end, i));
            }
        }
        crate::text::lemma_find_is(whole, end, at);
        assert(whole.skip(at + 4) =~= body);
    }
}

/// A content length that is no number is refused, and told of without the white space around
/// it.
pub proof fn law_bad_length(
    name: Seq<char>,
    before: Seq<char>,
    value: Seq<char>,
    earlier: Option<nat>,
    i: int,
)
    requires
        lower(name) == "content-length"@,
        all_space(before),
        0 <= i < value.len(),
        !is_digit(value[i]),
        value[i] != '+',
        !is_space(value[0]),
        !is_space(value.last()),
    ensures
        header_step(earlier, name + ":"@ + before + value + "\r\n"@) == HeaderModel::Invalid(value),
{
    reveal_strlit("content-length");
    reveal_strlit(":");
    reveal_strlit("\r\n");
    let header = name + ":"@ + before + value;
    let line = header + "\r\n"@;
    assert(line =~= name + ":"@ + before + value + "\r\n"@);
    reveal_with_fuel(crate::lsp::without_line_end, 3);
    assert(line.drop_last().drop_last() =~= header);
    assert(header.last() == value.last());
    assert(crate::lsp::without_line_end(line) == header);
    assert forall|k: int| 0 <= k < name.len() implies header[k] != ':' by {
        assert(header[k] == name[k]);
        assert(name.len() == "content-length"@.len());
        assert(lower(name)[k] == "content-length"@[k]);
        assert("content-length"@[k] != ':');
        law_lower(name, k);
    }
    lemma_find_char_is(header, ':', name.len() as int);
    assert(header.take(name.len() as int) =~= name);
    assert(header.skip(name.len() as int + 1) =~= before + value);
    let none = Seq::<char>::empty();
    law_space_around_does_not_count(before, value, none);
    assert(before + value + none =~= before + value);
    law_numbers(0, usize::MAX as nat, value);
    assert(!is_digit(value[i]) && !(i == 0 && value[i] == '+'));
}

/// An id that is no integer, such as a string, is none.
pub proof fn law_other_ids(before: Seq<char>, space: Seq<char>, rest: Seq<char>)
    requires
        all_space(space),
        rest.len() > 0,
        !is_digit(rest[0]),
        !is_space(rest[0]),
        rest[0] != '-' || rest.len() == 1 || !is_digit(rest[1]),
        !contains(before + "\"id\":"@.drop_last(), "\"id\":"@),
    ensures
        response_id(before + "\"id\":"@ + space + rest) is None,
{
    reveal_strlit("\"id\":");
    let key = "\"id\":"@;
    let payload = before + key + space + rest;
    let at = before.len() as int;
    assert(payload.subrange(at, at + 5) =~= key);
    assert forall|i: int| 0 <= i < at implies !occurs_at(payload, key, i) by {
        if occurs_at(payload, key, i) {
            let head = before + key.drop_last();
            assert(payload.subrange(i, i + 5) =~= head.subrange(i, i + 5));
            assert(occurs_at(head, key, i));
        }
    }
    crate::text::lemma_find_is(payload, key, at);
    assert(payload.skip(at + 5) =~= space + rest);
    lemma_skip_start(space, rest);
    if rest[0] == '-' && rest.len() > 1 {
        assert(rest.drop_first()[0] == rest[1]);
    }
}

} // verus!
