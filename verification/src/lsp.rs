//! The wire format of the Language Server Protocol: messages framed by `Content-Length`.
use vstd::prelude::*;
use vstd::string::*;
use vstd::utf8::*;

use crate::number::{
    decimal, decimal_text, lemma_decimal_round_trip, lemma_parse_decimal, parse_unsigned,
    read_unsigned,
};
use crate::text::{
    chars_of, find, find_char, find_chars, first_at, is_space, lemma_find_char_is, lemma_find_first,
    lemma_find_is, lower, lower_text, occurs_at, same_text, seek_char, slice_text, trim,
    trim_bounds, trim_start,
};

verus! {

// ---- Frames --------------------------------------------------------------------

/// A payload in its frame: its length in bytes, a blank line, and the payload.
pub open spec fn framed(json: Seq<char>) -> Seq<char> {
    "Content-Length: "@ + decimal(encode_utf8(json).len()) + "\r\n\r\n"@ + json
}

/// What follows the first blank line of a message.
pub open spec fn payload_of(message: Seq<char>) -> Option<Seq<char>> {
    match find(message, "\r\n\r\n"@) {
        Some(at) => Some(message.skip(at + 4)),
        None => None,
    }
}

/// Wrap a JSON payload in an LSP `Content-Length` frame.
pub fn frame(json: &str) -> (message: String)
    ensures
        message@ == framed(json@),
{
    let length = json.as_bytes().len();
    let mut message = "Content-Length: ".to_owned();
    message.append(decimal_text(length as u64).as_str());
    message.append("\r\n\r\n");
    message.append(json);
    message
}

/// Extract the JSON payload from a framed LSP message.
pub fn payload(message: &str) -> (json: Option<&str>)
    ensures
        payload_of(message@) == (match json {
            Some(j) => Some(j@),
            None => None,
        }),
{
    let chars = chars_of(message);
    let blank = chars_of("\r\n\r\n");
    proof {
        reveal_strlit("\r\n\r\n");
        lemma_find_first(chars@, blank@);
    }
    match find_chars(&chars, &blank) {
        Some(at) => {
            assert(at + 4 <= chars.len());
            let json = message.substring_char(at + 4, chars.len());
            assert(json@ =~= message@.skip(at + 4));
            Some(json)
        },
        None => None,
    }
}

/// Unwrapping what was wrapped gives back the payload, whatever it holds.
pub proof fn law_payload_of_frame(json: Seq<char>)
    ensures
        payload_of(framed(json)) == Some(json),
{
    reveal_strlit("Content-Length: ");
    reveal_strlit("\r\n\r\n");
    let digits = decimal(encode_utf8(json).len());
    let head = "Content-Length: "@ + digits;
    let blank = "\r\n\r\n"@;
    let message = framed(json);
    lemma_decimal_round_trip(encode_utf8(json).len());
    assert(message =~= head + blank + json);
    let at = head.len() as int;
    assert(message.subrange(at, at + 4) =~= blank);
    assert forall|before: int| 0 <= before < at implies !occurs_at(message, blank, before) by {
        assert(message[before] == head[before]);
        if before >= "Content-Length: "@.len() {
            assert(head[before] == digits[before - "Content-Length: "@.len()]);
        }
        assert(message[before] != '\r');
        if occurs_at(message, blank, before) {
            assert(message.subrange(before, before + 4)[0] == message[before]);
            assert(blank[0] == '\r');
        }
    }
    assert(first_at(message, blank, at));
    lemma_find_is(message, blank, at);
    assert(message.skip(at + 4) =~= json);
}

// ---- Reading -------------------------------------------------------------------

/// `line` without the carriage returns and line feeds at its end.
pub open spec fn without_line_end(line: Seq<char>) -> Seq<char>
    decreases line.len(),
{
    if line.len() > 0 && (line.last() == '\r' || line.last() == '\n') {
        without_line_end(line.drop_last())
    } else {
        line
    }
}

/// What one header line does to the header block.
pub enum HeaderModel {
    /// The block goes on; the content length read so far.
    More(Option<nat>),
    /// The block is complete and the body has this many bytes.
    Body(nat),
    /// The block is complete and gave no content length.
    Missing,
    /// The content length is no number; its text.
    Invalid(Seq<char>),
}

/// What one more header line does, where `length` is the content length read so far. The
/// name is compared without regard to case; headers of any other name are accepted and
/// ignored.
pub open spec fn header_step(length: Option<nat>, line: Seq<char>) -> HeaderModel {
    let header = without_line_end(line);
    if header.len() == 0 {
        match length {
            Some(n) => HeaderModel::Body(n),
            None => HeaderModel::Missing,
        }
    } else {
        match find_char(header, ':') {
            Some(at) => if lower(header.take(at)) == "content-length"@ {
                let value = trim(header.skip(at + 1));
                match parse_unsigned(value, usize::MAX as nat) {
                    Some(n) => HeaderModel::More(Some(n)),
                    None => HeaderModel::Invalid(value),
                }
            } else {
                HeaderModel::More(length)
            },
            None => HeaderModel::More(length),
        }
    }
}

/// What one header line does to the header block.
pub enum HeaderStep {
    /// The block goes on; the content length read so far.
    More(Option<usize>),
    /// The block is complete and the body has this many bytes.
    Body(usize),
    /// The block is complete and gave no content length.
    Missing,
    /// The content length is no number; its text.
    Invalid(String),
}

/// A length as a natural number.
pub open spec fn length_of(length: Option<usize>) -> Option<nat> {
    match length {
        Some(n) => Some(n as nat),
        None => None,
    }
}

impl View for HeaderStep {
    type V = HeaderModel;

    open spec fn view(&self) -> HeaderModel {
        match self {
            HeaderStep::More(length) => HeaderModel::More(length_of(*length)),
            HeaderStep::Body(n) => HeaderModel::Body(*n as nat),
            HeaderStep::Missing => HeaderModel::Missing,
            HeaderStep::Invalid(value) => HeaderModel::Invalid(value@),
        }
    }
}

/// Take one more line of a header block, where `length` is the content length read so far.
pub fn read_header(length: Option<usize>, line: &str) -> (step: HeaderStep)
    ensures
        step@ == header_step(length_of(length), line@),
{
    let chars = chars_of(line);
    let mut end: usize = chars.len();
    assert(chars@.take(end as int) =~= chars@);
    while end > 0 && (chars[end - 1] == '\r' || chars[end - 1] == '\n')
        invariant
            end <= chars@.len(),
            without_line_end(line@) == without_line_end(chars@.take(end as int)),
        decreases end,
    {
        assert(chars@.take(end as int).drop_last() =~= chars@.take(end - 1));
        end = end - 1;
    }
    let header = chars_of(slice_text(&chars, 0, end).as_str());
    assert(header@ =~= chars@.take(end as int));
    assert(header@ == without_line_end(line@));
    if header.len() == 0 {
        return match length {
            Some(n) => HeaderStep::Body(n),
            None => HeaderStep::Missing,
        };
    }
    assert(header@.skip(0) =~= header@);
    match seek_char(&header, 0, ':') {
        Some(at) => {
            let name = slice_text(&header, 0, at);
            assert(name@ =~= header@.take(at as int));
            if same_text(lower_text(name.as_str()).as_str(), "content-length") {
                let value = chars_of(slice_text(&header, at + 1, header.len()).as_str());
                assert(value@ =~= header@.skip(at + 1));
                let bounds = trim_bounds(&value);
                match read_unsigned(&value, bounds.0, bounds.1, usize::MAX as u64) {
                    Some(n) => HeaderStep::More(Some(n as usize)),
                    None => HeaderStep::Invalid(slice_text(&value, bounds.0, bounds.1)),
                }
            } else {
                HeaderStep::More(length)
            }
        },
        None => HeaderStep::More(length),
    }
}

/// `String::from_utf8`: the string with exactly these bytes, where they are valid UTF-8.
#[verifier::external_body]
fn string_from_utf8(bytes: Vec<u8>) -> (text: Option<String>)
    ensures
        match text {
            Some(t) => valid_utf8(bytes@) && t@ == decode_utf8(bytes@),
            None => !valid_utf8(bytes@),
        },
{
    String::from_utf8(bytes).ok()
}

/// Frame the bytes of a message body again, so that the message can be forwarded verbatim.
/// A body that is not valid UTF-8 gives nothing.
pub fn frame_body(body: Vec<u8>) -> (message: Option<String>)
    ensures
        match message {
            Some(m) => valid_utf8(body@) && m@ == framed(decode_utf8(body@)),
            None => !valid_utf8(body@),
        },
{
    match string_from_utf8(body) {
        Some(json) => Some(frame(json.as_str())),
        None => None,
    }
}

/// The first line of a frame.
pub open spec fn length_line(json: Seq<char>) -> Seq<char> {
    "Content-Length: "@ + decimal(encode_utf8(json).len()) + "\r\n"@
}

/// Reading a framed message gives back the message: its first line yields the length of
/// the payload in bytes, its second ends the header block, and the bytes that follow are
/// framed into the same message.
pub proof fn law_read_of_frame(json: Seq<char>)
    requires
        encode_utf8(json).len() <= usize::MAX,
    ensures
        framed(json) == length_line(json) + "\r\n"@ + json,
        header_step(None, length_line(json)) == HeaderModel::More(Some(encode_utf8(json).len())),
        header_step(Some(encode_utf8(json).len()), "\r\n"@) == HeaderModel::Body(
            encode_utf8(json).len(),
        ),
        valid_utf8(encode_utf8(json)),
        framed(decode_utf8(encode_utf8(json))) == framed(json),
{
    broadcast use encode_utf8_valid_utf8, encode_utf8_decode_utf8;

    reveal_strlit("Content-Length: ");
    reveal_strlit("Content-Length:");
    reveal_strlit("content-length");
    reveal_strlit("\r\n\r\n");
    reveal_strlit("\r\n");
    let n = encode_utf8(json).len();
    let digits = decimal(n);
    lemma_decimal_round_trip(n);
    assert("\r\n\r\n"@ =~= "\r\n"@ + "\r\n"@);
    assert(framed(json) =~= length_line(json) + "\r\n"@ + json);

    let line = length_line(json);
    let header = "Content-Length: "@ + digits;
    reveal_with_fuel(without_line_end, 3);
    assert(line.drop_last().drop_last() =~= header);
    assert(header.last() == digits.last());
    assert(without_line_end(line) == header);
    assert(header[14] == ':');
    lemma_find_char_is(header, ':', 14);
    assert(lower(header.take(14)) =~= "content-length"@);
    let value = header.skip(15);
    assert(value =~= seq![' '] + digits);
    reveal_with_fuel(trim_start, 2);
    assert(value.drop_first() =~= digits);
    assert(trim_start(value) == digits);
    assert(!is_space(digits.last()));
    assert(trim(value) == digits);
    lemma_parse_decimal(n, usize::MAX as nat);

    let end = "\r\n"@;
    assert(end.drop_last().drop_last() =~= Seq::<char>::empty());
    assert(without_line_end(end) =~= Seq::<char>::empty());
}

} // verus!
