use crate::escape::{unescape_chars, unescaped};
use crate::frame::{command_named, unknown_command, Command, Frame, FrameView};
use crate::headers::{put, Header};
use crate::misc::{ErrorKind, Fault, StompError};
use crate::number::decimal;
use crate::text::{chars_of, find, find_char, lemma_find, slice_of, string_of};
use vstd::prelude::*;
use vstd::string::*;
use vstd::utf8::{decode_utf8, valid_utf8};

verus! {

/// The header that a line holds: the line must hold exactly one colon, and
/// what stands before and after it is unescaped to give key and value.
pub open spec fn header_of(line: Seq<char>) -> Option<Header> {
    let at = find(line, ':', 0);
    if at < line.len() && find(line, ':', at + 1) == line.len() {
        Some((unescaped(line.take(at)), unescaped(line.skip(at + 1))))
    } else {
        None
    }
}

/// The failure that reports `line` as no header.
pub open spec fn bad_header(line: Seq<char>) -> Fault {
    Fault {
        kind: ErrorKind::MalformedHeader,
        detail: "Header does not have a key and a value. "@ + line,
    }
}

/// The failure that reports `text` as too short for a frame.
pub open spec fn too_short(text: Seq<char>) -> Fault {
    Fault {
        kind: ErrorKind::MalformedFrame,
        detail: "Frame too short. Must have at least 2 lines. Frame was: "@ + text,
    }
}

/// Reads one header line.
pub fn parse_header(line: &str) -> (out: Result<(String, String), StompError>)
    ensures
        match out {
            Ok(h) => header_of(line@) == Some((h.0@, h.1@)),
            Err(e) => header_of(line@).is_none() && e@ == bad_header(line@),
        },
{
    let chars = chars_of(line);
    let at: usize = find_char(&chars, ':', 0);
    if at < chars.len() {
        let next: usize = find_char(&chars, ':', at + 1);
        if next == chars.len() {
            let key = unescape_chars(&slice_of(&chars, 0, at));
            let value = unescape_chars(&slice_of(&chars, at + 1, chars.len()));
            assert(chars@.subrange(0, at as int) =~= chars@.take(at as int));
            assert(chars@.subrange(at + 1, chars@.len() as int) =~= chars@.skip(at + 1));
            return Ok((string_of(&key), string_of(&value)));
        }
    }
    let mut detail = String::from_str("Header does not have a key and a value. ");
    detail.append(line);
    Err(StompError::MalformedHeader(detail))
}

/// The body that stands in what follows the empty line: what is before the
/// first null character, the sentinel. Where there is no sentinel, the body
/// is all of it but for a line feed at its very end.
pub open spec fn body_of(rest: Seq<char>) -> Seq<char> {
    let stop = find(rest, '\0', 0);
    if stop < rest.len() {
        rest.take(stop)
    } else if rest.len() > 0 && rest.last() == '\n' {
        rest.drop_last()
    } else {
        rest
    }
}

/// What is left of a frame's text after its first line: the header lines,
/// each given to the headers gathered so far, up to the first empty line, and
/// behind that line the body. Without an empty line all lines are headers and
/// the body is empty. The first line that is no header ends the reading. A
/// null character is a character like any other in a header line.
pub open spec fn scan(text: Seq<char>, pos: int, headers: Seq<Header>) -> Result<
    (Seq<Header>, Seq<char>),
    Seq<char>,
>
    decreases text.len() - pos,
    via scan_ends
{
    if pos < 0 || pos >= text.len() {
        Ok((headers, Seq::empty()))
    } else {
        let end = find(text, '\n', pos);
        let line = text.subrange(pos, end);
        if end == pos {
            Ok((headers, body_of(text.skip(pos + 1))))
        } else {
            match header_of(line) {
                None => Err(line),
                Some(h) => scan(text, after_line(text, end), put(headers, h.0, h.1)),
            }
        }
    }
}

/// Where the next line starts, for a line that ends at `end`: behind the
/// line feed, or at the end of the text where the line has none.
pub open spec fn after_line(text: Seq<char>, end: int) -> int {
    if end < text.len() {
        end + 1
    } else {
        end
    }
}

#[via_fn]
proof fn scan_ends(text: Seq<char>, pos: int, headers: Seq<Header>) {
    if 0 <= pos < text.len() {
        lemma_find(text, '\n', pos);
    }
}

/// The headers that reading starts from.
pub open spec fn initial_headers() -> Seq<Header> {
    seq![("content-length"@, decimal(0))]
}

/// The frame that a text holds, or why it holds none. The lines are those of
/// the whole text, each ended by a line feed, the last one by the end of the
/// text; a text that ends with or before its first line feed has fewer than
/// two of them.
pub open spec fn parsed(text: Seq<char>) -> Result<FrameView, Fault> {
    let end = find(text, '\n', 0);
    if end + 1 >= text.len() {
        Err(too_short(text))
    } else {
        match command_named(text.take(end)) {
            None => Err(unknown_command(text.take(end))),
            Some(command) => match scan(text, end + 1, initial_headers()) {
                Err(line) => Err(bad_header(line)),
                Ok((headers, body)) => Ok(FrameView { command, headers, body }),
            },
        }
    }
}

/// The failure that reports a buffer as no text.
pub open spec fn not_text() -> Fault {
    Fault { kind: ErrorKind::MalformedFrame, detail: "Frame is not valid UTF-8"@ }
}

/// The frame that a buffer of bytes holds, or why it holds none: the bytes
/// are read as UTF-8, and the text as `parsed` says.
pub open spec fn parsed_bytes(bytes: Seq<u8>) -> Result<FrameView, Fault> {
    if valid_utf8(bytes) {
        parsed(decode_utf8(bytes))
    } else {
        Err(not_text())
    }
}

/// The empty text has no characters and no bytes.
pub proof fn lemma_empty_text()
    ensures
        ""@ == Seq::<char>::empty(),
        "".spec_bytes() == Seq::<u8>::empty(),
{
    reveal_strlit("");
    assert(""@ =~= Seq::<char>::empty());
    assert("".spec_bytes() =~= Seq::<u8>::empty()) by {
        reveal_with_fuel(vstd::utf8::encode_utf8, 1);
    }
}

/// The body in the characters of `text` from `from` on.
fn body_chars(text: &Vec<char>, from: usize) -> (out: Vec<char>)
    requires
        from <= text@.len(),
    ensures
        out@ == body_of(text@.skip(from as int)),
{
    let rest = slice_of(text, from, text.len());
    assert(rest@ =~= text@.skip(from as int));
    let stop: usize = find_char(&rest, '\0', 0);
    if stop < rest.len() {
        let out = slice_of(&rest, 0, stop);
        assert(rest@.subrange(0, stop as int) =~= rest@.take(stop as int));
        out
    } else if rest.len() > 0 && rest[rest.len() - 1] == '\n' {
        let out = slice_of(&rest, 0, rest.len() - 1);
        assert(rest@.subrange(0, rest@.len() - 1) =~= rest@.drop_last());
        out
    } else {
        rest
    }
}

/// Reads the frame that the characters of a text hold.
#[verifier::loop_isolation(false)]
pub fn parse_chars(text: &Vec<char>) -> (out: Result<Frame, StompError>)
    ensures
        match out {
            Ok(frame) => parsed(text@) == Ok::<FrameView, Fault>(frame@) && frame.well_formed(),
            Err(e) => parsed(text@) == Err::<FrameView, Fault>(e@),
        },
{
    let end: usize = find_char(text, '\n', 0);
    if text.len() - end <= 1 {
        let mut detail = String::from_str(
            "Frame too short. Must have at least 2 lines. Frame was: ",
        );
        detail.append(string_of(text).as_str());
        return Err(StompError::MalformedFrame(detail));
    }
    let word = string_of(&slice_of(text, 0, end));
    assert(text@.subrange(0, end as int) =~= text@.take(end as int));
    let cmd = match Command::parse(word.as_str()) {
        Ok(c) => c,
        Err(e) => {
            return Err(e);
        },
    };
    let mut frame = Frame::new(cmd, "");
    proof {
        lemma_empty_text();
    }
    let mut pos: usize = end + 1;
    while pos < text.len()
        invariant
            pos <= text@.len(),
            frame.well_formed(),
            frame@.command == cmd,
            frame@.body == Seq::<char>::empty(),
            scan(text@, pos as int, frame@.headers) == scan(
                text@,
                end + 1,
                initial_headers(),
            ),
        decreases text@.len() - pos,
    {
        let stop: usize = find_char(text, '\n', pos);
        if stop == pos {
            frame.set_body(string_of(&body_chars(text, pos + 1)));
            return Ok(frame);
        }
        let line = string_of(&slice_of(text, pos, stop));
        match parse_header(line.as_str()) {
            Err(e) => {
                return Err(e);
            },
            Ok(h) => {
                frame.add_header(h.0.as_str(), h.1.as_str());
            },
        }
        pos = if stop < text.len() {
            stop + 1
        } else {
            stop
        };
    }
    Ok(frame)
}

/// Trusted: `core::str::from_utf8` accepts exactly the byte sequences that
/// are valid UTF-8, and the string slice it then returns is made of the very
/// bytes it was given.
#[verifier::external_body]
pub(crate) fn text_of(bytes: &[u8]) -> (out: Option<&str>)
    ensures
        out.is_some() == valid_utf8(bytes@),
        out matches Some(text) ==> text.spec_bytes() == bytes@,
{
    core::str::from_utf8(bytes).ok()
}

} // verus!
