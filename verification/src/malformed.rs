use crate::frame::{command_named, unknown_command, FrameView};
use crate::headers::{put, Header};
use crate::parse::{
    after_line, bad_header, header_of, initial_headers, parsed, scan, too_short,
};
use crate::misc::Fault;
use crate::text::{count, find, lemma_find, lemma_find_count};
use vstd::prelude::*;

verus! {

/// A line is a header exactly where it holds one colon, no more and no less.
pub proof fn lemma_header_has_one_colon(line: Seq<char>)
    ensures
        header_of(line).is_some() <==> count(line, ':', 0) == 1,
{
    let at = find(line, ':', 0);
    lemma_find(line, ':', 0);
    lemma_find_count(line, ':', 0);
    if at < line.len() {
        lemma_find_count(line, ':', at + 1);
    }
}

/// The lines of `text` from `pos` up to the first empty line: the lines that
/// are read as headers where none of them ends the reading before.
pub open spec fn header_lines(text: Seq<char>, pos: int) -> Seq<Seq<char>>
    decreases text.len() - pos,
    via header_lines_end
{
    if pos < 0 || pos >= text.len() {
        Seq::empty()
    } else {
        let end = find(text, '\n', pos);
        if end == pos {
            Seq::empty()
        } else {
            seq![text.subrange(pos, end)] + header_lines(text, after_line(text, end))
        }
    }
}

#[via_fn]
proof fn header_lines_end(text: Seq<char>, pos: int) {
    if 0 <= pos < text.len() {
        lemma_find(text, '\n', pos);
    }
}

/// Reading the headers fails exactly where one of the header lines is no
/// header, and then with the first such line.
pub proof fn lemma_scan_fails(text: Seq<char>, pos: int, onto: Seq<Header>)
    requires
        0 <= pos <= text.len(),
    ensures
        match scan(text, pos, onto) {
            Ok(_) => forall|i: int|
                0 <= i < header_lines(text, pos).len() ==> header_of(
                    #[trigger] header_lines(text, pos)[i],
                ).is_some(),
            Err(line) => exists|i: int|
                {
                    &&& 0 <= i < header_lines(text, pos).len()
                    &&& #[trigger] header_lines(text, pos)[i] == line
                    &&& header_of(line).is_none()
                    &&& forall|j: int|
                        0 <= j < i ==> header_of(#[trigger] header_lines(text, pos)[j]).is_some()
                },
        },
    decreases text.len() - pos,
{
    if pos < text.len() {
        let end = find(text, '\n', pos);
        lemma_find(text, '\n', pos);
        if end > pos {
            let line = text.subrange(pos, end);
            let next = after_line(text, end);
            let lines = header_lines(text, pos);
            let later = header_lines(text, next);
            assert(lines =~= seq![line] + later);
            match header_of(line) {
                None => {
                    assert(lines[0] == line);
                },
                Some(h) => {
                    lemma_scan_fails(text, next, put(onto, h.0, h.1));
                    match scan(text, pos, onto) {
                        Ok(_) => {
                            assert forall|i: int| 0 <= i < lines.len() implies header_of(
                                #[trigger] lines[i],
                            ).is_some() by {
                                if i > 0 {
                                    assert(lines[i] == later[i - 1]);
                                }
                            }
                        },
                        Err(bad) => {
                            let k = choose|k: int|
                                {
                                    &&& 0 <= k < later.len()
                                    &&& #[trigger] later[k] == bad
                                    &&& header_of(bad).is_none()
                                    &&& forall|j: int|
                                        0 <= j < k ==> header_of(#[trigger] later[j]).is_some()
                                };
                            assert(lines[k + 1] == bad);
                            assert forall|j: int| 0 <= j < k + 1 implies header_of(
                                #[trigger] lines[j],
                            ).is_some() by {
                                if j > 0 {
                                    assert(lines[j] == later[j - 1]);
                                }
                            }
                        },
                    }
                },
            }
        }
    }
}

/// Whether the text has two lines or more: something stands behind its first
/// line feed.
pub open spec fn has_two_lines(text: Seq<char>) -> bool {
    find(text, '\n', 0) + 1 < text.len()
}

/// The first line of the text, without its line feed.
pub open spec fn first_line(text: Seq<char>) -> Seq<char> {
    text.take(find(text, '\n', 0))
}

/// The header lines of the text: the lines after the first and before the
/// first empty line.
pub open spec fn headers_in(text: Seq<char>) -> Seq<Seq<char>> {
    header_lines(text, find(text, '\n', 0) + 1)
}

/// A text that ends with or before its first line feed, a single line, is
/// refused as a malformed frame.
pub proof fn lemma_single_line(text: Seq<char>)
    requires
        !has_two_lines(text),
    ensures
        parsed(text) == Err::<FrameView, Fault>(too_short(text)),
{
}

/// A text of two lines or more whose first line is no command word is
/// refused as a malformed command.
pub proof fn lemma_unknown_command(text: Seq<char>)
    requires
        has_two_lines(text),
        command_named(first_line(text)).is_none(),
    ensures
        parsed(text) == Err::<FrameView, Fault>(unknown_command(first_line(text))),
{
}

/// A text of two lines or more whose first line is a command word is read
/// as a frame exactly where each of its header lines holds exactly one colon.
/// Otherwise it is refused as a malformed header, with the first header line
/// that does not.
pub proof fn lemma_headers_decide(text: Seq<char>)
    requires
        has_two_lines(text),
        command_named(first_line(text)).is_some(),
    ensures
        parsed(text) is Ok <==> forall|i: int|
            0 <= i < headers_in(text).len() ==> count(#[trigger] headers_in(text)[i], ':', 0) == 1,
        parsed(text) is Err ==> exists|first: int|
            {
                &&& 0 <= first < headers_in(text).len()
                &&& count(#[trigger] headers_in(text)[first], ':', 0) != 1
                &&& forall|j: int|
                    0 <= j < first ==> count(#[trigger] headers_in(text)[j], ':', 0) == 1
                &&& parsed(text) == Err::<FrameView, Fault>(bad_header(headers_in(text)[first]))
            },
{
    let start = find(text, '\n', 0) + 1;
    let lines = headers_in(text);
    lemma_find(text, '\n', 0);
    lemma_scan_fails(text, start, initial_headers());
    assert forall|i: int| 0 <= i < lines.len() implies (header_of(#[trigger] lines[i]).is_some()
        <==> count(lines[i], ':', 0) == 1) by {
        lemma_header_has_one_colon(lines[i]);
    }
    match scan(text, start, initial_headers()) {
        Ok(_) => {
            assert forall|i: int| 0 <= i < lines.len() implies count(
                #[trigger] lines[i],
                ':',
                0,
            ) == 1 by {
                assert(header_of(lines[i]).is_some());
            }
        },
        Err(line) => {
            let first = choose|i: int|
                {
                    &&& 0 <= i < lines.len()
                    &&& #[trigger] lines[i] == line
                    &&& header_of(line).is_none()
                    &&& forall|j: int| 0 <= j < i ==> header_of(#[trigger] lines[j]).is_some()
                };
            assert(count(lines[first], ':', 0) != 1);
            assert forall|j: int| 0 <= j < first implies count(#[trigger] lines[j], ':', 0)
                == 1 by {
                assert(header_of(lines[j]).is_some());
            }
        },
    }
}

/// A line that is a null character alone holds no colon and is no header:
/// the sentinel ends the body, not the header lines.
pub proof fn lemma_sentinel_is_no_header(line: Seq<char>)
    requires
        line == seq!['\0'],
    ensures
        header_of(line).is_none(),
        count(line, ':', 0) == 0,
{
    lemma_header_has_one_colon(line);
    assert(count(line, ':', 1) == 0);
}

} // verus!
