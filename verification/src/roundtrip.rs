use crate::escape::{escaped, lemma_escaped_chars, lemma_unescape_escape, unambiguous};
use crate::frame::{header_block, header_line, lemma_command_words, wire, FrameView};
use crate::headers::{
    distinct_keys, key_index, lemma_key_index, lemma_key_index_is, lemma_put, lookup, put, Header,
};
use crate::misc::Fault;
use crate::number::decimal;
use crate::parse::{body_of, header_of, initial_headers, parsed, parsed_bytes, scan};
use crate::text::lemma_find_is;
use vstd::prelude::*;
use vstd::utf8::encode_utf8;

verus! {

/// A frame that comes back from the wire as it went: in no header key or
/// value a backslash stands directly before `c`, `r` or `n`, and the body
/// holds no null character.
pub open spec fn wire_safe(frame: FrameView) -> bool {
    &&& forall|i: int|
        0 <= i < frame.headers.len() ==> unambiguous((#[trigger] frame.headers[i]).0)
            && unambiguous(frame.headers[i].1)
    &&& !frame.body.contains('\0')
}

/// The headers `onto` after each header of `more` was given to them in turn.
pub open spec fn merged(onto: Seq<Header>, more: Seq<Header>) -> Seq<Header>
    decreases more.len(),
{
    if more.len() == 0 {
        onto
    } else {
        merged(put(onto, more[0].0, more[0].1), more.skip(1))
    }
}

/// The line of a header whose key and value are unambiguous, without its
/// line feed, holds no line feed, is not empty, and reads back as the header.
proof fn lemma_header_line(h: Header)
    requires
        unambiguous(h.0),
        unambiguous(h.1),
    ensures
        header_line(h) == (escaped(h.0) + seq![':'] + escaped(h.1)).push('\n'),
        (escaped(h.0) + seq![':'] + escaped(h.1)).len() > 0,
        !(escaped(h.0) + seq![':'] + escaped(h.1)).contains('\n'),
        header_of(escaped(h.0) + seq![':'] + escaped(h.1)) == Some(h),
{
    let k = escaped(h.0);
    let v = escaped(h.1);
    let line = k + seq![':'] + v;
    lemma_escaped_chars(h.0);
    lemma_escaped_chars(h.1);
    lemma_unescape_escape(h.0);
    lemma_unescape_escape(h.1);
    assert(header_line(h) =~= line.push('\n'));
    assert forall|i: int| 0 <= i < line.len() implies line[i] != '\n' by {
        if i < k.len() {
            assert(k.contains(line[i]));
        } else if i > k.len() {
            assert(v[i - k.len() - 1] == line[i]);
            assert(v.contains(line[i]));
        }
    }
    let at = k.len() as int;
    assert forall|j: int| 0 <= j < at implies line[j] != ':' by {
        assert(k.contains(line[j]));
    }
    lemma_find_is(line, ':', 0, at);
    assert forall|j: int| at + 1 <= j < line.len() implies line[j] != ':' by {
        assert(v[j - at - 1] == line[j]);
        assert(v.contains(line[j]));
    }
    lemma_find_is(line, ':', at + 1, line.len() as int);
    assert(line.take(at) =~= k);
    assert(line.skip(at + 1) =~= v);
}

/// Reading a text from the place where the block of unambiguous headers
/// starts, with an empty line behind it, gives those headers, each given in
/// turn to the ones gathered before, and the body that stands in what follows
/// the empty line.
proof fn lemma_scan_block(
    text: Seq<char>,
    pos: int,
    headers: Seq<Header>,
    onto: Seq<Header>,
    behind: Seq<char>,
)
    requires
        0 <= pos <= text.len(),
        text.skip(pos) == header_block(headers) + seq!['\n'] + behind,
        forall|i: int|
            0 <= i < headers.len() ==> unambiguous((#[trigger] headers[i]).0) && unambiguous(
                headers[i].1,
            ),
    ensures
        scan(text, pos, onto) == Ok::<(Seq<Header>, Seq<char>), Seq<char>>(
            (merged(onto, headers), body_of(behind)),
        ),
    decreases headers.len(),
{
    let here = text.skip(pos);
    if headers.len() == 0 {
        assert(here[0] == '\n');
        assert(text[pos] == '\n');
        assert(text.skip(pos + 1) =~= behind) by {
            assert(text.skip(pos + 1) =~= here.skip(1));
        }
    } else {
        let h = headers[0];
        let rest = headers.skip(1);
        let line = escaped(h.0) + seq![':'] + escaped(h.1);
        let tail = header_block(rest) + seq!['\n'] + behind;
        lemma_header_line(h);
        assert(here =~= line.push('\n') + tail);
        let end = pos + line.len();
        assert forall|j: int| pos <= j < end implies text[j] != '\n' by {
            assert(text[j] == here[j - pos]);
            assert(line[j - pos] == here[j - pos]);
            assert(line.contains(line[j - pos]));
        }
        assert(text[end] == '\n') by {
            assert(text[end] == here[end - pos]);
        }
        lemma_find_is(text, '\n', pos, end);
        assert(text.subrange(pos, end) =~= line) by {
            assert forall|j: int| 0 <= j < line.len() implies text.subrange(pos, end)[j]
                == line[j] by {
                assert(text[pos + j] == here[j]);
            }
        }
        assert(text.skip(end + 1) =~= tail) by {
            assert(text.skip(end + 1) =~= here.skip(end + 1 - pos));
        }
        assert forall|i: int| 0 <= i < rest.len() implies unambiguous((#[trigger] rest[i]).0)
            && unambiguous(rest[i].1) by {
            assert(rest[i] == headers[i + 1]);
        }
        lemma_scan_block(text, end + 1, rest, put(onto, h.0, h.1), behind);
    }
}

/// Writing then reading: a frame that is safe on the wire is read back from
/// what was written for it with its command, its body, and its headers given
/// in turn to the one header, `content-length` with the value `0`, that
/// reading starts from.
pub proof fn lemma_parse_wire(frame: FrameView)
    requires
        wire_safe(frame),
    ensures
        parsed(wire(frame)) == Ok::<FrameView, Fault>(
            FrameView {
                command: frame.command,
                headers: merged(initial_headers(), frame.headers),
                body: frame.body,
            },
        ),
{
    let word = frame.command.token();
    let block = header_block(frame.headers);
    let text = wire(frame);
    let behind = frame.body.push('\0');
    lemma_command_words();
    let end = word.len() as int;
    assert forall|j: int| 0 <= j < end implies text[j] != '\n' by {
        assert(word[j] == text[j]);
    }
    assert(text[end] == '\n');
    lemma_find_is(text, '\n', 0, end);
    assert(text.take(end) =~= word);
    assert(text.skip(end + 1) =~= block + seq!['\n'] + behind);
    lemma_scan_block(text, end + 1, frame.headers, initial_headers(), behind);
    assert(body_of(behind) == frame.body) by {
        let stop = frame.body.len() as int;
        assert forall|j: int| 0 <= j < stop implies behind[j] != '\0' by {
            assert(frame.body.contains(behind[j]));
        }
        lemma_find_is(behind, '\0', 0, stop);
        assert(behind.take(stop) =~= frame.body);
    }
}

/// The value that a key has among `headers` without their first is the
/// value that it has among `headers`, unless it is the first one's key.
proof fn lemma_lookup_rest(headers: Seq<Header>, key: Seq<char>)
    requires
        headers.len() > 0,
        distinct_keys(headers),
    ensures
        distinct_keys(headers.skip(1)),
        headers[0].0 == key ==> lookup(headers, key) == Some(headers[0].1) && lookup(
            headers.skip(1),
            key,
        ).is_none(),
        headers[0].0 != key ==> lookup(headers, key) == lookup(headers.skip(1), key),
{
    let rest = headers.skip(1);
    assert forall|i: int, j: int| 0 <= i < j < rest.len() implies rest[i].0 != rest[j].0 by {
        assert(rest[i] == headers[i + 1] && rest[j] == headers[j + 1]);
    }
    lemma_key_index(rest, key, 0);
    let at = key_index(rest, key, 0);
    if headers[0].0 == key {
        if at < rest.len() {
            assert(rest[at] == headers[at + 1]);
        }
    } else {
        assert forall|j: int| 0 <= j < at + 1 implies headers[j].0 != key by {
            if j > 0 {
                assert(rest[j - 1] == headers[j]);
            }
        }
        if at < rest.len() {
            assert(rest[at] == headers[at + 1]);
        }
        lemma_key_index_is(headers, key, 0, at + 1);
    }
}

/// Headers given in turn to others keep the keys distinct; a key then has
/// the value that the new headers give it and, where they give it none, the
/// value that it had.
pub proof fn lemma_merged(onto: Seq<Header>, more: Seq<Header>)
    requires
        distinct_keys(onto),
        distinct_keys(more),
    ensures
        distinct_keys(merged(onto, more)),
        forall|key: Seq<char>| #[trigger]
            lookup(merged(onto, more), key) == (if lookup(more, key).is_some() {
                lookup(more, key)
            } else {
                lookup(onto, key)
            }),
    decreases more.len(),
{
    if more.len() == 0 {
        assert forall|key: Seq<char>| lookup(more, key).is_none() by {}
    } else {
        let first = more[0];
        let rest = more.skip(1);
        let next = put(onto, first.0, first.1);
        lemma_put(onto, first.0, first.1);
        lemma_lookup_rest(more, first.0);
        lemma_merged(next, rest);
        assert forall|key: Seq<char>| #[trigger]
            lookup(merged(onto, more), key) == (if lookup(more, key).is_some() {
                lookup(more, key)
            } else {
                lookup(onto, key)
            }) by {
            lemma_lookup_rest(more, key);
        }
    }
}

/// Headers given in turn to others whose keys they do not share are added
/// behind them, in their order.
proof fn lemma_merged_new(onto: Seq<Header>, more: Seq<Header>)
    requires
        distinct_keys(onto + more),
    ensures
        merged(onto, more) == onto + more,
    decreases more.len(),
{
    let all = onto + more;
    if more.len() == 0 {
        assert(all =~= onto);
    } else {
        let first = more[0];
        assert forall|j: int| 0 <= j < onto.len() implies onto[j].0 != first.0 by {
            assert(all[j] == onto[j]);
            assert(all[onto.len() as int] == first);
        }
        lemma_key_index_is(onto, first.0, 0, onto.len() as int);
        assert(put(onto, first.0, first.1) == onto.push(first));
        assert(onto.push(first) + more.skip(1) =~= all);
        lemma_merged_new(onto.push(first), more.skip(1));
    }
}

/// Round trip, header by header: a well-formed frame that is safe on the wire
/// is read back with its command and its body; every key that it has is read
/// back with its value; and no other key is read back but `content-length`,
/// with the value `0`.
pub proof fn lemma_round_trip_modulo_length(frame: FrameView)
    requires
        distinct_keys(frame.headers),
        wire_safe(frame),
    ensures
        parsed(wire(frame)) is Ok,
        parsed(wire(frame))->Ok_0.command == frame.command,
        parsed(wire(frame))->Ok_0.body == frame.body,
        distinct_keys(parsed(wire(frame))->Ok_0.headers),
        forall|key: Seq<char>| #[trigger]
            lookup(parsed(wire(frame))->Ok_0.headers, key) == (if lookup(
                frame.headers,
                key,
            ).is_some() {
                lookup(frame.headers, key)
            } else if key == "content-length"@ {
                Some(decimal(0))
            } else {
                None
            }),
{
    lemma_parse_wire(frame);
    let start = initial_headers();
    assert(distinct_keys(start));
    lemma_merged(start, frame.headers);
    assert forall|key: Seq<char>| #[trigger]
        lookup(start, key) == (if key == "content-length"@ {
            Some(decimal(0))
        } else {
            None
        }) by {
        lemma_key_index(start, key, 0);
        if key == "content-length"@ {
            lemma_key_index_is(start, key, 0, 0);
        } else {
            lemma_key_index_is(start, key, 0, 1);
        }
    }
}

/// Round trip: a well-formed frame that is safe on the wire and whose first
/// header is `content-length`, as it is in every frame that `Frame::new`
/// made, is read back from what was written for it exactly as it was.
pub proof fn lemma_round_trip(frame: FrameView)
    requires
        distinct_keys(frame.headers),
        wire_safe(frame),
        frame.headers.len() > 0,
        frame.headers[0].0 == "content-length"@,
    ensures
        parsed(wire(frame)) == Ok::<FrameView, Fault>(frame),
{
    lemma_parse_wire(frame);
    let first = frame.headers[0];
    let one = seq![first];
    lemma_key_index_is(initial_headers(), first.0, 0, 0);
    assert(put(initial_headers(), first.0, first.1) =~= one);
    assert(one + frame.headers.skip(1) =~= frame.headers);
    lemma_merged_new(one, frame.headers.skip(1));
}

/// Round trip over bytes: the same frame is read back from the bytes of what
/// was written for it.
pub proof fn lemma_round_trip_bytes(frame: FrameView)
    requires
        distinct_keys(frame.headers),
        wire_safe(frame),
        frame.headers.len() > 0,
        frame.headers[0].0 == "content-length"@,
    ensures
        parsed_bytes(encode_utf8(wire(frame))) == Ok::<FrameView, Fault>(frame),
{
    lemma_round_trip(frame);
    vstd::utf8::encode_utf8_valid_utf8(wire(frame));
    vstd::utf8::encode_utf8_decode_utf8(wire(frame));
}

} // verus!
