//! Laws of the wire codec: the parser does not care how the octets were
//! cut into reads, a body is as long as announced, and what the
//! serializer frames can be taken apart again.

use vstd::prelude::*;
use vstd::string::*;
use crate::cgi::spec_cgi_header_line;
use crate::fields::{distinct_keys, lemma_upsert, lemma_without, lookup, without};
use crate::http::{
    body_length, body_step, chunk_text, chunked_header, chunked_text, chunks_text, crlf,
    head_step, header_line_text, lemma_head_step_shrinks, lemma_response_field_roundtrip,
    pending_of, response_text, spec_advance, spec_parse, wire_text, with_more,
    IncrementalRequestView, Progress, ResponseHeaderField, ResponseView, CHUNK_LEN,
};
use crate::numeric::{
    all_hex, hex_digits, hex_value, is_hex_digit, lemma_hex_roundtrip, parse_decimal,
};
use crate::text::{
    all_spaces, ascii, first_match, lemma_first_match_append, lemma_first_match_is,
    lemma_first_match_sound, lemma_trim_is_trimmed, lemma_trim_padded, matches_at, trim,
};

verus! {

/// What a parser that has reached `outcome` makes of further octets: an
/// error stays, a complete request ignores them, any other state reads on.
pub open spec fn then_parse(
    outcome: Result<IncrementalRequestView, Seq<char>>,
    more: Seq<u8>,
) -> Result<IncrementalRequestView, Seq<char>> {
    match outcome {
        Err(m) => Err(m),
        Ok(s) => if s is Complete {
            Ok(s)
        } else {
            spec_parse(more, s)
        },
    }
}

/// Reading the tokens at hand and then taking more octets comes to the
/// same as taking the octets first.
pub proof fn lemma_advance_more(s: IncrementalRequestView, more: Seq<u8>)
    requires
        !(s is Complete),
    ensures
        spec_advance(with_more(s, more)) == then_parse(spec_advance(s), more),
    decreases pending_of(s).len(),
{
    let p = pending_of(s);
    match s {
        IncrementalRequestView::ReadingBody(l, h, b, n, _) => {
            let t = body_step(l, h, b, n, p);
            if n <= p.len() {
                assert((p + more).take(n as int) =~= p.take(n as int));
            } else {
                let e = Seq::<u8>::empty();
                assert(e + more =~= more);
                if n <= p.len() + more.len() {
                    assert(b + (p + more).take(n as int) =~= (b + p) + more.take(n - p.len()));
                } else {
                    assert(b + (p + more) =~= (b + p) + more);
                }
            }
        },
        IncrementalRequestView::Complete(_) => {},
        _ => {
            lemma_first_match_sound(p, crlf());
            match first_match(p, crlf()) {
                None => {},
                Some(i) => {
                    lemma_first_match_append(p, more, crlf());
                    assert((p + more).take(i) =~= p.take(i));
                    assert((p + more).skip(i + 2) =~= p.skip(i + 2) + more);
                    assert((p + more).skip(2) =~= p.skip(2) + more);
                    match head_step(s) {
                        Progress::Advanced(next) => {
                            lemma_head_step_shrinks(s);
                            assert(head_step(with_more(s, more)) == Progress::Advanced(
                                with_more(next, more),
                            ));
                            lemma_advance_more(next, more);
                        },
                        _ => {},
                    }
                },
            }
        },
    }
}

/// The parser does not care where a read ends: parsing `a` followed by `b`
/// in one call gives what parsing `a` and then `b` gives. Once `a` has
/// completed the request, `b` is not looked at.
pub proof fn lemma_parse_split(a: Seq<u8>, b: Seq<u8>, s0: IncrementalRequestView)
    ensures
        spec_parse(a + b, s0) == then_parse(spec_parse(a, s0), b),
{
    if !(s0 is Complete) {
        let p = pending_of(s0);
        assert(p + (a + b) =~= (p + a) + b);
        assert(with_more(s0, a + b) == with_more(with_more(s0, a), b));
        lemma_advance_more(with_more(s0, a), b);
    }
}

/// For any cut of the input into two reads, as long as the first read does
/// not already complete the request, parsing both at once equals parsing
/// the second in the state that the first one left.
pub proof fn lemma_parse_associative(a: Seq<u8>, b: Seq<u8>, s0: IncrementalRequestView)
    requires
        spec_parse(a, s0) matches Ok(s1) ==> !(s1 is Complete),
    ensures
        spec_parse(a + b, s0) == (match spec_parse(a, s0) {
            Ok(s1) => spec_parse(b, s1),
            Err(m) => Err(m),
        }),
{
    lemma_parse_split(a, b, s0);
}

/// Whether the body of a request is as long as its head announces: what
/// has been read of it and what is still to come add up to the announced
/// length.
pub open spec fn body_as_announced(s: IncrementalRequestView) -> bool {
    match s {
        IncrementalRequestView::ReadingBody(_, headers, body, remaining, _) => body_length(headers)
            == Ok::<nat, Seq<char>>(body.len() + remaining),
        IncrementalRequestView::Complete(r) => body_length(r.header.header_lines) == Ok::<
            nat,
            Seq<char>,
        >(r.body.len()),
        _ => true,
    }
}

/// Reading tokens keeps the body as long as announced.
pub proof fn lemma_advance_keeps_length(s: IncrementalRequestView)
    requires
        body_as_announced(s),
    ensures
        spec_advance(s) matches Ok(t) ==> body_as_announced(t),
    decreases pending_of(s).len(),
{
    match s {
        IncrementalRequestView::ReadingBody(_, _, _, _, _) => {},
        IncrementalRequestView::Complete(_) => {},
        _ => {
            lemma_head_step_shrinks(s);
            match head_step(s) {
                Progress::Advanced(next) => {
                    lemma_advance_keeps_length(next);
                },
                _ => {},
            }
        },
    }
}

/// The body of a request is exactly as long as its `Content-Length`
/// announces, and empty where the head announces nothing: this holds of
/// the state before anything was read, and every read keeps it. A request
/// that is complete has the whole body and no octet more.
pub proof fn lemma_parse_keeps_length(latest: Seq<u8>, s: IncrementalRequestView)
    requires
        body_as_announced(s),
    ensures
        body_as_announced(IncrementalRequestView::Empty(Seq::empty())),
        spec_parse(latest, s) matches Ok(t) ==> body_as_announced(t),
{
    if !(s is Complete) {
        lemma_advance_keeps_length(with_more(s, latest));
    }
}

/// The frame that ends a chunked body: a chunk of length zero.
pub open spec fn last_chunk() -> Seq<u8> {
    seq![48u8, 13u8, 10u8, 13u8, 10u8]
}

/// A response that announces a `Content-Length` of at most `CHUNK_LEN` goes
/// on the wire whole: head, empty line, body, line terminator, and nothing
/// else.
pub proof fn lemma_small_response_sent_whole(response: ResponseView, length: nat)
    requires
        lookup(response.header.header_lines, ResponseHeaderField::ContentLength) matches Some(v)
            && parse_decimal(v) == Some(length),
        length <= CHUNK_LEN,
    ensures
        wire_text(response) == response_text(response),
{
}

/// A response that announces more than `CHUNK_LEN` octets, or no length at
/// all, goes on the wire in chunks: its head names the chunked transfer
/// encoding and no length, and its text ends with the zero-length chunk.
pub proof fn lemma_large_response_chunked(response: ResponseView)
    requires
        distinct_keys(response.header.header_lines),
        match lookup(response.header.header_lines, ResponseHeaderField::ContentLength) {
            Some(v) => parse_decimal(v) matches Some(n) ==> n > CHUNK_LEN,
            None => true,
        },
    ensures
        wire_text(response) == chunked_text(response),
        lookup(
            chunked_header(response.header).header_lines,
            ResponseHeaderField::ContentLength,
        ) is None,
        lookup(
            chunked_header(response.header).header_lines,
            ResponseHeaderField::TransferEncoding,
        ) == Some(ascii("chunked"@)),
        wire_text(response).len() >= 5,
        wire_text(response).skip(wire_text(response).len() - 5) == last_chunk(),
{
    let lines = response.header.header_lines;
    let stripped = without(lines, ResponseHeaderField::ContentLength);
    lemma_without(lines, ResponseHeaderField::ContentLength);
    lemma_upsert(stripped, ResponseHeaderField::TransferEncoding, ascii("chunked"@));
    let text = chunked_text(response);
    assert(chunk_text(Seq::empty()) =~= last_chunk());
    assert(text.skip(text.len() - 5) =~= last_chunk());
}

/// No name of a response header field holds a colon.
pub proof fn lemma_name_without_colon(field: ResponseHeaderField)
    ensures
        forall|i: int| 0 <= i < field.name().len() ==> #[trigger] field.name()[i] != 58,
{
    reveal_strlit("Content-Length");
    reveal_strlit("Content-Type");
    reveal_strlit("Date");
    reveal_strlit("Last-Modified");
    reveal_strlit("Server");
    reveal_strlit("Transfer-Encoding");
    let name = field.name();
    assert(name.len() <= 17);
    assert forall|i: int| 0 <= i < name.len() implies #[trigger] name[i] != 58 by {
        assert(i == 0 || i == 1 || i == 2 || i == 3 || i == 4 || i == 5 || i == 6 || i == 7 || i == 8 || i == 9 || i == 10 || i == 11 || i == 12 || i == 13 || i == 14 || i == 15 || i == 16);
    }
}

/// What the serializer writes as a header line, the header-line reader
/// reads back: the line of a field and a value, without the line feed at
/// its end, is read as that field with that value, trimmed. Whatever
/// stands in the header block of a response is thus read back from its
/// text, field by field.
pub proof fn lemma_header_line_read_back(field: ResponseHeaderField, value: Seq<u8>)
    ensures
        header_line_text(field, value).len() > 0,
        spec_cgi_header_line(header_line_text(field, value).drop_last()) == Some(
            (field, trim(value)),
        ),
{
    reveal_strlit(": ");
    lemma_trim_is_trimmed(value);
    let name = field.name();
    let t = trim(value);
    let line = header_line_text(field, value).drop_last();
    let colon = seq![58u8];
    let n = name.len() as int;
    assert(line =~= name + colon + (seq![32u8] + t + seq![13u8]));
    lemma_name_without_colon(field);
    assert(line.subrange(n, n + 1) =~= colon);
    assert forall|j: int| 0 <= j < n implies !matches_at(line, colon, j) by {
        assert(line.subrange(j, j + 1)[0] == name[j]);
    }
    lemma_first_match_is(line, colon, n);
    assert(line.take(n) =~= name);
    assert(line.skip(n + 1) =~= seq![32u8] + t + seq![13u8]);
    lemma_response_field_roundtrip(field);
    assert(all_spaces(seq![32u8]));
    assert(all_spaces(seq![13u8]));
    lemma_trim_padded(seq![32u8], t, seq![13u8]);
}

/// The body that a chunked text holds: the octets of its chunks, one
/// after the other, up to the chunk of length zero that must end it. Each
/// chunk is its length as a lower-case hexadecimal numeral, a line
/// terminator, as many octets as the numeral says, and a line terminator.
#[verifier::opaque]
pub open spec fn spec_dechunk(text: Seq<u8>) -> Option<Seq<u8>>
    decreases text.len(),
    via spec_dechunk_decreases
{
    match first_match(text, crlf()) {
        None => None,
        Some(i) => if i > 0 && all_hex(text.take(i)) {
            let size = hex_value(text.take(i));
            let rest = text.skip(i + 2);
            if size == 0 {
                if rest == crlf() {
                    Some(Seq::empty())
                } else {
                    None
                }
            } else if rest.len() >= size + 2 && rest.subrange(size as int, size as int + 2) == crlf() {
                match spec_dechunk(rest.skip(size as int + 2)) {
                    Some(more) => Some(rest.take(size as int) + more),
                    None => None,
                }
            } else {
                None
            }
        } else {
            None
        },
    }
}

#[via_fn]
proof fn spec_dechunk_decreases(text: Seq<u8>) {
    lemma_first_match_sound(text, crlf());
}

/// The line terminator after a hexadecimal numeral is the first one.
pub proof fn lemma_numeral_ends_at_first_line_end(numeral: Seq<u8>, rest: Seq<u8>)
    requires
        all_hex(numeral),
    ensures
        first_match(numeral + crlf() + rest, crlf()) == Some(numeral.len() as int),
{
    let text = numeral + crlf() + rest;
    let n = numeral.len() as int;
    assert(text.subrange(n, n + 2) =~= crlf());
    assert forall|j: int| 0 <= j < n implies !matches_at(text, crlf(), j) by {
        assert(is_hex_digit(numeral[j]));
        assert(text.subrange(j, j + 2)[0] == numeral[j]);
    }
    lemma_first_match_is(text, crlf(), n);
}

/// The length of the first chunk of a body: the chunk size, or all of a
/// body that is shorter.
pub open spec fn first_chunk_len(body: Seq<u8>, size: nat) -> int {
    if body.len() <= size {
        body.len() as int
    } else {
        size as int
    }
}

/// The frames of a body that is not empty begin with the frame of its
/// first chunk.
pub proof fn lemma_first_chunk(body: Seq<u8>, size: nat)
    requires
        body.len() > 0,
        size > 0,
    ensures
        chunks_text(body, size) == chunk_text(body.take(first_chunk_len(body, size)))
            + chunks_text(body.skip(first_chunk_len(body, size)), size),
{
    if body.len() <= size {
        assert(body.take(body.len() as int) =~= body);
        assert(body.skip(body.len() as int) =~= Seq::<u8>::empty());
        assert(chunks_text(Seq::<u8>::empty(), size) =~= Seq::<u8>::empty());
        assert(chunk_text(body) + Seq::<u8>::empty() =~= chunk_text(body));
    }
}

/// The frame of the chunk of length zero holds an empty body.
pub proof fn lemma_dechunk_end()
    ensures
        spec_dechunk(chunk_text(Seq::empty())) == Some(Seq::<u8>::empty()),
{
    reveal(spec_dechunk);
    lemma_hex_roundtrip(0);
    let numeral = hex_digits(0);
    let text = chunk_text(Seq::empty());
    assert(text =~= numeral + crlf() + crlf());
    lemma_numeral_ends_at_first_line_end(numeral, crlf());
    assert(text.take(numeral.len() as int) =~= numeral);
    assert(text.skip(numeral.len() as int + 2) =~= crlf());
}

/// A frame in front of a chunked text adds its chunk in front of the body
/// that the text holds.
pub proof fn lemma_dechunk_frame(chunk: Seq<u8>, tail: Seq<u8>)
    requires
        chunk.len() > 0,
    ensures
        spec_dechunk(chunk_text(chunk) + tail) == match spec_dechunk(tail) {
            Some(more) => Some(chunk + more),
            None => None,
        },
{
    reveal(spec_dechunk);
    let k = chunk.len() as int;
    lemma_hex_roundtrip(chunk.len());
    let numeral = hex_digits(chunk.len());
    let rest = chunk + crlf() + tail;
    let text = chunk_text(chunk) + tail;
    assert(text =~= numeral + crlf() + rest);
    lemma_numeral_ends_at_first_line_end(numeral, rest);
    assert(text.take(numeral.len() as int) =~= numeral);
    assert(text.skip(numeral.len() as int + 2) =~= rest);
    assert(rest.subrange(k, k + 2) =~= crlf());
    assert(rest.skip(k + 2) =~= tail);
    assert(rest.take(k) =~= chunk);
}

/// The chunks are framed so that the body can be taken out again: what
/// the frames of a body, ended by the chunk of length zero, hold is that
/// body.
pub proof fn lemma_chunks_hold_the_body(body: Seq<u8>, size: nat)
    requires
        size > 0,
    ensures
        spec_dechunk(chunks_text(body, size) + chunk_text(Seq::empty())) == Some(body),
    decreases body.len(),
{
    let end = chunk_text(Seq::empty());
    if body.len() == 0 {
        lemma_dechunk_end();
        assert(chunks_text(body, size) =~= Seq::<u8>::empty());
        assert(Seq::<u8>::empty() + end =~= end);
        assert(body =~= Seq::<u8>::empty());
    } else {
        let k = first_chunk_len(body, size);
        let chunk = body.take(k);
        let frames = chunks_text(body.skip(k), size);
        lemma_first_chunk(body, size);
        assert((chunk_text(chunk) + frames) + end =~= chunk_text(chunk) + (frames + end));
        lemma_chunks_hold_the_body(body.skip(k), size);
        lemma_dechunk_frame(chunk, frames + end);
        assert(chunk + body.skip(k) =~= body);
    }
}

/// A response that is sent in chunks ends with a chunked body that holds
/// the body of the response: the text after the head and the empty line
/// can be taken apart into that body.
pub proof fn lemma_chunked_text_holds_the_body(response: ResponseView)
    ensures
        chunked_text(response) == crate::http::header_text(chunked_header(response.header))
            + crlf() + (chunks_text(response.body, CHUNK_LEN as nat) + chunk_text(Seq::empty())),
        spec_dechunk(chunks_text(response.body, CHUNK_LEN as nat) + chunk_text(Seq::empty()))
            == Some(response.body),
{
    lemma_chunks_hold_the_body(response.body, CHUNK_LEN as nat);
    assert(chunked_text(response) =~= crate::http::header_text(chunked_header(response.header))
        + crlf() + (chunks_text(response.body, CHUNK_LEN as nat) + chunk_text(Seq::empty())));
}

} // verus!
