//! Assembling a streamed reply: from the bytes of a response body, chunk by
//! chunk, to the text fragments that its events carry.
//!
//! The body is a sequence of lines. A line that starts with `data:` and is
//! not the end marker carries one JSON event; every other line, and every
//! event that cannot be read, is passed over. Lines may be cut anywhere by
//! the chunks in which the body arrives, so the assembler keeps what follows
//! the last line break until the rest of the line is there.

use vstd::prelude::*;
use vstd::string::*;
use vstd::utf8::{
    decode_utf8, encode_utf8, encode_utf8_decode_utf8, encode_utf8_valid_utf8, is_ascii_chars,
    is_ascii_chars_encode_utf8, valid_utf8,
};
use crate::json::{event_deltas, json_of_text, parse_json, spec_event_deltas};
use crate::text::{from_chars, has_prefix, matches_at, to_chars, trim, trim_bounds, views};

verus! {

/// The byte that ends a line.
pub const LINE_FEED: u8 = 10;

/// The byte that may stand before the line feed and is then no part of the
/// line.
pub const CARRIAGE_RETURN: u8 = 13;

/// What is pending after `chunk` has arrived on top of `pending`: the
/// bytes that follow the last line feed.
pub open spec fn rest_after(pending: Seq<u8>, chunk: Seq<u8>) -> Seq<u8>
    decreases chunk.len(),
{
    if chunk.len() == 0 {
        pending
    } else if chunk.last() == LINE_FEED {
        Seq::empty()
    } else {
        rest_after(pending, chunk.drop_last()).push(chunk.last())
    }
}

/// The lines that `chunk` completes on top of `pending`, each without its
/// line feed.
pub open spec fn lines_after(pending: Seq<u8>, chunk: Seq<u8>) -> Seq<Seq<u8>>
    decreases chunk.len(),
{
    if chunk.len() == 0 {
        Seq::empty()
    } else if chunk.last() == LINE_FEED {
        lines_after(pending, chunk.drop_last()).push(rest_after(pending, chunk.drop_last()))
    } else {
        lines_after(pending, chunk.drop_last())
    }
}

/// The complete lines of a body, each without its line feed.
pub open spec fn complete_lines(body: Seq<u8>) -> Seq<Seq<u8>> {
    lines_after(Seq::empty(), body)
}

/// What follows the last line feed of a body.
pub open spec fn fragment(body: Seq<u8>) -> Seq<u8> {
    rest_after(Seq::empty(), body)
}

/// A complete line without the carriage return that may end it.
pub open spec fn strip_cr(line: Seq<u8>) -> Seq<u8> {
    if line.len() > 0 && line.last() == CARRIAGE_RETURN {
        line.drop_last()
    } else {
        line
    }
}

/// The text that `String::from_utf8_lossy` makes of bytes that are not
/// UTF-8: the bytes that cannot be read are replaced.
pub uninterp spec fn lossy_text(bytes: Seq<u8>) -> Seq<char>;

/// The text of a sequence of bytes: what they encode where they are UTF-8,
/// and a text with replacements where they are not.
pub open spec fn decoded(bytes: Seq<u8>) -> Seq<char> {
    if valid_utf8(bytes) {
        decode_utf8(bytes)
    } else {
        lossy_text(bytes)
    }
}

/// A line that carries an event: it starts with `data:` and is not the end
/// marker.
pub open spec fn is_live(line: Seq<char>) -> bool {
    has_prefix(line, "data:"@) && line != "data: [DONE]"@
}

/// The JSON text of a live line: what follows `data:`, without the white
/// space around it.
pub open spec fn payload(line: Seq<char>) -> Seq<char> {
    trim(line.skip("data:"@.len() as int))
}

/// The text fragments that one line carries. A line that is not live
/// carries none, and neither does one whose payload is no JSON or no event.
pub open spec fn spec_line_deltas(line: Seq<char>) -> Seq<Seq<char>> {
    if is_live(line) {
        match json_of_text(payload(line)) {
            Some(event) => match spec_event_deltas(event) {
                Some(deltas) => deltas,
                None => Seq::empty(),
            },
            None => Seq::empty(),
        }
    } else {
        Seq::empty()
    }
}

/// The text fragments of a complete line, given as bytes.
pub open spec fn complete_line_deltas(line: Seq<u8>) -> Seq<Seq<char>> {
    spec_line_deltas(decoded(strip_cr(line)))
}

/// The text fragments of a list of complete lines, in order.
pub open spec fn lines_deltas(lines: Seq<Seq<u8>>) -> Seq<Seq<char>>
    decreases lines.len(),
{
    if lines.len() == 0 {
        Seq::empty()
    } else {
        lines_deltas(lines.drop_last()) + complete_line_deltas(lines.last())
    }
}

/// The text fragments of what is left when the body ends: a last line
/// without a line feed, if there is anything.
pub open spec fn rest_deltas(rest: Seq<u8>) -> Seq<Seq<char>> {
    if rest.len() == 0 {
        Seq::empty()
    } else {
        spec_line_deltas(decoded(rest))
    }
}

/// All text fragments of a body, in order.
pub open spec fn stream_deltas(body: Seq<u8>) -> Seq<Seq<char>> {
    lines_deltas(complete_lines(body)) + rest_deltas(fragment(body))
}

/// Calls `String::from_utf8_lossy` and takes the text out of its result.
/// Bytes that are UTF-8 give the text they encode; for other bytes the text
/// depends on the bytes alone.
#[verifier::external_body]
fn decode_lossy(bytes: &Vec<u8>) -> (text: String)
    ensures
        valid_utf8(bytes@) ==> text@ == decode_utf8(bytes@),
        !valid_utf8(bytes@) ==> text@ == lossy_text(bytes@),
{
    String::from_utf8_lossy(bytes).into_owned()
}

/// Reads bytes as text, replacing what is not UTF-8.
pub fn decode(bytes: &Vec<u8>) -> (text: String)
    ensures
        text@ == decoded(bytes@),
{
    decode_lossy(bytes)
}

/// The text fragments that one line of the body carries, in order.
pub fn line_deltas(line: &str) -> (r: Vec<String>)
    ensures
        views(r@) == spec_line_deltas(line@),
{
    let chars = to_chars(line);
    let prefix = to_chars("data:");
    let done = to_chars("data: [DONE]");
    let nothing: Vec<String> = Vec::new();
    assert(views(nothing@) =~= Seq::<Seq<char>>::empty());
    if !matches_at(&chars, 0, &prefix) {
        return nothing;
    }
    if chars.len() == done.len() {
        assert(chars@ =~= chars@.subrange(0, done@.len() as int));
        if matches_at(&chars, 0, &done) {
            return nothing;
        }
    }
    assert(is_live(line@));
    let (from, to) = trim_bounds(&chars, prefix.len(), chars.len());
    assert(chars@.subrange(prefix.len() as int, chars.len() as int) =~= chars@.skip(
        prefix.len() as int,
    ));
    let text = from_chars(&chars, from, to);
    match parse_json(text.as_str()) {
        Some(event) => match event_deltas(&event) {
            Some(deltas) => deltas,
            None => nothing,
        },
        None => nothing,
    }
}

/// Why a streamed reply could not be had.
#[derive(Clone, Debug, PartialEq, Eq)]
pub enum StreamError {
    /// The server answered with a status that is no success; the text is
    /// the body of its answer.
    Api(String),
    /// The connection failed; the text says how.
    Transport(String),
}

impl StreamError {
    /// The error as one line of text.
    pub fn message(&self) -> (r: String)
        ensures
            r@ == match *self {
                StreamError::Api(body) => "API failed: "@ + body@,
                StreamError::Transport(detail) => detail@,
            },
    {
        match self {
            StreamError::Api(body) => {
                let mut text = String::from_str("API failed: ");
                text.append(body.as_str());
                text
            },
            StreamError::Transport(detail) => detail.clone(),
        }
    }
}

/// The error for a response whose status is no success: its body, read
/// as text, is the detail.
pub fn api_error(body: &Vec<u8>) -> (r: StreamError)
    ensures
        match r {
            StreamError::Api(detail) => detail@ == decoded(body@),
            StreamError::Transport(_) => false,
        },
{
    StreamError::Api(decode(body))
}

/// The statuses that stand for success: 200 to 299.
pub open spec fn is_success(status: u16) -> bool {
    200 <= status < 300
}

/// Whether a response status stands for success.
pub fn status_is_success(status: u16) -> (r: bool)
    ensures
        r == is_success(status),
{
    200 <= status && status < 300
}

/// The views of two lists, one after the other, are the views of the lists
/// put together.
proof fn lemma_views_concat(a: Seq<String>, b: Seq<String>)
    ensures
        views(a + b) == views(a) + views(b),
{
    assert(views(a + b) =~= views(a) + views(b));
}

/// The line reader of one streamed reply. It holds what has arrived since
/// the last line feed.
pub struct StreamAssembler {
    pending: Vec<u8>,
}

impl View for StreamAssembler {
    type V = Seq<u8>;

    closed spec fn view(&self) -> Seq<u8> {
        self.pending@
    }
}

impl StreamAssembler {
    /// An assembler that has seen nothing yet.
    pub fn new() -> (r: StreamAssembler)
        ensures
            r@ == Seq::<u8>::empty(),
    {
        StreamAssembler { pending: Vec::new() }
    }

    /// Begins to read the body of a response: there is an assembler for a
    /// response whose status is a success, and none for any other.
    pub fn begin(status: u16) -> (r: Option<StreamAssembler>)
        ensures
            r.is_some() == is_success(status),
            r.is_some() ==> r.unwrap()@ == Seq::<u8>::empty(),
    {
        if status_is_success(status) {
            Some(StreamAssembler::new())
        } else {
            None
        }
    }

    /// Takes the next chunk of the body and returns the text fragments of
    /// the lines that it completes, in order. What follows the last line
    /// feed is kept for the next call.
    pub fn feed(&mut self, chunk: &[u8]) -> (deltas: Vec<String>)
        ensures
            final(self)@ == rest_after(old(self)@, chunk@),
            views(deltas@) == lines_deltas(lines_after(old(self)@, chunk@)),
    {
        let mut deltas: Vec<String> = Vec::new();
        let mut i: usize = 0;
        assert(views(deltas@) =~= Seq::<Seq<char>>::empty());
        while i < chunk.len()
            invariant
                i <= chunk.len(),
                self@ == rest_after(old(self)@, chunk@.take(i as int)),
                views(deltas@) == lines_deltas(lines_after(old(self)@, chunk@.take(i as int))),
            decreases chunk.len() - i,
        {
            assert(chunk@.take(i + 1).drop_last() =~= chunk@.take(i as int));
            let byte = chunk[i];
            if byte == LINE_FEED {
                let ghost line = self.pending@;
                let ghost before = deltas@;
                if self.pending.len() > 0 && self.pending[self.pending.len() - 1]
                    == CARRIAGE_RETURN {
                    self.pending.pop();
                }
                let text = decode(&self.pending);
                let mut found = line_deltas(text.as_str());
                proof {
                    lemma_views_concat(before, found@);
                    let lines = lines_after(old(self)@, chunk@.take(i as int));
                    assert(lines.push(line).drop_last() =~= lines);
                }
                deltas.append(&mut found);
                self.pending.clear();
            } else {
                self.pending.push(byte);
            }
            i = i + 1;
        }
        assert(chunk@.take(i as int) =~= chunk@);
        deltas
    }

    /// Ends the reading: returns the text fragments of the last line, if
    /// the body did not end with a line feed.
    pub fn finish(self) -> (deltas: Vec<String>)
        ensures
            views(deltas@) == rest_deltas(self@),
    {
        if self.pending.len() == 0 {
            let nothing: Vec<String> = Vec::new();
            assert(views(nothing@) =~= Seq::<Seq<char>>::empty());
            return nothing;
        }
        let text = decode(&self.pending);
        line_deltas(text.as_str())
    }
}

/// Cutting a body in two changes nothing: what the second part completes
/// on top of what the first left pending is what the whole completes after
/// the lines of the first.
pub proof fn lemma_after_concat(pending: Seq<u8>, a: Seq<u8>, b: Seq<u8>)
    ensures
        rest_after(pending, a + b) == rest_after(rest_after(pending, a), b),
        lines_after(pending, a + b) == lines_after(pending, a) + lines_after(
            rest_after(pending, a),
            b,
        ),
    decreases b.len(),
{
    if b.len() == 0 {
        assert(a + b =~= a);
        assert(lines_after(pending, a) + Seq::<Seq<u8>>::empty() =~= lines_after(pending, a));
    } else {
        assert((a + b).drop_last() =~= a + b.drop_last());
        lemma_after_concat(pending, a, b.drop_last());
        let mid = rest_after(pending, a);
        if b.last() == LINE_FEED {
            assert(lines_after(pending, a) + lines_after(mid, b.drop_last()).push(
                rest_after(mid, b.drop_last()),
            ) =~= (lines_after(pending, a) + lines_after(mid, b.drop_last())).push(
                rest_after(mid, b.drop_last()),
            ));
        }
    }
}

/// The text fragments of two lists of lines, one after the other.
pub proof fn lemma_lines_deltas_concat(a: Seq<Seq<u8>>, b: Seq<Seq<u8>>)
    ensures
        lines_deltas(a + b) == lines_deltas(a) + lines_deltas(b),
    decreases b.len(),
{
    if b.len() == 0 {
        assert(a + b =~= a);
        assert(lines_deltas(a) + Seq::<Seq<char>>::empty() =~= lines_deltas(a));
    } else {
        assert((a + b).drop_last() =~= a + b.drop_last());
        lemma_lines_deltas_concat(a, b.drop_last());
        assert(lines_deltas(a) + (lines_deltas(b.drop_last()) + complete_line_deltas(b.last()))
            =~= (lines_deltas(a) + lines_deltas(b.drop_last())) + complete_line_deltas(b.last()));
    }
}

/// What the transport hands over while a body is read: the next bytes,
/// or the failure that ended the connection.
#[derive(Clone, Debug, PartialEq, Eq)]
pub enum BodyEvent {
    Chunk(Vec<u8>),
    Failure(String),
}

/// How the reading of a response ended: the text fragments that were
/// delivered, in order, and the error that ended the reading, if one did.
#[derive(Debug, PartialEq, Eq)]
pub struct StreamOutcome {
    pub deltas: Vec<String>,
    pub result: Result<(), StreamError>,
}

/// The bytes that arrived before the connection failed, or all of them if
/// it did not.
pub open spec fn received(events: Seq<BodyEvent>) -> Seq<u8>
    decreases events.len(),
{
    if events.len() == 0 {
        Seq::empty()
    } else {
        match events[0] {
            BodyEvent::Chunk(bytes) => bytes@ + received(events.drop_first()),
            BodyEvent::Failure(_) => Seq::empty(),
        }
    }
}

/// The failure that ended the connection, if one did.
pub open spec fn failure(events: Seq<BodyEvent>) -> Option<Seq<char>>
    decreases events.len(),
{
    if events.len() == 0 {
        None
    } else {
        match events[0] {
            BodyEvent::Chunk(_) => failure(events.drop_first()),
            BodyEvent::Failure(detail) => Some(detail@),
        }
    }
}

/// The text fragments that the reading of a response delivers. A response
/// whose status is no success delivers none. Where the connection fails, the
/// lines that were complete by then have delivered theirs, and what was
/// pending delivers nothing.
pub open spec fn delivered(status: u16, events: Seq<BodyEvent>) -> Seq<Seq<char>> {
    if !is_success(status) {
        Seq::empty()
    } else if failure(events).is_some() {
        lines_deltas(complete_lines(received(events)))
    } else {
        stream_deltas(received(events))
    }
}

/// Reads a whole response, given as its status and what the transport
/// handed over for its body.
///
/// A failure of the connection ends the reading with a transport error,
/// whatever the status. Otherwise a status that is no success ends it with
/// the body as the detail of an API error, and no text fragment is
/// delivered; a status that is a success delivers the text fragments of the
/// body and ends well.
pub fn stream(status: u16, events: &Vec<BodyEvent>) -> (r: StreamOutcome)
    ensures
        views(r.deltas@) == delivered(status, events@),
        !is_success(status) ==> r.deltas@.len() == 0 && r.result.is_err(),
        match r.result {
            Ok(_) => is_success(status) && failure(events@).is_none(),
            Err(StreamError::Api(body)) => !is_success(status) && failure(events@).is_none()
                && body@ == decoded(received(events@)),
            Err(StreamError::Transport(detail)) => failure(events@) == Some(detail@),
        },
{
    let mut deltas: Vec<String> = Vec::new();
    assert(views(deltas@) =~= Seq::<Seq<char>>::empty());
    let mut assembler = match StreamAssembler::begin(status) {
        Some(assembler) => assembler,
        None => {
            let result = match read_body(events) {
                Ok(body) => Err(api_error(&body)),
                Err(detail) => Err(StreamError::Transport(detail)),
            };
            return StreamOutcome { deltas, result };
        },
    };
    let ghost mut seen = Seq::<u8>::empty();
    let mut i: usize = 0;
    assert(events@.skip(0) =~= events@);
    assert(seen + received(events@) =~= received(events@));
    while i < events.len()
        invariant
            i <= events.len(),
            is_success(status),
            received(events@) == seen + received(events@.skip(i as int)),
            failure(events@) == failure(events@.skip(i as int)),
            assembler@ == fragment(seen),
            views(deltas@) == lines_deltas(complete_lines(seen)),
        decreases events.len() - i,
    {
        let ghost before = deltas@;
        assert(events@.skip(i as int).drop_first() =~= events@.skip(i + 1));
        assert(events@.skip(i as int)[0] == events@[i as int]);
        match &events[i] {
            BodyEvent::Chunk(bytes) => {
                let mut found = assembler.feed(bytes.as_slice());
                proof {
                    lemma_after_concat(Seq::empty(), seen, bytes@);
                    lemma_lines_deltas_concat(
                        complete_lines(seen),
                        lines_after(fragment(seen), bytes@),
                    );
                    lemma_views_concat(before, found@);
                    assert(seen + (bytes@ + received(events@.skip(i + 1))) =~= (seen + bytes@)
                        + received(events@.skip(i + 1)));
                    seen = seen + bytes@;
                }
                deltas.append(&mut found);
            },
            BodyEvent::Failure(detail) => {
                assert(seen + Seq::<u8>::empty() =~= seen);
                return StreamOutcome {
                    deltas,
                    result: Err(StreamError::Transport(detail.clone())),
                };
            },
        }
        i = i + 1;
    }
    assert(seen + Seq::<u8>::empty() =~= seen);
    let ghost before = deltas@;
    let mut last = assembler.finish();
    proof {
        lemma_views_concat(before, last@);
    }
    deltas.append(&mut last);
    StreamOutcome { deltas, result: Ok(()) }
}

/// Collects the body of a response: all bytes in order, or the failure
/// that ended the connection.
pub fn read_body(events: &Vec<BodyEvent>) -> (r: Result<Vec<u8>, String>)
    ensures
        match r {
            Ok(body) => failure(events@).is_none() && body@ == received(events@),
            Err(detail) => failure(events@) == Some(detail@),
        },
{
    let mut body: Vec<u8> = Vec::new();
    let mut i: usize = 0;
    assert(events@.skip(0) =~= events@);
    assert(body@ + received(events@) =~= received(events@));
    while i < events.len()
        invariant
            i <= events.len(),
            received(events@) == body@ + received(events@.skip(i as int)),
            failure(events@) == failure(events@.skip(i as int)),
        decreases events.len() - i,
    {
        assert(events@.skip(i as int).drop_first() =~= events@.skip(i + 1));
        assert(events@.skip(i as int)[0] == events@[i as int]);
        match &events[i] {
            BodyEvent::Chunk(bytes) => {
                assert(body@ + (bytes@ + received(events@.skip(i + 1))) =~= (body@ + bytes@)
                    + received(events@.skip(i + 1)));
                body.extend_from_slice(bytes.as_slice());
            },
            BodyEvent::Failure(detail) => {
                return Err(detail.clone());
            },
        }
        i = i + 1;
    }
    assert(body@ + Seq::<u8>::empty() =~= body@);
    Ok(body)
}

/// A list of lines written out again, each with its line feed.
pub open spec fn rejoined(lines: Seq<Seq<u8>>) -> Seq<u8>
    decreases lines.len(),
{
    if lines.len() == 0 {
        Seq::empty()
    } else {
        rejoined(lines.drop_last()) + lines.last().push(LINE_FEED)
    }
}

/// Splitting loses nothing and cuts at every line feed: the lines written
/// out again, followed by what is pending, are the bytes that came in, and,
/// if nothing pending held a line feed before, no line and nothing pending
/// holds one after.
pub proof fn law_split_is_exact(pending: Seq<u8>, chunk: Seq<u8>)
    ensures
        rejoined(lines_after(pending, chunk)) + rest_after(pending, chunk) == pending + chunk,
        !pending.contains(LINE_FEED) ==> !rest_after(pending, chunk).contains(LINE_FEED),
        !pending.contains(LINE_FEED) ==> forall|i: int|
            0 <= i < lines_after(pending, chunk).len() ==> !(#[trigger] lines_after(
                pending,
                chunk,
            )[i]).contains(LINE_FEED),
    decreases chunk.len(),
{
    if chunk.len() == 0 {
        assert(rejoined(lines_after(pending, chunk)) + rest_after(pending, chunk) =~= pending
            + chunk);
    } else {
        let front = chunk.drop_last();
        law_split_is_exact(pending, front);
        let lines = lines_after(pending, front);
        let rest = rest_after(pending, front);
        assert(pending + chunk =~= (pending + front).push(chunk.last()));
        if chunk.last() == LINE_FEED {
            assert(lines.push(rest).drop_last() =~= lines);
            assert(rejoined(lines.push(rest)) + Seq::<u8>::empty() =~= (rejoined(lines) + rest).push(
                LINE_FEED,
            ));
            if !pending.contains(LINE_FEED) {
                assert forall|i: int| 0 <= i < lines.push(rest).len() implies !(
                #[trigger] lines.push(rest)[i]).contains(LINE_FEED) by {
                    if i < lines.len() {
                        assert(lines.push(rest)[i] == lines[i]);
                    }
                }
            }
        } else {
            assert(rejoined(lines) + rest.push(chunk.last()) =~= (rejoined(lines) + rest).push(
                chunk.last(),
            ));
            if !pending.contains(LINE_FEED) {
                let grown = rest.push(chunk.last());
                if grown.contains(LINE_FEED) {
                    let j = choose|j: int| 0 <= j < grown.len() && grown[j] == LINE_FEED;
                    assert(j < rest.len());
                    assert(rest[j] == LINE_FEED);
                }
            }
        }
    }
}

/// However a body is cut in two, the same text fragments come out in the
/// same order: those of the first part's lines, then those of the lines
/// that the second part completes, then those of what is left at the end.
pub proof fn law_chunking(a: Seq<u8>, b: Seq<u8>)
    ensures
        stream_deltas(a + b) == lines_deltas(complete_lines(a)) + lines_deltas(
            lines_after(fragment(a), b),
        ) + rest_deltas(rest_after(fragment(a), b)),
{
    lemma_after_concat(Seq::empty(), a, b);
    lemma_lines_deltas_concat(complete_lines(a), lines_after(fragment(a), b));
}

/// Bytes without a line feed complete no line and stay pending.
pub proof fn lemma_no_line_feed(pending: Seq<u8>, chunk: Seq<u8>)
    requires
        !chunk.contains(LINE_FEED),
    ensures
        lines_after(pending, chunk) == Seq::<Seq<u8>>::empty(),
        rest_after(pending, chunk) == pending + chunk,
    decreases chunk.len(),
{
    if chunk.len() == 0 {
        assert(pending + chunk =~= pending);
    } else {
        let front = chunk.drop_last();
        assert(chunk[chunk.len() - 1] != LINE_FEED);
        if front.contains(LINE_FEED) {
            let j = choose|j: int| 0 <= j < front.len() && front[j] == LINE_FEED;
            assert(chunk[j] == LINE_FEED);
        }
        lemma_no_line_feed(pending, front);
        assert((pending + front).push(chunk.last()) =~= pending + chunk);
    }
}

/// Every line counts for itself: a line between a body that ends with a
/// line feed and any further bytes contributes its own text fragments,
/// after those of the body before it and before those of what follows.
pub proof fn law_line_by_line(before: Seq<u8>, line: Seq<u8>, after: Seq<u8>)
    requires
        fragment(before).len() == 0,
        !line.contains(LINE_FEED),
    ensures
        stream_deltas(before + line.push(LINE_FEED) + after) == lines_deltas(
            complete_lines(before),
        ) + complete_line_deltas(line) + stream_deltas(after),
        stream_deltas(before + after) == lines_deltas(complete_lines(before)) + stream_deltas(
            after,
        ),
{
    let nothing = Seq::<u8>::empty();
    let ended = line.push(LINE_FEED);
    assert(fragment(before) =~= nothing);
    // the line alone
    assert(ended.drop_last() =~= line);
    lemma_no_line_feed(nothing, line);
    assert(nothing + line =~= line);
    assert(complete_lines(ended) =~= seq![line]);
    assert(fragment(ended) =~= nothing);
    // the line and what follows
    lemma_after_concat(nothing, ended, after);
    // the body before, and the two
    assert(before + ended + after =~= before + (ended + after));
    lemma_after_concat(nothing, before, ended + after);
    lemma_after_concat(nothing, before, after);
    lemma_lines_deltas_concat(complete_lines(before), complete_lines(after));
    lemma_lines_deltas_concat(seq![line], complete_lines(after));
    lemma_lines_deltas_concat(complete_lines(before), seq![line] + complete_lines(after));
    assert(seq![line].drop_last() =~= Seq::<Seq<u8>>::empty());
    assert(seq![line].last() == line);
    assert(lines_deltas(seq![line].drop_last()) =~= Seq::<Seq<char>>::empty());
    assert(lines_deltas(seq![line]) =~= complete_line_deltas(line));
    assert(lines_deltas(complete_lines(before)) + (complete_line_deltas(line) + lines_deltas(
        complete_lines(after),
    )) + rest_deltas(fragment(after)) =~= lines_deltas(complete_lines(before))
        + complete_line_deltas(line) + (lines_deltas(complete_lines(after)) + rest_deltas(
        fragment(after),
    )));
    assert((lines_deltas(complete_lines(before)) + lines_deltas(complete_lines(after)))
        + rest_deltas(fragment(after)) =~= lines_deltas(complete_lines(before)) + (lines_deltas(
        complete_lines(after),
    ) + rest_deltas(fragment(after))));
}

/// The payload of a line is unreadable: it is no JSON, or the JSON is no
/// event.
pub open spec fn is_unreadable(line: Seq<char>) -> bool {
    match json_of_text(payload(line)) {
        Some(event) => spec_event_deltas(event).is_none(),
        None => true,
    }
}

/// A line whose payload cannot be read does not stop the reading: the
/// body gives the same text fragments with that line as without it.
pub proof fn law_unreadable_line_is_passed_over(before: Seq<u8>, line: Seq<u8>, after: Seq<u8>)
    requires
        fragment(before).len() == 0,
        !line.contains(LINE_FEED),
        is_unreadable(decoded(strip_cr(line))),
    ensures
        stream_deltas(before + line.push(LINE_FEED) + after) == stream_deltas(before + after),
{
    law_line_by_line(before, line, after);
    assert(complete_line_deltas(line) =~= Seq::<Seq<char>>::empty());
    assert(lines_deltas(complete_lines(before)) + Seq::<Seq<char>>::empty() =~= lines_deltas(
        complete_lines(before),
    ));
}

/// The end marker carries nothing, whatever stands around it: as a text
/// line, and as a line of bytes with or without a carriage return.
pub proof fn law_end_marker_is_silent()
    ensures
        spec_line_deltas("data: [DONE]"@) == Seq::<Seq<char>>::empty(),
        complete_line_deltas(encode_utf8("data: [DONE]"@)) == Seq::<Seq<char>>::empty(),
        complete_line_deltas(encode_utf8("data: [DONE]"@).push(CARRIAGE_RETURN)) == Seq::<
            Seq<char>,
        >::empty(),
        rest_deltas(encode_utf8("data: [DONE]"@)) == Seq::<Seq<char>>::empty(),
{
    let marker = "data: [DONE]"@;
    let bytes = encode_utf8(marker);
    reveal_strlit("data: [DONE]");
    assert(is_ascii_chars(marker));
    is_ascii_chars_encode_utf8(marker);
    encode_utf8_valid_utf8(marker);
    encode_utf8_decode_utf8(marker);
    assert(bytes.len() == 12);
    assert(bytes[11] == 93u8);
    assert(strip_cr(bytes) == bytes);
    assert(bytes.push(CARRIAGE_RETURN).drop_last() =~= bytes);
    assert(strip_cr(bytes.push(CARRIAGE_RETURN)) == bytes);
}

} // verus!
