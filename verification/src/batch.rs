//! Construction of a batch of timestamped events from a block of text.

use vstd::prelude::*;
use vstd::utf8::{encode_scalar, encode_utf8};
use crate::config::ConfigLogFile;
use crate::reader::{line_count, newlines, NEWLINE};
use crate::text::{from_chars, to_chars};
use crate::timestamp::{
    assumed_year, default_offset, default_offset_text, extract_at, extracted, format_view, utc_clock,
};
use crate::window::{EVENT_OVERHEAD, MAX_BATCH_EVENTS, MAX_BATCH_SIZE, MAX_REQUEST_SIZE};

verus! {

/// One line of a watched file with the instant it is dated at.
#[derive(Debug, Clone, PartialEq, Eq)]
pub struct LogEvent {
    /// The line, without its line ending.
    pub message: String,
    /// Milliseconds since the epoch.
    pub timestamp_ms: i64,
}

impl View for LogEvent {
    type V = (Seq<char>, i64);

    open spec fn view(&self) -> (Seq<char>, i64) {
        (self.message@, self.timestamp_ms)
    }
}

/// Events in the order of their lines, with the sequence token to send them
/// with.
#[derive(Debug, Clone, PartialEq, Eq)]
pub struct Batch {
    pub events: Vec<LogEvent>,
    pub token: Option<String>,
}

/// A line without the carriage return that may end it.
pub open spec fn trimmed(line: Seq<char>) -> Seq<char> {
    if line.len() > 0 && line.last() == '\r' {
        line.drop_last()
    } else {
        line
    }
}

/// The message that a line gives: none where it is empty once trimmed.
pub open spec fn emitted(line: Seq<char>) -> Seq<Seq<char>> {
    if trimmed(line).len() == 0 {
        Seq::empty()
    } else {
        seq![trimmed(line)]
    }
}

/// The messages of `text` from the line that starts at `start` on, where
/// that line is known to hold no newline before `at`.
pub open spec fn messages_from(text: Seq<char>, start: int, at: int) -> Seq<Seq<char>>
    decreases text.len() - at,
{
    if at >= text.len() {
        emitted(text.subrange(start, text.len() as int))
    } else if text[at] == '\n' {
        emitted(text.subrange(start, at)) + messages_from(text, at + 1, at + 1)
    } else {
        messages_from(text, start, at + 1)
    }
}

/// The messages of `text`: its lines, each without its line ending, the
/// empty ones left out.
pub open spec fn messages(text: Seq<char>) -> Seq<Seq<char>> {
    messages_from(text, 0, 0)
}

/// The instant an event is dated at: the one its line names, else `now`.
pub open spec fn stamp(
    message: Seq<char>,
    format: Option<Seq<char>>,
    year: nat,
    offset: Seq<char>,
    now: i64,
) -> i64 {
    match extracted(message, format, year, offset) {
        Some(instant) => instant,
        None => now,
    }
}

/// The events that `text` gives.
pub open spec fn events_of(
    text: Seq<char>,
    format: Option<Seq<char>>,
    year: nat,
    offset: Seq<char>,
    now: i64,
) -> Seq<(Seq<char>, i64)> {
    messages(text).map_values(|m: Seq<char>| (m, stamp(m, format, year, offset, now)))
}

impl Batch {
    /// The events as pairs of message and instant.
    pub open spec fn events_view(self) -> Seq<(Seq<char>, i64)> {
        self.events@.map_values(|e: LogEvent| e@)
    }

    /// Whether there is nothing to send.
    pub fn is_empty(&self) -> (r: bool)
        ensures
            r == (self.events_view().len() == 0),
    {
        self.events.len() == 0
    }

    /// The number of events.
    pub fn len(&self) -> (r: usize)
        ensures
            r == self.events_view().len(),
    {
        self.events.len()
    }
}

/// The number of newlines of `text` from position `at` on.
pub open spec fn newlines_from(text: Seq<char>, at: int) -> nat
    decreases text.len() - at,
{
    if at >= text.len() {
        0
    } else {
        newlines_from(text, at + 1) + if text[at] == '\n' { 1nat } else { 0nat }
    }
}

proof fn lemma_messages_from_bounded(text: Seq<char>, start: int, at: int)
    requires
        0 <= start <= at <= text.len(),
    ensures
        messages_from(text, start, at).len() <= newlines_from(text, at) + 1,
    decreases text.len() - at,
{
    if at < text.len() {
        if text[at] == '\n' {
            lemma_messages_from_bounded(text, at + 1, at + 1);
        } else {
            lemma_messages_from_bounded(text, start, at + 1);
        }
    }
}

/// A text holds at most one message more than it holds newlines.
pub proof fn lemma_messages_bounded_by_lines(text: Seq<char>)
    ensures
        messages(text).len() <= newlines_from(text, 0) + 1,
{
    lemma_messages_from_bounded(text, 0, 0);
}

/// The newlines of two runs of bytes add up.
pub proof fn lemma_newlines_add_up(a: Seq<u8>, b: Seq<u8>)
    ensures
        newlines(a + b) == newlines(a) + newlines(b),
    decreases b.len(),
{
    if b.len() == 0 {
        assert(a + b =~= a);
    } else {
        assert((a + b).drop_last() =~= a + b.drop_last());
        assert((a + b).last() == b.last());
        lemma_newlines_add_up(a, b.drop_last());
    }
}

proof fn lemma_high_bytes(v: u32)
    by (bit_vector)
    ensures
        (0xC0u8 | ((v >> 6u32) & 0x1Fu32) as u8) >= 0x80u8,
        (0xE0u8 | ((v >> 12u32) & 0x0Fu32) as u8) >= 0x80u8,
        (0xF0u8 | ((v >> 18u32) & 0x7u32) as u8) >= 0x80u8,
        (0x80u8 | (v & 0x3Fu32) as u8) >= 0x80u8,
        (0x80u8 | ((v >> 6u32) & 0x3Fu32) as u8) >= 0x80u8,
        (0x80u8 | ((v >> 12u32) & 0x3Fu32) as u8) >= 0x80u8,
        v <= 0x7Fu32 ==> (v & 0x7Fu32) as u8 == v,
{
}

/// The encoding of a character holds a newline byte exactly where the
/// character is a newline, and then it is that byte alone.
pub proof fn lemma_newline_is_encoded_alone(c: char)
    ensures
        newlines(encode_scalar(c as u32)) == if c == '\n' { 1nat } else { 0nat },
        encode_scalar(c as u32).len() > 0,
        forall|i: int|
            0 <= i < encode_scalar(c as u32).len() ==> ((#[trigger] encode_scalar(c as u32)[i]) == NEWLINE
                <==> c == '\n'),
{
    let v = c as u32;
    let bytes = encode_scalar(v);
    lemma_high_bytes(v);
    assert(forall|i: int| 0 <= i < bytes.len() ==> (bytes[i] == NEWLINE <==> c == '\n'));
    lemma_count_uniform(bytes, c == '\n');
}

proof fn lemma_count_uniform(bytes: Seq<u8>, all: bool)
    requires
        forall|i: int| 0 <= i < bytes.len() ==> (bytes[i] == NEWLINE <==> all),
    ensures
        newlines(bytes) == if all { bytes.len() } else { 0 },
    decreases bytes.len(),
{
    if bytes.len() > 0 {
        lemma_count_uniform(bytes.drop_last(), all);
    }
}

proof fn lemma_encoded_newlines_from(text: Seq<char>, at: int)
    requires
        0 <= at <= text.len(),
    ensures
        newlines(encode_utf8(text.skip(at))) == newlines_from(text, at),
    decreases text.len() - at,
{
    let rest = text.skip(at);
    if at < text.len() {
        assert(rest.drop_first() =~= text.skip(at + 1));
        assert(rest[0] == text[at]);
        lemma_newline_is_encoded_alone(text[at]);
        lemma_encoded_newlines_from(text, at + 1);
        lemma_newlines_add_up(encode_scalar(text[at] as u32), encode_utf8(text.skip(at + 1)));
    }
}

/// Bounded batches: a text whose UTF-8 bytes hold fewer lines than one
/// request may carry events gives fewer events than that.
pub proof fn lemma_events_within_count_limit(text: Seq<char>)
    requires
        line_count(encode_utf8(text)) < MAX_BATCH_EVENTS,
    ensures
        messages(text).len() < MAX_BATCH_EVENTS,
{
    lemma_messages_bounded_by_lines(text);
    assert(text.skip(0) =~= text);
    lemma_encoded_newlines_from(text, 0);
    if text.len() == 0 {
        assert(messages(text).len() == 0);
    } else {
        assert(encode_utf8(text).len() > 0) by {
            assert(encode_scalar(text[0] as u32).len() > 0);
        }
    }
}

/// The number of bytes that `msgs` come to in a request: the UTF-8 bytes of
/// each message and the overhead of its event.
pub open spec fn request_size(msgs: Seq<Seq<char>>) -> nat
    decreases msgs.len(),
{
    if msgs.len() == 0 {
        0
    } else {
        encode_utf8(msgs[0]).len() + EVENT_OVERHEAD as nat + request_size(msgs.drop_first())
    }
}

/// The UTF-8 bytes of two texts, one behind the other, are those of the one
/// behind those of the other.
pub proof fn lemma_encoding_of_concat(a: Seq<char>, b: Seq<char>)
    ensures
        encode_utf8(a + b) == encode_utf8(a) + encode_utf8(b),
    decreases a.len(),
{
    if a.len() == 0 {
        assert(a + b =~= b);
        assert(encode_utf8(a) + encode_utf8(b) =~= encode_utf8(b));
    } else {
        assert((a + b).drop_first() =~= a.drop_first() + b);
        lemma_encoding_of_concat(a.drop_first(), b);
        assert(encode_utf8(a + b) =~= encode_utf8(a) + encode_utf8(b));
    }
}

proof fn lemma_request_size_of_concat(a: Seq<Seq<char>>, b: Seq<Seq<char>>)
    ensures
        request_size(a + b) == request_size(a) + request_size(b),
    decreases a.len(),
{
    if a.len() == 0 {
        assert(a + b =~= b);
    } else {
        assert((a + b).drop_first() =~= a.drop_first() + b);
        lemma_request_size_of_concat(a.drop_first(), b);
    }
}

proof fn lemma_emitted_size(line: Seq<char>)
    ensures
        request_size(emitted(line)) <= encode_utf8(line).len() + EVENT_OVERHEAD * emitted(line).len(),
{
    if line.len() > 0 && line.last() == '\r' {
        assert(line =~= line.drop_last() + seq![line.last()]);
        lemma_encoding_of_concat(line.drop_last(), seq![line.last()]);
        assert(encode_utf8(trimmed(line)).len() <= encode_utf8(line).len());
    }
    let msgs = emitted(line);
    if trimmed(line).len() > 0 {
        assert(msgs.len() == 1);
        assert(msgs[0] == trimmed(line));
        assert(msgs.drop_first() =~= Seq::<Seq<char>>::empty());
        assert(request_size(msgs.drop_first()) == 0);
        assert(request_size(msgs) == encode_utf8(trimmed(line)).len() + EVENT_OVERHEAD);
    } else {
        assert(request_size(msgs) == 0);
    }
}

proof fn lemma_request_size_from(text: Seq<char>, start: int, at: int)
    requires
        0 <= start <= at <= text.len(),
    ensures
        request_size(messages_from(text, start, at)) <= encode_utf8(
            text.subrange(start, text.len() as int),
        ).len() + EVENT_OVERHEAD * messages_from(text, start, at).len(),
    decreases text.len() - at,
{
    let end = text.len() as int;
    if at >= text.len() {
        lemma_emitted_size(text.subrange(start, end));
    } else if text[at] == '\n' {
        let line = text.subrange(start, at);
        let rest = text.subrange(at + 1, end);
        let newline = text.subrange(at, at + 1);
        lemma_emitted_size(line);
        lemma_request_size_from(text, at + 1, at + 1);
        lemma_request_size_of_concat(emitted(line), messages_from(text, at + 1, at + 1));
        assert(text.subrange(start, end) =~= line + (newline + rest));
        lemma_encoding_of_concat(line, newline + rest);
        lemma_encoding_of_concat(newline, rest);
        assert(EVENT_OVERHEAD * (emitted(line).len() + messages_from(text, at + 1, at + 1).len())
            == EVENT_OVERHEAD * emitted(line).len() + EVENT_OVERHEAD * messages_from(
            text,
            at + 1,
            at + 1,
        ).len()) by (nonlinear_arith);
    } else {
        lemma_request_size_from(text, start, at + 1);
    }
}

/// Bounded batches: content of no more bytes than a window ever has, in
/// fewer lines than one request may carry events, gives a request within the
/// byte ceiling of the sink.
pub proof fn lemma_request_within_size_limit(text: Seq<char>)
    requires
        encode_utf8(text).len() <= MAX_BATCH_SIZE,
        line_count(encode_utf8(text)) < MAX_BATCH_EVENTS,
    ensures
        request_size(messages(text)) <= MAX_REQUEST_SIZE,
{
    lemma_events_within_count_limit(text);
    lemma_request_size_from(text, 0, 0);
    assert(text.subrange(0, text.len() as int) =~= text);
    assert(EVENT_OVERHEAD * messages(text).len() <= EVENT_OVERHEAD * MAX_BATCH_EVENTS) by (nonlinear_arith)
        requires
            messages(text).len() < MAX_BATCH_EVENTS,
    ;
}

/// Content whose bytes are newlines alone holds no message.
pub proof fn lemma_blank_content_has_no_message(text: Seq<char>)
    requires
        forall|i: int| 0 <= i < encode_utf8(text).len() ==> encode_utf8(text)[i] == NEWLINE,
    ensures
        messages(text).len() == 0,
{
    lemma_blank_bytes_are_newlines(text);
    lemma_blank_text_has_no_message(text);
}

proof fn lemma_blank_bytes_are_newlines(text: Seq<char>)
    requires
        forall|i: int| 0 <= i < encode_utf8(text).len() ==> encode_utf8(text)[i] == NEWLINE,
    ensures
        forall|j: int| 0 <= j < text.len() ==> text[j] == '\n',
    decreases text.len(),
{
    if text.len() > 0 {
        let head = encode_scalar(text[0] as u32);
        let rest = text.drop_first();
        let tail = encode_utf8(rest);
        lemma_newline_is_encoded_alone(text[0]);
        assert(encode_utf8(text) == head + tail);
        assert((head + tail)[0] == head[0]);
        assert forall|i: int| 0 <= i < tail.len() implies tail[i] == NEWLINE by {
            assert((head + tail)[head.len() + i] == tail[i]);
        }
        lemma_blank_bytes_are_newlines(rest);
        assert forall|j: int| 0 <= j < text.len() implies text[j] == '\n' by {
            if j > 0 {
                assert(rest[j - 1] == text[j]);
            }
        }
    }
}

/// A text made of newlines alone holds no message.
pub proof fn lemma_blank_text_has_no_message(text: Seq<char>)
    requires
        forall|i: int| 0 <= i < text.len() ==> text[i] == '\n',
    ensures
        messages(text).len() == 0,
{
    lemma_blank_from(text, 0);
}

proof fn lemma_blank_from(text: Seq<char>, at: int)
    requires
        0 <= at <= text.len(),
        forall|i: int| 0 <= i < text.len() ==> text[i] == '\n',
    ensures
        messages_from(text, at, at).len() == 0,
    decreases text.len() - at,
{
    if at >= text.len() {
        assert(text.subrange(at, text.len() as int).len() == 0);
    } else {
        assert(text.subrange(at, at).len() == 0);
        lemma_blank_from(text, at + 1);
    }
}

/// Builds the batch of `raw_text`: one event for each line that is not
/// empty, dated by the line itself or else at `now_ms`, and `carry_token` as
/// the token to send.
pub fn build_at(
    raw_text: &str,
    format: Option<&str>,
    carry_token: Option<String>,
    year: u32,
    offset: &str,
    now_ms: i64,
) -> (batch: Batch)
    ensures
        batch.token == carry_token,
        batch.events_view() == events_of(raw_text@, format_view(format), year as nat, offset@, now_ms),
{
    let chars = to_chars(raw_text);
    let n: usize = chars.len();
    let mut events: Vec<LogEvent> = Vec::new();
    let mut start: usize = 0;
    let mut at: usize = 0;
    let ghost text = raw_text@;
    let ghost done: Seq<Seq<char>> = Seq::empty();
    proof {
        assert(done + messages_from(text, 0, 0) =~= messages(text));
    }
    loop
        invariant_except_break
            done + messages_from(text, start as int, at as int) == messages(text),
        invariant
            start <= at <= n,
            n == text.len(),
            chars@ == text,
            text == raw_text@,
            events@.len() == done.len(),
            forall|i: int| 0 <= i < done.len() ==> (#[trigger] events@[i])@ == (
                done[i],
                stamp(done[i], format_view(format), year as nat, offset@, now_ms),
            ),
        ensures
            done == messages(text),
        decreases n - at,
    {
        let ghost before = done;
        let at_end: bool = at >= n;
        if at_end || chars[at] == '\n' {
            let ghost line = text.subrange(start as int, at as int);
            let mut end: usize = at;
            if end > start && chars[end - 1] == '\r' {
                end = end - 1;
            }
            proof {
                assert(line.len() == at - start);
                if at > start {
                    assert(line.last() == text[at - 1]);
                }
                assert(trimmed(line) =~= text.subrange(start as int, end as int));
                if at_end {
                    assert(text.subrange(start as int, text.len() as int) =~= line);
                }
            }
            if end > start {
                let message = from_chars(chars.as_slice(), start, end);
                let instant = match extract_at(message.as_str(), format, year, offset) {
                    Some(found) => found,
                    None => now_ms,
                };
                events.push(LogEvent { message, timestamp_ms: instant });
                proof {
                    done = done.push(trimmed(line));
                }
            }
            proof {
                assert(done =~= before + emitted(line));
            }
            if at_end {
                proof {
                    assert(messages_from(text, start as int, at as int) == emitted(line));
                }
                break;
            }
            proof {
                assert(messages_from(text, start as int, at as int) == emitted(line) + messages_from(
                    text,
                    at + 1,
                    at + 1,
                ));
                assert(done + messages_from(text, at + 1, at + 1) =~= before + (emitted(line)
                    + messages_from(text, at + 1, at + 1)));
            }
            start = at + 1;
        }
        at = at + 1;
    }
    let batch = Batch { events, token: carry_token };
    proof {
        let wanted = events_of(raw_text@, format_view(format), year as nat, offset@, now_ms);
        assert(batch.events_view().len() == wanted.len());
        assert forall|i: int| 0 <= i < wanted.len() implies batch.events_view()[i] == wanted[i] by {
            assert(batch.events@[i]@ == (done[i], stamp(done[i], format_view(format), year as nat, offset@, now_ms)));
        }
        assert(batch.events_view() =~= wanted);
    }
    batch
}

/// Builds the batch of `raw_text` for `watched_file`: one event for each
/// line that is not empty, dated by the line itself or else at the instant of
/// the call, and `carry_token` as the token to send.
pub fn build(raw_text: &str, watched_file: &ConfigLogFile, carry_token: Option<String>) -> (batch: Batch)
    ensures
        batch.token == carry_token,
        exists|clock_year: i32, now: i64|
            batch.events_view() == events_of(
                raw_text@,
                watched_file.format_spec(),
                assumed_year(clock_year),
                default_offset(),
                now,
            ),
{
    let (clock, now) = utc_clock();
    let year: u32 = if clock < 0 { 0 } else { clock as u32 };
    let batch = build_at(raw_text, watched_file.format(), carry_token, year, default_offset_text(), now);
    proof {
        assert(batch.events_view() == events_of(
            raw_text@,
            watched_file.format_spec(),
            assumed_year(clock),
            default_offset(),
            now,
        ));
    }
    batch
}

} // verus!
