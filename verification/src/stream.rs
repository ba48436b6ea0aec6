use vstd::prelude::*;
use vstd::slice::{slice_subrange, slice_to_vec};
use vstd::utf8::{decode_first_scalar, decode_utf8, pop_first_scalar, valid_utf8};

use crate::json::{
    data_as_str, data_get_index, data_get_key, opt_text, parse_json, parsed_json, Json, JsonData,
};
use crate::text::{
    chars_of, find_char, starts_with, string_of_chars, trim, trim_end, trim_end_at,
    trim_start_at,
};

verus! {

/// `choices[0].delta.content` of a streamed payload, when it is a non-empty
/// string; nothing otherwise.
pub open spec fn stream_delta(d: JsonData) -> Option<Seq<char>> {
    match data_get_key(d, "choices"@) {
        Some(choices) => match data_get_index(choices, 0) {
            Some(first) => match data_get_key(first, "delta"@) {
                Some(delta) => match data_get_key(delta, "content"@) {
                    Some(content) => match data_as_str(content) {
                        Some(s) => if s.len() == 0 {
                            None
                        } else {
                            Some(s)
                        },
                        None => None,
                    },
                    None => None,
                },
                None => None,
            },
            None => None,
        },
        None => None,
    }
}

/// The delta that a payload text carries: nothing where the text is no JSON.
pub open spec fn payload_delta(data: Seq<char>) -> Option<Seq<char>> {
    match parsed_json(data) {
        Some(d) => stream_delta(d),
        None => None,
    }
}

/// `choices[0].delta.content` of a document, where each step of the path is
/// there.
pub open spec fn content_member(d: JsonData) -> Option<JsonData> {
    match data_get_key(d, "choices"@) {
        Some(choices) => match data_get_index(choices, 0) {
            Some(first) => match data_get_key(first, "delta"@) {
                Some(delta) => data_get_key(delta, "content"@),
                None => None,
            },
            None => None,
        },
        None => None,
    }
}

/// A payload's delta is its content string exactly as it stands, whenever
/// that string is not empty; an empty string, a content that is no string, or
/// no content at all gives no delta.
pub proof fn lemma_delta_is_content(d: JsonData)
    ensures
        content_member(d) matches Some(JsonData::Str(s)) ==> (s.len() == 0 <==> stream_delta(d) is None),
        content_member(d) matches Some(JsonData::Str(s)) ==> (s.len() > 0 ==> stream_delta(d) == Some(s)),
        !(content_member(d) matches Some(JsonData::Str(_))) ==> stream_delta(d) is None,
        stream_delta(d) matches Some(x) ==> x.len() > 0 && content_member(d) == Some(JsonData::Str(x)),
{
}

/// The delta of a payload text is that of the document it holds.
pub proof fn lemma_payload_delta_is_content(text: Seq<char>, d: JsonData)
    requires
        parsed_json(text) == Some(d),
    ensures
        content_member(d) matches Some(JsonData::Str(s)) ==> (s.len() > 0 ==> payload_delta(text) == Some(s)),
        content_member(d) matches Some(JsonData::Str(s)) ==> (s.len() == 0 ==> payload_delta(text) is None),
{
    lemma_delta_is_content(d);
}

/// The incremental content of a streamed payload document:
/// `choices[0].delta.content` where it is a non-empty string.
pub fn delta_from_json(v: &Json) -> (r: Option<String>)
    ensures
        opt_text(r) == stream_delta(v@),
{
    let choices = match v.get_key("choices") {
        Some(c) => c,
        None => return None,
    };
    let first = match choices.get_index(0) {
        Some(c) => c,
        None => return None,
    };
    let delta = match first.get_key("delta") {
        Some(c) => c,
        None => return None,
    };
    let content = match delta.get_key("content") {
        Some(c) => c,
        None => return None,
    };
    match content.as_str() {
        Some(s) => if s.as_str().is_empty() {
            None
        } else {
            Some(s.clone())
        },
        None => None,
    }
}

/// Extract the incremental content delta from a single SSE JSON payload string.
/// Returns Some(content) if choices[0].delta.content exists and is non-empty.
pub fn extract_delta_from_stream_payload(data: &str) -> (r: Option<String>)
    ensures
        opt_text(r) == payload_delta(data@),
{
    match parse_json(data) {
        Some(v) => delta_from_json(&v),
        None => None,
    }
}

} // verus!

verus! {

/// What one complete line of the event stream does.
pub enum LineEvent {
    /// Nothing: a blank line, a line that is not `data:`, or a payload
    /// without content.
    Skip,
    /// `data: [DONE]`: the stream is over.
    Done,
    /// A payload that carries this piece of text.
    Delta(Seq<char>),
}

/// The event of one line (without its `\n`): the line is trimmed at its end;
/// a `data:` line carries the trimmed rest as payload.
pub open spec fn line_event(line: Seq<char>) -> LineEvent {
    let l = trim_end(line);
    if starts_with(l, "data:"@) {
        let data = trim(l.skip(5));
        if data == "[DONE]"@ {
            LineEvent::Done
        } else {
            match payload_delta(data) {
                Some(d) => LineEvent::Delta(d),
                None => LineEvent::Skip,
            }
        }
    } else {
        LineEvent::Skip
    }
}

/// The state of a decoder: the text after the last complete line, the
/// deltas seen so far, and whether `[DONE]` came.
pub struct StreamState {
    pub pending: Seq<char>,
    pub deltas: Seq<Seq<char>>,
    pub done: bool,
}

/// Consume the complete lines of `buf`, after the deltas `deltas`.
pub open spec fn stream_drain(deltas: Seq<Seq<char>>, buf: Seq<char>) -> StreamState
    decreases buf.len(),
{
    match find_char(buf, '\n') {
        None => StreamState { pending: buf, deltas, done: false },
        Some(p) => {
            proof {
                crate::text::lemma_find_char(buf, '\n');
            }
            match line_event(buf.take(p)) {
                LineEvent::Done => StreamState { pending: Seq::empty(), deltas, done: true },
                LineEvent::Delta(d) => stream_drain(deltas.push(d), buf.skip(p + 1)),
                LineEvent::Skip => stream_drain(deltas, buf.skip(p + 1)),
            }
        },
    }
}

/// The state after a chunk of text arrives: nothing changes after `[DONE]`.
pub open spec fn stream_feed(st: StreamState, chunk: Seq<char>) -> StreamState {
    if st.done {
        st
    } else {
        stream_drain(st.deltas, st.pending + chunk)
    }
}

/// All the pieces of text, one after the other.
pub open spec fn concat(ds: Seq<Seq<char>>) -> Seq<char>
    decreases ds.len(),
{
    if ds.len() == 0 {
        Seq::empty()
    } else {
        concat(ds.drop_last()) + ds.last()
    }
}

/// What `String::from_utf8_lossy` makes of some bytes.
pub uninterp spec fn lossy_text(bytes: Seq<u8>) -> Seq<char>;

/// `String::from_utf8_lossy`: the text of the bytes, with each invalid
/// sequence replaced by U+FFFD.  Stated: the result is named, and it is the
/// decoded text where the bytes are valid UTF-8 (as std documents); how the
/// replacement characters fall is not stated.
#[verifier::external_body]
fn utf8_lossy(bytes: &[u8]) -> (r: String)
    ensures
        r@ == lossy_text(bytes@),
        valid_utf8(bytes@) ==> r@ == decode_utf8(bytes@),
{
    String::from_utf8_lossy(bytes).into_owned()
}

/// The event of a line, as the decoder computes it.
pub enum LineAction {
    Skip,
    Done,
    Delta(String),
}

/// The model of a line action.
pub open spec fn action_event(a: LineAction) -> LineEvent {
    match a {
        LineAction::Skip => LineEvent::Skip,
        LineAction::Done => LineEvent::Done,
        LineAction::Delta(s) => LineEvent::Delta(s@),
    }
}

/// The event of the line `buf[lo..hi]`.
pub fn line_action(buf: &[char], lo: usize, hi: usize) -> (r: LineAction)
    requires
        lo <= hi <= buf@.len(),
    ensures
        action_event(r) == line_event(buf@.subrange(lo as int, hi as int)),
{
    let ghost line = buf@.subrange(lo as int, hi as int);
    let e = trim_end_at(buf, lo, hi);
    let ghost l = buf@.subrange(lo as int, e as int);
    proof {
        reveal_strlit("data:");
        reveal_strlit("[DONE]");
    }
    if e - lo < 5 || buf[lo] != 'd' || buf[lo + 1] != 'a' || buf[lo + 2] != 't' || buf[lo + 3]
        != 'a' || buf[lo + 4] != ':' {
        proof {
            if starts_with(l, "data:"@) {
                assert(l.take(5)[0] == 'd');
                assert(l.take(5)[1] == 'a');
                assert(l.take(5)[2] == 't');
                assert(l.take(5)[3] == 'a');
                assert(l.take(5)[4] == ':');
            }
        }
        return LineAction::Skip;
    }
    proof {
        assert(l.take(5) =~= "data:"@);
        assert(l.skip(5) =~= buf@.subrange(lo + 5, e as int));
    }
    let e2 = trim_end_at(buf, lo + 5, e);
    let b = trim_start_at(buf, lo + 5, e2);
    let ghost data = buf@.subrange(b as int, e2 as int);
    assert(data == trim(l.skip(5)));
    if e2 - b == 6 && buf[b] == '[' && buf[b + 1] == 'D' && buf[b + 2] == 'O' && buf[b + 3] == 'N'
        && buf[b + 4] == 'E' && buf[b + 5] == ']' {
        proof {
            assert(data =~= "[DONE]"@);
        }
        return LineAction::Done;
    }
    proof {
        if data == "[DONE]"@ {
            assert(data[0] == '[');
            assert(data[1] == 'D');
            assert(data[2] == 'O');
            assert(data[3] == 'N');
            assert(data[4] == 'E');
            assert(data[5] == ']');
        }
    }
    let text = string_of_chars(slice_subrange(buf, b, e2));
    match extract_delta_from_stream_payload(text.as_str()) {
        Some(d) => LineAction::Delta(d),
        None => LineAction::Skip,
    }
}

} // verus!

verus! {

/// Reads the text of a server-sent event stream and collects the content
/// deltas of its `data:` payloads, up to `data: [DONE]`.
pub struct StreamDecoder {
    buffer: Vec<char>,
    collected: Collected,
    done: bool,
}

/// The deltas so far, with their text joined.
struct Collected {
    text: String,
    deltas: Ghost<Seq<Seq<char>>>,
}

impl View for StreamDecoder {
    type V = StreamState;

    closed spec fn view(&self) -> StreamState {
        StreamState { pending: self.buffer@, deltas: self.collected.deltas@, done: self.done }
    }
}

/// The text after `concat(ds)` grows by one piece.
pub proof fn lemma_concat_push(ds: Seq<Seq<char>>, d: Seq<char>)
    ensures
        concat(ds.push(d)) == concat(ds) + d,
{
    assert(ds.push(d).drop_last() =~= ds);
}

impl StreamDecoder {
    /// The decoder is consistent: its text is the concatenation of its deltas.
    #[verifier::type_invariant]
    spec fn wf(self) -> bool {
        self.collected.text@ == concat(self.collected.deltas@)
    }

    /// A decoder that has seen nothing.
    pub fn new() -> (r: StreamDecoder)
        ensures
            r@ == (StreamState { pending: Seq::empty(), deltas: Seq::empty(), done: false }),
    {
        StreamDecoder {
            buffer: Vec::new(),
            collected: Collected { text: String::new(), deltas: Ghost(Seq::empty()) },
            done: false,
        }
    }

    /// Whether `data: [DONE]` has arrived.
    pub fn is_done(&self) -> (r: bool)
        ensures
            r == self@.done,
    {
        self.done
    }

    /// The text of all the deltas so far.
    pub fn full_text(&self) -> (r: String)
        ensures
            r@ == concat(self@.deltas),
    {
        proof {
            use_type_invariant(self);
        }
        self.collected.text.clone()
    }

    /// Take in the next piece of the stream's text; give back the deltas of
    /// the lines that it completes, in order.
    pub fn push_text(&mut self, chunk: &str) -> (out: Vec<String>)
        ensures
            final(self)@ == stream_feed(old(self)@, chunk@),
            final(self)@.deltas.len() == old(self)@.deltas.len() + out@.len(),
            forall|i: int|
                0 <= i < out@.len() ==> #[trigger] out@[i]@ == final(self)@.deltas[old(
                    self,
                )@.deltas.len() + i],
    {
        proof {
            use_type_invariant(&*self);
        }
        let mut out: Vec<String> = Vec::new();
        if self.done {
            return out;
        }
        let ghost target = stream_feed(self@, chunk@);
        let ghost old_deltas = self.collected.deltas@;
        let cs = chars_of(chunk);
        let mut buf: Vec<char> = Vec::new();
        std::mem::swap(&mut buf, &mut self.buffer);
        let mut k: usize = 0;
        let ghost pending = buf@;
        while k < cs.len()
            invariant
                k <= cs@.len(),
                buf@ == pending + cs@.take(k as int),
            decreases cs.len() - k,
        {
            buf.push(cs[k]);
            proof {
                assert(cs@.take(k + 1) =~= cs@.take(k as int).push(cs@[k as int]));
            }
            k += 1;
        }
        proof {
            assert(cs@.take(k as int) =~= cs@);
            assert(buf@.skip(0) =~= buf@);
        }
        let mut start: usize = 0;
        loop
            invariant
                start <= buf@.len(),
                !self.done,
                self.collected.text@ == concat(self.collected.deltas@),
                stream_drain(self.collected.deltas@, buf@.skip(start as int)) == target,
                target == stream_feed(old(self)@, chunk@),
                old_deltas == old(self)@.deltas,
                self.collected.deltas@.len() == old_deltas.len() + out@.len(),
                forall|i: int|
                    0 <= i < old_deltas.len() ==> self.collected.deltas@[i] == old_deltas[i],
                forall|i: int|
                    0 <= i < out@.len() ==> #[trigger] out@[i]@ == self.collected.deltas@[old_deltas.len()
                        + i],
            decreases buf@.len() - start,
        {
            let mut j = start;
            while j < buf.len() && buf[j] != '\n'
                invariant
                    start <= j <= buf@.len(),
                    forall|m: int| start <= m < j ==> buf@[m] != '\n',
                decreases buf@.len() - j,
            {
                j += 1;
            }
            let ghost rest = buf@.skip(start as int);
            if j == buf.len() {
                proof {
                    crate::text::lemma_find_char_none(rest, '\n');
                }
                self.buffer = slice_to_vec(slice_subrange(buf.as_slice(), start, buf.len()));
                proof {
                    assert(self.buffer@ =~= rest);
                }
                return out;
            }
            proof {
                crate::text::lemma_find_char_at(rest, '\n', j - start);
                assert(rest.take(j - start) =~= buf@.subrange(start as int, j as int));
                assert(rest.skip(j - start + 1) =~= buf@.skip(j + 1));
            }
            let act = line_action(buf.as_slice(), start, j);
            match act {
                LineAction::Done => {
                    self.done = true;
                    self.buffer = Vec::new();
                    return out;
                },
                LineAction::Delta(d) => {
                    proof {
                        lemma_concat_push(self.collected.deltas@, d@);
                    }
                    let mut c = Collected { text: String::new(), deltas: Ghost(Seq::empty()) };
                    std::mem::swap(&mut c, &mut self.collected);
                    c.text.append(d.as_str());
                    c.deltas = Ghost(c.deltas@.push(d@));
                    self.collected = c;
                    out.push(d);
                },
                LineAction::Skip => {},
            }
            start = j + 1;
        }
    }

    /// Take in the next chunk of bytes of the stream, decoded as
    /// `String::from_utf8_lossy` decodes it; give back the deltas that it
    /// completes.
    pub fn push_bytes(&mut self, chunk: &[u8]) -> (out: Vec<String>)
        ensures
            final(self)@ == stream_feed(old(self)@, lossy_text(chunk@)),
            valid_utf8(chunk@) ==> final(self)@ == stream_feed(old(self)@, decode_utf8(chunk@)),
            final(self)@.deltas.len() == old(self)@.deltas.len() + out@.len(),
            forall|i: int|
                0 <= i < out@.len() ==> #[trigger] out@[i]@ == final(self)@.deltas[old(
                    self,
                )@.deltas.len() + i],
    {
        let text = utf8_lossy(chunk);
        self.push_text(text.as_str())
    }
}

} // verus!

verus! {

proof fn lemma_drain_append(ds: Seq<Seq<char>>, buf: Seq<char>, b: Seq<char>)
    ensures
        stream_drain(ds, buf + b) == stream_feed(stream_drain(ds, buf), b),
    decreases buf.len(),
{
    crate::text::lemma_find_char(buf, '\n');
    match find_char(buf, '\n') {
        None => {},
        Some(p) => {
            crate::text::lemma_find_char_at(buf + b, '\n', p);
            assert((buf + b).take(p) =~= buf.take(p));
            assert((buf + b).skip(p + 1) =~= buf.skip(p + 1) + b);
            match line_event(buf.take(p)) {
                LineEvent::Done => {},
                LineEvent::Delta(d) => lemma_drain_append(ds.push(d), buf.skip(p + 1), b),
                LineEvent::Skip => lemma_drain_append(ds, buf.skip(p + 1), b),
            }
        },
    }
}

/// How the stream is cut into chunks does not matter: taking in `a` and then
/// `b` leaves the decoder as taking in `a + b` does.
pub proof fn lemma_stream_chunks(st: StreamState, a: Seq<char>, b: Seq<char>)
    ensures
        stream_feed(stream_feed(st, a), b) == stream_feed(st, a + b),
{
    if !st.done {
        lemma_drain_append(st.deltas, st.pending + a, b);
        assert(st.pending + a + b =~= st.pending + (a + b));
    }
}

proof fn lemma_drain_extends(ds: Seq<Seq<char>>, buf: Seq<char>)
    ensures
        stream_drain(ds, buf).deltas.len() >= ds.len(),
        stream_drain(ds, buf).deltas.take(ds.len() as int) == ds,
    decreases buf.len(),
{
    crate::text::lemma_find_char(buf, '\n');
    match find_char(buf, '\n') {
        None => {
            assert(ds.take(ds.len() as int) =~= ds);
        },
        Some(p) => {
            match line_event(buf.take(p)) {
                LineEvent::Done => {
                    assert(ds.take(ds.len() as int) =~= ds);
                },
                LineEvent::Delta(d) => {
                    lemma_drain_extends(ds.push(d), buf.skip(p + 1));
                    let r = stream_drain(ds.push(d), buf.skip(p + 1)).deltas;
                    assert(r.take(ds.len() as int) =~= r.take(ds.len() + 1int).take(ds.len() as int));
                    assert(ds.push(d).take(ds.len() as int) =~= ds);
                },
                LineEvent::Skip => lemma_drain_extends(ds, buf.skip(p + 1)),
            }
        },
    }
}

/// Deltas once given stay: a chunk only adds deltas after the ones before it,
/// and after `[DONE]` a chunk changes nothing.
pub proof fn lemma_stream_deltas_stay(st: StreamState, chunk: Seq<char>)
    ensures
        stream_feed(st, chunk).deltas.len() >= st.deltas.len(),
        stream_feed(st, chunk).deltas.take(st.deltas.len() as int) == st.deltas,
        st.done ==> stream_feed(st, chunk) == st,
{
    if st.done {
        assert(st.deltas.take(st.deltas.len() as int) =~= st.deltas);
    } else {
        lemma_drain_extends(st.deltas, st.pending + chunk);
    }
}

/// Valid UTF-8 decodes piece by piece: the text of `a + b` is the text of
/// `a` followed by that of `b`.
proof fn lemma_decode_concat(a: Seq<u8>, b: Seq<u8>)
    requires
        valid_utf8(a),
        valid_utf8(b),
    ensures
        valid_utf8(a + b),
        decode_utf8(a + b) == decode_utf8(a) + decode_utf8(b),
    decreases a.len(),
{
    vstd::utf8::valid_utf8_concat(a, b);
    if a.len() == 0 {
        assert(a + b =~= b);
        assert(decode_utf8(a) + decode_utf8(b) =~= decode_utf8(b));
    } else {
        let rest = pop_first_scalar(a);
        assert(rest.len() < a.len());
        lemma_decode_concat(rest, b);
        assert(pop_first_scalar(a + b) =~= rest + b);
        assert(decode_first_scalar(a + b) == decode_first_scalar(a));
        assert(decode_utf8(a + b) =~= decode_utf8(a) + decode_utf8(b));
    }
}

/// How the bytes of the stream are cut into chunks does not matter where each
/// chunk holds whole characters: taking in the text of `a` and then that of
/// `b` leaves the decoder as taking in the text of `a + b` does.
pub proof fn lemma_stream_byte_chunks(st: StreamState, a: Seq<u8>, b: Seq<u8>)
    requires
        valid_utf8(a),
        valid_utf8(b),
    ensures
        valid_utf8(a + b),
        stream_feed(stream_feed(st, decode_utf8(a)), decode_utf8(b)) == stream_feed(
            st,
            decode_utf8(a + b),
        ),
{
    lemma_decode_concat(a, b);
    lemma_stream_chunks(st, decode_utf8(a), decode_utf8(b));
}

} // verus!
