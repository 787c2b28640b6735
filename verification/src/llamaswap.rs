//! The decisions of the llama-swap client: chat messages, the model's
//! context length, the reply of a summary call, retry backoff, and the
//! reading of the server-sent event stream of a generation.
use vstd::prelude::*;
use crate::config::string_views;
use crate::prompt::Prompt;
use crate::text::{
    chars_of, copy_range, is_blank, line_end, line_end_from, push_all, push_str, same_chars,
    slice_starts_with, starts_with, string_from, trim, trimmed,
};

verus! {

/// Retries after the first failed API call.
pub const MAX_API_RETRIES: usize = 2;

/// The wait before the first retry; each further retry waits twice as long.
pub const INITIAL_RETRY_DELAY_MS: u64 = 1000;

/// The context length assumed for a model that does not state one.
pub const DEFAULT_CONTEXT_LENGTH: u64 = 131072;

// ── Messages ──────────────────────────────────────────────────────────────

/// One chat message.
#[derive(Debug, Clone)]
pub struct Message {
    pub role: String,
    pub content: String,
}

/// The system message, then the user message.
pub fn build_messages(prompt: &Prompt) -> (r: Vec<Message>)
    ensures
        r@.len() == 2,
        r@[0].role@ == "system"@,
        r@[0].content@ == prompt.system@,
        r@[1].role@ == "user"@,
        r@[1].content@ == prompt.user@,
{
    let system = chars_of("system");
    let user = chars_of("user");
    let mut r: Vec<Message> = Vec::new();
    r.push(Message { role: string_from(system.as_slice()), content: prompt.system.clone() });
    r.push(Message { role: string_from(user.as_slice()), content: prompt.user.clone() });
    r
}

// ── Models ────────────────────────────────────────────────────────────────

/// One model listed by `/v1/models`.
#[derive(Debug, Clone)]
pub struct ModelInfo {
    pub id: String,
    pub context_length: Option<u64>,
}

/// The reply of `/v1/models`.
#[derive(Debug, Clone)]
pub struct ModelPropResponse {
    pub data: Vec<ModelInfo>,
}

/// The context length of the first listed model named `model` (the
/// default when it states none), or `None` when no model has that name.
pub open spec fn context_length_in(models: Seq<ModelInfo>, model: Seq<char>) -> Option<u64>
    decreases models.len(),
{
    if models.len() == 0 {
        None
    } else if models[0].id@ == model {
        Some(
            match models[0].context_length {
                Some(n) => n,
                None => DEFAULT_CONTEXT_LENGTH,
            },
        )
    } else {
        context_length_in(models.drop_first(), model)
    }
}

/// The context length of `model` among the listed models.
pub fn context_length_of(models: &ModelPropResponse, model: &str) -> (r: Option<u64>)
    ensures
        r == context_length_in(models.data@, model@),
{
    let m = chars_of(model);
    let n = models.data.len();
    let mut i: usize = 0;
    assert(models.data@.skip(0) =~= models.data@);
    while i < n
        invariant
            i <= n == models.data@.len(),
            m@ == model@,
            context_length_in(models.data@, model@) == context_length_in(
                models.data@.skip(i as int),
                model@,
            ),
        decreases n - i,
    {
        let info = &models.data[i];
        let id = chars_of(info.id.as_str());
        let ghost rest = models.data@.skip(i as int);
        assert(rest[0] == models.data@[i as int]);
        if same_chars(id.as_slice(), m.as_slice()) {
            return Some(
                match info.context_length {
                    Some(n) => n,
                    None => DEFAULT_CONTEXT_LENGTH,
                },
            );
        }
        assert(rest.drop_first() =~= models.data@.skip(i + 1));
        i = i + 1;
    }
    None
}

// ── Summary replies ───────────────────────────────────────────────────────

/// The message of one choice of a non-streaming reply.
#[derive(Debug, Clone)]
pub struct ChatResChoiceMsg {
    pub content: Option<String>,
}

/// One choice of a non-streaming reply.
#[derive(Debug, Clone)]
pub struct ChatResChoice {
    pub message: ChatResChoiceMsg,
}

/// The reply of a non-streaming `/v1/chat/completions` call.
#[derive(Debug, Clone)]
pub struct ChatResponse {
    pub choices: Vec<ChatResChoice>,
}

/// Why a summary reply holds no summary.
#[derive(Debug, Clone, Copy, PartialEq, Eq, Structural)]
pub enum ReplyError {
    EmptyChoices,
    NullContent,
}

impl ReplyError {
    pub fn message(&self) -> (r: &'static str)
        ensures
            r@ == match *self {
                ReplyError::EmptyChoices => "API returned empty choices array"@,
                ReplyError::NullContent => "API returned choice with null content"@,
            },
    {
        match self {
            ReplyError::EmptyChoices => "API returned empty choices array",
            ReplyError::NullContent => "API returned choice with null content",
        }
    }
}

/// The summary in a reply: the trimmed content of its first choice.
pub fn reply_content(reply: &ChatResponse) -> (r: Result<String, ReplyError>)
    ensures
        reply.choices@.len() == 0 ==> r == Err::<String, ReplyError>(ReplyError::EmptyChoices),
        reply.choices@.len() > 0 ==> match reply.choices@[0].message.content {
            None => r == Err::<String, ReplyError>(ReplyError::NullContent),
            Some(c) => r matches Ok(s) && s@ == trim(c@),
        },
{
    if reply.choices.len() == 0 {
        return Err(ReplyError::EmptyChoices);
    }
    match &reply.choices[0].message.content {
        None => Err(ReplyError::NullContent),
        Some(c) => {
            let cs = chars_of(c.as_str());
            let t = trimmed(cs.as_slice());
            Ok(string_from(t.as_slice()))
        },
    }
}

// ── Retries ───────────────────────────────────────────────────────────────

/// The wait before retry number `done + 1`, or `None` when `done` retries
/// have been made already and the failure stands.
pub open spec fn retry_delay(done: nat) -> Option<u64> {
    if done < MAX_API_RETRIES {
        Some((INITIAL_RETRY_DELAY_MS * vstd::arithmetic::power2::pow2(done)) as u64)
    } else {
        None
    }
}

/// After a failed call, with `done` retries made so far: how long to wait
/// before the next one, or `None` to give up.
pub fn retry_delay_ms(done: usize) -> (r: Option<u64>)
    ensures
        r == retry_delay(done as nat),
{
    if done >= MAX_API_RETRIES {
        return None;
    }
    proof {
        vstd::arithmetic::power2::lemma2_to64();
    }
    if done == 0 {
        Some(INITIAL_RETRY_DELAY_MS)
    } else {
        Some(INITIAL_RETRY_DELAY_MS * 2)
    }
}

/// Retries back off exponentially: each wait is twice the one before, and
/// after `MAX_API_RETRIES` retries the failure stands.
pub proof fn lemma_backoff_doubles(done: nat)
    ensures
        done + 1 < MAX_API_RETRIES ==> retry_delay(done + 1) == Some(
            (2 * retry_delay(done)->0) as u64,
        ),
        retry_delay(0) == Some(INITIAL_RETRY_DELAY_MS),
        retry_delay(done) is None <==> done >= MAX_API_RETRIES,
{
    vstd::arithmetic::power2::lemma2_to64();
}

// ── Server-sent events ────────────────────────────────────────────────────

/// The payload of one line of the event stream: the text after `data: `
/// of a trimmed line, unless the line is blank or `data: [DONE]`.
pub open spec fn event_payload(line: Seq<char>) -> Option<Seq<char>> {
    let l = trim(line);
    if l.len() > 0 && l != "data: [DONE]"@ && starts_with(l, "data: "@) {
        Some(l.skip("data: "@.len() as int))
    } else {
        None
    }
}

pub open spec fn opt_seq(o: Option<Seq<char>>) -> Seq<Seq<char>> {
    match o {
        Some(p) => seq![p],
        None => seq![],
    }
}

/// The payloads of all lines of a stream text, in order; the text after
/// the last line feed counts as a line.
pub open spec fn stream_payloads(t: Seq<char>) -> Seq<Seq<char>>
    decreases t.len(),
{
    let k = line_end(t);
    if 0 <= k < t.len() {
        opt_seq(event_payload(t.take(k))) + stream_payloads(t.skip(k + 1))
    } else {
        opt_seq(event_payload(t))
    }
}

/// Takes the complete lines off the front of a buffer, collecting their
/// payloads, until no line feed is left or a `data: [DONE]` line has been
/// taken; gives the payloads and what stays buffered.
pub open spec fn drain_lines(b: Seq<char>) -> (Seq<Seq<char>>, Seq<char>)
    decreases b.len(),
{
    let k = line_end(b);
    if 0 <= k < b.len() {
        let line = trim(b.take(k));
        let rest = b.skip(k + 1);
        if line == "data: [DONE]"@ {
            (seq![], rest)
        } else {
            let (ps, left) = drain_lines(rest);
            (opt_seq(event_payload(b.take(k))) + ps, left)
        }
    } else {
        (seq![], b)
    }
}

/// What is taken off the front of a buffer, followed by what the rest of
/// the buffer yields, is what the whole buffer yields.
pub proof fn lemma_drain_keeps_payloads(b: Seq<char>)
    ensures
        drain_lines(b).0 + stream_payloads(drain_lines(b).1) == stream_payloads(b),
    decreases b.len(),
{
    crate::text::lemma_line_end(b);
    let k = line_end(b);
    if k < b.len() {
        let rest = b.skip(k + 1);
        lemma_drain_keeps_payloads(rest);
        if trim(b.take(k)) == "data: [DONE]"@ {
            assert(event_payload(b.take(k)) is None);
            assert(opt_seq(event_payload(b.take(k))) =~= Seq::<Seq<char>>::empty());
            assert(stream_payloads(b) =~= stream_payloads(rest));
        } else {
            let (ps, left) = drain_lines(rest);
            assert(opt_seq(event_payload(b.take(k))) + ps + stream_payloads(left) =~= opt_seq(
                event_payload(b.take(k)),
            ) + (ps + stream_payloads(left)));
        }
    } else {
        assert(Seq::<Seq<char>>::empty() + stream_payloads(b) =~= stream_payloads(b));
    }
}

/// The payload of a trimmed line.
fn line_payload(line: &[char]) -> (r: Option<Vec<char>>)
    ensures
        match r {
            Some(p) => event_payload(line@) == Some(p@),
            None => event_payload(line@) is None,
        },
{
    let l = trimmed(line);
    let done = chars_of("data: [DONE]");
    let prefix = chars_of("data: ");
    if l.len() == 0 || same_chars(l.as_slice(), done.as_slice()) {
        return None;
    }
    let m = prefix.len();
    if l.len() >= m && slice_starts_with(l.as_slice(), 0, prefix.as_slice()) {
        assert(l@.take(m as int) =~= l@.subrange(0, m as int));
        let p = copy_range(l.as_slice(), m, l.len());
        assert(p@ =~= l@.skip(m as int));
        Some(p)
    } else {
        proof {
            if l@.len() >= m {
                assert(l@.take(m as int) =~= l@.subrange(0, m as int));
            }
        }
        None
    }
}

/// Whether a trimmed line is `data: [DONE]`.
fn is_done_line(line: &[char]) -> (r: bool)
    ensures
        r == (trim(line@) == "data: [DONE]"@),
{
    let l = trimmed(line);
    let done = chars_of("data: [DONE]");
    same_chars(l.as_slice(), done.as_slice())
}

/// The folding of a sequence of stream texts through the buffer: the
/// payloads handed out, and what is left buffered at the end.
pub open spec fn feed_all(pending: Seq<char>, chunks: Seq<Seq<char>>) -> (Seq<Seq<char>>, Seq<char>)
    decreases chunks.len(),
{
    if chunks.len() == 0 {
        (seq![], pending)
    } else {
        let (ps, left) = drain_lines(pending + chunks[0]);
        let (qs, last) = feed_all(left, chunks.drop_first());
        (ps + qs, last)
    }
}

/// All texts of a sequence, one after another.
pub open spec fn concat_all(chunks: Seq<Seq<char>>) -> Seq<char>
    decreases chunks.len(),
{
    if chunks.len() == 0 {
        seq![]
    } else {
        chunks[0] + concat_all(chunks.drop_first())
    }
}

/// However the stream is cut into pieces, the payloads handed out while
/// feeding them, followed by those of the final flush, are those of the
/// whole stream.
pub proof fn lemma_payloads_independent_of_chunking(pending: Seq<char>, chunks: Seq<Seq<char>>)
    ensures
        feed_all(pending, chunks).0 + stream_payloads(feed_all(pending, chunks).1)
            == stream_payloads(pending + concat_all(chunks)),
    decreases chunks.len(),
{
    if chunks.len() == 0 {
        assert(pending + concat_all(chunks) =~= pending);
        assert(Seq::<Seq<char>>::empty() + stream_payloads(pending) =~= stream_payloads(pending));
    } else {
        let (ps, left) = drain_lines(pending + chunks[0]);
        lemma_drain_keeps_payloads(pending + chunks[0]);
        lemma_payloads_independent_of_chunking(left, chunks.drop_first());
        let (qs, last) = feed_all(left, chunks.drop_first());
        assert(pending + concat_all(chunks) =~= (pending + chunks[0]) + concat_all(
            chunks.drop_first(),
        ));
        lemma_payloads_prefix(pending + chunks[0], concat_all(chunks.drop_first()));
        assert(ps + qs + stream_payloads(last) =~= ps + (qs + stream_payloads(last)));
    }
}

/// Appending text to a buffer does not change what its complete lines
/// yield: draining `a + b` hands out what draining `a` hands out, then
/// what the rest yields.
proof fn lemma_payloads_prefix(a: Seq<char>, b: Seq<char>)
    ensures
        drain_lines(a).0 + stream_payloads(drain_lines(a).1 + b) == stream_payloads(a + b),
    decreases a.len(),
{
    crate::text::lemma_line_end(a);
    let k = line_end(a);
    if k < a.len() {
        assert((a + b)[k] == '\n');
        assert forall|j: int| 0 <= j < k implies (a + b)[j] != '\n' by {
            assert((a + b)[j] == a[j]);
        }
        crate::text::lemma_line_end_at(a + b, k);
        assert((a + b).take(k) =~= a.take(k));
        assert((a + b).skip(k + 1) =~= a.skip(k + 1) + b);
        lemma_payloads_prefix(a.skip(k + 1), b);
        let rest = a.skip(k + 1);
        if trim(a.take(k)) == "data: [DONE]"@ {
            lemma_drain_keeps_payloads(rest + b);
            assert(event_payload(a.take(k)) is None);
            assert(opt_seq(event_payload(a.take(k))) =~= Seq::<Seq<char>>::empty());
            assert(stream_payloads(a + b) =~= stream_payloads(rest + b));
        } else {
            let (ps, left) = drain_lines(rest);
            assert(opt_seq(event_payload(a.take(k))) + ps + stream_payloads(left + b)
                =~= opt_seq(event_payload(a.take(k))) + (ps + stream_payloads(left + b)));
        }
    } else {
        assert(Seq::<Seq<char>>::empty() + stream_payloads(a + b) =~= stream_payloads(a + b));
    }
}

/// The text of a stream that has not yet formed a complete line.
pub struct SseLineBuffer {
    buffer: Vec<char>,
}

impl SseLineBuffer {
    /// What is buffered.
    pub closed spec fn pending(&self) -> Seq<char> {
        self.buffer@
    }

    /// An empty buffer.
    pub fn new() -> (r: Self)
        ensures
            r.pending() == Seq::<char>::empty(),
    {
        SseLineBuffer { buffer: Vec::new() }
    }

    /// Takes in the next piece of the stream and hands out the payloads of
    /// the complete lines now buffered, stopping after a `data: [DONE]`
    /// line; the rest stays buffered.
    pub fn push_text(&mut self, text: &str) -> (r: Vec<String>)
        ensures
            string_views(r@) == drain_lines(old(self).pending() + text@).0,
            final(self).pending() == drain_lines(old(self).pending() + text@).1,
    {
        crate::text::push_str(&mut self.buffer, text);
        let ghost whole = self.buffer@;
        let n = self.buffer.len();
        let mut out: Vec<String> = Vec::new();
        let mut pos: usize = 0;
        assert(whole.skip(0) =~= whole);
        loop
            invariant
                pos <= n == self.buffer@.len(),
                self.buffer@ == whole,
                whole == old(self).pending() + text@,
                string_views(out@) + drain_lines(whole.skip(pos as int)).0 == drain_lines(
                    whole,
                ).0,
                drain_lines(whole.skip(pos as int)).1 == drain_lines(whole).1,
            decreases n - pos,
        {
            let ghost t = whole.skip(pos as int);
            let k = line_end_from(self.buffer.as_slice(), pos);
            if k >= n {
                assert(drain_lines(t) == (Seq::<Seq<char>>::empty(), t));
                assert(string_views(out@) + Seq::<Seq<char>>::empty() =~= string_views(out@));
                let rest = copy_range(self.buffer.as_slice(), pos, n);
                assert(rest@ =~= whole.skip(pos as int));
                self.buffer = rest;
                return out;
            }
            let line = copy_range(self.buffer.as_slice(), pos, k);
            assert(line@ =~= t.take(k - pos));
            assert(t.skip(k - pos + 1) =~= whole.skip(k + 1));
            if is_done_line(line.as_slice()) {
                pos = k + 1;
                assert(string_views(out@) + Seq::<Seq<char>>::empty() =~= string_views(out@));
                let rest = copy_range(self.buffer.as_slice(), pos, n);
                assert(rest@ =~= whole.skip(pos as int));
                self.buffer = rest;
                return out;
            }
            match line_payload(line.as_slice()) {
                Some(p) => {
                    let ghost before = string_views(out@);
                    out.push(string_from(p.as_slice()));
                    assert(string_views(out@) =~= before.push(p@));
                    assert(opt_seq(event_payload(line@)) =~= seq![p@]);
                    assert(before + (seq![p@] + drain_lines(whole.skip(k + 1)).0) =~= string_views(
                        out@,
                    ) + drain_lines(whole.skip(k + 1)).0);
                },
                None => {
                    assert(opt_seq(event_payload(line@)) =~= Seq::<Seq<char>>::empty());
                    assert(Seq::<Seq<char>>::empty() + drain_lines(whole.skip(k + 1)).0
                        =~= drain_lines(whole.skip(k + 1)).0);
                },
            }
            pos = k + 1;
        }
    }

    /// Hands out the payloads of what is still buffered, every line of it,
    /// once the stream has ended.
    pub fn finish(&self) -> (r: Vec<String>)
        ensures
            string_views(r@) == stream_payloads(self.pending()),
    {
        let ghost all = self.pending();
        let b = &self.buffer;
        assert(b@ == all);
        let n = b.len();
        let mut out: Vec<String> = Vec::new();
        let mut pos: usize = 0;
        assert(b@.skip(0) =~= b@);
        loop
            invariant
                pos <= n == b@.len(),
                string_views(out@) + stream_payloads(b@.skip(pos as int)) == stream_payloads(b@),
                b@ == all,
                all == self.pending(),
            decreases n - pos,
        {
            let ghost t = b@.skip(pos as int);
            let k = line_end_from(b.as_slice(), pos);
            let line = copy_range(b.as_slice(), pos, k);
            assert(line@ =~= t.take(k - pos));
            let ghost before = string_views(out@);
            match line_payload(line.as_slice()) {
                Some(p) => {
                    out.push(string_from(p.as_slice()));
                    assert(string_views(out@) =~= before.push(p@));
                    assert(opt_seq(event_payload(line@)) =~= seq![p@]);
                },
                None => {
                    assert(opt_seq(event_payload(line@)) =~= Seq::<Seq<char>>::empty());
                },
            }
            if k >= n {
                assert(t =~= line@);
                assert(line_end(t) == t.len());
                assert(stream_payloads(t) == opt_seq(event_payload(t)));
                assert(stream_payloads(t) == opt_seq(event_payload(line@)));
                assert(before + opt_seq(event_payload(line@)) =~= string_views(out@));
                assert(before + stream_payloads(t) == stream_payloads(b@));
                assert(string_views(out@) == stream_payloads(all));
                return out;
            }
            assert(t.skip(k - pos + 1) =~= b@.skip(k + 1));
            assert(before + (opt_seq(event_payload(line@)) + stream_payloads(b@.skip(k + 1)))
                =~= string_views(out@) + stream_payloads(b@.skip(k + 1)));
            pos = k + 1;
        }
    }
}

// ── Reading a generation's chunks ─────────────────────────────────────────

/// One choice of a streamed chunk: whether it carries a finish reason, and
/// its content and reasoning deltas.
#[derive(Debug, Clone)]
pub struct ChunkChoice {
    pub finished: bool,
    pub content: Option<String>,
    pub reasoning: Option<String>,
}

/// A line for the progress display: generated text or reasoning.
#[derive(Debug, Clone)]
pub struct ProgressNote {
    pub text: String,
    pub reasoning: bool,
}

pub open spec fn opt_text(o: Option<String>) -> Seq<char> {
    match o {
        Some(s) => s@,
        None => seq![],
    }
}

/// A delta without line breaks, for a one-line display.
pub open spec fn one_line(s: Seq<char>) -> Seq<char> {
    s.filter(|c: char| c != '\n' && c != '\r')
}

/// The notes a choice shows: its reasoning, then its content, each
/// without line breaks and only when not blank.
pub open spec fn choice_notes(c: ChunkChoice) -> Seq<(Seq<char>, bool)> {
    let r = one_line(opt_text(c.reasoning));
    let t = one_line(opt_text(c.content));
    (if !is_blank(r) {
        seq![(r, true)]
    } else {
        seq![]
    }) + (if !is_blank(t) {
        seq![(t, false)]
    } else {
        seq![]
    })
}

/// What a chunk read while streaming adds: notes and content of the
/// choices without a finish reason.
pub open spec fn streamed_notes(cs: Seq<ChunkChoice>) -> Seq<(Seq<char>, bool)>
    decreases cs.len(),
{
    if cs.len() == 0 {
        seq![]
    } else {
        streamed_notes(cs.drop_last()) + if cs.last().finished {
            seq![]
        } else {
            choice_notes(cs.last())
        }
    }
}

pub open spec fn streamed_text(cs: Seq<ChunkChoice>) -> Seq<char>
    decreases cs.len(),
{
    if cs.len() == 0 {
        seq![]
    } else {
        streamed_text(cs.drop_last()) + if cs.last().finished {
            seq![]
        } else {
            opt_text(cs.last().content)
        }
    }
}

/// What a chunk read in the final flush adds: notes and content of every
/// choice.
pub open spec fn flushed_notes(cs: Seq<ChunkChoice>) -> Seq<(Seq<char>, bool)>
    decreases cs.len(),
{
    if cs.len() == 0 {
        seq![]
    } else {
        flushed_notes(cs.drop_last()) + choice_notes(cs.last())
    }
}

pub open spec fn flushed_text(cs: Seq<ChunkChoice>) -> Seq<char>
    decreases cs.len(),
{
    if cs.len() == 0 {
        seq![]
    } else {
        flushed_text(cs.drop_last()) + opt_text(cs.last().content)
    }
}

pub open spec fn note_views(ns: Seq<ProgressNote>) -> Seq<(Seq<char>, bool)> {
    ns.map_values(|n: ProgressNote| (n.text@, n.reasoning))
}

/// What a chunk does to the generation.
pub struct ChunkEffect {
    /// Lines for the progress display, in order.
    pub notes: Vec<ProgressNote>,
    /// Whether the chunk's timings, if it has any, are the generation's.
    pub take_timings: bool,
}

fn drop_line_breaks(s: &Option<String>) -> (r: Vec<char>)
    ensures
        r@ == one_line(opt_text(*s)),
{
    let cs: Vec<char> = match s {
        Some(t) => chars_of(t.as_str()),
        None => Vec::new(),
    };
    let mut r: Vec<char> = Vec::new();
    let n = cs.len();
    for i in 0..n
        invariant
            n == cs@.len(),
            r@ == cs@.take(i as int).filter(|c: char| c != '\n' && c != '\r'),
    {
        if cs[i] != '\n' && cs[i] != '\r' {
            r.push(cs[i]);
        }
        proof {
            reveal_with_fuel(Seq::<_>::filter, 1);
            assert(cs@.take(i + 1).drop_last() =~= cs@.take(i as int));
        }
    }
    assert(cs@.take(n as int) =~= cs@);
    r
}

fn blank(s: &[char]) -> (r: bool)
    ensures
        r == is_blank(s@),
{
    let n = s.len();
    for i in 0..n
        invariant
            n == s@.len(),
            forall|j: int| 0 <= j < i ==> crate::text::is_ws(#[trigger] s@[j]),
    {
        if !crate::text::is_whitespace(s[i]) {
            return false;
        }
    }
    true
}

fn push_notes(notes: &mut Vec<ProgressNote>, c: &ChunkChoice)
    ensures
        note_views(final(notes)@) == note_views(old(notes)@) + choice_notes(*c),
{
    let r = drop_line_breaks(&c.reasoning);
    let t = drop_line_breaks(&c.content);
    let ghost start = note_views(notes@);
    if !blank(r.as_slice()) {
        notes.push(ProgressNote { text: string_from(r.as_slice()), reasoning: true });
        assert(note_views(notes@) =~= start.push((r@, true)));
    }
    let ghost mid = note_views(notes@);
    if !blank(t.as_slice()) {
        notes.push(ProgressNote { text: string_from(t.as_slice()), reasoning: false });
        assert(note_views(notes@) =~= mid.push((t@, false)));
    }
    assert(note_views(notes@) =~= note_views(old(notes)@) + choice_notes(*c));
}

fn push_content(result: &mut Vec<char>, c: &ChunkChoice)
    ensures
        final(result)@ == old(result)@ + opt_text(c.content),
{
    match &c.content {
        Some(t) => push_str(result, t.as_str()),
        None => {
            assert(old(result)@ + Seq::<char>::empty() =~= old(result)@);
        },
    }
}

/// Reads a chunk that arrived while streaming: choices without a finish
/// reason add their content to the message and their deltas to the
/// display; a choice with a finish reason marks the chunk's timings as the
/// generation's.
pub fn absorb_streamed(result: &mut Vec<char>, choices: &[ChunkChoice]) -> (r: ChunkEffect)
    ensures
        final(result)@ == old(result)@ + streamed_text(choices@),
        note_views(r.notes@) == streamed_notes(choices@),
        r.take_timings == exists|i: int| 0 <= i < choices@.len() && #[trigger] choices@[i].finished,
{
    let mut notes: Vec<ProgressNote> = Vec::new();
    let mut take = false;
    let n = choices.len();
    assert(note_views(notes@) =~= Seq::<(Seq<char>, bool)>::empty());
    for i in 0..n
        invariant
            n == choices@.len(),
            result@ == old(result)@ + streamed_text(choices@.take(i as int)),
            note_views(notes@) == streamed_notes(choices@.take(i as int)),
            take == exists|j: int| 0 <= j < i && #[trigger] choices@[j].finished,
    {
        let c = &choices[i];
        let ghost before_text = result@;
        let ghost before_notes = note_views(notes@);
        if c.finished {
            take = true;
        } else {
            push_notes(&mut notes, c);
            push_content(result, c);
        }
        proof {
            let t = choices@.take(i + 1);
            assert(t.drop_last() =~= choices@.take(i as int));
            assert(t.last() == choices@[i as int]);
            if c.finished {
                assert(note_views(notes@) =~= before_notes + Seq::<(Seq<char>, bool)>::empty());
                assert(result@ =~= before_text + Seq::<char>::empty());
            }
            assert(old(result)@ + streamed_text(t) =~= old(result)@ + streamed_text(
                choices@.take(i as int),
            ) + (if choices@[i as int].finished {
                Seq::<char>::empty()
            } else {
                opt_text(choices@[i as int].content)
            }));
        }
    }
    assert(choices@.take(n as int) =~= choices@);
    ChunkEffect { notes, take_timings: take }
}

/// Reads a chunk found in the final flush: every choice adds its content
/// to the message and its deltas to the display, and the chunk's timings,
/// if any, are the generation's whenever it has a choice.
pub fn absorb_flushed(result: &mut Vec<char>, choices: &[ChunkChoice]) -> (r: ChunkEffect)
    ensures
        final(result)@ == old(result)@ + flushed_text(choices@),
        note_views(r.notes@) == flushed_notes(choices@),
        r.take_timings == (choices@.len() > 0),
{
    let mut notes: Vec<ProgressNote> = Vec::new();
    let n = choices.len();
    assert(note_views(notes@) =~= Seq::<(Seq<char>, bool)>::empty());
    for i in 0..n
        invariant
            n == choices@.len(),
            result@ == old(result)@ + flushed_text(choices@.take(i as int)),
            note_views(notes@) == flushed_notes(choices@.take(i as int)),
    {
        let c = &choices[i];
        push_notes(&mut notes, c);
        push_content(result, c);
        proof {
            let t = choices@.take(i + 1);
            assert(t.drop_last() =~= choices@.take(i as int));
            assert(t.last() == choices@[i as int]);
            assert(old(result)@ + flushed_text(t) =~= old(result)@ + flushed_text(
                choices@.take(i as int),
            ) + opt_text(choices@[i as int].content));
        }
    }
    assert(choices@.take(n as int) =~= choices@);
    ChunkEffect { notes, take_timings: n > 0 }
}

/// The generated message: what was collected, trimmed.
pub fn finished_message(result: &[char]) -> (r: String)
    ensures
        r@ == trim(result@),
{
    let t = trimmed(result);
    string_from(t.as_slice())
}

} // verus!

verus! {

// ── A whole generation ────────────────────────────────────────────────────

/// Whether every `data: [DONE]` line of a stream text is its last line,
/// and the text ends with a line feed (or is empty).
pub open spec fn done_only_at_end(t: Seq<char>) -> bool
    decreases t.len(),
{
    let k = line_end(t);
    if 0 <= k < t.len() {
        (trim(t.take(k)) == "data: [DONE]"@ ==> t.skip(k + 1).len() == 0) && done_only_at_end(
            t.skip(k + 1),
        )
    } else {
        t.len() == 0
    }
}

/// The text that the choices of a run of payloads add to the message
/// while streaming; `parse` gives the choices of a payload (none when it
/// does not parse).
pub open spec fn streamed_payload_text(
    ps: Seq<Seq<char>>,
    parse: spec_fn(Seq<char>) -> Seq<ChunkChoice>,
) -> Seq<char>
    decreases ps.len(),
{
    if ps.len() == 0 {
        seq![]
    } else {
        streamed_payload_text(ps.drop_last(), parse) + streamed_text(parse(ps.last()))
    }
}

/// The text that the choices of a run of payloads add in the final flush.
pub open spec fn flushed_payload_text(
    ps: Seq<Seq<char>>,
    parse: spec_fn(Seq<char>) -> Seq<ChunkChoice>,
) -> Seq<char>
    decreases ps.len(),
{
    if ps.len() == 0 {
        seq![]
    } else {
        flushed_payload_text(ps.drop_last(), parse) + flushed_text(parse(ps.last()))
    }
}

/// The message a generation gives when its stream arrives as `chunks`:
/// the payloads handed out while feeding the chunks are read as streamed,
/// those of the final flush as flushed, and the collected text is trimmed
/// (`push_text`, `absorb_streamed`, `finish`, `absorb_flushed`,
/// `finished_message`).
pub open spec fn generated_text(
    chunks: Seq<Seq<char>>,
    parse: spec_fn(Seq<char>) -> Seq<ChunkChoice>,
) -> Seq<char> {
    let fed = feed_all(seq![], chunks);
    trim(
        streamed_payload_text(fed.0, parse) + flushed_payload_text(stream_payloads(fed.1), parse),
    )
}

proof fn lemma_drain_tail(z: Seq<char>, rest: Seq<char>)
    requires
        done_only_at_end(z + rest),
    ensures
        forall|i: int| 0 <= i < drain_lines(z).1.len() ==> drain_lines(z).1[i] != '\n',
        done_only_at_end(drain_lines(z).1 + rest),
    decreases z.len(),
{
    crate::text::lemma_line_end(z);
    let k = line_end(z);
    let w = z + rest;
    if k < z.len() {
        assert forall|j: int| 0 <= j < k implies w[j] != '\n' by {
            assert(w[j] == z[j]);
        }
        assert(w[k] == z[k]);
        crate::text::lemma_line_end_at(w, k);
        assert(w.take(k) =~= z.take(k));
        assert(w.skip(k + 1) =~= z.skip(k + 1) + rest);
        if trim(z.take(k)) == "data: [DONE]"@ {
            assert(z.skip(k + 1).len() == 0);
            assert(z.skip(k + 1) + rest =~= Seq::<char>::empty());
            assert(drain_lines(z).1 + rest =~= Seq::<char>::empty());
        } else {
            lemma_drain_tail(z.skip(k + 1), rest);
        }
    } else {
        assert(drain_lines(z).1 == z);
    }
}

proof fn lemma_feed_leaves_nothing(p: Seq<char>, chunks: Seq<Seq<char>>)
    requires
        done_only_at_end(p + concat_all(chunks)),
        forall|i: int| 0 <= i < p.len() ==> p[i] != '\n',
    ensures
        feed_all(p, chunks).1.len() == 0,
    decreases chunks.len(),
{
    if chunks.len() == 0 {
        assert(p + concat_all(chunks) =~= p);
        crate::text::lemma_line_end_at(p, p.len() as int);
    } else {
        let z = p + chunks[0];
        let rest = concat_all(chunks.drop_first());
        assert(z + rest =~= p + concat_all(chunks));
        lemma_drain_tail(z, rest);
        lemma_feed_leaves_nothing(drain_lines(z).1, chunks.drop_first());
    }
}

/// However a stream whose `data: [DONE]` line, if any, is its last line and
/// which ends with a line feed is cut into chunks, the generated message is
/// the trimmed text that the choices without a finish reason of its
/// payloads add, in order.
pub proof fn lemma_generated_text_of_stream(
    chunks: Seq<Seq<char>>,
    parse: spec_fn(Seq<char>) -> Seq<ChunkChoice>,
)
    requires
        done_only_at_end(concat_all(chunks)),
    ensures
        generated_text(chunks, parse) == trim(
            streamed_payload_text(stream_payloads(concat_all(chunks)), parse),
        ),
{
    let e = Seq::<char>::empty();
    assert(e + concat_all(chunks) =~= concat_all(chunks));
    lemma_feed_leaves_nothing(e, chunks);
    lemma_payloads_independent_of_chunking(e, chunks);
    let fed = feed_all(e, chunks);
    assert(fed.1 =~= e);
    assert(stream_payloads(e) =~= Seq::<Seq<char>>::empty());
    assert(fed.0 + Seq::<Seq<char>>::empty() =~= fed.0);
    assert(streamed_payload_text(fed.0, parse) + flushed_payload_text(
        Seq::<Seq<char>>::empty(),
        parse,
    ) =~= streamed_payload_text(fed.0, parse));
}

} // verus!
