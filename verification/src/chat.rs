//! One chat turn: the user's message, the prompt sent to the model, the
//! recording of the streamed reply, and the events sent to the browser.
//!
//! The user message is stored before the model is called; an empty
//! assistant message is stored next and filled in while the reply streams,
//! so a refresh in the middle of a reply shows what has arrived so far.
use vstd::prelude::*;

use crate::error::{AppError, AppErrorView};
use crate::extract::has_prefix;
use crate::llm::{ChatMessage, LlmCallConfig, StreamChunk, StreamChunkView, SYSTEM_PROMPT};
use crate::sessions::{Message, Session, untitled_prefix};
use crate::settings::{configured, AppSettings};
use crate::text::{
    blank, char_width, chars_of, concat, is_blank, starts_with, string_of, string_of_range, trim,
    trimmed, utf8_len,
};

verus! {

/// Number of most recent messages sent to the model.
pub const MAX_HISTORY_TURNS: usize = 30;

/// Body of a new user message.
#[derive(Debug, Clone)]
pub struct PostMessagePayload {
    pub content: String,
}

/// The user's text, trimmed; blank messages are refused.
pub fn user_message_text(payload: &PostMessagePayload) -> (r: Result<String, AppError>)
    ensures
        r is Ok <==> !is_blank(payload.content@),
        r matches Ok(t) ==> t@ == trim(payload.content@),
        r matches Err(e) ==> e@ == AppErrorView::BadRequest("empty message"@),
{
    let t = trimmed(payload.content.as_str());
    if blank(payload.content.as_str()) {
        return Err(AppError::BadRequest(string_of(chars_of("empty message").as_slice())));
    }
    Ok(t)
}

/// The title a session gets from its first message: sessions still named
/// `新对话…` take the first 24 characters of the message (when there are any).
pub open spec fn auto_title(current: Seq<char>, message: Seq<char>) -> Option<Seq<char>> {
    if has_prefix(current, untitled_prefix()) && message.len() > 0 {
        Some(message.take(if message.len() < 24 { message.len() as int } else { 24 }))
    } else {
        None
    }
}

/// The new title of a session after a message (see [`auto_title`]).
pub fn title_from_message(current: &str, message: &str) -> (r: Option<String>)
    ensures
        match r {
            Some(t) => auto_title(current@, message@) == Some(t@),
            None => auto_title(current@, message@) is None,
        },
{
    let c = chars_of(current);
    let prefix = chars_of("新对话");
    if !starts_with(c.as_slice(), prefix.as_slice()) {
        return None;
    }
    let m = chars_of(message);
    let n: usize = if m.len() < 24 {
        m.len()
    } else {
        24
    };
    if n == 0 {
        return None;
    }
    let t = string_of_range(m.as_slice(), 0, n);
    proof {
        assert(m@.subrange(0, n as int) =~= m@.take(n as int));
    }
    Some(t)
}

pub open spec fn jd_message(jd: Seq<char>) -> Seq<char> {
    "当前目标岗位 JD：\n"@ + jd
}

pub open spec fn message_pair(m: ChatMessage) -> (Seq<char>, Seq<char>) {
    (m.role@, m.content@)
}

/// The prompt: the system prompt, then the target job description when
/// one is set and not blank, then the history in order.
pub open spec fn prompt(jd: Option<Seq<char>>, history: Seq<(Seq<char>, Seq<char>)>) -> Seq<
    (Seq<char>, Seq<char>),
> {
    let head = seq![("system"@, SYSTEM_PROMPT@)];
    let with_jd = match jd {
        Some(j) => if !is_blank(j) {
            head.push(("system"@, jd_message(j)))
        } else {
            head
        },
        None => head,
    };
    with_jd + history
}

pub open spec fn history_pairs(history: Seq<Message>) -> Seq<(Seq<char>, Seq<char>)> {
    history.map_values(|m: Message| (m.role@, m.content@))
}

fn text_of(s: &str) -> (r: String)
    ensures
        r@ == s@,
{
    string_of(chars_of(s).as_slice())
}

/// Number of system messages before the history: the system prompt, and
/// the job description when one is set and not blank.
pub open spec fn prompt_head_len(jd: Option<Seq<char>>) -> int {
    if jd matches Some(j) && !is_blank(j) {
        2
    } else {
        1
    }
}

/// The prompt starts with the system prompt, then the job description when
/// it is set and not blank, then every history message, in order, with its
/// own stored role and content.
pub proof fn law_prompt_keeps_history(jd: Option<Seq<char>>, history: Seq<Message>)
    ensures
        prompt(jd, history_pairs(history)).len() == prompt_head_len(jd) + history.len(),
        prompt(jd, history_pairs(history))[0] == ("system"@, SYSTEM_PROMPT@),
        prompt_head_len(jd) == 2 ==> prompt(jd, history_pairs(history))[1] == ("system"@, jd_message(
            jd.unwrap(),
        )),
        forall|k: int|
            0 <= k < history.len() ==> #[trigger] prompt(jd, history_pairs(history))[prompt_head_len(jd)
                + k] == (history[k].role@, history[k].content@),
{
    let p = prompt(jd, history_pairs(history));
    let h = prompt_head_len(jd);
    assert forall|k: int| 0 <= k < history.len() implies #[trigger] p[h + k] == (
        history[k].role@,
        history[k].content@,
    ) by {
        assert(history_pairs(history)[k] == (history[k].role@, history[k].content@));
    }
}

/// Builds the messages sent to the model (see [`prompt`]): the system
/// messages, then each history message with its own role and content.
pub fn build_prompt(target_jd: &Option<String>, history: &Vec<Message>) -> (r: Vec<ChatMessage>)
    ensures
        r@.map_values(|m: ChatMessage| message_pair(m)) == prompt(
            crate::sessions::opt_view(*target_jd),
            history_pairs(history@),
        ),
        r@.len() == prompt_head_len(crate::sessions::opt_view(*target_jd)) + history@.len(),
        r@[0].role@ == "system"@ && r@[0].content@ == SYSTEM_PROMPT@,
        forall|k: int|
            0 <= k < history@.len() ==> (#[trigger] r@[prompt_head_len(
                crate::sessions::opt_view(*target_jd),
            ) + k]).role@ == history@[k].role@ && r@[prompt_head_len(
                crate::sessions::opt_view(*target_jd),
            ) + k].content@ == history@[k].content@,
{
    let mut out: Vec<ChatMessage> = Vec::new();
    out.push(ChatMessage { role: text_of("system"), content: text_of(SYSTEM_PROMPT) });
    if let Some(jd) = target_jd {
        if !blank(jd.as_str()) {
            out.push(
                ChatMessage { role: text_of("system"), content: concat("当前目标岗位 JD：\n", jd.as_str()) },
            );
        }
    }
    let ghost head = out@.map_values(|m: ChatMessage| message_pair(m));
    proof {
        assert(head =~= prompt(crate::sessions::opt_view(*target_jd), Seq::empty()));
    }
    let mut i: usize = 0;
    while i < history.len()
        invariant
            i <= history@.len(),
            out@.map_values(|m: ChatMessage| message_pair(m)) == head + history_pairs(
                history@.take(i as int),
            ),
        decreases history.len() - i,
    {
        let m = &history[i];
        let ghost old_out = out@;
        let msg = ChatMessage { role: m.role.clone(), content: m.content.clone() };
        let ghost pair = message_pair(msg);
        out.push(msg);
        proof {
            assert(out@.map_values(|m: ChatMessage| message_pair(m)) =~= old_out.map_values(
                |m: ChatMessage| message_pair(m),
            ).push(pair));
            assert(history_pairs(history@.take(i + 1)) =~= history_pairs(history@.take(i as int)).push(
                (history@[i as int].role@, history@[i as int].content@),
            ));
            assert(out@.map_values(|m: ChatMessage| message_pair(m)) =~= head + history_pairs(
                history@.take(i + 1),
            ));
        }
        i = i + 1;
    }
    proof {
        assert(history@.take(history@.len() as int) =~= history@);
        assert(prompt(crate::sessions::opt_view(*target_jd), history_pairs(history@)) =~= head
            + history_pairs(history@));
        let jd = crate::sessions::opt_view(*target_jd);
        law_prompt_keeps_history(jd, history@);
        let mp = out@.map_values(|m: ChatMessage| message_pair(m));
        let h = prompt_head_len(jd);
        assert(mp.len() == out@.len());
        assert(mp[0] == message_pair(out@[0]));
        assert forall|k: int| 0 <= k < history@.len() implies (#[trigger] out@[h + k]).role@
            == history@[k].role@ && out@[h + k].content@ == history@[k].content@ by {
            assert(mp[h + k] == message_pair(out@[h + k]));
            assert(prompt(jd, history_pairs(history@))[h + k] == (history@[k].role@, history@[k].content@));
        }
    }
    out
}

impl LlmCallConfig {
    /// Provider, key and model as stored in the settings row.
    pub fn from_settings(s: &AppSettings) -> (c: Self)
        ensures
            c.base_url@ == s.llm_base_url@,
            c.api_key@ == s.llm_api_key@,
            c.model@ == s.llm_model@,
    {
        LlmCallConfig {
            base_url: s.llm_base_url.clone(),
            api_key: s.llm_api_key.clone(),
            model: s.llm_model.clone(),
        }
    }
}

/// The call configuration for a chat turn; refused while no API key is set.
pub fn chat_call_config(s: &AppSettings) -> (r: Result<LlmCallConfig, AppError>)
    ensures
        r is Ok <==> configured(s.llm_api_key@),
        r matches Ok(c) ==> c.base_url@ == s.llm_base_url@ && c.api_key@ == s.llm_api_key@
            && c.model@ == s.llm_model@,
        r matches Err(e) ==> e@ == AppErrorView::Llm(crate::llm::missing_key_message()),
{
    if !s.llm_configured() {
        return Err(AppError::Llm(text_of("尚未配置 LLM API Key，请在右上角「设置」里填入。")));
    }
    Ok(LlmCallConfig::from_settings(s))
}

/// The call configuration for a connection test; refused while no API key
/// is set.
pub fn probe_call_config(s: &AppSettings) -> (r: Result<LlmCallConfig, AppError>)
    ensures
        r is Ok <==> configured(s.llm_api_key@),
        r matches Ok(c) ==> c.base_url@ == s.llm_base_url@ && c.api_key@ == s.llm_api_key@
            && c.model@ == s.llm_model@,
        r matches Err(e) ==> e@ == AppErrorView::Llm("尚未配置 API Key"@),
{
    if !s.llm_configured() {
        return Err(AppError::Llm(text_of("尚未配置 API Key")));
    }
    Ok(LlmCallConfig::from_settings(s))
}

// ---------------------------------------------------------------------------
// Recording the reply
// ---------------------------------------------------------------------------
/// Bytes of reply text after which the partial reply is written again.
pub const FLUSH_BYTES: usize = 64;

/// What the browser is sent while a reply streams.
#[derive(Debug, Clone)]
pub enum StreamEvent {
    Delta(String),
    Error(String),
    Done,
}

pub enum StreamEventView {
    Delta(Seq<char>),
    Error(Seq<char>),
    Done,
}

impl View for StreamEvent {
    type V = StreamEventView;

    open spec fn view(&self) -> StreamEventView {
        match self {
            StreamEvent::Delta(t) => StreamEventView::Delta(t@),
            StreamEvent::Error(m) => StreamEventView::Error(m@),
            StreamEvent::Done => StreamEventView::Done,
        }
    }
}

/// Accumulates the streamed reply and decides when to write it.
pub struct ReplyRecorder {
    text: Vec<char>,
    since_flush: usize,
}

/// What to do with one item of the upstream reply.
pub struct RecorderStep {
    /// Write the reply so far to the assistant message now.
    pub flush: bool,
    /// Send this to the browser.
    pub forward: Option<StreamEvent>,
    /// The upstream reply is over: write the reply once more, touch the
    /// session and tell the browser it is done.
    pub finished: bool,
}

pub open spec fn opt_event_view(o: Option<StreamEvent>) -> Option<StreamEventView> {
    match o {
        Some(e) => Some(e@),
        None => None,
    }
}

impl ReplyRecorder {
    /// The reply received so far.
    pub closed spec fn text(&self) -> Seq<char> {
        self.text@
    }

    /// Bytes received since the reply was last written.
    pub closed spec fn pending_bytes(&self) -> nat {
        self.since_flush as nat
    }

    #[verifier::type_invariant]
    spec fn wf(&self) -> bool {
        self.since_flush < FLUSH_BYTES
    }

    /// A recorder with no reply yet.
    pub fn new() -> (r: Self)
        ensures
            r.pending_bytes() < FLUSH_BYTES,
            r.text() == Seq::<char>::empty(),
            r.pending_bytes() == 0,
    {
        ReplyRecorder { text: Vec::new(), since_flush: 0 }
    }

    /// The reply received so far.
    pub fn content(&self) -> (s: String)
        ensures
            s@ == self.text(),
    {
        string_of(self.text.as_slice())
    }

    /// Handles one item of the upstream reply: a delta is appended and
    /// forwarded, and the reply is written once 64 bytes have come in since
    /// the last write; the end of the reply finishes; an error is forwarded
    /// and finishes.
    pub fn on_item(&mut self, item: Result<StreamChunk, String>) -> (step: RecorderStep)
        ensures
            final(self).pending_bytes() < FLUSH_BYTES,
            match item {
                Ok(StreamChunk::Delta(t)) => {
                    let total = old(self).pending_bytes() + utf8_len(t@);
                    &&& final(self).text() == old(self).text() + t@
                    &&& step.flush == (total >= FLUSH_BYTES)
                    &&& final(self).pending_bytes() == if total >= FLUSH_BYTES {
                        0
                    } else {
                        total
                    }
                    &&& opt_event_view(step.forward) == Some(StreamEventView::Delta(t@))
                    &&& !step.finished
                },
                Ok(StreamChunk::Done) => {
                    &&& final(self).text() == old(self).text()
                    &&& !step.flush
                    &&& step.forward is None
                    &&& step.finished
                },
                Err(m) => {
                    &&& final(self).text() == old(self).text()
                    &&& !step.flush
                    &&& opt_event_view(step.forward) == Some(StreamEventView::Error(m@))
                    &&& step.finished
                },
            },
    {
        proof {
            use_type_invariant(&*self);
        }
        match item {
            Ok(StreamChunk::Delta(t)) => {
                let v = chars_of(t.as_str());
                let ghost old_text = self.text@;
                let ghost start = self.since_flush as nat;
                let mut text: Vec<char> = Vec::new();
                std::mem::swap(&mut text, &mut self.text);
                // Count the delta's bytes, stopping once the threshold is met.
                let mut total: usize = self.since_flush;
                let mut i: usize = 0;
                while i < v.len()
                    invariant
                        i <= v@.len(),
                        v@ == t@,
                        text@ == old_text + v@.take(i as int),
                        total < FLUSH_BYTES ==> total == start + utf8_len(v@.take(i as int)),
                        total >= FLUSH_BYTES ==> start + utf8_len(v@.take(i as int)) >= FLUSH_BYTES,
                        total <= FLUSH_BYTES + 4,
                    decreases v.len() - i,
                {
                    proof {
                        assert(v@.take(i + 1).drop_last() =~= v@.take(i as int));
                        assert(v@.take(i + 1).last() == v@[i as int]);
                        assert(utf8_len(v@.take(i + 1)) == utf8_len(v@.take(i as int)) + char_width(
                            v@[i as int],
                        ));
                    }
                    if total < FLUSH_BYTES {
                        total = total + crate::text::width_of(v[i]);
                    }
                    text.push(v[i]);
                    assert(v@.take(i + 1) =~= v@.take(i as int).push(v@[i as int]));
                    i = i + 1;
                }
                proof {
                    assert(v@.take(v@.len() as int) =~= v@);
                }
                let flush = total >= FLUSH_BYTES;
                let since: usize = if flush {
                    0
                } else {
                    total
                };
                *self = ReplyRecorder { text, since_flush: since };
                RecorderStep { flush, forward: Some(StreamEvent::Delta(t)), finished: false }
            },
            Ok(StreamChunk::Done) => RecorderStep { flush: false, forward: None, finished: true },
            Err(m) => RecorderStep {
                flush: false,
                forward: Some(StreamEvent::Error(m)),
                finished: true,
            },
        }
    }
}

// ---------------------------------------------------------------------------
// Events sent to the browser
// ---------------------------------------------------------------------------
pub open spec fn hex_digit(d: nat) -> char {
    seq!['0', '1', '2', '3', '4', '5', '6', '7', '8', '9', 'a', 'b', 'c', 'd', 'e', 'f'][d as int]
}

/// How `serde_json` writes a character inside a JSON string.
pub open spec fn json_escape(c: char) -> Seq<char> {
    let u = c as u32;
    if c == '"' {
        seq!['\\', '"']
    } else if c == '\\' {
        seq!['\\', '\\']
    } else if u == 0x08 {
        seq!['\\', 'b']
    } else if u == 0x0c {
        seq!['\\', 'f']
    } else if c == '\n' {
        seq!['\\', 'n']
    } else if c == '\r' {
        seq!['\\', 'r']
    } else if c == '\t' {
        seq!['\\', 't']
    } else if u < 0x20 {
        seq!['\\', 'u', '0', '0', hex_digit((u / 16) as nat), hex_digit((u % 16) as nat)]
    } else {
        seq![c]
    }
}

pub open spec fn json_escape_all(s: Seq<char>) -> Seq<char>
    decreases s.len(),
{
    if s.len() == 0 {
        Seq::empty()
    } else {
        json_escape_all(s.drop_last()) + json_escape(s.last())
    }
}

/// A string as a JSON string literal.
pub open spec fn json_quoted(s: Seq<char>) -> Seq<char> {
    seq!['"'] + json_escape_all(s) + seq!['"']
}

/// `serde_json::to_string` on a `str`: the text in double quotes, with `"`
/// and `\` escaped, `\b \f \n \r \t` as short escapes, other control
/// characters below U+0020 as `\u00xx` (lower-case hex), everything else
/// as it is (serde_json's `ESCAPE` table). Serializing a `str` cannot fail.
#[verifier::external_body]
fn json_quote(s: &str) -> (r: String)
    ensures
        r@ == json_quoted(s@),
{
    match serde_json::to_string(s) {
        Ok(j) => j,
        Err(_) => String::new(),
    }
}

/// One Server-Sent Event for the browser.
pub struct SseFrame {
    pub event: &'static str,
    pub data: String,
}

/// `{"<key>":<value as JSON string>}`.
pub open spec fn json_object1(key: Seq<char>, value: Seq<char>) -> Seq<char> {
    seq!['{'] + json_quoted(key) + seq![':'] + json_quoted(value) + seq!['}']
}

fn object1(key: &str, value: &str) -> (r: String)
    ensures
        r@ == json_object1(key@, value@),
{
    let k = json_quote(key);
    let v = json_quote(value);
    let a = concat("{", k.as_str());
    let b = concat(a.as_str(), ":");
    let c = concat(b.as_str(), v.as_str());
    let r = concat(c.as_str(), "}");
    proof {
        reveal_strlit("{");
        reveal_strlit(":");
        reveal_strlit("}");
        assert(r@ =~= json_object1(key@, value@));
    }
    r
}

/// The first event of a streamed reply: the id of the assistant message.
pub fn init_frame(message_id: &str) -> (f: SseFrame)
    ensures
        f.event@ == "init"@,
        f.data@ == json_object1("message_id"@, message_id@),
{
    SseFrame { event: "init", data: object1("message_id", message_id) }
}

/// The event for one item sent to the browser, and whether it is the last.
pub open spec fn frame_of(ev: StreamEventView) -> (Seq<char>, Seq<char>, bool) {
    match ev {
        StreamEventView::Delta(t) => ("delta"@, json_object1("delta"@, t), false),
        StreamEventView::Error(m) => ("error"@, json_object1("error"@, m), true),
        StreamEventView::Done => ("done"@, "{}"@, true),
    }
}

/// The Server-Sent Event for an item (see [`frame_of`]); the stream ends
/// after an error or `done`.
pub fn event_frame(ev: &StreamEvent) -> (r: (SseFrame, bool))
    ensures
        (r.0.event@, r.0.data@, r.1) == frame_of(ev@),
{
    match ev {
        StreamEvent::Delta(t) => (SseFrame { event: "delta", data: object1("delta", t.as_str()) }, false),
        StreamEvent::Error(m) => (SseFrame { event: "error", data: object1("error", m.as_str()) }, true),
        StreamEvent::Done => (SseFrame { event: "done", data: text_of("{}") }, true),
    }
}

// ---------------------------------------------------------------------------
// Request bodies sent to the provider
// ---------------------------------------------------------------------------
/// One chat message `(role, content)` as a JSON object, keys in the
/// sorted order `serde_json` writes them.
pub open spec fn message_json(m: (Seq<char>, Seq<char>)) -> Seq<char> {
    "{\"content\":"@ + json_quoted(m.1) + ",\"role\":"@ + json_quoted(m.0) + "}"@
}

/// Chat messages as the elements of a JSON array, comma-separated.
pub open spec fn messages_json(ms: Seq<(Seq<char>, Seq<char>)>) -> Seq<char>
    decreases ms.len(),
{
    if ms.len() == 0 {
        Seq::empty()
    } else if ms.len() == 1 {
        message_json(ms[0])
    } else {
        messages_json(ms.drop_last()) + ","@ + message_json(ms.last())
    }
}

/// Body of a streamed chat completion: the messages, the model, `stream`
/// on and temperature 0.6 (keys sorted, as `serde_json` writes them).
pub open spec fn chat_request_json(model: Seq<char>, ms: Seq<(Seq<char>, Seq<char>)>) -> Seq<char> {
    "{\"messages\":["@ + messages_json(ms) + "],\"model\":"@ + json_quoted(model)
        + ",\"stream\":true,\"temperature\":0.6}"@
}

/// Body of the connection probe: a one-token answer, one user message
/// `ping`, the model, no streaming (keys sorted, as `serde_json` writes
/// them).
pub open spec fn probe_request_json(model: Seq<char>) -> Seq<char> {
    "{\"max_tokens\":1,\"messages\":[{\"content\":\"ping\",\"role\":\"user\"}],\"model\":"@
        + json_quoted(model) + ",\"stream\":false}"@
}

fn message_object(m: &ChatMessage) -> (r: String)
    ensures
        r@ == message_json(message_pair(*m)),
{
    let a = concat("{\"content\":", json_quote(m.content.as_str()).as_str());
    let b = concat(a.as_str(), ",\"role\":");
    let c = concat(b.as_str(), json_quote(m.role.as_str()).as_str());
    concat(c.as_str(), "}")
}

/// The JSON body of a streamed chat completion (see [`chat_request_json`]).
pub fn chat_request_body(model: &str, messages: &Vec<ChatMessage>) -> (r: String)
    ensures
        r@ == chat_request_json(model@, messages@.map_values(|m: ChatMessage| message_pair(m))),
{
    let ghost ms = messages@.map_values(|m: ChatMessage| message_pair(m));
    let mut list = String::new();
    let mut i: usize = 0;
    proof {
        assert(ms.take(0) =~= Seq::<(Seq<char>, Seq<char>)>::empty());
    }
    while i < messages.len()
        invariant
            i <= messages@.len(),
            ms == messages@.map_values(|m: ChatMessage| message_pair(m)),
            list@ == messages_json(ms.take(i as int)),
        decreases messages.len() - i,
    {
        let obj = message_object(&messages[i]);
        proof {
            assert(ms.take(i + 1).drop_last() =~= ms.take(i as int));
            assert(ms.take(i + 1).last() == message_pair(messages@[i as int]));
        }
        if i == 0 {
            list = obj;
            proof {
                assert(ms.take(1) =~= seq![ms[0]]);
            }
        } else {
            let with_comma = concat(list.as_str(), ",");
            list = concat(with_comma.as_str(), obj.as_str());
        }
        i = i + 1;
    }
    proof {
        assert(ms.take(messages@.len() as int) =~= ms);
    }
    let a = concat("{\"messages\":[", list.as_str());
    let b = concat(a.as_str(), "],\"model\":");
    let c = concat(b.as_str(), json_quote(model).as_str());
    concat(c.as_str(), ",\"stream\":true,\"temperature\":0.6}")
}

/// The JSON body of the connection probe (see [`probe_request_json`]).
pub fn probe_request_body(model: &str) -> (r: String)
    ensures
        r@ == probe_request_json(model@),
{
    let a = concat(
        "{\"max_tokens\":1,\"messages\":[{\"content\":\"ping\",\"role\":\"user\"}],\"model\":",
        json_quote(model).as_str(),
    );
    concat(a.as_str(), ",\"stream\":false}")
}

} // verus!

verus! {

/// A session still carrying its default title (`新对话 · ` and a time
/// stamp, as `default_session_title` makes it) is renamed after its first
/// non-empty message, to at most its first 24 characters.
pub proof fn law_default_title_is_renamed(stamp: Seq<char>, message: Seq<char>)
    requires
        message.len() > 0,
    ensures
        auto_title("新对话 · "@ + stamp, message) == Some(
            message.take(if message.len() < 24 { message.len() as int } else { 24 }),
        ),
{
    reveal_strlit("新对话 · ");
    reveal_strlit("新对话");
    let t = "新对话 · "@ + stamp;
    assert(t.subrange(0, 3) =~= untitled_prefix());
}

/// A session that was given a title of its own (not starting with `新对话`)
/// keeps it.
pub proof fn law_named_session_keeps_title(title: Seq<char>, message: Seq<char>)
    requires
        !has_prefix(title, untitled_prefix()),
    ensures
        auto_title(title, message) is None,
{
}

} // verus!
