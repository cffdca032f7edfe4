//! OpenAI-compatible chat: request checks, response handling and the
//! decoding of the streamed reply.
//!
//! Works with any provider that implements `/chat/completions` with
//! `stream: true` and Server-Sent Events `data: {...}` lines. Credentials are
//! not held here: they come from the settings row at call time. The HTTP
//! exchange itself is done by the caller; this module decides what to send,
//! what an answer means, and which chunks a byte stream carries.
use vstd::prelude::*;

use crate::error::AppError;
use crate::extract::{has_prefix, lines_of, pieces};
use crate::text::{
    blank, chars_of, concat, is_blank, starts_with, string_of, string_of_range, trim, trim_range,
    utf8_chars_or_empty, utf8_or_empty,
};
use vstd::utf8::encode_utf8;

verus! {

/// System prompt of the career-coaching assistant.
pub const SYSTEM_PROMPT: &'static str = r#"你是「AI 求职助手」，一名专业的中文求职辅导专家。你的目标是帮助用户：

1. 深度解析目标岗位 JD：抽取硬技能、软技能、关键词、隐性偏好。
2. 构建候选人画像：从用户提供的项目、实习、获奖等材料中提炼结构化事实。
3. 生成简历内容（按 profile / summary / skills / internships / projects / awards / papers 组织），并能在用户追加信息后局部更新。
4. 进行能力缺口分析（gap analysis）：对照 JD 找出薄弱、缺失、需要补充证据的方向。
5. 生成可用于面试准备的问题与参考答案，覆盖技术、项目深挖、行为面试三类。
6. 在用户表达「调整布局/风格/字号」等渲染需求时，给出可落地的渲染建议（CSS/排版方向），但不混淆到内容层。

回答风格：
- 默认中文回答，必要时使用 Markdown（表格、列表、代码块）。
- 当上下文不够时主动追问，不要凭空编造。
- 当用户提供了 JD 或材料，就先做 JD 解析或事实抽取，再继续后续任务。
"#;

/// One chat message.
#[derive(Debug, Clone)]
pub struct ChatMessage {
    pub role: String,
    pub content: String,
}

/// A piece of a streamed reply.
#[derive(Debug, Clone)]
pub enum StreamChunk {
    /// Some text of the reply.
    Delta(String),
    /// The reply is complete.
    Done,
}

/// Plain-value view of a [`StreamChunk`].
pub enum StreamChunkView {
    Delta(Seq<char>),
    Done,
}

impl View for StreamChunk {
    type V = StreamChunkView;

    open spec fn view(&self) -> StreamChunkView {
        match self {
            StreamChunk::Delta(t) => StreamChunkView::Delta(t@),
            StreamChunk::Done => StreamChunkView::Done,
        }
    }
}

/// Provider, key and model of one call.
#[derive(Debug, Clone)]
pub struct LlmCallConfig {
    pub base_url: String,
    pub api_key: String,
    pub model: String,
}

// ---------------------------------------------------------------------------
// Searching
// ---------------------------------------------------------------------------
/// The first position at or after `i` where `p` occurs in `s`.
pub open spec fn find_from<A>(s: Seq<A>, p: Seq<A>, i: nat) -> Option<nat>
    decreases s.len() - i,
{
    if p.len() == 0 {
        Some(i)
    } else if i + p.len() > s.len() {
        None
    } else if s.subrange(i as int, (i + p.len()) as int) == p {
        Some(i)
    } else {
        find_from(s, p, i + 1)
    }
}

pub proof fn lemma_find_bounds<A>(s: Seq<A>, p: Seq<A>, i: nat)
    ensures
        find_from(s, p, i) matches Some(k) ==> i <= k && (p.len() == 0 || (k + p.len() <= s.len()
            && s.subrange(k as int, (k + p.len()) as int) == p)),
    decreases s.len() - i,
{
    if p.len() > 0 && i + p.len() <= s.len() && s.subrange(i as int, (i + p.len()) as int) != p {
        lemma_find_bounds(s, p, i + 1);
    }
}

pub open spec fn crlf_crlf_bytes() -> Seq<u8> {
    seq![13u8, 10u8, 13u8, 10u8]
}

pub open spec fn lf_lf_bytes() -> Seq<u8> {
    seq![10u8, 10u8]
}

/// The next Server-Sent Events boundary in the bytes of a buffer: `(end of
/// the event body, start of the rest)`. It is the first boundary of the
/// buffer: the earlier of the first `"\r\n\r\n"` and the first `"\n\n"`.
pub open spec fn event_boundary(bytes: Seq<u8>) -> Option<(nat, nat)> {
    match (find_from(bytes, crlf_crlf_bytes(), 0), find_from(bytes, lf_lf_bytes(), 0)) {
        (Some(i), Some(j)) => if i < j {
            Some((i, i + 4))
        } else {
            Some((j, j + 2))
        },
        (Some(i), None) => Some((i, i + 4)),
        (None, Some(j)) => Some((j, j + 2)),
        (None, None) => None,
    }
}

pub proof fn lemma_boundary_bounds(bytes: Seq<u8>)
    ensures
        event_boundary(bytes) matches Some((e, r)) ==> e < r <= bytes.len() && (
        (r == e + 4 && bytes.subrange(e as int, r as int) == crlf_crlf_bytes()) || (r == e + 2
            && bytes.subrange(e as int, r as int) == lf_lf_bytes())),
{
    lemma_find_bounds(bytes, crlf_crlf_bytes(), 0);
    lemma_find_bounds(bytes, lf_lf_bytes(), 0);
}

/// Whether `b[from..from + p.len()]` equals `p`.
fn bytes_at(b: &[u8], from: usize, p: &[u8]) -> (r: bool)
    requires
        from + p@.len() <= b@.len(),
    ensures
        r == (b@.subrange(from as int, from + p@.len()) == p@),
{
    let n = b.len();
    let mut k: usize = 0;
    while k < p.len()
        invariant
            n == b@.len(),
            from + p@.len() <= b@.len(),
            k <= p@.len(),
            forall|j: int| 0 <= j < k ==> b@[from + j] == p@[j],
        decreases p.len() - k,
    {
        if b[from + k] != p[k] {
            assert(b@.subrange(from as int, from + p@.len())[k as int] != p@[k as int]);
            return false;
        }
        k = k + 1;
    }
    assert(b@.subrange(from as int, from + p@.len()) =~= p@);
    true
}

/// The first byte offset where `p` occurs in `b`.
fn find_bytes(b: &[u8], p: &[u8]) -> (r: Option<usize>)
    requires
        p@.len() > 0,
    ensures
        match r {
            Some(k) => find_from(b@, p@, 0) == Some(k as nat),
            None => find_from(b@, p@, 0) is None,
        },
{
    let mut i: usize = 0;
    while i <= b.len() && p.len() <= b.len() - i
        invariant
            i <= b@.len() + 1,
            p@.len() > 0,
            find_from(b@, p@, 0) == find_from(b@, p@, i as nat),
        decreases b.len() + 1 - i,
    {
        if bytes_at(b, i, p) {
            return Some(i);
        }
        i = i + 1;
    }
    None
}

/// In valid UTF-8, an ASCII byte starts a character and so does the byte
/// after it (or the end).
proof fn lemma_boundaries_around_ascii(bytes: Seq<u8>, i: int)
    requires
        vstd::utf8::valid_utf8(bytes),
        0 <= i < bytes.len(),
        bytes[i] <= 0x7f,
    ensures
        vstd::utf8::is_char_boundary(bytes, i),
        vstd::utf8::is_char_boundary(bytes, i + 1),
{
    vstd::utf8::is_char_boundary_iff_is_leading_byte(bytes, i);
    vstd::utf8::valid_utf8_split(bytes, i);
    let tail = bytes.subrange(i, bytes.len() as int);
    assert(tail[0] == bytes[i]);
    assert(vstd::utf8::pop_first_scalar(tail) =~= bytes.subrange(i + 1, bytes.len() as int));
    if i + 1 == bytes.len() {
        vstd::utf8::is_char_boundary_start_end_of_seq(bytes);
    } else {
        let rest = bytes.subrange(i + 1, bytes.len() as int);
        assert(rest[0] == bytes[i + 1]);
        vstd::utf8::is_char_boundary_iff_not_is_continuation_byte(rest, 0);
        vstd::utf8::is_char_boundary_iff_not_is_continuation_byte(bytes, i + 1);
    }
}

/// Locates the next boundary in the bytes `b` (see [`event_boundary`]).
fn event_bounds(b: &[u8]) -> (r: Option<(usize, usize)>)
    ensures
        match r {
            Some((e, s)) => event_boundary(b@) == Some((e as nat, s as nat)),
            None => event_boundary(b@) is None,
        },
{
    let n = b.len();
    proof {
        lemma_find_bounds(b@, crlf_crlf_bytes(), 0);
        lemma_find_bounds(b@, lf_lf_bytes(), 0);
    }
    let crlf: [u8; 4] = [13u8, 10u8, 13u8, 10u8];
    assert(crlf@ =~= crlf_crlf_bytes());
    let lf: [u8; 2] = [10u8, 10u8];
    assert(lf@ =~= lf_lf_bytes());
    let c = find_bytes(b, crlf.as_slice());
    let l = find_bytes(b, lf.as_slice());
    match (c, l) {
        (Some(i), Some(j)) => {
            assert(i + 4 <= n && j + 2 <= n);
            if i < j {
                Some((i, i + 4))
            } else {
                Some((j, j + 2))
            }
        },
        (Some(i), None) => {
            assert(i + 4 <= n);
            Some((i, i + 4))
        },
        (None, Some(j)) => {
            assert(j + 2 <= n);
            Some((j, j + 2))
        },
        (None, None) => None,
    }
}

/// Locates the next Server-Sent Events boundary in `buf`: `(end of the
/// event body, start of the rest)`, as byte offsets (see
/// [`event_boundary`]). Both offsets fall on character boundaries, so
/// `buf` can be cut there.
pub fn split_event(buf: &str) -> (r: Option<(usize, usize)>)
    ensures
        match r {
            Some((e, s)) => event_boundary(encode_utf8(buf@)) == Some((e as nat, s as nat)),
            None => event_boundary(encode_utf8(buf@)) is None,
        },
        r matches Some((e, s)) ==> vstd::utf8::is_char_boundary(encode_utf8(buf@), e as int)
            && vstd::utf8::is_char_boundary(encode_utf8(buf@), s as int),
{
    let b = buf.as_bytes();
    let r = event_bounds(b);
    proof {
        vstd::utf8::encode_utf8_valid_utf8(buf@);
        lemma_boundary_bounds(b@);
        if let Some((e, s)) = r {
            let w = b@.subrange(e as int, s as int);
            assert(w[0] == b@[e as int]);
            assert(w[w.len() - 1] == b@[s - 1]);
            lemma_boundaries_around_ascii(b@, e as int);
            lemma_boundaries_around_ascii(b@, s - 1);
        }
    }
    r
}

// ---------------------------------------------------------------------------
// Lines and prefixes
// ---------------------------------------------------------------------------
proof fn lemma_pieces_next(v: Seq<char>, i: int)
    requires
        0 <= i < v.len(),
    ensures
        pieces(v.take(i)).len() >= 1,
        v[i] == '\n' ==> pieces(v.take(i + 1)) == pieces(v.take(i)).push(Seq::empty()),
        v[i] != '\n' ==> pieces(v.take(i + 1)) == pieces(v.take(i)).update(
            pieces(v.take(i)).len() - 1,
            pieces(v.take(i)).last().push(v[i]),
        ),
{
    crate::extract::lemma_pieces_nonempty(v.take(i));
    assert(v.take(i + 1).drop_last() =~= v.take(i));
    assert(v.take(i + 1).last() == v[i]);
}

/// The `(start, end)` of every line of `v` (see [`lines_of`]).
pub fn line_ranges(v: &[char]) -> (r: Vec<(usize, usize)>)
    ensures
        r@.len() == lines_of(v@).len(),
        forall|k: int|
            0 <= k < r@.len() ==> r@[k].0 <= r@[k].1 <= v@.len() && v@.subrange(
                r@[k].0 as int,
                r@[k].1 as int,
            ) == #[trigger] lines_of(v@)[k],
{
    let mut r: Vec<(usize, usize)> = Vec::new();
    let mut start: usize = 0;
    let mut i: usize = 0;
    proof {
        assert(v@.take(0) =~= Seq::<char>::empty());
        assert(v@.subrange(0, 0) =~= Seq::<char>::empty());
    }
    while i < v.len()
        invariant
            start <= i <= v@.len(),
            pieces(v@.take(i as int)).len() >= 1,
            pieces(v@.take(i as int)).last() == v@.subrange(start as int, i as int),
            r@.len() == pieces(v@.take(i as int)).len() - 1,
            forall|k: int|
                #![trigger r@[k]]
                0 <= k < r@.len() ==> r@[k].0 <= r@[k].1 <= v@.len() && v@.subrange(
                    r@[k].0 as int,
                    r@[k].1 as int,
                ) == pieces(v@.take(i as int))[k],
        decreases v.len() - i,
    {
        let ghost before = pieces(v@.take(i as int));
        let ghost old_r = r@;
        let ghost old_start = start;
        if v[i] == '\n' {
            r.push((start, i));
            start = i + 1;
        }
        proof {
            lemma_pieces_next(v@, i as int);
            assert forall|k: int| 0 <= k < r@.len() implies #[trigger] r@[k].0 <= r@[k].1 <= v@.len()
                && v@.subrange(r@[k].0 as int, r@[k].1 as int) == pieces(v@.take(i + 1))[k] by {
                if k < old_r.len() {
                    assert(r@[k] == old_r[k]);
                    assert(pieces(v@.take(i + 1))[k] == before[k]);
                } else {
                    assert(r@[k] == (old_start, i));
                    assert(pieces(v@.take(i + 1))[k] == before.last());
                }
            }
            if v@[i as int] == '\n' {
                assert(v@.subrange(i + 1, i + 1) =~= Seq::<char>::empty());
            } else {
                assert(v@.subrange(start as int, i + 1) =~= v@.subrange(start as int, i as int).push(
                    v@[i as int],
                ));
            }
        }
        i = i + 1;
    }
    proof {
        assert(v@.take(v@.len() as int) =~= v@);
    }
    if start < v.len() {
        let ghost old_r = r@;
        r.push((start, v.len()));
        proof {
            let p = pieces(v@);
            assert(p.last().len() > 0);
            assert(lines_of(v@) == p);
            assert forall|k: int| 0 <= k < r@.len() implies r@[k].0 <= r@[k].1 <= v@.len()
                && v@.subrange(r@[k].0 as int, r@[k].1 as int) == #[trigger] lines_of(v@)[k] by {
                if k < r@.len() - 1 {
                    assert(r@[k] == old_r[k]);
                    assert(p[k] == pieces(v@.take(v@.len() as int))[k]);
                } else {
                    assert(r@[k] == (start, v@.len() as usize));
                }
            }
        }
    } else {
        proof {
            let p = pieces(v@);
            assert(p.last().len() == 0);
            assert forall|k: int| 0 <= k < r@.len() implies r@[k].0 <= r@[k].1 <= v@.len()
                && v@.subrange(r@[k].0 as int, r@[k].1 as int) == #[trigger] lines_of(v@)[k] by {
                assert(lines_of(v@)[k] == p[k]);
                assert(p[k] == pieces(v@.take(v@.len() as int))[k]);
            }
        }
    }
    r
}

/// `s` with every leading occurrence of `p` removed (`trim_start_matches`).
pub open spec fn strip_all_prefix(s: Seq<char>, p: Seq<char>) -> Seq<char>
    decreases s.len(),
{
    if p.len() > 0 && has_prefix(s, p) {
        strip_all_prefix(s.skip(p.len() as int), p)
    } else {
        s
    }
}

/// `s` with every trailing `c` removed (`trim_end_matches`).
pub open spec fn strip_all_suffix(s: Seq<char>, c: char) -> Seq<char>
    decreases s.len(),
{
    if s.len() > 0 && s.last() == c {
        strip_all_suffix(s.drop_last(), c)
    } else {
        s
    }
}

/// Start of `s[from..to]` once every leading `p` is removed.
fn strip_prefix_index(s: &[char], from: usize, to: usize, p: &[char]) -> (b: usize)
    requires
        from <= to <= s@.len(),
        p@.len() > 0,
    ensures
        from <= b <= to,
        s@.subrange(b as int, to as int) == strip_all_prefix(s@.subrange(from as int, to as int), p@),
{
    let mut i: usize = from;
    while p.len() <= to - i && crate::text::range_eq(s, i, i + p.len(), p)
        invariant
            from <= i <= to <= s@.len(),
            p@.len() > 0,
            strip_all_prefix(s@.subrange(i as int, to as int), p@) == strip_all_prefix(
                s@.subrange(from as int, to as int),
                p@,
            ),
        decreases to - i,
    {
        proof {
            let t = s@.subrange(i as int, to as int);
            assert(t.subrange(0, p@.len() as int) =~= s@.subrange(i as int, i + p@.len()));
            assert(t.skip(p@.len() as int) =~= s@.subrange(i + p@.len(), to as int));
        }
        i = i + p.len();
    }
    proof {
        let t = s@.subrange(i as int, to as int);
        if p@.len() <= t.len() {
            assert(t.subrange(0, p@.len() as int) =~= s@.subrange(i as int, i + p@.len()));
        }
    }
    i
}

/// `base_url` without trailing `/`, followed by `/chat/completions`.
pub open spec fn completions_url(base_url: Seq<char>) -> Seq<char> {
    strip_all_suffix(base_url, '/') + "/chat/completions"@
}

/// The chat completions endpoint of a provider (see [`completions_url`]).
pub fn chat_completions_url(base_url: &str) -> (u: String)
    ensures
        u@ == completions_url(base_url@),
{
    let v = chars_of(base_url);
    let mut e: usize = v.len();
    proof {
        assert(v@.subrange(0, v@.len() as int) =~= v@);
    }
    while e > 0 && v[e - 1] == '/'
        invariant
            e <= v@.len(),
            strip_all_suffix(v@.subrange(0, e as int), '/') == strip_all_suffix(v@, '/'),
        decreases e,
    {
        assert(v@.subrange(0, e as int).drop_last() =~= v@.subrange(0, e - 1));
        e = e - 1;
    }
    let base = string_of_range(v.as_slice(), 0, e);
    concat(base.as_str(), "/chat/completions")
}

// ---------------------------------------------------------------------------
// Request checks and answers
// ---------------------------------------------------------------------------
pub open spec fn missing_key_message() -> Seq<char> {
    "尚未配置 LLM API Key，请在右上角「设置」里填入。"@
}

/// A streaming call needs an API key.
pub fn check_stream_config(cfg: &LlmCallConfig) -> (r: Result<(), AppError>)
    ensures
        r is Ok <==> !is_blank(cfg.api_key@),
        r matches Err(e) ==> e@ == crate::error::AppErrorView::Llm(missing_key_message()),
{
    if blank(cfg.api_key.as_str()) {
        return Err(AppError::Llm(string_of(chars_of("尚未配置 LLM API Key，请在右上角「设置」里填入。").as_slice())));
    }
    Ok(())
}

/// A connection probe needs an API key.
pub fn check_probe_config(cfg: &LlmCallConfig) -> (r: Result<(), AppError>)
    ensures
        r is Ok <==> !is_blank(cfg.api_key@),
        r matches Err(e) ==> e@ == crate::error::AppErrorView::Llm("API Key 不能为空"@),
{
    if blank(cfg.api_key.as_str()) {
        return Err(AppError::Llm(string_of(chars_of("API Key 不能为空").as_slice())));
    }
    Ok(())
}

/// What `serde_json` finds at `value[outer][index][middle][inner]` as a
/// string, for the JSON text `text`: `Err` with the parse error's message
/// when `text` is not JSON, `Ok(None)` when the path is missing or not a
/// string.
pub uninterp spec fn json_str_at(
    text: Seq<char>,
    outer: Seq<char>,
    index: nat,
    middle: Seq<char>,
    inner: Seq<char>,
) -> Result<Option<Seq<char>>, Seq<char>>;

/// `serde_json::from_str::<Value>` followed by indexing (which yields
/// `Null` on a missing key or index) and `Value::as_str`. The JSON grammar
/// is not spelled out; the result is named.
#[verifier::external_body]
fn json_string_at(text: &str, outer: &str, index: usize, middle: &str, inner: &str) -> (r: Result<
    Option<String>,
    String,
>)
    ensures
        match (r, json_str_at(text@, outer@, index as nat, middle@, inner@)) {
            (Ok(Some(s)), Ok(Some(t))) => s@ == t,
            (Ok(None), Ok(None)) => true,
            (Err(e), Err(f)) => e@ == f,
            _ => false,
        },
{
    let v: serde_json::Value = serde_json::from_str(text).map_err(|e| e.to_string())?;
    Ok(v[outer][index][middle][inner].as_str().map(|s| s.to_string()))
}

/// The answer to a connection probe: the HTTP status text and body on
/// failure; otherwise the reply at `choices[0].message.content` (empty when
/// absent), or a message when the body is not JSON.
pub open spec fn probe_answer(success: bool, status: Seq<char>, body: Seq<char>) -> Result<
    Seq<char>,
    Seq<char>,
> {
    if !success {
        Err("HTTP "@ + status + ": "@ + body)
    } else {
        match json_str_at(body, "choices"@, 0, "message"@, "content"@) {
            Err(e) => Err("响应非 JSON："@ + e + ": "@ + body),
            Ok(Some(c)) => Ok(c),
            Ok(None) => Ok(Seq::empty()),
        }
    }
}

/// Interprets the answer to a connection probe (see [`probe_answer`]);
/// failures are LLM errors.
pub fn probe_reply(success: bool, status: &str, body: &str) -> (r: Result<String, AppError>)
    ensures
        match (r, probe_answer(success, status@, body@)) {
            (Ok(s), Ok(t)) => s@ == t,
            (Err(e), Err(m)) => e@ == crate::error::AppErrorView::Llm(m),
            _ => false,
        },
{
    if !success {
        let a = concat("HTTP ", status);
        let b = concat(a.as_str(), ": ");
        return Err(AppError::Llm(concat(b.as_str(), body)));
    }
    match json_string_at(body, "choices", 0, "message", "content") {
        Err(e) => {
            let a = concat("响应非 JSON：", e.as_str());
            let b = concat(a.as_str(), ": ");
            Err(AppError::Llm(concat(b.as_str(), body)))
        },
        Ok(Some(c)) => Ok(c),
        Ok(None) => Ok(String::new()),
    }
}

/// Error for a failed upstream streaming request: status text and body.
pub fn upstream_status_error(status: &str, body: &str) -> (e: AppError)
    ensures
        e@ == crate::error::AppErrorView::Llm("upstream "@ + status@ + ": "@ + body@),
{
    let a = concat("upstream ", status);
    let b = concat(a.as_str(), ": ");
    AppError::Llm(concat(b.as_str(), body))
}

/// Error for an upstream that could not be reached.
pub fn upstream_connect_error(reason: &str) -> (e: AppError)
    ensures
        e@ == crate::error::AppErrorView::Llm("connect upstream: "@ + reason@),
{
    AppError::Llm(concat("connect upstream: ", reason))
}

/// Error for a probe that could not reach the provider.
pub fn probe_connect_error(reason: &str) -> (e: AppError)
    ensures
        e@ == crate::error::AppErrorView::Llm("连接失败："@ + reason@),
{
    AppError::Llm(concat("连接失败：", reason))
}

/// Error for a streamed reply that broke off while reading.
pub fn stream_read_error(reason: &str) -> (e: AppError)
    ensures
        e@ == crate::error::AppErrorView::Llm("stream read: "@ + reason@),
{
    AppError::Llm(concat("stream read: ", reason))
}


// ---------------------------------------------------------------------------
// Decoding the streamed reply
// ---------------------------------------------------------------------------
/// The payload of an SSE line: the trimmed line must start with `data:`;
/// every leading `data:` is removed and the rest trimmed.
pub open spec fn data_payload(line: Seq<char>) -> Option<Seq<char>> {
    let t = trim(line);
    if has_prefix(t, "data:"@) {
        Some(trim(strip_all_prefix(t, "data:"@)))
    } else {
        None
    }
}

/// The reply text a payload carries: a non-empty string at
/// `choices[0].delta.content`; payloads that are not JSON carry nothing.
pub open spec fn delta_of(payload: Seq<char>) -> Option<Seq<char>> {
    match json_str_at(payload, "choices"@, 0, "delta"@, "content"@) {
        Ok(Some(d)) => if d.len() > 0 {
            Some(d)
        } else {
            None
        },
        _ => None,
    }
}

/// One line of an event, on `(chunks so far, [DONE] seen)`. After `[DONE]`
/// nothing more is read.
pub open spec fn line_step(acc: (Seq<StreamChunkView>, bool), line: Seq<char>) -> (
    Seq<StreamChunkView>,
    bool,
) {
    if acc.1 {
        acc
    } else {
        match data_payload(line) {
            None => acc,
            Some(p) => if p == "[DONE]"@ {
                (acc.0.push(StreamChunkView::Done), true)
            } else {
                match delta_of(p) {
                    Some(d) => (acc.0.push(StreamChunkView::Delta(d)), false),
                    None => acc,
                }
            },
        }
    }
}

pub open spec fn lines_chunks(lines: Seq<Seq<char>>) -> (Seq<StreamChunkView>, bool)
    decreases lines.len(),
{
    if lines.len() == 0 {
        (Seq::empty(), false)
    } else {
        line_step(lines_chunks(lines.drop_last()), lines.last())
    }
}

/// The chunks of one event body.
pub open spec fn event_chunks(body: Seq<char>) -> (Seq<StreamChunkView>, bool) {
    lines_chunks(lines_of(body))
}

/// Every complete event of the bytes `buf`, in order: `(chunks, [DONE]
/// seen, what is kept for later)`. An event body is read as UTF-8 (a body
/// that is not valid UTF-8 carries nothing). Reading stops at `[DONE]`.
pub open spec fn drain(buf: Seq<u8>) -> (Seq<StreamChunkView>, bool, Seq<u8>)
    decreases buf.len(),
{
    match event_boundary(buf) {
        None => (Seq::empty(), false, buf),
        Some((end, rest)) => {
            proof {
                lemma_boundary_bounds(buf);
            }
            let (c, done) = event_chunks(utf8_or_empty(buf.take(end as int)));
            if done {
                (c, true, buf.skip(rest as int))
            } else {
                let (c2, d2, r2) = drain(buf.skip(rest as int));
                (c + c2, d2, r2)
            }
        },
    }
}

proof fn lemma_find_in_prefix<A>(u: Seq<A>, b: Seq<A>, p: Seq<A>, i: nat)
    requires
        p.len() > 0,
        find_from(u, p, i) is Some,
    ensures
        find_from(u + b, p, i) == find_from(u, p, i),
    decreases u.len() - i,
{
    lemma_find_bounds(u, p, i);
    assert((u + b).subrange(i as int, (i + p.len()) as int) =~= u.subrange(i as int, (i + p.len()) as int));
    if u.subrange(i as int, (i + p.len()) as int) != p {
        lemma_find_in_prefix(u, b, p, i + 1);
    }
}

/// An occurrence in `u + b` that `u` alone does not hold reaches into `b`.
proof fn lemma_find_beyond<A>(u: Seq<A>, b: Seq<A>, p: Seq<A>, i: nat)
    requires
        p.len() > 0,
        find_from(u, p, i) is None,
    ensures
        find_from(u + b, p, i) matches Some(j) ==> j + p.len() > u.len(),
    decreases (u + b).len() - i,
{
    lemma_find_bounds(u + b, p, i);
    if i + p.len() <= u.len() {
        assert((u + b).subrange(i as int, (i + p.len()) as int) =~= u.subrange(i as int, (i + p.len()) as int));
        lemma_find_beyond(u, b, p, i + 1);
    }
}

/// The first boundary of `u` stays the first boundary of `u + b`.
proof fn lemma_boundary_in_prefix(u: Seq<u8>, b: Seq<u8>)
    requires
        event_boundary(u) is Some,
    ensures
        event_boundary(u + b) == event_boundary(u),
{
    let c = crlf_crlf_bytes();
    let l = lf_lf_bytes();
    lemma_find_bounds(u, c, 0);
    lemma_find_bounds(u, l, 0);
    lemma_find_bounds(u + b, c, 0);
    lemma_find_bounds(u + b, l, 0);
    if find_from(u, c, 0) is Some {
        lemma_find_in_prefix(u, b, c, 0);
    } else {
        lemma_find_beyond(u, b, c, 0);
    }
    if find_from(u, l, 0) is Some {
        lemma_find_in_prefix(u, b, l, 0);
    } else {
        lemma_find_beyond(u, b, l, 0);
    }
    if find_from(u, c, 0) is None {
        let j = find_from(u, l, 0).unwrap() as int;
        if let Some(ii) = find_from(u + b, c, 0) {
            let i = ii as int;
            let w = (u + b).subrange(i, i + 4);
            assert(w == c);
            assert(u.subrange(j, j + 2) == l);
            assert(u.subrange(j, j + 2)[0] == u[j]);
            assert(u.subrange(j, j + 2)[1] == u[j + 1]);
            if i == j {
                assert(w[0] == (u + b)[j]);
            } else if i + 1 == j {
                assert(w[2] == (u + b)[j + 1]);
            }
            assert(i > j);
        }
    }
}

/// How a stream is cut into chunks does not change what is decoded:
/// decoding `u`, then what it kept followed by `b`, gives the chunks, the
/// end flag and the leftover of decoding `u + b` at once, wherever the
/// stream was cut (inside a character too). Once `[DONE]` is seen, later
/// bytes are kept and not decoded.
pub proof fn law_decoding_ignores_chunking(u: Seq<u8>, b: Seq<u8>)
    ensures
        !drain(u).1 ==> drain(u + b) == ({
            let d = drain(drain(u).2 + b);
            (drain(u).0 + d.0, d.1, d.2)
        }),
        drain(u).1 ==> drain(u + b) == (drain(u).0, true, drain(u).2 + b),
    decreases u.len(),
{
    lemma_boundary_bounds(u);
    match event_boundary(u) {
        None => {
            assert(drain(u) == (Seq::<StreamChunkView>::empty(), false, u));
            assert(Seq::<StreamChunkView>::empty() + drain(u + b).0 =~= drain(u + b).0);
        },
        Some((e, r)) => {
            lemma_boundary_in_prefix(u, b);
            assert((u + b).take(e as int) =~= u.take(e as int));
            let rest = u.skip(r as int);
            assert((u + b).skip(r as int) =~= rest + b);
            law_decoding_ignores_chunking(rest, b);
            let c = event_chunks(utf8_or_empty(u.take(e as int))).0;
            if !event_chunks(utf8_or_empty(u.take(e as int))).1 {
                let d = drain(drain(rest).2 + b);
                assert(c + (drain(rest).0 + d.0) =~= (c + drain(rest).0) + d.0);
            }
        },
    }
}

/// The bytes of all chunks, in order.
pub open spec fn concat_chunks(chunks: Seq<Seq<u8>>) -> Seq<u8>
    decreases chunks.len(),
{
    if chunks.len() == 0 {
        Seq::empty()
    } else {
        chunks[0] + concat_chunks(chunks.drop_first())
    }
}

/// Feeding the chunks one after another to a decoder holding `pending`:
/// the chunks decoded and whether `[DONE]` was seen; nothing is read after
/// `[DONE]`.
pub open spec fn feed_all(pending: Seq<u8>, chunks: Seq<Seq<u8>>) -> (Seq<StreamChunkView>, bool)
    decreases chunks.len(),
{
    if chunks.len() == 0 {
        (Seq::empty(), false)
    } else {
        let d = drain(pending + chunks[0]);
        if d.1 {
            (d.0, true)
        } else {
            let r = feed_all(d.2, chunks.drop_first());
            (d.0 + r.0, r.1)
        }
    }
}

/// However a stream is cut into chunks, any number of them, feeding them one
/// by one to a decoder (which holds no complete event, as a fresh one or
/// one that has not seen `[DONE]`) decodes what decoding all its bytes at
/// once does.
pub proof fn law_feeding_chunks_decodes_the_whole(pending: Seq<u8>, chunks: Seq<Seq<u8>>)
    requires
        event_boundary(pending) is None,
    ensures
        feed_all(pending, chunks) == ({
            let d = drain(pending + concat_chunks(chunks));
            (d.0, d.1)
        }),
    decreases chunks.len(),
{
    if chunks.len() == 0 {
        assert(pending + concat_chunks(chunks) =~= pending);
    } else {
        let u = pending + chunks[0];
        let b = concat_chunks(chunks.drop_first());
        assert(pending + concat_chunks(chunks) =~= u + b);
        law_decoding_ignores_chunking(u, b);
        if !drain(u).1 {
            lemma_kept_has_no_event(u);
            law_feeding_chunks_decodes_the_whole(drain(u).2, chunks.drop_first());
        }
    }
}

/// What a decoder keeps, unless it saw `[DONE]`, holds no complete event.
proof fn lemma_kept_has_no_event(buf: Seq<u8>)
    ensures
        !drain(buf).1 ==> event_boundary(drain(buf).2) is None,
    decreases buf.len(),
{
    lemma_boundary_bounds(buf);
    if let Some((end, rest)) = event_boundary(buf) {
        if !event_chunks(utf8_or_empty(buf.take(end as int))).1 {
            lemma_kept_has_no_event(buf.skip(rest as int));
        }
    }
}

/// A decoded reply so far: non-empty deltas, then `Done` as the last chunk
/// exactly when `[DONE]` was seen.
pub open spec fn reply_shape(c: Seq<StreamChunkView>, done: bool) -> bool {
    &&& forall|i: int|
        0 <= i < c.len() ==> (#[trigger] c[i] matches StreamChunkView::Delta(d) && d.len() > 0) || (
        c[i] is Done && i == c.len() - 1)
    &&& (done <==> (c.len() > 0 && c.last() is Done))
}

proof fn lemma_lines_shape(lines: Seq<Seq<char>>)
    ensures
        reply_shape(lines_chunks(lines).0, lines_chunks(lines).1),
    decreases lines.len(),
{
    if lines.len() > 0 {
        lemma_lines_shape(lines.drop_last());
        let acc = lines_chunks(lines.drop_last());
        let r = line_step(acc, lines.last());
        if !acc.1 {
            if let Some(p) = data_payload(lines.last()) {
                if p != "[DONE]"@ {
                    if let Some(d) = delta_of(p) {
                        assert(r.0 == acc.0.push(StreamChunkView::Delta(d)));
                        assert forall|i: int| 0 <= i < r.0.len() implies (#[trigger] r.0[i] matches StreamChunkView::Delta(
                            e,
                        ) && e.len() > 0) || (r.0[i] is Done && i == r.0.len() - 1) by {
                            if i < acc.0.len() {
                                assert(r.0[i] == acc.0[i]);
                                if acc.0[i] is Done {
                                    assert(acc.0.last() is Done);
                                }
                            }
                        }
                    }
                } else {
                    assert forall|i: int| 0 <= i < r.0.len() implies (#[trigger] r.0[i] matches StreamChunkView::Delta(
                        e,
                    ) && e.len() > 0) || (r.0[i] is Done && i == r.0.len() - 1) by {
                        if i < acc.0.len() {
                            assert(r.0[i] == acc.0[i]);
                            if acc.0[i] is Done {
                                assert(acc.0.last() is Done);
                            }
                        }
                    }
                }
            }
        }
    }
}

/// A decoded stream is a run of non-empty deltas, ended by one `Done`
/// exactly when `[DONE]` was seen; reading stops there.
pub proof fn law_decoded_reply_shape(buf: Seq<u8>)
    ensures
        reply_shape(drain(buf).0, drain(buf).1),
    decreases buf.len(),
{
    lemma_boundary_bounds(buf);
    if let Some((end, rest)) = event_boundary(buf) {
        let body = utf8_or_empty(buf.take(end as int));
        lemma_lines_shape(lines_of(body));
        let (c, done) = event_chunks(body);
        if !done {
            law_decoded_reply_shape(buf.skip(rest as int));
            let (c2, d2, r2) = drain(buf.skip(rest as int));
            let all = c + c2;
            assert forall|i: int| 0 <= i < all.len() implies (#[trigger] all[i] matches StreamChunkView::Delta(
                e,
            ) && e.len() > 0) || (all[i] is Done && i == all.len() - 1) by {
                if i < c.len() {
                    assert(all[i] == c[i]);
                    if c[i] is Done {
                        assert(c.last() is Done);
                    }
                } else {
                    assert(all[i] == c2[i - c.len()]);
                }
            }
            if c2.len() > 0 {
                assert(all.last() == c2.last());
            } else {
                assert(all =~= c);
                if c.len() > 0 && c.last() is Done {
                    assert(false);
                }
            }
        }
    }
}

pub open spec fn chunk_views(v: Seq<StreamChunk>) -> Seq<StreamChunkView> {
    v.map_values(|c: StreamChunk| c@)
}

/// Incremental decoder of a streamed chat reply.
///
/// Bytes arrive in chunks and are kept until an event is complete, so a
/// chunk may end anywhere, inside a character too. Complete events are
/// decoded as they arrive; the rest is kept. When the byte stream ends
/// without `[DONE]`, the reply is complete all the same.
pub struct SseDecoder {
    buf: Vec<u8>,
}

/// What one chunk of bytes yields.
pub struct SseFeed {
    pub chunks: Vec<StreamChunk>,
    /// `[DONE]` was seen: the reply is complete and nothing more is read.
    pub done: bool,
}

/// Appends the chunks of one event body to `out` and tells whether
/// `[DONE]` was seen (see [`event_chunks`]).
fn push_event_chunks(body: &[char], out: &mut Vec<StreamChunk>) -> (done: bool)
    ensures
        chunk_views(final(out)@) == chunk_views(old(out)@) + event_chunks(body@).0,
        done == event_chunks(body@).1,
{
    proof {
        reveal_strlit("data:");
        reveal_strlit("[DONE]");
    }
    let ranges = line_ranges(body);
    let ghost lines = lines_of(body@);
    let data = chars_of("data:");
    let done_marker = chars_of("[DONE]");
    let ghost start = chunk_views(out@);
    let mut done = false;
    let mut k: usize = 0;
    proof {
        assert(lines.take(0) =~= Seq::<Seq<char>>::empty());
        assert(start + Seq::<StreamChunkView>::empty() =~= start);
        assert forall|j: int| 0 <= j < ranges@.len() implies #[trigger] ranges@[j].0 <= ranges@[j].1
            <= body@.len() && body@.subrange(ranges@[j].0 as int, ranges@[j].1 as int)
            == lines[j] by {
            assert(lines_of(body@)[j] == lines[j]);
        }
    }
    while k < ranges.len()
        invariant
            ranges@.len() == lines.len(),
            lines == lines_of(body@),
            forall|j: int|
                #![trigger ranges@[j]]
                0 <= j < ranges@.len() ==> ranges@[j].0 <= ranges@[j].1 <= body@.len()
                    && body@.subrange(ranges@[j].0 as int, ranges@[j].1 as int) == lines[j],
            data@ == "data:"@,
            data@.len() == 5,
            done_marker@ == "[DONE]"@,
            k <= ranges@.len(),
            chunk_views(out@) == start + lines_chunks(lines.take(k as int)).0,
            done == lines_chunks(lines.take(k as int)).1,
        decreases ranges.len() - k,
    {
        let ghost before = lines_chunks(lines.take(k as int));
        let ghost before_out = chunk_views(out@);
        let (a, b) = ranges[k];
        let ghost line = lines[k as int];
        proof {
            assert(lines.take(k + 1).drop_last() =~= lines.take(k as int));
            assert(lines.take(k + 1).last() == line);
            assert(body@.subrange(a as int, b as int) == line);
        }
        if !done {
            let (ta, tb) = trim_range(body, a, b);
            let is_data = tb - ta >= data.len() && crate::text::range_eq(
                body,
                ta,
                ta + data.len(),
                data.as_slice(),
            );
            proof {
                let t = body@.subrange(ta as int, tb as int);
                if t.len() >= 5 {
                    assert(t.subrange(0, 5) =~= body@.subrange(ta as int, ta + 5));
                }
            }
            if is_data {
                let sa = strip_prefix_index(body, ta, tb, data.as_slice());
                let (pa, pb) = trim_range(body, sa, tb);
                proof {
                    assert(data_payload(line) == Some(body@.subrange(pa as int, pb as int)));
                }
                if crate::text::range_eq(body, pa, pb, done_marker.as_slice()) {
                    out.push(StreamChunk::Done);
                    done = true;
                    proof {
                        assert(chunk_views(out@) =~= before_out.push(StreamChunkView::Done));
                        assert(start + before.0.push(StreamChunkView::Done) =~= (start + before.0).push(
                            StreamChunkView::Done,
                        ));
                    }
                } else {
                    let payload = string_of_range(body, pa, pb);
                    match json_string_at(payload.as_str(), "choices", 0, "delta", "content") {
                        Ok(Some(d)) => {
                            if !d.as_str().is_empty() {
                                let ghost dv = d@;
                                out.push(StreamChunk::Delta(d));
                                proof {
                                    assert(chunk_views(out@) =~= before_out.push(
                                        StreamChunkView::Delta(dv),
                                    ));
                                    assert(start + before.0.push(StreamChunkView::Delta(dv)) =~= (
                                    start + before.0).push(StreamChunkView::Delta(dv)));
                                }
                            }
                        },
                        _ => {},
                    }
                }
            }
        }
        k = k + 1;
    }
    proof {
        assert(lines.take(lines.len() as int) =~= lines);
    }
    done
}

/// The bytes `v[from..to]`.
fn copy_bytes(v: &[u8], from: usize, to: usize) -> (r: Vec<u8>)
    requires
        from <= to <= v@.len(),
    ensures
        r@ == v@.subrange(from as int, to as int),
{
    let mut r: Vec<u8> = Vec::new();
    let mut i: usize = from;
    while i < to
        invariant
            from <= i <= to <= v@.len(),
            r@ == v@.subrange(from as int, i as int),
        decreases to - i,
    {
        r.push(v[i]);
        assert(v@.subrange(from as int, i + 1) =~= v@.subrange(from as int, i as int).push(v@[i as int]));
        i = i + 1;
    }
    r
}

impl SseDecoder {
    /// Bytes received but not yet part of a complete event.
    pub closed spec fn pending(&self) -> Seq<u8> {
        self.buf@
    }

    /// A decoder with nothing buffered.
    pub fn new() -> (d: Self)
        ensures
            d.pending() == Seq::<u8>::empty(),
    {
        SseDecoder { buf: Vec::new() }
    }

    /// Takes the next chunk of bytes and returns the chunks of every event
    /// it completes (see [`drain`]).
    pub fn feed(&mut self, bytes: &[u8]) -> (r: SseFeed)
        ensures
            ({
                let d = drain(old(self).pending() + bytes@);
                &&& chunk_views(r.chunks@) == d.0
                &&& r.done == d.1
                &&& final(self).pending() == d.2
            }),
    {
        let mut text: Vec<u8> = copy_bytes(self.buf.as_slice(), 0, self.buf.len());
        proof {
            assert(self.buf@.subrange(0, self.buf@.len() as int) =~= self.buf@);
        }
        let mut i: usize = 0;
        while i < bytes.len()
            invariant
                i <= bytes@.len(),
                text@ == old(self).buf@ + bytes@.take(i as int),
            decreases bytes.len() - i,
        {
            text.push(bytes[i]);
            assert(bytes@.take(i + 1) =~= bytes@.take(i as int).push(bytes@[i as int]));
            i = i + 1;
        }
        proof {
            assert(bytes@.take(bytes@.len() as int) =~= bytes@);
        }
        let ghost whole = text@;
        let mut out: Vec<StreamChunk> = Vec::new();
        loop
            invariant
                whole == old(self).buf@ + bytes@,
                ({
                    let d = drain(whole);
                    let e = drain(text@);
                    &&& d.0 == chunk_views(out@) + e.0
                    &&& d.1 == e.1
                    &&& d.2 == e.2
                }),
            decreases text@.len(),
        {
            proof {
                lemma_boundary_bounds(text@);
            }
            match event_bounds(text.as_slice()) {
                None => {
                    proof {
                        assert(chunk_views(out@) + Seq::<StreamChunkView>::empty() =~= chunk_views(
                            out@,
                        ));
                    }
                    self.buf = text;
                    return SseFeed { chunks: out, done: false };
                },
                Some((end, rest)) => {
                    let head = copy_bytes(text.as_slice(), 0, end);
                    let remainder = copy_bytes(text.as_slice(), rest, text.len());
                    let body = utf8_chars_or_empty(head.as_slice());
                    let ghost prev_out = chunk_views(out@);
                    proof {
                        assert(head@ =~= text@.take(end as int));
                        assert(remainder@ =~= text@.skip(rest as int));
                    }
                    let done = push_event_chunks(body.as_slice(), &mut out);
                    if done {
                        self.buf = remainder;
                        return SseFeed { chunks: out, done: true };
                    }
                    proof {
                        let e = drain(remainder@);
                        let c = event_chunks(body@).0;
                        assert(drain(text@).0 == c + e.0);
                        assert(prev_out + (c + e.0) =~= chunk_views(out@) + e.0);
                    }
                    text = remainder;
                },
            }
        }
    }
}

} // verus!
