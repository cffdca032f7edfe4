use ai_career_copilot::error::AppError;
use ai_career_copilot::llm::{
    chat_completions_url, check_probe_config, check_stream_config, probe_reply, split_event,
    LlmCallConfig, SseDecoder, StreamChunk,
};

fn deltas(chunks: &[StreamChunk]) -> Vec<String> {
    chunks
        .iter()
        .map(|c| match c {
            StreamChunk::Delta(t) => t.clone(),
            StreamChunk::Done => "<done>".to_string(),
        })
        .collect()
}

#[test]
fn finds_event_boundaries() {
    assert_eq!(split_event("a\n\nb"), Some((1, 3)));
    assert_eq!(split_event("x\r\n\r\ny"), Some((1, 5)));
    assert_eq!(split_event("a\n\nb\r\n\r\n"), Some((1, 3)));
    assert_eq!(split_event("a\r\n\r\nb\n\n"), Some((1, 5)));
    assert_eq!(split_event("data: x\n"), None);
}

#[test]
fn event_boundaries_are_byte_offsets_on_character_boundaries() {
    let buf = "你好\n\n世界";
    let (end, rest) = split_event(buf).unwrap();
    assert_eq!((end, rest), (6, 8));
    assert_eq!(&buf[..end], "你好");
    assert_eq!(&buf[rest..], "世界");
}

#[test]
fn completions_url_drops_trailing_slashes() {
    assert_eq!(chat_completions_url("https://api.x/v1//"), "https://api.x/v1/chat/completions");
    assert_eq!(chat_completions_url("https://api.x/v1"), "https://api.x/v1/chat/completions");
}

#[test]
fn decodes_deltas_across_chunks() {
    let mut d = SseDecoder::new();
    let first = d.feed(b"data: {\"choices\":[{\"delta\":{\"content\":\"Hel\"}}]}\n\ndata: {\"choi");
    assert_eq!(deltas(&first.chunks), vec!["Hel".to_string()]);
    assert!(!first.done);
    let second = d.feed(b"ces\":[{\"delta\":{\"content\":\"lo\"}}]}\r\n\r\n");
    assert_eq!(deltas(&second.chunks), vec!["lo".to_string()]);
    let third = d.feed(b": keep-alive\n\ndata: {\"choices\":[{\"delta\":{}}]}\n\ndata: [DONE]\n\nignored");
    assert_eq!(deltas(&third.chunks), vec!["<done>".to_string()]);
    assert!(third.done);
}

#[test]
fn skips_payloads_that_are_not_json_and_strips_repeated_prefixes() {
    let mut d = SseDecoder::new();
    let out = d.feed(b"data: not json\n\ndata:data: {\"choices\":[{\"delta\":{\"content\":\"x\"}}]}\n\n");
    assert_eq!(deltas(&out.chunks), vec!["x".to_string()]);
    let out = d.feed(b"  data:   [DONE]  \n\n");
    assert!(out.done);
}

#[test]
fn probe_reply_reads_message_content() {
    let ok = probe_reply(true, "200 OK", "{\"choices\":[{\"message\":{\"content\":\"pong\"}}]}");
    assert_eq!(ok.unwrap(), "pong");
    let empty = probe_reply(true, "200 OK", "{\"choices\":[]}");
    assert_eq!(empty.unwrap(), "");
    match probe_reply(true, "200 OK", "oops") {
        Err(AppError::Llm(m)) => {
            assert!(m.starts_with("响应非 JSON："));
            assert!(m.ends_with(": oops"));
        }
        _ => panic!("expected an LLM error"),
    }
    match probe_reply(false, "401 Unauthorized", "bad key") {
        Err(AppError::Llm(m)) => assert_eq!(m, "HTTP 401 Unauthorized: bad key"),
        _ => panic!("expected an LLM error"),
    }
}

#[test]
fn calls_need_a_key() {
    let cfg = LlmCallConfig { base_url: "u".into(), api_key: " ".into(), model: "m".into() };
    match check_stream_config(&cfg) {
        Err(AppError::Llm(m)) => assert_eq!(m, "尚未配置 LLM API Key，请在右上角「设置」里填入。"),
        _ => panic!("expected an LLM error"),
    }
    match check_probe_config(&cfg) {
        Err(AppError::Llm(m)) => assert_eq!(m, "API Key 不能为空"),
        _ => panic!("expected an LLM error"),
    }
    let ok = LlmCallConfig { base_url: "u".into(), api_key: "k".into(), model: "m".into() };
    assert!(check_stream_config(&ok).is_ok());
    assert!(check_probe_config(&ok).is_ok());
}

#[test]
fn upstream_errors_carry_details() {
    match ai_career_copilot::llm::upstream_status_error("500 Internal Server Error", "x") {
        AppError::Llm(m) => assert_eq!(m, "upstream 500 Internal Server Error: x"),
        _ => panic!(),
    }
    match ai_career_copilot::llm::stream_read_error("eof") {
        AppError::Llm(m) => assert_eq!(m, "stream read: eof"),
        _ => panic!(),
    }
}

#[test]
fn decoding_does_not_depend_on_chunking() {
    let stream: &[u8] = "data: {\"choices\":[{\"delta\":{\"content\":\"Hel\"}}]}\r\n\r\n: ping\n\ndata: {\"choices\":[{\"delta\":{\"content\":\"你好\"}}]}\n\ndata: [DONE]\n\ntail".as_bytes();
    let mut whole = SseDecoder::new();
    let all = whole.feed(stream);
    assert_eq!(deltas(&all.chunks), vec!["Hel".to_string(), "你好".to_string(), "<done>".to_string()]);
    for cut in 0..=stream.len() {
        let mut d = SseDecoder::new();
        let first = d.feed(&stream[..cut]);
        let mut got = deltas(&first.chunks);
        if !first.done {
            let second = d.feed(&stream[cut..]);
            got.extend(deltas(&second.chunks));
            assert!(second.done);
        }
        assert_eq!(got, deltas(&all.chunks), "cut at {cut}");
    }
}

#[test]
fn three_way_cuts_decode_the_same_and_end_in_one_done() {
    let stream: &[u8] = "data: {\"choices\":[{\"delta\":{\"content\":\"é\"}}]}\n\ndata: {\"choices\":[{\"delta\":{\"content\":\"\"}}]}\r\n\r\ndata: [DONE]\n\n".as_bytes();
    let mut whole = SseDecoder::new();
    let all = whole.feed(stream);
    let expected = deltas(&all.chunks);
    assert_eq!(expected, vec!["é".to_string(), "<done>".to_string()]);
    for a in 0..=stream.len() {
        for b in a..=stream.len() {
            let mut d = SseDecoder::new();
            let mut got = Vec::new();
            for piece in [&stream[..a], &stream[a..b], &stream[b..]] {
                let f = d.feed(piece);
                got.extend(deltas(&f.chunks));
                if f.done {
                    break;
                }
            }
            assert_eq!(got, expected, "cuts at {a} and {b}");
        }
    }
}
