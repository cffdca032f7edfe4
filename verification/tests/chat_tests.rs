use ai_career_copilot::chat::{
    build_prompt, chat_call_config, event_frame, init_frame, probe_call_config,
    title_from_message, user_message_text, PostMessagePayload, ReplyRecorder, StreamEvent,
};
use ai_career_copilot::error::AppError;
use ai_career_copilot::llm::{ChatMessage, StreamChunk, SYSTEM_PROMPT};
use ai_career_copilot::sessions::Message;
use ai_career_copilot::settings::AppSettings;

fn msg(role: &str, content: &str) -> Message {
    Message {
        id: "m".into(),
        session_id: "s".into(),
        role: role.into(),
        content: content.into(),
        created_at: "t".into(),
    }
}

#[test]
fn user_text_is_trimmed_and_not_blank() {
    let ok = user_message_text(&PostMessagePayload { content: "  hi there \n".into() });
    assert_eq!(ok.unwrap(), "hi there");
    match user_message_text(&PostMessagePayload { content: " \t ".into() }) {
        Err(AppError::BadRequest(m)) => assert_eq!(m, "empty message"),
        _ => panic!("expected a bad request"),
    }
}

#[test]
fn untitled_sessions_take_the_first_message() {
    let long = "请帮我分析这个后端开发岗位的JD并给出简历修改建议谢谢你";
    let t = title_from_message("新对话 · 05-01 10:00", long).unwrap();
    assert_eq!(t.chars().count(), 24);
    assert!(long.starts_with(&t));
    assert_eq!(title_from_message("新对话", "short").as_deref(), Some("short"));
    assert_eq!(title_from_message("我的面试", "short"), None);
}

#[test]
fn prompt_has_system_jd_and_history() {
    let history = vec![msg("user", "hello"), msg("assistant", "hi")];
    let p = build_prompt(&Some("Rust 工程师".to_string()), &history);
    assert_eq!(p.len(), 4);
    assert_eq!(p[0].role, "system");
    assert_eq!(p[0].content, SYSTEM_PROMPT);
    assert_eq!(p[1].content, "当前目标岗位 JD：\nRust 工程师");
    assert_eq!(p[2].role, "user");
    assert_eq!(p[3].content, "hi");
    let p = build_prompt(&Some("   ".to_string()), &history);
    assert_eq!(p.len(), 3);
    let p = build_prompt(&None, &vec![]);
    assert_eq!(p.len(), 1);
}

#[test]
fn recorder_flushes_every_64_bytes() {
    let mut r = ReplyRecorder::new();
    let step = r.on_item(Ok(StreamChunk::Delta("a".repeat(40))));
    assert!(!step.flush);
    assert!(!step.finished);
    let step = r.on_item(Ok(StreamChunk::Delta("中".repeat(8))));
    assert!(step.flush);
    let step = r.on_item(Ok(StreamChunk::Delta("b".into())));
    assert!(!step.flush);
    assert_eq!(r.content(), format!("{}{}b", "a".repeat(40), "中".repeat(8)));
    let step = r.on_item(Err("network".into()));
    assert!(step.finished);
    match step.forward {
        Some(StreamEvent::Error(m)) => assert_eq!(m, "network"),
        _ => panic!("expected an error event"),
    }
    let step = r.on_item(Ok(StreamChunk::Done));
    assert!(step.finished && step.forward.is_none() && !step.flush);
}

#[test]
fn events_are_json_encoded() {
    let (f, last) = event_frame(&StreamEvent::Delta("say \"hi\"\n\u{1}".into()));
    assert_eq!(f.event, "delta");
    assert_eq!(f.data, "{\"delta\":\"say \\\"hi\\\"\\n\\u0001\"}");
    assert!(!last);
    let (f, last) = event_frame(&StreamEvent::Error("bad".into()));
    assert_eq!(f.event, "error");
    assert_eq!(f.data, "{\"error\":\"bad\"}");
    assert!(last);
    let (f, last) = event_frame(&StreamEvent::Done);
    assert_eq!((f.event, f.data.as_str(), last), ("done", "{}", true));
    let f = init_frame("abc-123");
    assert_eq!(f.event, "init");
    assert_eq!(f.data, "{\"message_id\":\"abc-123\"}");
}

#[test]
fn call_configs_need_a_key() {
    let s = AppSettings {
        scope: "global".into(),
        llm_base_url: "https://x".into(),
        llm_api_key: "".into(),
        llm_model: "m".into(),
        updated_at: "t".into(),
    };
    match chat_call_config(&s) {
        Err(AppError::Llm(m)) => assert_eq!(m, "尚未配置 LLM API Key，请在右上角「设置」里填入。"),
        _ => panic!(),
    }
    match probe_call_config(&s) {
        Err(AppError::Llm(m)) => assert_eq!(m, "尚未配置 API Key"),
        _ => panic!(),
    }
    let s = AppSettings { llm_api_key: "sk".into(), ..s };
    let c = chat_call_config(&s).unwrap();
    assert_eq!((c.base_url.as_str(), c.api_key.as_str(), c.model.as_str()), ("https://x", "sk", "m"));
}

#[test]
fn request_bodies() {
    assert_eq!(
        ai_career_copilot::chat::probe_request_body("deepseek-chat"),
        "{\"max_tokens\":1,\"messages\":[{\"content\":\"ping\",\"role\":\"user\"}],\"model\":\"deepseek-chat\",\"stream\":false}"
    );
    let msgs = vec![
        ChatMessage { role: "system".into(), content: "be \"kind\"".into() },
        ChatMessage { role: "user".into(), content: "你好\n".into() },
    ];
    let body = ai_career_copilot::chat::chat_request_body("m", &msgs);
    assert_eq!(
        body,
        "{\"messages\":[{\"content\":\"be \\\"kind\\\"\",\"role\":\"system\"},{\"content\":\"你好\\n\",\"role\":\"user\"}],\"model\":\"m\",\"stream\":true,\"temperature\":0.6}"
    );
    let mut expected = serde_json::Map::new();
    let mut list = Vec::new();
    for m in &msgs {
        let mut o = serde_json::Map::new();
        o.insert("role".to_string(), serde_json::Value::String(m.role.clone()));
        o.insert("content".to_string(), serde_json::Value::String(m.content.clone()));
        list.push(serde_json::Value::Object(o));
    }
    expected.insert("model".to_string(), serde_json::Value::String("m".to_string()));
    expected.insert("messages".to_string(), serde_json::Value::Array(list));
    expected.insert("stream".to_string(), serde_json::Value::Bool(true));
    expected.insert("temperature".to_string(), serde_json::Value::from(0.6));
    assert_eq!(body, serde_json::Value::Object(expected).to_string());
    assert_eq!(
        ai_career_copilot::chat::chat_request_body("m", &Vec::new()),
        "{\"messages\":[],\"model\":\"m\",\"stream\":true,\"temperature\":0.6}"
    );
}
