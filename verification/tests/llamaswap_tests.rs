use gac::llamaswap::{
    absorb_flushed, absorb_streamed, build_messages, context_length_of, finished_message, reply_content,
    retry_delay_ms, ChatResChoice, ChatResChoiceMsg, ChatResponse, ChunkChoice, ModelInfo, ModelPropResponse,
    ReplyError, SseLineBuffer, DEFAULT_CONTEXT_LENGTH,
};
use gac::prompt::Prompt;

#[test]
fn build_messages_creates_system_and_user() {
    let prompt = Prompt { system: "sys".into(), user: "usr".into() };
    let msgs = build_messages(&prompt);
    assert_eq!(msgs.len(), 2);
    assert_eq!(msgs[0].role, "system");
    assert_eq!(msgs[0].content, "sys");
    assert_eq!(msgs[1].role, "user");
    assert_eq!(msgs[1].content, "usr");
}

#[test]
fn context_length_of_finds_first_named_model() {
    let models = ModelPropResponse {
        data: vec![
            ModelInfo { id: "a".into(), context_length: Some(8192) },
            ModelInfo { id: "b".into(), context_length: None },
            ModelInfo { id: "a".into(), context_length: Some(1) },
        ],
    };
    assert_eq!(context_length_of(&models, "a"), Some(8192));
    assert_eq!(context_length_of(&models, "b"), Some(DEFAULT_CONTEXT_LENGTH));
    assert_eq!(DEFAULT_CONTEXT_LENGTH, 131072);
    assert_eq!(context_length_of(&models, "c"), None);
}

#[test]
fn reply_content_trims_the_first_choice() {
    let ok = ChatResponse {
        choices: vec![ChatResChoice { message: ChatResChoiceMsg { content: Some("  feat: add foo \n".into()) } }],
    };
    assert_eq!(reply_content(&ok), Ok("feat: add foo".to_string()));
    let null = ChatResponse { choices: vec![ChatResChoice { message: ChatResChoiceMsg { content: None } }] };
    assert_eq!(reply_content(&null), Err(ReplyError::NullContent));
    assert_eq!(reply_content(&ChatResponse { choices: vec![] }), Err(ReplyError::EmptyChoices));
    assert_eq!(ReplyError::EmptyChoices.message(), "API returned empty choices array");
    assert_eq!(ReplyError::NullContent.message(), "API returned choice with null content");
}

#[test]
fn retry_delays_double_then_stop() {
    assert_eq!(retry_delay_ms(0), Some(1000));
    assert_eq!(retry_delay_ms(1), Some(2000));
    assert_eq!(retry_delay_ms(2), None);
    assert_eq!(retry_delay_ms(7), None);
}

#[test]
fn sse_buffer_yields_payloads_of_complete_lines() {
    let mut buf = SseLineBuffer::new();
    assert!(buf.push_text("data: {\"a\":").is_empty());
    assert_eq!(buf.push_text("1}\n\ndata: {\"b\":2}\n: comment\nda"), vec!["{\"a\":1}", "{\"b\":2}"]);
    assert_eq!(buf.push_text("ta: x\n"), vec!["x"]);
    assert!(buf.finish().is_empty());
}

#[test]
fn sse_buffer_stops_at_done() {
    let mut buf = SseLineBuffer::new();
    assert_eq!(buf.push_text("data: 1\r\ndata: [DONE]\ndata: 2\n"), vec!["1"]);
    assert_eq!(buf.finish(), vec!["2"]);
}

#[test]
fn sse_payloads_do_not_depend_on_chunking() {
    let stream = "data: one\ndata: two\n\ndata: three";
    let mut whole = SseLineBuffer::new();
    let mut a = whole.push_text(stream);
    a.extend(whole.finish());
    let mut pieces = SseLineBuffer::new();
    let mut b = Vec::new();
    for ch in stream.chars() {
        b.extend(pieces.push_text(&ch.to_string()));
    }
    b.extend(pieces.finish());
    assert_eq!(a, vec!["one", "two", "three"]);
    assert_eq!(a, b);
}

#[test]
fn absorb_streamed_skips_finished_choices() {
    let mut result: Vec<char> = "x".chars().collect();
    let choices = vec![
        ChunkChoice { finished: false, content: Some("he\nllo".into()), reasoning: Some("  ".into()) },
        ChunkChoice { finished: true, content: Some("ignored".into()), reasoning: None },
    ];
    let effect = absorb_streamed(&mut result, &choices);
    assert_eq!(result.iter().collect::<String>(), "xhe\nllo");
    assert_eq!(effect.notes.len(), 1);
    assert_eq!(effect.notes[0].text, "hello");
    assert!(!effect.notes[0].reasoning);
    assert!(effect.take_timings);
}

#[test]
fn absorb_flushed_takes_every_choice() {
    let mut result: Vec<char> = Vec::new();
    let choices = vec![ChunkChoice { finished: true, content: Some("done".into()), reasoning: Some("why".into()) }];
    let effect = absorb_flushed(&mut result, &choices);
    assert_eq!(result.iter().collect::<String>(), "done");
    assert_eq!(effect.notes.len(), 2);
    assert_eq!(effect.notes[0].text, "why");
    assert!(effect.notes[0].reasoning);
    assert_eq!(effect.notes[1].text, "done");
    assert!(effect.take_timings);
    let none = absorb_flushed(&mut result, &[]);
    assert!(!none.take_timings);
    assert_eq!(finished_message(&"  feat: x \n".chars().collect::<Vec<char>>()), "feat: x");
}
