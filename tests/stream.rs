use chat_stream::assembler::{Assembler, Output};
use chat_stream::frame::{classify_line, Decoder, Frame};
use chat_stream::models::{DeltaMessage, StreamingChoice, StreamingChunk};

fn text(v: &serde_json::Value, key: &str) -> Option<String> {
    v.get(key).and_then(|x| x.as_str()).map(|s| s.to_string())
}

fn chunk_from_payload(p: &[u8]) -> Option<StreamingChunk> {
    let v: serde_json::Value = serde_json::from_slice(p).ok()?;
    let choices = v.get("choices")?.as_array()?;
    let mut out = Vec::new();
    for c in choices {
        let delta = c.get("delta").filter(|d| !d.is_null()).map(|d| DeltaMessage {
            reasoning_content: text(d, "reasoning_content"),
            content: text(d, "content"),
        });
        out.push(StreamingChoice { delta });
    }
    Some(StreamingChunk { choices: out })
}

fn describe(outs: &[Output]) -> Vec<String> {
    outs.iter()
        .map(|o| match o {
            Output::StopIndicator => "stop".to_string(),
            Output::Print(s) => format!("print:{}", s),
            Output::Type(s) => format!("type:{}", s),
        })
        .collect()
}

/// Runs a whole stream through decoder and assembler; gives the outputs and the reply.
fn run_stream(model: &str, indicator: bool, chunks: &[&[u8]]) -> (Vec<String>, String) {
    let mut dec = Decoder::new();
    let mut st = Assembler::new(model, indicator);
    let mut outs = Vec::new();
    let mut handle = |f: Frame, st: &mut Assembler, outs: &mut Vec<String>| match f {
        Frame::Terminal => outs.extend(describe(&st.finish())),
        Frame::Data(p) => outs.extend(describe(&st.on_chunk(chunk_from_payload(&p)))),
    };
    for c in chunks {
        for f in dec.feed(c) {
            handle(f, &mut st, &mut outs);
        }
        if dec.is_finished() {
            break;
        }
    }
    if !dec.is_finished() {
        if let Some(f) = dec.finish() {
            handle(f, &mut st, &mut outs);
        }
    }
    if !st.is_done() {
        outs.extend(describe(&st.finish()));
    }
    (outs, st.into_result())
}

#[test]
fn scenario_single_answer() {
    let input = b"data: {\"choices\":[{\"delta\":{\"content\":\"Hi\"}}]}\ndata: [DONE]\n";
    let (outs, result) = run_stream("deepseek-chat", false, &[input]);
    assert_eq!(result, "Hi");
    assert_eq!(outs, vec!["print:\rdeepseek-chat🤖:\n".to_string(), "type:Hi".to_string()]);
}

#[test]
fn scenario_reasoning_then_answer() {
    let input = b"data: {\"choices\":[{\"delta\":{\"reasoning_content\":\"think\"}}]}\ndata: {\"choices\":[{\"delta\":{\"content\":\"ok\"}}]}\ndata: [DONE]\n";
    let (outs, result) = run_stream("deepseek-reasoner", true, &[input]);
    assert_eq!(result, "thinkok");
    assert_eq!(
        outs,
        vec![
            "stop".to_string(),
            "print:\rdeepseek-reasoner🤖:\n".to_string(),
            "type:think".to_string(),
            "print:\n\n".to_string(),
            "print:\nanswer:\n\n".to_string(),
            "type:ok".to_string(),
        ]
    );
    assert_eq!(outs.iter().filter(|o| o.contains("answer:")).count(), 1);
}

#[test]
fn scenario_malformed_line_skipped() {
    let input = b"data: {not json\ndata: {\"choices\":[{\"delta\":{\"content\":\"ok\"}}]}\ndata: [DONE]\n";
    let (_, result) = run_stream("deepseek-chat", false, &[input]);
    assert_eq!(result, "ok");
}

#[test]
fn scenario_no_terminal() {
    let input = b"data: {\"choices\":[{\"delta\":{\"content\":\"par\"}}]}\ndata: {\"choices\":[{\"delta\":{\"content\":\"tial\"}}]}";
    let (_, result) = run_stream("deepseek-chat", false, &[input]);
    assert_eq!(result, "partial");
}

#[test]
fn no_delta_gives_empty_result_and_no_header() {
    let (outs, result) = run_stream("deepseek-chat", true, &[b"data: [DONE]\n"]);
    assert_eq!(result, "");
    assert_eq!(outs, vec!["stop".to_string()]);
}

#[test]
fn header_printed_once() {
    let input = b"data: {\"choices\":[{\"delta\":{\"content\":\"a\"}}]}\ndata: {\"choices\":[{\"delta\":{\"content\":\"b\"}}]}\ndata: [DONE]\n";
    let (outs, result) = run_stream("deepseek-chat", true, &[input]);
    assert_eq!(result, "ab");
    assert_eq!(outs.iter().filter(|o| o.contains("🤖")).count(), 1);
    assert_eq!(outs.iter().filter(|o| *o == "stop").count(), 1);
}

#[test]
fn frames_after_terminal_are_not_decoded() {
    let input = b"data: [DONE]\ndata: {\"choices\":[{\"delta\":{\"content\":\"late\"}}]}\n";
    let mut dec = Decoder::new();
    let frames = dec.feed(input);
    assert_eq!(frames.len(), 1);
    assert!(matches!(frames[0], Frame::Terminal));
    assert!(dec.is_finished());
    assert!(dec.feed(b"data: x\n").is_empty());
    let (_, result) = run_stream("deepseek-chat", false, &[input]);
    assert_eq!(result, "");
}

#[test]
fn line_split_across_chunks() {
    let (_, result) = run_stream(
        "deepseek-chat",
        false,
        &[b"data: {\"choices\":[{\"del", b"ta\":{\"content\":\"joined\"}}]}\r\n", b"data: [DONE]\n"],
    );
    assert_eq!(result, "joined");
}

#[test]
fn classify_trims_and_ignores_noise() {
    match classify_line(&b"  data:   {\"a\":1}  \r".to_vec()) {
        Some(Frame::Data(p)) => assert_eq!(p, b"{\"a\":1}".to_vec()),
        _ => panic!("expected data"),
    }
    assert!(matches!(classify_line(&b" data: [DONE] ".to_vec()), Some(Frame::Terminal)));
    assert!(classify_line(&b": comment".to_vec()).is_none());
    assert!(classify_line(&b"".to_vec()).is_none());
    assert!(classify_line(&b"data:x".to_vec()).is_none());
}

#[test]
fn only_first_choice_counts() {
    let chunk = StreamingChunk {
        choices: vec![
            StreamingChoice { delta: Some(DeltaMessage { reasoning_content: None, content: Some("one".to_string()) }) },
            StreamingChoice { delta: Some(DeltaMessage { reasoning_content: None, content: Some("two".to_string()) }) },
        ],
    };
    let d = chunk.first_delta().unwrap();
    assert_eq!(d.content.as_deref(), Some("one"));
    assert!(StreamingChunk { choices: vec![] }.first_delta().is_none());
}

#[test]
fn empty_fragments_render_nothing() {
    let mut st = Assembler::new("deepseek-reasoner", true);
    let outs = st.on_delta(DeltaMessage { reasoning_content: Some(String::new()), content: Some(String::new()) });
    assert!(outs.is_empty());
    let outs = st.finish();
    assert_eq!(describe(&outs), vec!["stop".to_string()]);
    assert_eq!(st.into_result(), "");
}

#[test]
fn chat_model_has_no_marker() {
    let input = b"data: {\"choices\":[{\"delta\":{\"reasoning_content\":\"r\",\"content\":\"a\"}}]}\ndata: [DONE]\n";
    let (outs, result) = run_stream("deepseek-chat", false, &[input]);
    assert_eq!(result, "ra");
    assert!(!outs.iter().any(|o| o.contains("answer:")));
}

#[test]
fn delta_after_finish_is_ignored() {
    let mut st = Assembler::new("deepseek-chat", false);
    st.finish();
    let outs = st.on_delta(DeltaMessage { reasoning_content: None, content: Some("x".to_string()) });
    assert!(outs.is_empty());
    assert_eq!(st.into_result(), "");
}

#[test]
fn data_prefix_removed_once() {
    match classify_line(&b"data: data: x".to_vec()) {
        Some(Frame::Data(p)) => assert_eq!(p, b"data: x".to_vec()),
        _ => panic!("expected data"),
    }
}

#[test]
fn unterminated_last_line_is_decoded_at_end() {
    let mut dec = Decoder::new();
    assert!(dec.feed(b"data: [DO").is_empty());
    assert!(dec.feed(b"NE]").is_empty());
    assert!(matches!(dec.finish(), Some(Frame::Terminal)));
    assert!(dec.is_finished());
    assert!(dec.finish().is_none());
}

#[test]
fn reasoning_model_marker_only_once() {
    let input = b"data: {\"choices\":[{\"delta\":{\"reasoning_content\":\"r\"}}]}\ndata: {\"choices\":[{\"delta\":{\"content\":\"a\"}}]}\ndata: {\"choices\":[{\"delta\":{\"content\":\"b\"}}]}\ndata: [DONE]\n";
    let (outs, result) = run_stream("deepseek-reasoner", false, &[input]);
    assert_eq!(result, "rab");
    assert_eq!(outs.iter().filter(|o| o.contains("answer:")).count(), 1);
}

#[test]
fn answer_only_reasoning_model_gets_marker_first() {
    let input = b"data: {\"choices\":[{\"delta\":{\"content\":\"a\"}}]}\ndata: [DONE]\n";
    let (outs, _) = run_stream("deepseek-reasoner", false, &[input]);
    assert_eq!(
        outs,
        vec!["print:\rdeepseek-reasoner🤖:\n".to_string(), "print:\nanswer:\n\n".to_string(), "type:a".to_string()]
    );
}
