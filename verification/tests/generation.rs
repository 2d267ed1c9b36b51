use localagent::generation::Generation;
use localagent::prompt::{
    choose_prompt, prompt_inputs, template_messages, truncate_prompt_tokens, usable_context_size, PromptContent,
    PromptMessage,
};

fn run(pieces: &[&str]) -> (String, Generation) {
    let mut g = Generation::new(0, 4096);
    let mut out = String::new();
    for p in pieces {
        let step = g.accept_piece(p);
        if let Some(e) = step.emit {
            out.push_str(&e);
        }
        if step.decode_at.is_none() {
            return (out, g);
        }
    }
    if let Some(e) = g.flush() {
        out.push_str(&e);
    }
    (out, g)
}

#[test]
fn generation_passes_text_through() {
    let (out, g) = run(&["Hello", ", ", "world", "!"]);
    assert_eq!(out, "Hello, world!");
    assert!(g.finished());
    assert_eq!(g.tokens_generated(), 4);
}

#[test]
fn generation_holds_back_the_last_13_bytes() {
    let mut g = Generation::new(0, 4096);
    let step = g.accept_piece("abcdefghijklmnopqrst");
    assert_eq!(step.emit.as_deref(), Some("abcdefg"));
    assert_eq!(step.decode_at, Some(0));
    let step = g.accept_piece("u");
    assert_eq!(step.emit.as_deref(), Some("h"));
    assert_eq!(step.decode_at, Some(1));
    assert_eq!(g.flush().as_deref(), Some("ijklmnopqrstu"));
}

#[test]
fn generation_stops_at_stop_string_split_across_pieces() {
    let (out, g) = run(&["Answer.", "<|im", "_end|>", "ignored"]);
    assert_eq!(out, "Answer.");
    assert!(g.finished());
    assert_eq!(g.tokens_generated(), 2);
}

#[test]
fn generation_stop_string_at_start_emits_nothing() {
    let mut g = Generation::new(3, 4096);
    let step = g.accept_piece("<end_of_turn>");
    assert!(step.emit.is_none());
    assert!(step.decode_at.is_none());
    assert!(g.finished());
    assert_eq!(g.tokens_generated(), 0);
}

#[test]
fn generation_cuts_at_the_earliest_stop_string() {
    // "<|end|>" comes first in the text, though "<|im_end|>" comes first in the list
    let mut g = Generation::new(0, 4096);
    let step = g.accept_piece("x<|end|>y<|im_end|>");
    assert_eq!(step.emit.as_deref(), Some("x"));
    assert!(step.decode_at.is_none());
    let mut g = Generation::new(0, 4096);
    let step = g.accept_piece("<|end|><|im_end|>");
    assert!(step.emit.is_none());
    assert!(g.finished());
}

#[test]
fn generation_stops_at_context_limit() {
    let mut g = Generation::new(2, 3);
    let step = g.accept_piece("a");
    assert_eq!(step.decode_at, Some(2));
    let step = g.accept_piece("b");
    assert!(step.decode_at.is_none());
    assert!(step.emit.is_none());
    assert_eq!(g.flush().as_deref(), Some("a"));
    assert_eq!(g.tokens_generated(), 1);
}

#[test]
fn generation_end_of_generation_emits_rest_even_when_empty() {
    let mut g = Generation::new(0, 10);
    g.accept_piece("hi");
    assert_eq!(g.end_of_generation(), "hi");
    let mut g = Generation::new(0, 10);
    assert_eq!(g.end_of_generation(), "");
    assert!(g.flush().is_none());
}

#[test]
fn generation_backs_off_to_a_char_boundary() {
    // 5 four-byte characters = 20 bytes; 7 may be emitted, which falls inside the
    // second character, so only the first one goes out
    let mut g = Generation::new(0, 100);
    let step = g.accept_piece("😀😀😀😀😀");
    assert_eq!(step.emit.as_deref(), Some("😀"));
    let mut g = Generation::new(0, 100);
    // 14 bytes: 1 may be emitted, which is inside the first character: empty emission
    let step = g.accept_piece("😀abcdefghij");
    assert_eq!(step.emit.as_deref(), Some(""));
}

fn pm(role: Option<&str>, content: PromptContent) -> PromptMessage {
    PromptMessage { role: role.map(|r| r.to_string()), content }
}

#[test]
fn prompt_falls_back_to_chatml_without_template() {
    let msgs = vec![
        pm(Some("system"), PromptContent::Text("S".into())),
        pm(None, PromptContent::Text("U".into())),
        pm(Some("user"), PromptContent::Parts(vec![Some("a".into()), None, Some("b".into())])),
    ];
    let p = choose_prompt(&msgs, None, None);
    assert_eq!(
        p,
        "<|im_start|>system\nS<|im_end|>\n<|im_start|>user\nU<|im_end|>\n<|im_start|>user\nab<|im_end|>\n<|im_start|>assistant\n"
    );
}

#[test]
fn prompt_uses_gemma_format_when_gemma_template_fails() {
    let msgs = vec![
        pm(Some("user"), PromptContent::Parts(vec![Some("a".into()), Some("b".into())])),
        pm(Some("assistant"), PromptContent::Text("c".into())),
        pm(Some("user"), PromptContent::Other),
    ];
    let p = choose_prompt(&msgs, Some("{{ '<start_of_turn>' }}".into()), None);
    assert_eq!(
        p,
        "<start_of_turn>user\nab<end_of_turn>\n<start_of_turn>model\nc<end_of_turn>\n<start_of_turn>user\n<end_of_turn>\n<start_of_turn>model\n"
    );
    let p = choose_prompt(&msgs, Some("other".into()), None);
    assert!(p.starts_with("<|im_start|>user\nab<|im_end|>"));
    let p = choose_prompt(&msgs, Some("t".into()), Some("applied".into()));
    assert_eq!(p, "applied");
}

#[test]
fn template_messages_keep_messages_with_role_and_text() {
    let msgs = vec![
        pm(Some("user"), PromptContent::Parts(vec![Some("a".into()), Some("b".into())])),
        pm(None, PromptContent::Text("x".into())),
        pm(Some("user"), PromptContent::Other),
        pm(Some("assistant"), PromptContent::Text("c".into())),
    ];
    let pairs = template_messages(&msgs);
    assert_eq!(
        pairs,
        vec![("user".to_string(), "ab".to_string()), ("assistant".to_string(), "c".to_string())]
    );
}

#[test]
fn truncate_prompt_tokens_keeps_most_recent() {
    assert_eq!(truncate_prompt_tokens(vec![1, 2, 3], 4), vec![1, 2, 3]);
    assert_eq!(truncate_prompt_tokens(vec![1, 2, 3, 4], 4), vec![2, 3, 4]);
    assert_eq!(truncate_prompt_tokens(vec![1, 2, 3, 4, 5, 6], 4), vec![4, 5, 6]);
    assert_eq!(truncate_prompt_tokens(vec![1, 2], 1), Vec::<i32>::new());
}

#[test]
fn usable_context_size_is_capped() {
    assert_eq!(usable_context_size(2048), 2048);
    assert_eq!(usable_context_size(4096), 4096);
    assert_eq!(usable_context_size(131072), 4096);
}

#[test]
fn generation_at_context_limit_keeps_held_back_text() {
    let mut g = Generation::new(0, 1);
    let step = g.accept_piece("hello world, this is it");
    assert_eq!(step.decode_at, Some(0));
    let first = step.emit.unwrap();
    assert_eq!(first, "hello worl");
    let step = g.accept_piece("dropped");
    assert!(step.decode_at.is_none() && step.emit.is_none());
    let rest = g.flush().unwrap();
    assert_eq!(format!("{first}{rest}"), "hello world, this is it");
}

#[test]
fn prompt_inputs_reads_roles_and_contents() {
    let json = r#"[{"role":"system","content":"Be brief."},{"role":"user","content":[{"type":"text","text":"Hi"},{"type":"image_url"}]},{"content":"no role"},{"role":"assistant","content":7}]"#;
    let (msgs, pairs) = prompt_inputs(json).unwrap();
    assert_eq!(msgs.len(), 4);
    assert_eq!(msgs[0].role.as_deref(), Some("system"));
    assert!(matches!(&msgs[0].content, PromptContent::Text(t) if t == "Be brief."));
    assert!(matches!(&msgs[1].content, PromptContent::Parts(p) if p == &vec![Some("Hi".to_string()), None]));
    assert!(msgs[2].role.is_none());
    assert!(matches!(msgs[3].content, PromptContent::Other));
    assert_eq!(
        pairs,
        vec![("system".to_string(), "Be brief.".to_string()), ("user".to_string(), "Hi".to_string())]
    );
    let prompt = choose_prompt(&msgs, None, None);
    assert!(prompt.starts_with("<|im_start|>system\nBe brief.<|im_end|>\n"));
}

#[test]
fn prompt_inputs_rejects_text_that_is_not_a_json_array() {
    assert!(prompt_inputs("not json").is_err());
    assert!(prompt_inputs(r#"{"role":"user"}"#).is_err());
}
