use localagent::messages::{api_messages_for, build_messages_json, ApiContent, ChatMessage};

fn msg(id: &str, role: &str, content: &str, timestamp: &str) -> ChatMessage {
    ChatMessage {
        id: id.into(),
        role: role.into(),
        content: content.into(),
        image_path: None,
        audio_path: None,
        timestamp: timestamp.into(),
    }
}

#[test]
fn test_build_messages_json_no_images() {
    let messages = vec![
        ChatMessage {
            id: "1".into(),
            role: "user".into(),
            content: "Hello".into(),
            image_path: None,
            audio_path: None,
            timestamp: "2025-01-01T00:00:00Z".into(),
        },
    ];

    let json = build_messages_json(&messages, &None, &None).unwrap();
    let parsed: Vec<serde_json::Value> = serde_json::from_str(&json).unwrap();

    // First message should be the system prompt
    assert_eq!(parsed[0]["role"], "system");
    assert_eq!(parsed[0]["content"], "You are a helpful AI assistant.");

    // Second should be the user message
    assert_eq!(parsed[1]["role"], "user");
    assert_eq!(parsed[1]["content"], "Hello");
}

#[test]
fn test_build_messages_json_with_existing_system_prompt() {
    let messages = vec![
        ChatMessage {
            id: "1".into(),
            role: "system".into(),
            content: "You are a specialized coding assistant.".into(),
            image_path: None,
            audio_path: None,
            timestamp: "2025-01-01T00:00:00Z".into(),
        },
        ChatMessage {
            id: "2".into(),
            role: "user".into(),
            content: "Write a test".into(),
            image_path: None,
            audio_path: None,
            timestamp: "2025-01-01T00:00:01Z".into(),
        },
    ];

    let json = build_messages_json(&messages, &None, &None).unwrap();
    let parsed: Vec<serde_json::Value> = serde_json::from_str(&json).unwrap();

    assert_eq!(parsed.len(), 2);
    assert_eq!(parsed[0]["role"], "system");
    assert_eq!(parsed[0]["content"], "You are a specialized coding assistant.");
    assert_eq!(parsed[1]["role"], "user");
}

#[test]
fn test_build_messages_json_multi_turn() {
    let messages = vec![
        msg("1", "user", "Hi", "2025-01-01T00:00:00Z"),
        msg("2", "assistant", "Hello!", "2025-01-01T00:00:01Z"),
        msg("3", "user", "How are you?", "2025-01-01T00:00:02Z"),
    ];

    let json = build_messages_json(&messages, &None, &None).unwrap();
    let parsed: Vec<serde_json::Value> = serde_json::from_str(&json).unwrap();

    assert_eq!(parsed.len(), 4); // system + 3 messages
    assert_eq!(parsed[0]["role"], "system");
    assert_eq!(parsed[1]["role"], "user");
    assert_eq!(parsed[1]["content"], "Hi");
    assert_eq!(parsed[2]["role"], "assistant");
    assert_eq!(parsed[3]["role"], "user");
    assert_eq!(parsed[3]["content"], "How are you?");
}

#[test]
fn test_build_messages_json_with_image_attachment() {
    let messages = vec![msg("1", "user", "What's in this image?", "2025-01-01T00:00:00Z")];

    let json = build_messages_json(&messages, &Some("/path/to/img.png".into()), &None).unwrap();
    let parsed: Vec<serde_json::Value> = serde_json::from_str(&json).unwrap();

    // Last user message should have multimodal content
    let user_content = &parsed[1]["content"];
    assert!(user_content.is_array());
    assert_eq!(user_content[0]["type"], "text");
    assert_eq!(user_content[0]["text"], "What's in this image?");
    assert_eq!(user_content[1]["type"], "image_url");
    assert_eq!(user_content[1]["image_url"]["url"], "file:///path/to/img.png");
}

#[test]
fn test_build_messages_json_empty_messages() {
    let messages = vec![];
    let json = build_messages_json(&messages, &None, &None).unwrap();
    let parsed: Vec<serde_json::Value> = serde_json::from_str(&json).unwrap();

    // Even with empty messages, system prompt is added
    assert_eq!(parsed.len(), 1);
    assert_eq!(parsed[0]["role"], "system");
}

#[test]
fn test_build_messages_json_image_dropped_when_last_message_is_assistant() {
    // last_id is the id of the overall last message (assistant here).
    // No user message has that id, so the image cannot be attached and is silently dropped.
    let messages = vec![
        msg("1", "user", "What's in this image?", ""),
        msg("2", "assistant", "Let me check.", ""),
    ];

    let json = build_messages_json(&messages, &Some("/img.png".into()), &None).unwrap();
    let parsed: Vec<serde_json::Value> = serde_json::from_str(&json).unwrap();

    // User message content stays a plain string — no image array
    assert!(parsed[1]["content"].is_string());
    assert_eq!(parsed[1]["content"], "What's in this image?");
}

#[test]
fn test_build_messages_json_image_only_on_last_user_message() {
    let messages = vec![
        msg("1", "user", "First message", "2025-01-01T00:00:00Z"),
        msg("2", "assistant", "First response", "2025-01-01T00:00:01Z"),
        msg("3", "user", "Second message", "2025-01-01T00:00:02Z"),
    ];

    // Image is attached — only the last message (which happens to be
    // the last user message) should get the multimodal content.
    let json = build_messages_json(&messages, &Some("/img.png".into()), &None).unwrap();
    let parsed: Vec<serde_json::Value> = serde_json::from_str(&json).unwrap();

    assert_eq!(parsed.len(), 4); // system + 3 messages

    // First user message should NOT have image
    assert!(parsed[1]["content"].is_string());
    assert_eq!(parsed[1]["content"], "First message");

    // Last user message should have image
    let last = &parsed[3];
    assert!(last["content"].is_array());
    assert_eq!(last["content"][0]["type"], "text");
    assert_eq!(last["content"][0]["text"], "Second message");
    assert_eq!(last["content"][1]["type"], "image_url");
}

#[test]
fn build_messages_json_exact_text() {
    let messages = vec![msg("1", "user", "Hi", "")];
    let json = build_messages_json(&messages, &None, &None).unwrap();
    assert_eq!(
        json,
        r#"[{"role":"system","content":"You are a helpful AI assistant."},{"role":"user","content":"Hi"}]"#
    );
    let json = build_messages_json(&messages, &Some("/a.png".into()), &None).unwrap();
    assert_eq!(
        json,
        r#"[{"role":"system","content":"You are a helpful AI assistant."},{"role":"user","content":[{"text":"Hi","type":"text"},{"image_url":{"url":"file:///a.png"},"type":"image_url"}]}]"#
    );
}

#[test]
fn build_messages_json_escapes_strings() {
    let messages = vec![msg("1", "user", "a\"b\\c\nd\te\u{1}f\u{7f}é", "")];
    let json = build_messages_json(&messages, &None, &None).unwrap();
    assert!(json.contains(r#""content":"a\"b\\c\nd\te\u0001f"#));
    let parsed: Vec<serde_json::Value> = serde_json::from_str(&json).unwrap();
    assert_eq!(parsed[1]["content"], "a\"b\\c\nd\te\u{1}f\u{7f}é");
}

#[test]
fn build_messages_json_appends_tool_context_to_system_prompts() {
    let ctx = Some("Page text".to_string());
    let json = build_messages_json(&vec![msg("1", "user", "Q", "")], &None, &ctx).unwrap();
    let parsed: Vec<serde_json::Value> = serde_json::from_str(&json).unwrap();
    assert_eq!(parsed[0]["content"], "You are a helpful AI assistant.\n\nPage text");

    let messages = vec![msg("1", "system", "Be brief.", ""), msg("2", "user", "Q", "")];
    let json = build_messages_json(&messages, &None, &ctx).unwrap();
    let parsed: Vec<serde_json::Value> = serde_json::from_str(&json).unwrap();
    assert_eq!(parsed.len(), 2);
    assert_eq!(parsed[0]["content"], "Be brief.\n\nPage text");
}

#[test]
fn api_messages_attach_image_to_every_user_message_with_last_id() {
    let messages = vec![msg("7", "user", "one", ""), msg("7", "user", "two", "")];
    let api = api_messages_for(&messages, &Some("/i.png".into()), &None);
    assert_eq!(api.len(), 3);
    assert!(matches!(&api[1].content, ApiContent::TextAndImage { text, image_url } if text == "one" && image_url == "file:///i.png"));
    assert!(matches!(&api[2].content, ApiContent::TextAndImage { text, .. } if text == "two"));
}

#[test]
fn api_messages_system_not_first_still_gets_default_prompt() {
    let messages = vec![msg("1", "user", "q", ""), msg("2", "system", "s", "")];
    let api = api_messages_for(&messages, &None, &None);
    assert_eq!(api.len(), 3);
    assert_eq!(api[0].role, "system");
    assert!(matches!(&api[0].content, ApiContent::Text(t) if t == "You are a helpful AI assistant."));
    assert_eq!(api[2].role, "system");
}
