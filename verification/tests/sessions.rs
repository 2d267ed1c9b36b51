use localagent::messages::ChatMessage;
use localagent::sessions::{
    derive_session_title, session_file_name, session_meta, session_meta_at,
    sort_sessions_newest_first, SessionMeta,
};

fn msg(role: &str, content: &str, ts: &str) -> ChatMessage {
    ChatMessage {
        id: "1".into(),
        role: role.into(),
        content: content.into(),
        image_path: None,
        audio_path: None,
        timestamp: ts.into(),
    }
}

#[test]
fn title_comes_from_first_user_message() {
    let msgs = vec![msg("system", "sys", "t0"), msg("user", "Hello", "t1"), msg("user", "Later", "t2")];
    assert_eq!(derive_session_title(&msgs), "Hello");
}

#[test]
fn title_of_session_without_user_message() {
    assert_eq!(derive_session_title(&vec![]), "New Chat");
    assert_eq!(derive_session_title(&vec![msg("assistant", "hi", "t")]), "New Chat");
}

#[test]
fn long_title_is_cut_at_40_characters() {
    let long = "a".repeat(45);
    assert_eq!(derive_session_title(&vec![msg("user", &long, "t")]), format!("{}…", "a".repeat(40)));
    let exact = "b".repeat(40);
    assert_eq!(derive_session_title(&vec![msg("user", &exact, "t")]), exact);
}

#[test]
fn title_ellipsis_follows_byte_length() {
    // 21 two-byte characters: 42 bytes, not cut, but marked
    let s = "é".repeat(21);
    assert_eq!(derive_session_title(&vec![msg("user", &s, "t")]), format!("{}…", s));
}

#[test]
fn session_meta_uses_first_timestamp() {
    let msgs = vec![msg("user", "Q", "2025-01-01T00:00:00Z"), msg("assistant", "A", "2025-01-01T00:00:01Z")];
    let m = session_meta_at("s1".into(), &msgs, "m1".into(), "NOW".into());
    assert_eq!(m.id, "s1");
    assert_eq!(m.title, "Q");
    assert_eq!(m.created_at, "2025-01-01T00:00:00Z");
    assert_eq!(m.model_id, "m1");
    assert_eq!(m.message_count, 2);
    let m = session_meta_at("s2".into(), &vec![], "m1".into(), "NOW".into());
    assert_eq!(m.created_at, "NOW");
    assert_eq!(m.message_count, 0);
}

#[test]
fn session_meta_without_messages_is_stamped_now() {
    let m = session_meta("s".into(), &vec![], "m".into()).unwrap();
    assert!(m.created_at.len() >= 20);
    assert!(m.created_at.ends_with("+00:00"));
    assert!(m.created_at.contains('T'));
    assert_eq!(m.title, "New Chat");
}

#[test]
fn session_file_name_adds_json() {
    assert_eq!(session_file_name("abc"), "abc.json");
}

fn meta(id: &str, created_at: &str) -> SessionMeta {
    SessionMeta {
        id: id.into(),
        title: "t".into(),
        created_at: created_at.into(),
        model_id: "m".into(),
        message_count: 0,
    }
}

#[test]
fn sessions_sorted_newest_first_stably() {
    let sorted = sort_sessions_newest_first(vec![
        meta("a", "2025-01-01"),
        meta("b", "2025-03-01"),
        meta("c", "2025-01-01"),
        meta("d", "2025-02-01"),
        meta("e", ""),
        meta("f", "2025-03-01"),
    ]);
    let ids: Vec<&str> = sorted.iter().map(|m| m.id.as_str()).collect();
    assert_eq!(ids, vec!["b", "f", "d", "a", "c", "e"]);
}

#[test]
fn sessions_sort_compares_as_text() {
    let sorted = sort_sessions_newest_first(vec![meta("x", "9"), meta("y", "10"), meta("z", "ab")]);
    let ids: Vec<&str> = sorted.iter().map(|m| m.id.as_str()).collect();
    assert_eq!(ids, vec!["z", "x", "y"]);
    assert!(sort_sessions_newest_first(vec![]).is_empty());
}
