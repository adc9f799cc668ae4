use chat_stream::cli::{
    choose_query, compose_query, loads_history, memory_action, model_for_version, push_reply, push_user_query,
    MemoryAction,
};
use chat_stream::history::{current_history_path, history_file_name, new_history_path, save_history, Timestamp};
use chat_stream::indicator::{clear_text, spinner_text};

fn ts() -> Timestamp {
    Timestamp { year: 2024, month: 3, day: 7, hour: 9, minute: 5, second: 1 }
}

#[test]
fn file_name_is_zero_padded() {
    assert_eq!(history_file_name(&ts()), "20240307090501.json");
    let early = Timestamp { year: 987, month: 12, day: 31, hour: 23, minute: 59, second: 59 };
    assert_eq!(history_file_name(&early), "09871231235959.json");
}

#[test]
fn new_path_joins_dir() {
    assert_eq!(new_history_path("/h", &ts()), "/h/20240307090501.json");
    assert_eq!(save_history("/h", &ts()), "/h/20240307090501.json");
}

#[test]
fn current_path_is_latest() {
    let files = vec![
        "/h/20240101000000.json".to_string(),
        "/h/20240307090501.json".to_string(),
        "/h/20231231235959.json".to_string(),
    ];
    assert_eq!(current_history_path(files, "/h/new.json".to_string()), "/h/20240307090501.json");
    assert_eq!(current_history_path(vec![], "/h/new.json".to_string()), "/h/new.json");
    assert_eq!(current_history_path(vec!["a".to_string(), "ab".to_string()], String::new()), "ab");
}

#[test]
fn spinner_glyphs_turn() {
    assert_eq!(spinner_text("m", 0), "\rm🤖: |");
    assert_eq!(spinner_text("m", 1), "\rm🤖: /");
    assert_eq!(spinner_text("m", 2), "\rm🤖: -");
    assert_eq!(spinner_text("m", 3), "\rm🤖: \\");
    assert_eq!(spinner_text("m", 4), "\rm🤖: |");
    assert_eq!(clear_text(), "\r                   \r");
}

#[test]
fn version_selects_model() {
    assert_eq!(model_for_version("r1"), "deepseek-reasoner");
    assert_eq!(model_for_version("v3"), "deepseek-chat");
}

#[test]
fn piped_text_goes_first() {
    assert_eq!(compose_query("  \n ", "q"), "q");
    assert_eq!(compose_query("  some text\n", "q"), "some text\nq");
    assert_eq!(compose_query("", "q"), "q");
}

#[test]
fn query_and_memory_choices() {
    assert_eq!(choose_query(Some(Some("s".to_string())), Some("t".to_string())), Some("s".to_string()));
    assert_eq!(choose_query(Some(None), Some("t".to_string())), None);
    assert_eq!(choose_query(None, Some("t".to_string())), Some("t".to_string()));
    assert!(memory_action(false, true).is_none());
    assert!(memory_action(true, true) == Some(MemoryAction::New));
    assert!(memory_action(true, false) == Some(MemoryAction::Continue));
    assert!(loads_history(Some(MemoryAction::Continue)));
    assert!(!loads_history(Some(MemoryAction::New)));
    assert!(!loads_history(None));
}

#[test]
fn history_grows_by_one() {
    let mut h = Vec::new();
    push_user_query(&mut h, "hello".to_string());
    push_reply(&mut h, "hi".to_string());
    assert_eq!(h.len(), 2);
    assert_eq!(h[0].role, "user");
    assert_eq!(h[1].role, "assistant");
    assert_eq!(h[1].content, "hi");
}
