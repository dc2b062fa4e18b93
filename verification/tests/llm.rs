use git_github::llm::{
    authorization, banner, build_prompt_messages, closing_line, commit_message,
    prompt_for_changes, repeat_char, ChatMessage, CommitDraft, Role, CHANGES_INTRO, CHAT_ENDPOINT,
    CHAT_MODEL, DEFAULT_PROMPT,
};
use git_github::stream::StreamError;

#[test]
fn a_sentinel_is_no_description_of_changes() {
    for sentinel in ["No staged changes found.", "No uncommitted changes found."] {
        let messages = build_prompt_messages(sentinel, None);
        assert_eq!(messages.len(), 2);
        assert_eq!(messages[0].content, DEFAULT_PROMPT);
        assert_eq!(messages[1].role, Role::User);
        assert_eq!(messages[1].content, "Here are my current Git changes:\n");
        assert!(!messages[1].content.contains(sentinel));
    }
    let near = build_prompt_messages("No staged changes found.\n", None);
    assert_eq!(
        near[1].content,
        "Here are my current Git changes:\nNo staged changes found.\n"
    );
}

#[test]
fn only_a_reply_that_came_through_is_committed() {
    let mut draft = CommitDraft::new();
    draft.push_delta("  Fix it\n\n- one\n  ");
    let ok: Result<(), StreamError> = Ok(());
    let api: Result<(), StreamError> = Err(StreamError::Api("no".to_string()));
    let lost: Result<(), StreamError> = Err(StreamError::Transport("reset".to_string()));
    assert_eq!(commit_message(true, &ok, &draft), Some("Fix it\n\n- one".to_string()));
    assert_eq!(commit_message(false, &ok, &draft), None);
    assert_eq!(commit_message(true, &api, &draft), None);
    assert_eq!(commit_message(true, &lost, &draft), None);
    assert_eq!(commit_message(false, &lost, &draft), None);
    assert_eq!(commit_message(true, &ok, &CommitDraft::new()), Some(String::new()));
}

#[test]
fn the_unfinished_line_is_shown_after_a_reply_that_came_through() {
    let mut draft = CommitDraft::new();
    draft.push_delta("done\n- last  ");
    let ok: Result<(), StreamError> = Ok(());
    let lost: Result<(), StreamError> = Err(StreamError::Transport("reset".to_string()));
    assert_eq!(closing_line(&ok, &draft), Some("| - last".to_string()));
    assert_eq!(closing_line(&lost, &draft), None);
    let mut blank = CommitDraft::new();
    blank.push_delta("done\n   ");
    assert_eq!(closing_line(&ok, &blank), None);
}

#[test]
fn the_request_names_its_key_model_and_endpoint() {
    assert_eq!(authorization("sk-123"), "Bearer sk-123");
    assert_eq!(authorization(""), "Bearer ");
    assert_eq!(CHAT_MODEL, "deepseek-chat");
    assert_eq!(CHAT_ENDPOINT, "https://api.deepseek.com/chat/completions");
}

#[test]
fn prompt_has_instructions_and_changes() {
    let messages = build_prompt_messages("Staged (new): a\n", None);
    assert_eq!(
        messages,
        vec![
            ChatMessage { role: Role::System, content: DEFAULT_PROMPT.to_string() },
            ChatMessage {
                role: Role::User,
                content: "Here are my current Git changes:\nStaged (new): a\n".to_string()
            },
        ]
    );
}

#[test]
fn configured_instructions_replace_the_built_in_ones() {
    let messages = build_prompt_messages("x", Some("Be brief.".to_string()));
    assert_eq!(messages.len(), 2);
    assert_eq!(messages[0].role, Role::System);
    assert_eq!(messages[0].content, "Be brief.");
    assert_eq!(messages[1].role, Role::User);
    assert_eq!(messages[1].content, "Here are my current Git changes:\nx");
    let empty = build_prompt_messages("", Some(String::new()));
    assert_eq!(empty[0].content, "");
    assert_eq!(empty[1].content, CHANGES_INTRO);
}

#[test]
fn built_in_instructions_read_as_written() {
    assert!(DEFAULT_PROMPT.starts_with("\nYou are an AI commit message assistant.\n\nPlease"));
    assert!(DEFAULT_PROMPT.contains("(start each line with \"- \").\n3. Each line"));
    assert!(DEFAULT_PROMPT.ends_with("- Refactor error propagation logic for clarity\n"));
    assert_eq!(DEFAULT_PROMPT.lines().count(), 16);
    assert_eq!(DEFAULT_PROMPT.len(), 528);
}

#[test]
fn roles_are_spelled_in_lower_case() {
    assert_eq!(Role::System.as_str(), "system");
    assert_eq!(Role::User.as_str(), "user");
}

#[test]
fn a_sentinel_is_nothing_to_ask_about() {
    assert_eq!(prompt_for_changes("No staged changes found.", None), None);
    assert_eq!(
        prompt_for_changes("No uncommitted changes found.", Some("p".to_string())),
        None
    );
    assert_eq!(
        prompt_for_changes("Staged (new): a\n", Some("p".to_string())),
        Some(build_prompt_messages("Staged (new): a\n", Some("p".to_string())))
    );
    assert!(prompt_for_changes("", None).is_some());
    assert!(prompt_for_changes("No staged changes found. ", None).is_some());
}

#[test]
fn draft_shows_each_line_once_it_is_complete() {
    let mut draft = CommitDraft::new();
    assert!(draft.push_delta("Fix the").is_empty());
    assert_eq!(draft.push_delta(" parser  \n\n- one"), vec!["| Fix the parser", "| "]);
    assert_eq!(draft.push_delta("\n- two\t\n"), vec!["| - one", "| - two"]);
    assert_eq!(draft.last_line(), None);
    assert_eq!(draft.text(), "Fix the parser  \n\n- one\n- two\t\n");
    assert_eq!(draft.message(), "Fix the parser  \n\n- one\n- two");
}

#[test]
fn draft_shows_the_unfinished_line_at_the_end() {
    let mut draft = CommitDraft::new();
    assert!(draft.push_delta("He").is_empty());
    assert!(draft.push_delta("llo ").is_empty());
    assert_eq!(draft.last_line(), Some("| Hello".to_string()));
    assert_eq!(draft.message(), "Hello");
    assert_eq!(draft.text(), "Hello ");
}

#[test]
fn blank_rest_is_not_shown_and_not_part_of_the_message() {
    let mut draft = CommitDraft::new();
    assert_eq!(draft.push_delta("  Title\n  \t"), vec!["|   Title"]);
    assert_eq!(draft.last_line(), None);
    assert_eq!(draft.message(), "Title");
    let empty = CommitDraft::new();
    assert_eq!(empty.last_line(), None);
    assert_eq!(empty.message(), "");
    assert_eq!(empty.text(), "");
}

#[test]
fn draft_keeps_all_that_arrives() {
    let parts = ["a\nb", "", "c\n", "\n", "d"];
    let mut draft = CommitDraft::new();
    let mut all = String::new();
    for part in parts {
        draft.push_delta(part);
        all.push_str(part);
        assert_eq!(draft.text(), all);
    }
    assert_eq!(draft.message(), "a\nbc\n\nd");
}

#[test]
fn short_title_gets_the_narrowest_banner() {
    let lines = banner("AI Suggested Commit Message");
    assert_eq!(lines.len(), 3);
    assert_eq!(lines[0], "=".repeat(60));
    assert_eq!(lines[2], "=".repeat(60));
    assert_eq!(
        lines[1],
        format!("{}AI Suggested Commit Message{}", " ".repeat(16), " ".repeat(17))
    );
    assert_eq!(lines[1].len(), 60);
    let empty = banner("");
    assert_eq!(empty[0], "=".repeat(60));
    assert_eq!(empty[1], " ".repeat(60));
}

#[test]
fn banner_grows_with_the_title_up_to_its_limit() {
    let title = "x".repeat(52);
    assert_eq!(banner(&title)[0].len(), 60);
    let title = "x".repeat(53);
    let lines = banner(&title);
    assert_eq!(lines[0], "=".repeat(61));
    assert_eq!(lines[1], format!("    {}    ", title));
    let title = "x".repeat(92);
    let lines = banner(&title);
    assert_eq!(lines[0], "=".repeat(100));
    assert_eq!(lines[1], format!("    {}    ", title));
    let title = "x".repeat(95);
    let lines = banner(&title);
    assert_eq!(lines[0], "=".repeat(100));
    assert_eq!(lines[1], format!("  {}   ", title));
    let title = "x".repeat(100);
    assert_eq!(banner(&title)[1], title);
}

#[test]
fn a_title_wider_than_the_banner_stands_alone() {
    let title = "y".repeat(130);
    let lines = banner(&title);
    assert_eq!(lines[0], "=".repeat(100));
    assert_eq!(lines[1], title);
    assert_eq!(lines[2], "=".repeat(100));
}

#[test]
fn banner_counts_bytes() {
    // the check mark takes three bytes and counts as three columns
    let lines = banner("✅ Commit Successful");
    assert_eq!(lines[0], "=".repeat(60));
    assert_eq!(
        lines[1],
        format!("{}✅ Commit Successful{}", " ".repeat(19), " ".repeat(20))
    );
}

#[test]
fn characters_are_repeated() {
    assert_eq!(repeat_char('=', 0), "");
    assert_eq!(repeat_char('=', 3), "===");
    assert_eq!(repeat_char('é', 2), "éé");
}
