use git_github::json::{choice_content, event_deltas, member, parse_json, Json};
use git_github::llm::CommitDraft;
use git_github::stream::{
    api_error, decode, line_deltas, read_body, status_is_success, stream, BodyEvent,
    StreamAssembler, StreamError, StreamOutcome,
};

#[test]
fn the_body_of_a_refusal_is_the_detail() {
    assert_eq!(
        api_error(&b"{\"error\":\"bad key\"}".to_vec()),
        StreamError::Api("{\"error\":\"bad key\"}".to_string())
    );
    assert_eq!(api_error(&vec![0x6e, 0xfe, 0x6f]), StreamError::Api("n\u{FFFD}o".to_string()));
    assert_eq!(api_error(&vec![]), StreamError::Api(String::new()));
}

fn bytes(text: &str) -> Vec<u8> {
    text.as_bytes().to_vec()
}

fn body(chunks: Vec<Vec<u8>>) -> Vec<BodyEvent> {
    chunks.into_iter().map(BodyEvent::Chunk).collect()
}

fn delivered(deltas: &[&str]) -> StreamOutcome {
    StreamOutcome { deltas: deltas.iter().map(|d| d.to_string()).collect(), result: Ok(()) }
}

fn refused(detail: &str) -> StreamOutcome {
    StreamOutcome { deltas: vec![], result: Err(StreamError::Api(detail.to_string())) }
}

fn event(content: &str) -> String {
    format!("data: {{\"choices\":[{{\"delta\":{{\"content\":\"{}\"}}}}]}}", content)
}

#[test]
fn two_chunks_give_two_fragments_and_the_whole_message() {
    let chunks = vec![
        bytes("data: {\"choices\":[{\"delta\":{\"content\":\"He\"}}]}\n"),
        bytes("data: {\"choices\":[{\"delta\":{\"content\":\"llo\"}}]}\ndata: [DONE]\n"),
    ];
    let mut assembler = StreamAssembler::begin(200).unwrap();
    let mut calls: Vec<String> = Vec::new();
    let mut draft = CommitDraft::new();
    for chunk in &chunks {
        for delta in assembler.feed(chunk) {
            draft.push_delta(&delta);
            calls.push(delta);
        }
    }
    for delta in assembler.finish() {
        draft.push_delta(&delta);
        calls.push(delta);
    }
    assert_eq!(calls, vec!["He".to_string(), "llo".to_string()]);
    assert_eq!(draft.message(), "Hello");
    assert_eq!(stream(200, &body(chunks)), delivered(&["He", "llo"]));
}

#[test]
fn end_marker_gives_no_fragment() {
    assert_eq!(line_deltas("data: [DONE]"), Vec::<String>::new());
    assert_eq!(stream(200, &body(vec![bytes("data: [DONE]\n")])), delivered(&[]));
    assert_eq!(stream(200, &body(vec![bytes("data: [DONE]\r\n")])), delivered(&[]));
    assert_eq!(stream(200, &body(vec![bytes("data: [DONE]")])), delivered(&[]));
    let mut assembler = StreamAssembler::new();
    assert!(assembler.feed(b"data: [DONE]\n").is_empty());
    assert!(assembler.finish().is_empty());
}

#[test]
fn unreadable_line_does_not_stop_the_reading() {
    let with = format!("{}\ndata: {{not json\n{}\n", event("a"), event("b"));
    assert_eq!(stream(200, &body(vec![bytes(&with)])), delivered(&["a", "b"]));
    let without = format!("{}\n{}\n", event("a"), event("b"));
    assert_eq!(
        stream(200, &body(vec![bytes(&with)])),
        stream(200, &body(vec![bytes(&without)]))
    );
}

#[test]
fn failure_status_gives_the_body_as_error() {
    let chunks = vec![bytes("{\"error\":"), bytes("\"bad key\"}")];
    assert_eq!(stream(401, &body(chunks)), refused("{\"error\":\"bad key\"}"));
    assert!(StreamAssembler::begin(401).is_none());
    let live = vec![bytes(&format!("{}\n", event("x")))];
    assert_eq!(stream(500, &body(live)), refused(&format!("{}\n", event("x"))));
}

#[test]
fn success_is_the_range_of_two_hundreds() {
    assert!(!status_is_success(199));
    assert!(status_is_success(200));
    assert!(status_is_success(204));
    assert!(status_is_success(299));
    assert!(!status_is_success(300));
    assert!(!status_is_success(401));
    assert!(!status_is_success(0));
    assert!(StreamAssembler::begin(200).is_some());
    assert!(StreamAssembler::begin(299).is_some());
    assert!(StreamAssembler::begin(300).is_none());
}

#[test]
fn a_line_cut_by_chunks_is_put_together() {
    let text = format!("{}\n{}\n", event("one"), event("two"));
    let whole = stream(200, &body(vec![bytes(&text)]));
    assert_eq!(whole, delivered(&["one", "two"]));
    let raw = bytes(&text);
    for cut in 0..=raw.len() {
        let chunks = vec![raw[..cut].to_vec(), raw[cut..].to_vec()];
        assert_eq!(stream(200, &body(chunks)), whole);
    }
    let single: Vec<Vec<u8>> = raw.iter().map(|b| vec![*b]).collect();
    assert_eq!(stream(200, &body(single)), whole);
}

#[test]
fn feed_keeps_the_unfinished_line() {
    let mut assembler = StreamAssembler::new();
    let line = event("late");
    let (head, tail) = line.split_at(17);
    assert!(assembler.feed(head.as_bytes()).is_empty());
    assert!(assembler.feed(tail.as_bytes()).is_empty());
    assert_eq!(assembler.feed(b"\n"), vec!["late".to_string()]);
    assert!(assembler.finish().is_empty());
}

#[test]
fn last_line_without_line_feed_counts() {
    let text = format!("{}\n{}", event("a"), event("b"));
    assert_eq!(stream(200, &body(vec![bytes(&text)])), delivered(&["a", "b"]));
    let mut assembler = StreamAssembler::new();
    assert_eq!(assembler.feed(text.as_bytes()), vec!["a".to_string()]);
    assert_eq!(assembler.finish(), vec!["b".to_string()]);
}

#[test]
fn carriage_return_before_the_line_feed_is_dropped() {
    let text = format!("{}\r\n\r\n{}\r\n", event("a"), event("b"));
    assert_eq!(stream(200, &body(vec![bytes(&text)])), delivered(&["a", "b"]));
}

#[test]
fn empty_body_gives_nothing() {
    assert_eq!(stream(200, &vec![]), delivered(&[]));
    assert_eq!(stream(200, &body(vec![vec![], vec![]])), delivered(&[]));
    assert_eq!(stream(200, &body(vec![bytes("\n\n\n")])), delivered(&[]));
    assert_eq!(stream(404, &vec![]), refused(""));
}

#[test]
fn only_data_lines_are_read() {
    assert!(line_deltas("").is_empty());
    assert!(line_deltas(": keep-alive").is_empty());
    assert!(line_deltas("event: message").is_empty());
    assert!(line_deltas(" data: {\"choices\":[{\"delta\":{\"content\":\"x\"}}]}").is_empty());
    assert!(line_deltas("data").is_empty());
    assert!(line_deltas("data:").is_empty());
    assert_eq!(
        line_deltas("data:{\"choices\":[{\"delta\":{\"content\":\"x\"}}]}"),
        vec!["x".to_string()]
    );
    assert_eq!(
        line_deltas("data: \t {\"choices\":[{\"delta\":{\"content\":\"x\"}}]}  \u{3000}"),
        vec!["x".to_string()]
    );
    assert!(line_deltas("data: [DONE] ").is_empty());
}

#[test]
fn every_choice_with_content_contributes() {
    let line = "data: {\"choices\":[{\"delta\":{\"content\":\"a\"}},{\"delta\":{}},\
                {\"delta\":{\"content\":null}},{\"delta\":{\"content\":\"b\",\"role\":\"assistant\"},\"index\":3}],\"id\":\"1\"}";
    assert_eq!(line_deltas(line), vec!["a".to_string(), "b".to_string()]);
    assert!(line_deltas("data: {\"choices\":[]}").is_empty());
}

#[test]
fn an_event_of_another_shape_gives_nothing() {
    assert!(line_deltas("data: {}").is_empty());
    assert!(line_deltas("data: []").is_empty());
    assert!(line_deltas("data: 7").is_empty());
    assert!(line_deltas("data: {\"choices\":{}}").is_empty());
    assert!(line_deltas("data: {\"choices\":[{}]}").is_empty());
    assert!(line_deltas("data: {\"choices\":[{\"delta\":null}]}").is_empty());
    assert!(line_deltas("data: {\"choices\":[{\"delta\":{\"content\":5}}]}").is_empty());
    // one element of the wrong shape spoils the whole event
    assert!(line_deltas(
        "data: {\"choices\":[{\"delta\":{\"content\":\"a\"}},{\"delta\":{\"content\":5}}]}"
    )
    .is_empty());
    assert!(line_deltas("data: {\"choices\":[{\"delta\":{\"content\":\"a\"}},7]}").is_empty());
}

#[test]
fn escapes_in_the_content_are_resolved() {
    assert_eq!(
        line_deltas("data: {\"choices\":[{\"delta\":{\"content\":\"a\\nb \\\"c\\\" \\u00e9\"}}]}"),
        vec!["a\nb \"c\" é".to_string()]
    );
}

#[test]
fn bytes_that_are_no_text_are_replaced() {
    assert_eq!(decode(&vec![0x66, 0xff, 0x6f]), "f\u{FFFD}o");
    assert_eq!(decode(&bytes("héllo")), "héllo");
    assert_eq!(decode(&vec![]), "");
    let mut raw = bytes("data: {\"choices\":[{\"delta\":{\"content\":\"a");
    raw.push(0xff);
    raw.extend_from_slice(b"b\"}}]}\n");
    assert_eq!(stream(200, &body(vec![raw])), delivered(&["a\u{FFFD}b"]));
    assert_eq!(stream(403, &body(vec![vec![0x6e, 0xfe, 0x6f]])), refused("n\u{FFFD}o"));
}

#[test]
fn a_character_cut_by_chunks_is_kept_whole() {
    let raw = bytes(&format!("{}\n", event("é")));
    let cut = raw.iter().position(|b| *b == 0xc3).unwrap() + 1;
    let chunks = vec![raw[..cut].to_vec(), raw[cut..].to_vec()];
    assert_eq!(stream(200, &body(chunks)), delivered(&["é"]));
}

#[test]
fn a_lost_connection_ends_the_reading() {
    let events = vec![
        BodyEvent::Chunk(bytes(&format!("{}\n{}", event("a"), event("b")))),
        BodyEvent::Failure("connection reset".to_string()),
        BodyEvent::Chunk(bytes(&format!("\n{}\n", event("c")))),
        BodyEvent::Failure("never seen".to_string()),
    ];
    assert_eq!(
        stream(200, &events),
        StreamOutcome {
            deltas: vec!["a".to_string()],
            result: Err(StreamError::Transport("connection reset".to_string())),
        }
    );
    assert_eq!(
        stream(502, &events),
        StreamOutcome {
            deltas: vec![],
            result: Err(StreamError::Transport("connection reset".to_string())),
        }
    );
    assert_eq!(
        stream(200, &vec![BodyEvent::Failure("timed out".to_string())]),
        StreamOutcome {
            deltas: vec![],
            result: Err(StreamError::Transport("timed out".to_string())),
        }
    );
}

#[test]
fn a_body_is_read_up_to_a_failure() {
    assert_eq!(read_body(&vec![]), Ok(vec![]));
    assert_eq!(
        read_body(&body(vec![vec![1, 2], vec![], vec![3]])),
        Ok(vec![1u8, 2, 3])
    );
    assert_eq!(
        read_body(&vec![
            BodyEvent::Chunk(vec![1]),
            BodyEvent::Failure("reset".to_string()),
            BodyEvent::Chunk(vec![2]),
        ]),
        Err("reset".to_string())
    );
}

#[test]
fn errors_read_as_one_line() {
    assert_eq!(
        StreamError::Api("quota exceeded".to_string()).message(),
        "API failed: quota exceeded"
    );
    assert_eq!(
        StreamError::Transport("connection reset".to_string()).message(),
        "connection reset"
    );
}

#[test]
fn json_text_becomes_a_tree() {
    assert_eq!(parse_json("null"), Some(Json::Null));
    assert_eq!(parse_json(" true "), Some(Json::Bool(true)));
    assert_eq!(parse_json("\"a\\tb\""), Some(Json::Str("a\tb".to_string())));
    assert_eq!(parse_json("-12"), Some(Json::Number("-12".to_string())));
    assert_eq!(
        parse_json("{\"b\":[1,false,null,\"x\"],\"a\":{}}"),
        Some(Json::Object(vec![
            ("a".to_string(), Json::Object(vec![])),
            (
                "b".to_string(),
                Json::Array(vec![
                    Json::Number("1".to_string()),
                    Json::Bool(false),
                    Json::Null,
                    Json::Str("x".to_string()),
                ])
            ),
        ]))
    );
    assert_eq!(parse_json(""), None);
    assert_eq!(parse_json("{"), None);
    assert_eq!(parse_json("[DONE]"), None);
    assert_eq!(parse_json("{} {}"), None);
    assert_eq!(parse_json("{\"a\":1,}"), None);
}

#[test]
fn a_repeated_key_is_held_once() {
    assert_eq!(
        parse_json("{\"k\":1,\"k\":2}"),
        Some(Json::Object(vec![("k".to_string(), Json::Number("2".to_string()))]))
    );
}

#[test]
fn members_are_found_by_key() {
    let members = vec![
        ("a".to_string(), Json::Null),
        ("b".to_string(), Json::Bool(true)),
        ("a".to_string(), Json::Bool(false)),
    ];
    assert_eq!(member(&members, "a"), Some(&Json::Null));
    assert_eq!(member(&members, "b"), Some(&Json::Bool(true)));
    assert_eq!(member(&members, "c"), None);
    assert_eq!(member(&vec![], "a"), None);
}

#[test]
fn events_are_read_from_trees() {
    let delta = |content: Json| {
        Json::Object(vec![(
            "delta".to_string(),
            Json::Object(vec![("content".to_string(), content)]),
        )])
    };
    assert_eq!(
        choice_content(&delta(Json::Str("x".to_string()))),
        Some(Some("x".to_string()))
    );
    assert_eq!(choice_content(&delta(Json::Null)), Some(None));
    assert_eq!(choice_content(&delta(Json::Bool(true))), None);
    assert_eq!(
        choice_content(&Json::Object(vec![("delta".to_string(), Json::Object(vec![]))])),
        Some(None)
    );
    assert_eq!(choice_content(&Json::Object(vec![])), None);
    assert_eq!(choice_content(&Json::Array(vec![])), None);
    let event = Json::Object(vec![(
        "choices".to_string(),
        Json::Array(vec![
            delta(Json::Str("a".to_string())),
            delta(Json::Null),
            delta(Json::Str("b".to_string())),
        ]),
    )]);
    assert_eq!(event_deltas(&event), Some(vec!["a".to_string(), "b".to_string()]));
    let spoiled = Json::Object(vec![(
        "choices".to_string(),
        Json::Array(vec![delta(Json::Str("a".to_string())), Json::Null]),
    )]);
    assert_eq!(event_deltas(&spoiled), None);
    assert_eq!(event_deltas(&Json::Null), None);
    assert_eq!(
        event_deltas(&Json::Object(vec![("choices".to_string(), Json::Array(vec![]))])),
        Some(vec![])
    );
}
