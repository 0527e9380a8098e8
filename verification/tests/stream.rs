use ollama_client::decode::{decode_line, decode_parsed, decode_text, DecodeError};
use ollama_client::model::chat::{ChatResponse, Message, MessageRole};
use ollama_client::model::generate::GenerateResponse;
use ollama_client::stream::ResponseStream;
use ollama_client::time::Timestamp;

const FIRST: &str =
    "{\"model\":\"m\",\"created_at\":\"2024-05-01T10:20:30Z\",\"response\":\"h\",\"done\":false}";
const LAST: &str = "{\"model\":\"m\",\"created_at\":\"2024-05-01T10:20:31Z\",\"response\":\"i\",\"done\":true,\"eval_count\":3}";

fn record(response: &str, done: bool, seconds: i64) -> GenerateResponse {
    GenerateResponse {
        model: "m".to_string(),
        created_at: Timestamp { seconds, nanos: 0 },
        response: response.to_string(),
        done,
        total_duration: None,
        load_duration: None,
        prompt_eval_count: None,
        prompt_eval_duration: None,
        eval_count: None,
        eval_duration: None,
        context: None,
    }
}

fn first_record() -> GenerateResponse {
    record("h", false, 1714558830)
}

fn last_record() -> GenerateResponse {
    let mut last = record("i", true, 1714558831);
    last.eval_count = Some(3);
    last
}

#[test]
fn two_streamed_lines_are_two_items_and_the_second_is_the_last() {
    let mut stream = ResponseStream::<GenerateResponse>::new();
    let mut seen = Vec::new();
    seen.extend(stream.feed(format!("{}\n", FIRST).as_bytes()));
    seen.extend(stream.feed(format!("{}\n", LAST).as_bytes()));
    assert_eq!(seen.len(), 2);
    assert_eq!(seen[0], Ok(first_record()));
    assert_eq!(seen[1], Ok(last_record()));
    let second = seen[1].as_ref().unwrap();
    assert!(second.done);
    assert_eq!(second.eval_count, Some(3));
    assert!(stream.is_finished());
}

#[test]
fn two_records_in_one_chunk_come_out_in_order() {
    let mut stream = ResponseStream::<GenerateResponse>::new();
    let items = stream.feed(format!("{}\n{}\n", FIRST, LAST).as_bytes());
    assert_eq!(items, vec![Ok(first_record()), Ok(last_record())]);
}

#[test]
fn a_line_that_has_not_ended_waits_for_its_end() {
    let mut stream = ResponseStream::<GenerateResponse>::new();
    let items = stream.feed(format!("{}\n{}", FIRST, LAST).as_bytes());
    assert_eq!(items, vec![Ok(first_record())]);
    assert!(!stream.is_finished());
    assert_eq!(stream.feed(b"\n"), vec![Ok(last_record())]);
    assert!(stream.is_finished());
}

#[test]
fn the_end_of_the_reply_completes_the_line_that_has_not_ended() {
    let mut stream = ResponseStream::<GenerateResponse>::new();
    let items = stream.feed(format!("{}\n{}", FIRST, LAST).as_bytes());
    assert_eq!(items, vec![Ok(first_record())]);
    assert_eq!(stream.finish(), vec![Ok(last_record())]);
    assert!(stream.is_finished());
    assert_eq!(stream.finish(), Vec::new());
    assert_eq!(stream.feed(format!("{}\n", FIRST).as_bytes()), Vec::new());
}

#[test]
fn the_end_of_a_reply_of_whole_lines_yields_nothing() {
    let mut stream = ResponseStream::<GenerateResponse>::new();
    assert_eq!(stream.feed(format!("{}\n", FIRST).as_bytes()), vec![Ok(first_record())]);
    assert_eq!(stream.finish(), Vec::new());
    assert!(stream.is_finished());
    assert_eq!(stream.feed(format!("{}\n", LAST).as_bytes()), Vec::new());
    let mut empty = ResponseStream::<GenerateResponse>::new();
    assert_eq!(empty.finish(), Vec::new());
    assert!(empty.is_finished());
}

#[test]
fn the_end_of_the_reply_yields_nothing_after_the_last_record() {
    let mut stream = ResponseStream::<GenerateResponse>::new();
    let items = stream.feed(format!("{}\n{}", LAST, FIRST).as_bytes());
    assert_eq!(items, vec![Ok(last_record())]);
    assert_eq!(stream.finish(), Vec::new());
}

#[test]
fn a_reply_that_breaks_off_in_a_record_ends_with_an_error_item() {
    let mut stream = ResponseStream::<GenerateResponse>::new();
    let (head, _) = LAST.split_at(30);
    assert_eq!(
        stream.feed(format!("{}\n{}", FIRST, head).as_bytes()),
        vec![Ok(first_record())]
    );
    assert_eq!(stream.finish(), vec![Err(DecodeError::Syntax)]);
}

#[test]
fn where_the_reply_is_cut_does_not_matter() {
    let reply = format!("{}\r\n\nnot json\n{}\n{}\n", FIRST, LAST, FIRST);
    let bytes = reply.as_bytes();
    let expected = vec![Ok(first_record()), Err(DecodeError::Syntax), Ok(last_record())];
    for cut in 0..=bytes.len() {
        let mut stream = ResponseStream::<GenerateResponse>::new();
        let mut seen = Vec::new();
        seen.extend(stream.feed(&bytes[..cut]));
        seen.extend(stream.feed(&bytes[cut..]));
        seen.extend(stream.finish());
        assert_eq!(seen, expected);
    }
    let mut stream = ResponseStream::<GenerateResponse>::new();
    let mut seen = Vec::new();
    for byte in bytes {
        seen.extend(stream.feed(&[*byte]));
    }
    seen.extend(stream.finish());
    assert_eq!(seen, expected);
}

#[test]
fn a_character_cut_in_two_is_put_together() {
    let line = "{\"model\":\"m\",\"created_at\":\"2024-05-01T10:20:30Z\",\"response\":\"你好。\",\"done\":false}\n";
    let bytes = line.as_bytes();
    let at = line.find('好').unwrap() + 1;
    let mut stream = ResponseStream::<GenerateResponse>::new();
    assert_eq!(stream.feed(&bytes[..at]), Vec::new());
    let items = stream.feed(&bytes[at..]);
    assert_eq!(items.len(), 1);
    assert_eq!(items[0].as_ref().unwrap().response, "你好。");
}

#[test]
fn a_line_ending_cut_in_two_is_one_line_ending() {
    let mut stream = ResponseStream::<GenerateResponse>::new();
    assert_eq!(stream.feed(format!("{}\r", FIRST).as_bytes()), Vec::new());
    assert_eq!(stream.feed(b"\n"), vec![Ok(first_record())]);
    assert_eq!(stream.feed(b"\r"), Vec::new());
    assert_eq!(stream.feed(b"\n"), Vec::new());
    assert_eq!(stream.finish(), Vec::new());
}

#[test]
fn records_keep_their_order_across_chunks() {
    let one = "{\"model\":\"m\",\"created_at\":\"2024-05-01T10:20:30Z\",\"response\":\"1\",\"done\":false}";
    let two = "{\"model\":\"m\",\"created_at\":\"2024-05-01T10:20:30Z\",\"response\":\"2\",\"done\":false}";
    let three = "{\"model\":\"m\",\"created_at\":\"2024-05-01T10:20:30Z\",\"response\":\"3\",\"done\":false}";
    let mut stream = ResponseStream::<GenerateResponse>::new();
    let mut seen = Vec::new();
    seen.extend(stream.feed(format!("{}\n{}\n", one, two).as_bytes()));
    seen.extend(stream.feed(format!("{}\n", three).as_bytes()));
    let texts: Vec<String> = seen.into_iter().map(|item| item.unwrap().response).collect();
    assert_eq!(texts, vec!["1".to_string(), "2".to_string(), "3".to_string()]);
    assert!(!stream.is_finished());
}

#[test]
fn an_empty_chunk_yields_nothing() {
    let mut stream = ResponseStream::<GenerateResponse>::new();
    assert_eq!(stream.feed(b""), Vec::new());
    assert_eq!(stream.feed(b"\n"), Vec::new());
    assert_eq!(stream.feed(b"\r\n\r\n"), Vec::new());
    assert!(!stream.is_finished());
    assert_eq!(stream.feed(format!("{}\n", FIRST).as_bytes()), vec![Ok(first_record())]);
}

#[test]
fn a_malformed_line_is_an_error_item_among_the_others() {
    let mut stream = ResponseStream::<GenerateResponse>::new();
    let items = stream.feed(format!("{}\n{{\"model\":\n{}\n", FIRST, LAST).as_bytes());
    assert_eq!(
        items,
        vec![Ok(first_record()), Err(DecodeError::Syntax), Ok(last_record())]
    );
}

#[test]
fn a_record_of_another_shape_is_a_schema_error() {
    let mut stream = ResponseStream::<GenerateResponse>::new();
    let items = stream.feed(b"{\"error\":\"model not found\"}\n[1,2]\n\"text\"\nnull\n");
    assert_eq!(items, vec![Err(DecodeError::Schema); 4]);
    assert!(!stream.is_finished());
}

#[test]
fn a_record_split_over_two_chunks_is_put_together() {
    let (head, tail) = FIRST.split_at(20);
    let mut stream = ResponseStream::<GenerateResponse>::new();
    assert_eq!(stream.feed(head.as_bytes()), Vec::new());
    assert_eq!(stream.feed(tail.as_bytes()), Vec::new());
    assert_eq!(stream.feed(b"\n"), vec![Ok(first_record())]);
}

#[test]
fn a_chunk_without_a_line_feed_yields_nothing() {
    let mut stream = ResponseStream::<GenerateResponse>::new();
    assert_eq!(stream.feed(b"not json"), Vec::new());
    assert_eq!(stream.feed(b" at all"), Vec::new());
    assert_eq!(stream.feed(b""), Vec::new());
    assert_eq!(stream.feed(b"\n"), vec![Err(DecodeError::Syntax)]);
}

#[test]
fn nothing_is_yielded_after_the_last_record() {
    let mut stream = ResponseStream::<GenerateResponse>::new();
    let items = stream.feed(format!("{}\n{}\n{}\n", FIRST, LAST, FIRST).as_bytes());
    assert_eq!(items, vec![Ok(first_record()), Ok(last_record())]);
    assert!(stream.is_finished());
    assert_eq!(stream.feed(format!("{}\n", FIRST).as_bytes()), Vec::new());
    assert_eq!(stream.feed(format!("{}\n", LAST).as_bytes()), Vec::new());
    assert!(stream.is_finished());
}

#[test]
fn exactly_one_item_is_done_and_it_is_the_final_one() {
    let chunks = [
        format!("{}\n", FIRST),
        String::new(),
        format!("{}\nnot json\n", FIRST),
        format!("{}\n{}\n", LAST, LAST),
        format!("{}\n", FIRST),
    ];
    let mut stream = ResponseStream::<GenerateResponse>::new();
    let mut seen = Vec::new();
    for chunk in chunks.iter() {
        seen.extend(stream.feed(chunk.as_bytes()));
    }
    assert_eq!(seen.len(), 4);
    let done: Vec<bool> =
        seen.iter().map(|item| matches!(item, Ok(record) if record.done)).collect();
    assert_eq!(done, vec![false, false, false, true]);
}

#[test]
fn a_stream_that_ends_early_has_no_last_record() {
    let mut stream = ResponseStream::<GenerateResponse>::new();
    assert_eq!(stream.feed(format!("{}\n", FIRST).as_bytes()), vec![Ok(first_record())]);
    assert!(!stream.is_finished());
}

#[test]
fn a_record_without_counters_has_none() {
    let item: GenerateResponse = decode_text(FIRST).unwrap();
    assert!(!item.done);
    assert_eq!(item.total_duration, None);
    assert_eq!(item.load_duration, None);
    assert_eq!(item.prompt_eval_count, None);
    assert_eq!(item.prompt_eval_duration, None);
    assert_eq!(item.eval_count, None);
    assert_eq!(item.eval_duration, None);
    assert_eq!(item.context, None);
}

#[test]
fn counters_are_read_as_they_are_sent() {
    let text = "{\"model\":\"m\",\"created_at\":\"2024-05-01T10:20:31.5Z\",\"response\":\"\",\"done\":true,\"total_duration\":5043500667,\"load_duration\":5025959,\"prompt_eval_count\":26,\"prompt_eval_duration\":325953000,\"eval_count\":290,\"eval_duration\":4709213000,\"context\":[1,2,-3]}";
    let item: GenerateResponse = decode_text(text).unwrap();
    assert_eq!(
        item,
        GenerateResponse {
            model: "m".to_string(),
            created_at: Timestamp { seconds: 1714558831, nanos: 500_000_000 },
            response: String::new(),
            done: true,
            total_duration: Some(5043500667),
            load_duration: Some(5025959),
            prompt_eval_count: Some(26),
            prompt_eval_duration: Some(325953000),
            eval_count: Some(290),
            eval_duration: Some(4709213000),
            context: Some(vec![1, 2, -3]),
        }
    );
}

#[test]
fn a_record_that_is_not_the_last_may_still_carry_counters() {
    let text = "{\"model\":\"m\",\"created_at\":\"2024-05-01T10:20:30Z\",\"response\":\"h\",\"done\":false,\"eval_count\":3}";
    let item: GenerateResponse = decode_text(text).unwrap();
    assert!(!item.done);
    assert_eq!(item.eval_count, Some(3));
}

#[test]
fn null_counters_count_as_absent() {
    let text = "{\"model\":\"m\",\"created_at\":\"2024-05-01T10:20:30Z\",\"response\":\"h\",\"done\":false,\"eval_count\":null,\"context\":null}";
    assert_eq!(decode_text::<GenerateResponse>(text), Ok(first_record()));
}

#[test]
fn unknown_members_are_passed_over() {
    let text = "{\"model\":\"m\",\"created_at\":\"2024-05-01T10:20:30Z\",\"response\":\"h\",\"done\":false,\"done_reason\":\"stop\",\"thinking\":{\"a\":[1]}}";
    assert_eq!(decode_text::<GenerateResponse>(text), Ok(first_record()));
}

#[test]
fn a_missing_member_is_a_schema_error() {
    let without_model = "{\"created_at\":\"2024-05-01T10:20:30Z\",\"response\":\"h\",\"done\":false}";
    let without_time = "{\"model\":\"m\",\"response\":\"h\",\"done\":false}";
    let without_response = "{\"model\":\"m\",\"created_at\":\"2024-05-01T10:20:30Z\",\"done\":false}";
    let without_done = "{\"model\":\"m\",\"created_at\":\"2024-05-01T10:20:30Z\",\"response\":\"h\"}";
    for text in [without_model, without_time, without_response, without_done] {
        assert_eq!(decode_text::<GenerateResponse>(text), Err(DecodeError::Schema));
    }
}

#[test]
fn a_member_of_the_wrong_kind_is_a_schema_error() {
    let texts = [
        "{\"model\":1,\"created_at\":\"2024-05-01T10:20:30Z\",\"response\":\"h\",\"done\":false}",
        "{\"model\":null,\"created_at\":\"2024-05-01T10:20:30Z\",\"response\":\"h\",\"done\":false}",
        "{\"model\":\"m\",\"created_at\":\"2024-05-01T10:20:30Z\",\"response\":\"h\",\"done\":\"no\"}",
        "{\"model\":\"m\",\"created_at\":\"2024-05-01T10:20:30Z\",\"response\":\"h\",\"done\":false,\"eval_count\":\"3\"}",
        "{\"model\":\"m\",\"created_at\":\"2024-05-01T10:20:30Z\",\"response\":\"h\",\"done\":false,\"eval_count\":3.5}",
        "{\"model\":\"m\",\"created_at\":\"2024-05-01T10:20:30Z\",\"response\":\"h\",\"done\":false,\"eval_count\":9223372036854775808}",
        "{\"model\":\"m\",\"created_at\":\"2024-05-01T10:20:30Z\",\"response\":\"h\",\"done\":false,\"context\":[1,\"2\"]}",
        "{\"model\":\"m\",\"created_at\":\"2024-05-01T10:20:30Z\",\"response\":\"h\",\"done\":false,\"context\":7}",
    ];
    for text in texts {
        assert_eq!(decode_text::<GenerateResponse>(text), Err(DecodeError::Schema));
    }
}

#[test]
fn a_time_that_is_no_instant_is_a_schema_error() {
    let texts = [
        "{\"model\":\"m\",\"created_at\":\"...\",\"response\":\"h\",\"done\":false}",
        "{\"model\":\"m\",\"created_at\":\"2024-05-01\",\"response\":\"h\",\"done\":false}",
        "{\"model\":\"m\",\"created_at\":\"2024-05-01T10:20:30\",\"response\":\"h\",\"done\":false}",
        "{\"model\":\"m\",\"created_at\":1714558830,\"response\":\"h\",\"done\":false}",
    ];
    for text in texts {
        assert_eq!(decode_text::<GenerateResponse>(text), Err(DecodeError::Schema));
    }
}

#[test]
fn the_largest_and_smallest_counters_fit() {
    let text = "{\"model\":\"m\",\"created_at\":\"2024-05-01T10:20:30Z\",\"response\":\"h\",\"done\":false,\"eval_count\":9223372036854775807,\"eval_duration\":-9223372036854775808}";
    let item: GenerateResponse = decode_text(text).unwrap();
    assert_eq!(item.eval_count, Some(i64::MAX));
    assert_eq!(item.eval_duration, Some(i64::MIN));
}

#[test]
fn text_with_escapes_is_unescaped() {
    let text = "{\"model\":\"m\",\"created_at\":\"2024-05-01T10:20:30Z\",\"response\":\"a\\n\\\"b\\\" \\u4f60\",\"done\":false}";
    let item: GenerateResponse = decode_text(text).unwrap();
    assert_eq!(item.response, "a\n\"b\" \u{4f60}");
}

#[test]
fn bytes_that_are_no_text_are_repaired_before_decoding() {
    let mut line = Vec::new();
    line.extend_from_slice(b"{\"model\":\"m\",\"created_at\":\"2024-05-01T10:20:30Z\",\"response\":\"a");
    line.push(0xff);
    line.extend_from_slice(b"b\",\"done\":false}");
    let item: GenerateResponse = decode_line(&line).unwrap();
    assert_eq!(item.response, "a\u{fffd}b");
}

#[test]
fn text_beyond_ascii_is_decoded_as_it_stands() {
    let line = "{\"model\":\"m\",\"created_at\":\"2024-05-01T10:20:30Z\",\"response\":\"你好。\",\"done\":false}";
    let item: GenerateResponse = decode_line(line.as_bytes()).unwrap();
    assert_eq!(item.response, "你好。");
}

#[test]
fn a_chat_stream_yields_messages() {
    let first = "{\"model\":\"c\",\"created_at\":\"2024-05-01T10:20:30+02:00\",\"message\":{\"role\":\"assistant\",\"content\":\"Hel\"},\"done\":false}";
    let last = "{\"model\":\"c\",\"created_at\":\"2024-05-01T10:20:31+02:00\",\"message\":{\"role\":\"assistant\",\"content\":\"lo\",\"images\":null},\"done\":true,\"total_duration\":12,\"eval_count\":2}";
    let mut stream = ResponseStream::<ChatResponse>::new();
    let items = stream.feed(format!("{}\n{}\n", first, last).as_bytes());
    assert_eq!(
        items,
        vec![
            Ok(ChatResponse {
                model: "c".to_string(),
                created_at: Timestamp { seconds: 1714551630, nanos: 0 },
                message: Message {
                    role: MessageRole::Assistant,
                    content: "Hel".to_string(),
                    images: None,
                },
                done: false,
                total_duration: None,
                load_duration: None,
                prompt_eval_count: None,
                prompt_eval_duration: None,
                eval_count: None,
                eval_duration: None,
                context: None,
            }),
            Ok(ChatResponse {
                model: "c".to_string(),
                created_at: Timestamp { seconds: 1714551631, nanos: 0 },
                message: Message {
                    role: MessageRole::Assistant,
                    content: "lo".to_string(),
                    images: None,
                },
                done: true,
                total_duration: Some(12),
                load_duration: None,
                prompt_eval_count: None,
                prompt_eval_duration: None,
                eval_count: Some(2),
                eval_duration: None,
                context: None,
            }),
        ]
    );
    assert!(stream.is_finished());
}

#[test]
fn a_chat_record_needs_a_well_formed_message() {
    let texts = [
        "{\"model\":\"c\",\"created_at\":\"2024-05-01T10:20:30Z\",\"done\":false}",
        "{\"model\":\"c\",\"created_at\":\"2024-05-01T10:20:30Z\",\"message\":\"hi\",\"done\":false}",
        "{\"model\":\"c\",\"created_at\":\"2024-05-01T10:20:30Z\",\"message\":{\"role\":\"robot\",\"content\":\"hi\"},\"done\":false}",
        "{\"model\":\"c\",\"created_at\":\"2024-05-01T10:20:30Z\",\"message\":{\"role\":\"User\",\"content\":\"hi\"},\"done\":false}",
        "{\"model\":\"c\",\"created_at\":\"2024-05-01T10:20:30Z\",\"message\":{\"role\":\"user\"},\"done\":false}",
        "{\"model\":\"c\",\"created_at\":\"2024-05-01T10:20:30Z\",\"message\":{\"role\":\"user\",\"content\":\"hi\",\"images\":[1]},\"done\":false}",
    ];
    for text in texts {
        assert_eq!(decode_text::<ChatResponse>(text), Err(DecodeError::Schema));
    }
}

#[test]
fn every_role_is_read_by_its_name() {
    for (name, role) in [
        ("system", MessageRole::System),
        ("user", MessageRole::User),
        ("assistant", MessageRole::Assistant),
        ("tool", MessageRole::Tool),
    ] {
        assert_eq!(MessageRole::from_name(name), Some(role));
        assert_eq!(role.name(), name);
        let text = format!(
            "{{\"model\":\"c\",\"created_at\":\"2024-05-01T10:20:30Z\",\"message\":{{\"role\":\"{}\",\"content\":\"hi\",\"images\":[\"aGk=\"]}},\"done\":false}}",
            name
        );
        let item: ChatResponse = decode_text(&text).unwrap();
        assert_eq!(item.message.role, role);
        assert_eq!(item.message.images, Some(vec!["aGk=".to_string()]));
    }
    assert_eq!(MessageRole::from_name(""), None);
    assert_eq!(MessageRole::from_name("users"), None);
}

#[test]
fn a_parsed_document_is_decoded_by_its_shape() {
    let parsed = serde_json::from_str::<serde_json::Value>(FIRST);
    assert_eq!(decode_parsed::<GenerateResponse>(parsed), Ok(first_record()));
    let parsed = serde_json::from_str::<serde_json::Value>("{\"done\":true}");
    assert_eq!(decode_parsed::<GenerateResponse>(parsed), Err(DecodeError::Schema));
    let parsed = serde_json::from_str::<serde_json::Value>("{\"done\":");
    assert_eq!(decode_parsed::<GenerateResponse>(parsed), Err(DecodeError::Syntax));
}
