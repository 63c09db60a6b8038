use std::collections::BTreeMap;

use serialized_stream::json_array_stream::frame_item;
use serialized_stream::{FrameState, JsonArrayStream, Polled, SerializedStreamError};

type Answer = Result<String, SerializedStreamError<String>>;
type Item = Result<serde_json::Value, String>;

fn report(encoder: &mut JsonArrayStream<std::vec::IntoIter<Item>>) -> Polled<
    Result<Result<String, serde_json::Error>, String>,
> {
    if !encoder.wants_item() {
        return Polled::Pending;
    }
    match encoder.stream_mut().next() {
        Some(Ok(value)) => Polled::Ready(Ok(serde_json::to_string(&value))),
        Some(Err(error)) => Polled::Ready(Err(error)),
        None => Polled::Finished,
    }
}

fn drain(items: Vec<Item>) -> Vec<Answer> {
    let mut encoder = JsonArrayStream::from(items.into_iter());
    let mut answers = Vec::new();
    loop {
        let polled = report(&mut encoder);
        match encoder.poll_next(polled) {
            Polled::Ready(answer) => answers.push(answer),
            Polled::Finished => break,
            Polled::Pending => panic!("nothing in this test is ever pending"),
        }
    }
    answers
}

fn text_of(answers: &[Answer]) -> String {
    answers.iter().map(|answer| answer.as_ref().expect("a chunk").as_str()).collect()
}

/// An error of `serde_json`, from a map whose keys are no strings.
fn encoding_failure() -> serde_json::Error {
    let mut map = BTreeMap::new();
    map.insert((1, 2), 3);
    serde_json::to_string(&map).expect_err("a key that is no string")
}

#[test]
fn array_takes_two_chunks_more_than_items() {
    for n in 0..6usize {
        let values: Vec<serde_json::Value> =
            (0..n).map(|i| serde_json::Value::from(i as u64 * 7)).collect();
        let answers = drain(values.iter().cloned().map(Ok).collect());
        assert_eq!(answers.len(), n + 2);
        assert!(answers.iter().all(|answer| answer.is_ok()));
        let parsed: Vec<serde_json::Value> = serde_json::from_str(&text_of(&answers)).unwrap();
        assert_eq!(parsed, values);
    }
}

#[test]
fn array_of_three_has_exact_text() {
    let answers = drain(vec![
        Ok(serde_json::Value::from(1)),
        Ok(serde_json::Value::from("two")),
        Ok(serde_json::Value::Null),
    ]);
    let chunks: Vec<&str> = answers.iter().map(|a| a.as_ref().unwrap().as_str()).collect();
    assert_eq!(chunks, vec!["[\n    ", "1", ",\n    \"two\"", ",\n    null", "\n]"]);
}

#[test]
fn array_states_follow_the_polls() {
    let mut encoder = JsonArrayStream::from(vec![Ok(serde_json::Value::from(1))].into_iter());
    assert_eq!(encoder.frame_state(), FrameState::NotStarted);
    assert!(!encoder.wants_item());
    let polled = report(&mut encoder);
    assert!(matches!(encoder.poll_next(polled), Polled::Ready(Ok(ref t)) if t == "[\n    "));
    assert_eq!(encoder.frame_state(), FrameState::Streaming { is_first: true });
    assert!(encoder.wants_item());
    let polled = report(&mut encoder);
    assert!(matches!(encoder.poll_next(polled), Polled::Ready(Ok(ref t)) if t == "1"));
    assert_eq!(encoder.frame_state(), FrameState::Streaming { is_first: false });
    let polled = report(&mut encoder);
    assert!(matches!(encoder.poll_next(polled), Polled::Ready(Ok(ref t)) if t == "\n]"));
    assert_eq!(encoder.frame_state(), FrameState::Closed);
    assert!(!encoder.wants_item());
    assert!(matches!(encoder.poll_next::<String>(Polled::Pending), Polled::Finished));
    assert_eq!(encoder.frame_state(), FrameState::Done);
}

#[test]
fn finished_array_stays_finished() {
    let mut encoder = JsonArrayStream::from(Vec::<Item>::new().into_iter());
    let mut answers = Vec::new();
    for _ in 0..2 {
        let polled = report(&mut encoder);
        answers.push(encoder.poll_next(polled));
    }
    assert!(answers.iter().all(|answer| matches!(answer, Polled::Ready(Ok(_)))));
    for round in 0..5 {
        let handed = match round % 3 {
            0 => Polled::Pending,
            1 => Polled::Ready(Ok(Ok("9".to_string()))),
            _ => Polled::Finished,
        };
        assert!(matches!(encoder.poll_next::<String>(handed), Polled::Finished));
        assert_eq!(encoder.frame_state(), FrameState::Done);
    }
}

#[test]
fn pending_is_handed_on_and_changes_nothing() {
    let mut encoder = JsonArrayStream::from(());
    assert!(matches!(encoder.poll_next::<String>(Polled::Pending), Polled::Ready(Ok(_))));
    assert!(matches!(encoder.poll_next::<String>(Polled::Pending), Polled::Pending));
    assert_eq!(encoder.frame_state(), FrameState::Streaming { is_first: true });
    assert!(
        matches!(encoder.poll_next::<String>(Polled::Ready(Ok(Ok("1".to_string())))), Polled::Ready(Ok(ref t)) if t == "1")
    );
    assert!(matches!(encoder.poll_next::<String>(Polled::Pending), Polled::Pending));
    assert_eq!(encoder.frame_state(), FrameState::Streaming { is_first: false });
}

#[test]
fn source_error_leaves_the_position() {
    let mut encoder = JsonArrayStream::from(());
    let _ = encoder.poll_next::<String>(Polled::Pending);
    let failed = encoder.poll_next(Polled::Ready(Err("gone".to_string())));
    assert!(
        matches!(failed, Polled::Ready(Err(SerializedStreamError::SourceError(ref e))) if e == "gone")
    );
    assert_eq!(encoder.frame_state(), FrameState::Streaming { is_first: true });
    let next = encoder.poll_next::<String>(Polled::Ready(Ok(Ok("1".to_string()))));
    assert!(matches!(next, Polled::Ready(Ok(ref t)) if t == "1"));
}

#[test]
fn encoding_failure_advances_the_position() {
    let mut encoder = JsonArrayStream::from(());
    let _ = encoder.poll_next::<String>(Polled::Pending);
    let failed = encoder.poll_next::<String>(Polled::Ready(Ok(Err(encoding_failure()))));
    assert!(matches!(failed, Polled::Ready(Err(SerializedStreamError::EncodingError(_)))));
    assert_eq!(encoder.frame_state(), FrameState::Streaming { is_first: false });
    let next = encoder.poll_next::<String>(Polled::Ready(Ok(Ok("1".to_string()))));
    assert!(matches!(next, Polled::Ready(Ok(ref t)) if t == ",\n    1"));
}

#[test]
fn frame_item_puts_the_separator_before_later_items() {
    let first = frame_item::<String>(true, Ok("{}".to_string()));
    let later = frame_item::<String>(false, Ok("{}".to_string()));
    let failed = frame_item::<String>(false, Err(encoding_failure()));
    assert_eq!(first.unwrap(), "{}");
    assert_eq!(later.unwrap(), ",\n    {}");
    match failed {
        Err(SerializedStreamError::EncodingError(error)) => {
            assert_eq!(error.to_string(), encoding_failure().to_string())
        },
        _ => panic!("an encoding error"),
    }
}

#[test]
fn array_keeps_its_inner_sequence() {
    let mut encoder = JsonArrayStream::from(vec![7u8, 8, 9]);
    encoder.stream_mut().push(10);
    let _ = encoder.poll_next::<String>(Polled::Pending);
    assert_eq!(encoder.stream_mut().as_slice(), &[7, 8, 9, 10]);
}

/// Feeds `reports` and then the end to a fresh encoder, and joins the chunks.
fn text_for(
    reports: Vec<Polled<Result<Result<String, serde_json::Error>, String>>>,
) -> (usize, String) {
    let mut encoder = JsonArrayStream::from(());
    let mut reports = reports.into_iter();
    let mut polls = 0;
    let mut text = String::new();
    loop {
        let polled = if encoder.wants_item() {
            reports.next().unwrap_or(Polled::Finished)
        } else {
            Polled::Pending
        };
        match encoder.poll_next(polled) {
            Polled::Ready(Ok(chunk)) => text.push_str(&chunk),
            Polled::Ready(Err(_)) | Polled::Pending => {},
            Polled::Finished => break,
        }
        polls += 1;
    }
    (polls, text)
}

fn written(text: &str) -> Polled<Result<Result<String, serde_json::Error>, String>> {
    Polled::Ready(Ok(Ok(text.to_string())))
}

#[test]
fn array_text_holds_the_written_values_only() {
    let (polls, text) = text_for(vec![
        Polled::Pending,
        Polled::Ready(Err("gone".to_string())),
        written("1"),
        Polled::Ready(Err("gone again".to_string())),
        Polled::Ready(Ok(Err(encoding_failure()))),
        Polled::Pending,
        written("[2]"),
        written("\"3\""),
        Polled::Ready(Ok(Err(encoding_failure()))),
    ]);
    assert_eq!(polls, 9 + 2);
    assert_eq!(text, "[\n    1,\n    [2],\n    \"3\"\n]");
    let parsed: serde_json::Value = serde_json::from_str(&text).unwrap();
    assert_eq!(parsed, serde_json::from_str::<serde_json::Value>("[1,[2],\"3\"]").unwrap());
}

#[test]
fn array_of_failures_only_is_empty() {
    let (polls, text) = text_for(vec![
        Polled::Ready(Ok(Err(encoding_failure()))),
        Polled::Ready(Err("gone".to_string())),
    ]);
    assert_eq!(polls, 4);
    assert_eq!(text, "[\n    \n]");
}

#[test]
fn unwritten_first_value_leaves_a_separator() {
    let (_, text) = text_for(vec![Polled::Ready(Ok(Err(encoding_failure()))), written("1")]);
    assert_eq!(text, "[\n    ,\n    1\n]");
    assert!(serde_json::from_str::<serde_json::Value>(&text).is_err());
}
