use std::cell::Cell;
use std::collections::BTreeMap;
use std::rc::Rc;

use serialized_stream::json_map_stream::{frame_label, frame_member};
use serialized_stream::{JsonMapStream, KeyedFrameState, Polled, SerializedStreamError};

type Answer = Result<String, SerializedStreamError<String>>;
type Item = Result<serde_json::Value, String>;

/// A bound sequence that counts itself as open until it is dropped.
struct Counted {
    items: std::vec::IntoIter<Item>,
    open: Rc<Cell<usize>>,
}

impl Drop for Counted {
    fn drop(&mut self) {
        self.open.set(self.open.get() - 1);
    }
}

struct Counters {
    open: Rc<Cell<usize>>,
    binds: Rc<Cell<usize>>,
}

fn counters() -> Counters {
    Counters { open: Rc::new(Cell::new(0)), binds: Rc::new(Cell::new(0)) }
}

/// The function that binds: it refuses to bind while another is open.
fn binder(counters: &Counters) -> impl Fn(&String, Vec<Item>) -> Counted {
    let open = counters.open.clone();
    let binds = counters.binds.clone();
    move |pool: &String, items: Vec<Item>| {
        assert_eq!(pool, "pool");
        assert_eq!(open.get(), 0, "two sequences bound at once");
        open.set(1);
        binds.set(binds.get() + 1);
        Counted { items: items.into_iter(), open: open.clone() }
    }
}

fn report<B: Fn(&String, Vec<Item>) -> Counted>(
    encoder: &mut JsonMapStream<String, Vec<Item>, Counted, B>,
) -> Polled<Result<Result<String, serde_json::Error>, String>> {
    match encoder.active_mut() {
        Some(stream) => match stream.items.next() {
            Some(Ok(value)) => Polled::Ready(Ok(serde_json::to_string(&value))),
            Some(Err(error)) => Polled::Ready(Err(error)),
            None => Polled::Finished,
        },
        None => Polled::Pending,
    }
}

fn drain(entries: Vec<(&str, Vec<Item>)>, counters: &Counters) -> Vec<Answer> {
    let descriptors: Vec<(String, Vec<Item>)> =
        entries.into_iter().map(|(label, items)| (label.to_string(), items)).collect();
    let mut encoder = JsonMapStream::from("pool".to_string(), descriptors, binder(counters));
    let mut answers = Vec::new();
    loop {
        assert_eq!(encoder.wants_item(), counters.open.get() == 1);
        let polled = report(&mut encoder);
        match encoder.poll_next(polled) {
            Polled::Ready(answer) => answers.push(answer),
            Polled::Finished => break,
            Polled::Pending => panic!("nothing in this test is ever pending"),
        }
        assert!(counters.open.get() <= 1);
    }
    assert_eq!(counters.open.get(), 0);
    answers
}

fn text_of(answers: &[Answer]) -> String {
    answers.iter().map(|answer| answer.as_ref().expect("a chunk").as_str()).collect()
}

fn numbers(values: &[i64]) -> Vec<Item> {
    values.iter().map(|n| Ok(serde_json::Value::from(*n))).collect()
}

fn encoding_failure() -> serde_json::Error {
    let mut map = BTreeMap::new();
    map.insert((1, 2), 3);
    serde_json::to_string(&map).expect_err("a key that is no string")
}

#[test]
fn object_without_labels() {
    let counters = counters();
    let answers = drain(Vec::new(), &counters);
    assert_eq!(answers.len(), 1);
    assert_eq!(text_of(&answers), "{}");
    assert_eq!(counters.binds.get(), 0);
}

#[test]
fn object_chunks_one_by_one() {
    let counters = counters();
    let answers = drain(vec![("x", numbers(&[1, 2])), ("y", numbers(&[]))], &counters);
    let chunks: Vec<&str> = answers.iter().map(|a| a.as_ref().unwrap().as_str()).collect();
    assert_eq!(
        chunks,
        vec![
            "{\n    \"x\": [",
            "\n        1",
            ",\n        2",
            "\n    ],\n    \"y\": [",
            "\n    ]\n}",
        ]
    );
    assert_eq!(counters.binds.get(), 2);
}

#[test]
fn object_binds_one_sequence_at_a_time() {
    let counters = counters();
    let entries = vec![
        ("a", numbers(&[1, 2, 3])),
        ("b", numbers(&[])),
        ("c", numbers(&[4])),
        ("d", numbers(&[5, 6])),
    ];
    let answers = drain(entries, &counters);
    assert_eq!(counters.binds.get(), 4);
    assert_eq!(answers.len(), 4 + 6 + 1);
}

#[test]
fn object_parses_back_with_labels_in_order() {
    let counters = counters();
    let entries = vec![
        ("zeta", numbers(&[3, 1])),
        ("alpha", numbers(&[])),
        ("with \"quotes\" and \\ and \n", numbers(&[7])),
        ("", numbers(&[8, 9, 10])),
    ];
    let text = text_of(&drain(entries, &counters));
    let parsed: serde_json::Value = serde_json::from_str(&text).unwrap();
    let object = parsed.as_object().unwrap();
    assert_eq!(object.len(), 4);
    assert_eq!(object["zeta"], serde_json::Value::from(vec![3, 1]));
    assert_eq!(object["alpha"], serde_json::Value::from(Vec::<i64>::new()));
    assert_eq!(object["with \"quotes\" and \\ and \n"], serde_json::Value::from(vec![7]));
    assert_eq!(object[""], serde_json::Value::from(vec![8, 9, 10]));
    let positions: Vec<usize> = ["\"zeta\"", "\"alpha\"", "\"with ", "\"\": ["]
        .iter()
        .map(|label| text.find(label).unwrap())
        .collect();
    assert!(positions.windows(2).all(|pair| pair[0] < pair[1]));
}

#[test]
fn label_is_written_as_json_text() {
    let counters = counters();
    let answers = drain(vec![("a\"b", numbers(&[]))], &counters);
    assert_eq!(answers[0].as_ref().unwrap(), "{\n    \"a\\\"b\": [");
}

#[test]
fn object_states_follow_the_polls() {
    let counters = counters();
    let descriptors = vec![("k".to_string(), numbers(&[1]))];
    let mut encoder = JsonMapStream::from("pool".to_string(), descriptors, binder(&counters));
    assert_eq!(encoder.frame_state(), KeyedFrameState::Init);
    assert_eq!(encoder.pending_len(), 1);
    assert!(encoder.active_mut().is_none());
    assert_eq!(counters.binds.get(), 0);
    let polled = report(&mut encoder);
    assert!(matches!(encoder.poll_next(polled), Polled::Ready(Ok(_))));
    assert_eq!(encoder.frame_state(), KeyedFrameState::EmittingItems { is_first: true });
    assert_eq!(encoder.pending_len(), 0);
    assert_eq!(counters.open.get(), 1);
    assert!(matches!(encoder.poll_next::<String>(Polled::Pending), Polled::Pending));
    assert_eq!(encoder.frame_state(), KeyedFrameState::EmittingItems { is_first: true });
    let polled = report(&mut encoder);
    assert!(matches!(encoder.poll_next(polled), Polled::Ready(Ok(ref t)) if t == "\n        1"));
    assert_eq!(encoder.frame_state(), KeyedFrameState::EmittingItems { is_first: false });
    let polled = report(&mut encoder);
    assert!(matches!(encoder.poll_next(polled), Polled::Ready(Ok(ref t)) if t == "\n    ]\n}"));
    assert_eq!(encoder.frame_state(), KeyedFrameState::Done);
    assert_eq!(counters.open.get(), 0);
    assert!(encoder.active_mut().is_none());
}

#[test]
fn finished_object_stays_finished() {
    let counters = counters();
    let mut encoder = JsonMapStream::from(
        "pool".to_string(),
        vec![("k".to_string(), numbers(&[]))],
        binder(&counters),
    );
    for _ in 0..2 {
        let polled = report(&mut encoder);
        assert!(matches!(encoder.poll_next(polled), Polled::Ready(Ok(_))));
    }
    for round in 0..5 {
        let handed = match round % 3 {
            0 => Polled::Pending,
            1 => Polled::Ready(Ok(Ok("9".to_string()))),
            _ => Polled::Finished,
        };
        assert!(matches!(encoder.poll_next::<String>(handed), Polled::Finished));
        assert_eq!(encoder.frame_state(), KeyedFrameState::Done);
    }
    assert_eq!(counters.binds.get(), 1);
}

#[test]
fn object_errors_keep_their_kind() {
    let counters = counters();
    let descriptors =
        vec![("k".to_string(), vec![Err("gone".to_string()), Ok(serde_json::Value::from(1))])];
    let mut encoder = JsonMapStream::from("pool".to_string(), descriptors, binder(&counters));
    let polled = report(&mut encoder);
    let _ = encoder.poll_next(polled);
    let polled = report(&mut encoder);
    let failed = encoder.poll_next(polled);
    assert!(
        matches!(failed, Polled::Ready(Err(SerializedStreamError::SourceError(ref e))) if e == "gone")
    );
    assert_eq!(encoder.frame_state(), KeyedFrameState::EmittingItems { is_first: true });
    let unwritten = encoder.poll_next::<String>(Polled::Ready(Ok(Err(encoding_failure()))));
    assert!(matches!(unwritten, Polled::Ready(Err(SerializedStreamError::EncodingError(_)))));
    assert_eq!(encoder.frame_state(), KeyedFrameState::EmittingItems { is_first: false });
    let polled = report(&mut encoder);
    assert!(matches!(encoder.poll_next(polled), Polled::Ready(Ok(ref t)) if t == ",\n        1"));
}

#[test]
fn frame_label_opens_the_object_or_the_next_array() {
    let first = frame_label::<String>(true, Ok("\"k\"".to_string()));
    let later = frame_label::<String>(false, Ok("\"k\"".to_string()));
    let failed = frame_label::<String>(true, Err(encoding_failure()));
    assert_eq!(first.unwrap(), "{\n    \"k\": [");
    assert_eq!(later.unwrap(), "\n    ],\n    \"k\": [");
    assert!(matches!(failed, Err(SerializedStreamError::EncodingError(_))));
}

#[test]
fn frame_member_indents_by_eight() {
    let first = frame_member::<String>(true, Ok("1".to_string()));
    let later = frame_member::<String>(false, Ok("1".to_string()));
    let failed = frame_member::<String>(false, Err(encoding_failure()));
    assert_eq!(first.unwrap(), "\n        1");
    assert_eq!(later.unwrap(), ",\n        1");
    assert!(matches!(failed, Err(SerializedStreamError::EncodingError(_))));
}

#[test]
fn object_text_holds_the_written_values_only() {
    let counters = counters();
    let entries = vec![
        ("a", vec![Err("gone".to_string()), Ok(serde_json::Value::from(1))]),
        ("b", vec![Err("gone".to_string())]),
        (
            "c",
            vec![
                Ok(serde_json::Value::from(2)),
                Err("gone".to_string()),
                Ok(serde_json::Value::from(3)),
            ],
        ),
    ];
    let answers = drain(entries, &counters);
    assert_eq!(answers.len(), 3 + 6 + 1);
    let text: String = answers.iter().filter_map(|a| a.as_ref().ok()).map(String::as_str).collect();
    let parsed: serde_json::Value = serde_json::from_str(&text).unwrap();
    assert_eq!(
        parsed,
        serde_json::from_str::<serde_json::Value>("{\"a\":[1],\"b\":[],\"c\":[2,3]}").unwrap()
    );
    assert_eq!(counters.binds.get(), 3);
}
