use serialized_stream::{HexStream, LineEnding, Polled, SerializedStreamError};

fn lines(ending: LineEnding, chunks: &[Vec<u8>]) -> Vec<Vec<u8>> {
    let mut encoder = HexStream::from(chunks.to_vec().into_iter(), ending);
    let mut out = Vec::new();
    loop {
        let polled: Polled<Result<Vec<u8>, String>> = match encoder.stream_mut().next() {
            Some(chunk) => Polled::Ready(Ok(chunk)),
            None => Polled::Finished,
        };
        match encoder.poll_next(polled) {
            Polled::Ready(Ok(line)) => out.push(line),
            Polled::Ready(Err(_)) => panic!("no chunk fails in this test"),
            Polled::Finished => break,
            Polled::Pending => panic!("nothing in this test is ever pending"),
        }
    }
    out
}

#[test]
fn line_ending_values() {
    assert_eq!(LineEnding::CrLf.value(), "\r\n");
    assert_eq!(LineEnding::Lf.value(), "\n");
    assert_eq!(LineEnding::default(), LineEnding::CrLf);
}

#[test]
fn line_ending_names() {
    assert_eq!(LineEnding::CrLf.name(), "crlf");
    assert_eq!(LineEnding::Lf.name(), "lf");
    assert_eq!(LineEnding::from_name("crlf"), Some(LineEnding::CrLf));
    assert_eq!(LineEnding::from_name("lf"), Some(LineEnding::Lf));
    for other in ["", "l", "cr", "crl", "crlf ", "CRLF", "lf\n", "crlg", "lg", "\u{e9}f"] {
        assert_eq!(LineEnding::from_name(other), None);
    }
}

#[test]
fn hex_lines_with_lf() {
    let out = lines(LineEnding::Lf, &[vec![0xde, 0xad], vec![], vec![0xbe, 0xef, 0x01]]);
    assert_eq!(out, vec![b"dead".to_vec(), b"\n".to_vec(), b"\nbeef01".to_vec()]);
}

#[test]
fn hex_digits_are_lower_case_and_high_half_first() {
    let all: Vec<u8> = (0..=255u8).collect();
    let out = lines(LineEnding::CrLf, &[all.clone()]);
    assert_eq!(out.len(), 1);
    assert_eq!(out[0].len(), 512);
    assert_eq!(&out[0][..8], b"00010203");
    assert_eq!(&out[0][20..24], b"0a0b");
    assert_eq!(&out[0][510..], b"ff");
    assert_eq!(out[0], hex::encode(&all).into_bytes());
}

#[test]
fn hex_round_trip() {
    for ending in [LineEnding::CrLf, LineEnding::Lf] {
        let chunks: Vec<Vec<u8>> = vec![
            vec![0x0a, 0x0d, 0x00],
            vec![],
            (0..=255u8).rev().collect(),
            vec![0x31],
            vec![0xff; 40],
        ];
        let mut text: Vec<u8> = lines(ending, &chunks).concat();
        text.retain(|byte| *byte != b'\r' && *byte != b'\n');
        assert_eq!(hex::decode(&text).unwrap(), chunks.concat());
    }
}

#[test]
fn hex_buffer_is_fitted_to_each_chunk() {
    let chunks = vec![vec![1u8; 9], vec![2u8; 2], vec![3u8; 17], vec![], vec![4u8; 1]];
    let out = lines(LineEnding::Lf, &chunks);
    let expected: Vec<Vec<u8>> = chunks
        .iter()
        .enumerate()
        .map(|(i, chunk)| {
            let mut line = if i == 0 { Vec::new() } else { b"\n".to_vec() };
            line.extend_from_slice(hex::encode(chunk).as_bytes());
            line
        })
        .collect();
    assert_eq!(out, expected);
}

#[test]
fn hex_hands_on_what_is_no_chunk() {
    let mut encoder = HexStream::from((), LineEnding::CrLf);
    assert!(matches!(encoder.poll_next::<String>(Polled::Pending), Polled::Pending));
    let failed = encoder.poll_next(Polled::Ready(Err("gone".to_string())));
    assert!(
        matches!(failed, Polled::Ready(Err(SerializedStreamError::SourceError(ref e))) if e == "gone")
    );
    let first = encoder.poll_next::<String>(Polled::Ready(Ok(vec![0x10])));
    assert!(matches!(first, Polled::Ready(Ok(ref line)) if line == b"10"));
    assert!(matches!(encoder.poll_next::<String>(Polled::Finished), Polled::Finished));
    assert!(matches!(encoder.poll_next::<String>(Polled::Finished), Polled::Finished));
    let later = encoder.poll_next::<String>(Polled::Ready(Ok(vec![0x20])));
    assert!(matches!(later, Polled::Ready(Ok(ref line)) if line == b"\r\n20"));
}
