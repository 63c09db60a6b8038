use vstd::prelude::*;
use vstd::string::StringSliceAdditionalSpecFns;

use crate::polled::Polled;
use crate::serialized_stream_error::SerializedStreamError;

verus! {

/// What separates two lines of hexadecimal text.
#[derive(Clone, Copy, PartialEq, Eq, Structural, Debug)]
pub enum LineEnding {
    /// Carriage return and line feed.
    CrLf,
    /// Line feed.
    Lf,
}

impl Default for LineEnding {
    fn default() -> (ending: Self)
        ensures
            ending == LineEnding::CrLf,
    {
        LineEnding::CrLf
    }
}

impl LineEnding {
    /// The separator as text.
    pub open spec fn text(&self) -> Seq<char> {
        match self {
            LineEnding::CrLf => seq!['\r', '\n'],
            LineEnding::Lf => seq!['\n'],
        }
    }

    /// The separator as the bytes that are emitted.
    pub open spec fn bytes(&self) -> Seq<u8> {
        match self {
            LineEnding::CrLf => seq![13u8, 10u8],
            LineEnding::Lf => seq![10u8],
        }
    }

    /// The name of the separator where it is configured.
    pub open spec fn spec_name(&self) -> Seq<char> {
        match self {
            LineEnding::CrLf => seq!['c', 'r', 'l', 'f'],
            LineEnding::Lf => seq!['l', 'f'],
        }
    }

    pub fn name(&self) -> (name: &'static str)
        ensures
            name@ == self.spec_name(),
    {
        proof {
            reveal_strlit("crlf");
            reveal_strlit("lf");
        }
        let name = match self {
            LineEnding::CrLf => "crlf",
            LineEnding::Lf => "lf",
        };
        assert(name@ =~= self.spec_name());
        name
    }

    /// The separator of a name, or `None` for a text that names none.
    pub fn from_name(name: &str) -> (ending: Option<LineEnding>)
        ensures
            match ending {
                Some(found) => name@ == found.spec_name(),
                None => name@ != LineEnding::CrLf.spec_name() && name@ != LineEnding::Lf.spec_name(),
            },
    {
        let len = name.unicode_len();
        if len == 4 && name.get_char(0) == 'c' && name.get_char(1) == 'r' && name.get_char(2)
            == 'l' && name.get_char(3) == 'f' {
            assert(name@ =~= LineEnding::CrLf.spec_name());
            Some(LineEnding::CrLf)
        } else if len == 2 && name.get_char(0) == 'l' && name.get_char(1) == 'f' {
            assert(name@ =~= LineEnding::Lf.spec_name());
            Some(LineEnding::Lf)
        } else {
            None
        }
    }

    pub fn value(&self) -> (text: &'static str)
        ensures
            text@ == self.text(),
    {
        proof {
            reveal_strlit("\r\n");
            reveal_strlit("\n");
        }
        let text = match self {
            LineEnding::CrLf => "\r\n",
            LineEnding::Lf => "\n",
        };
        assert(text@ =~= self.text());
        text
    }
}

/// The lower-case hexadecimal digit of a value below sixteen, as a byte of
/// text.
pub open spec fn hex_digit(nibble: int) -> u8 {
    if nibble < 10 {
        (48 + nibble) as u8
    } else {
        (87 + nibble) as u8
    }
}

/// Bytes as hexadecimal text: two lower-case digits for each byte, the high
/// half first.
pub open spec fn hex_text(data: Seq<u8>) -> Seq<u8> {
    Seq::new(
        2 * data.len(),
        |i: int|
            if i % 2 == 0 {
                hex_digit(data[i / 2] as int / 16)
            } else {
                hex_digit(data[i / 2] as int % 16)
            },
    )
}

/// Calls `hex::encode_to_slice`, with a whole vector as the slice to fill.
/// The call succeeds exactly where the vector is twice as long as the input,
/// and then fills it with the input's lower-case hexadecimal digits. Where it
/// fails the vector is as before. Inputs whose doubled length does not fit in
/// `usize` are left out, as the outside function doubles it unchecked.
#[verifier::external_body]
fn encode_to_slice(input: &[u8], output: &mut Vec<u8>) -> (done: Result<(), hex::FromHexError>)
    requires
        2 * input@.len() <= usize::MAX,
    ensures
        done is Ok <==> old(output)@.len() == 2 * input@.len(),
        done is Ok ==> final(output)@ == hex_text(input@),
        done is Err ==> final(output)@ == old(output)@,
{
    hex::encode_to_slice(input, output.as_mut_slice())
}

/// Makes `scratch` exactly `2 * count` bytes long. It keeps what it has
/// allocated, so it allocates only for a chunk longer than any before. Its
/// length being a `usize`, so is twice `count`.
fn fit_scratch(scratch: &mut Vec<u8>, count: usize)
    ensures
        final(scratch)@.len() == 2 * count,
        2 * count <= usize::MAX,
{
    while scratch.len() / 2 < count
        decreases count - scratch@.len() / 2,
    {
        scratch.push(0);
        scratch.push(0);
    }
    scratch.truncate(2 * count);
}

/// What the inner sequence of the hexadecimal encoder reports.
pub type Binary<E> = Polled<Result<Vec<u8>, E>>;

/// What the hexadecimal encoder answers to one poll.
pub type HexChunk<E> = Polled<Result<Vec<u8>, SerializedStreamError<E>>>;

/// `Binary`, with each chunk as the bytes it holds.
pub type BinaryView<E> = Polled<Result<Seq<u8>, E>>;

/// `HexChunk`, with each chunk as the bytes it holds.
pub type HexChunkView<E> = Polled<Result<Seq<u8>, SerializedStreamError<E>>>;

pub open spec fn binary_view<E>(polled: Binary<E>) -> BinaryView<E> {
    match polled {
        Polled::Pending => Polled::Pending,
        Polled::Ready(Ok(bytes)) => Polled::Ready(Ok(bytes@)),
        Polled::Ready(Err(error)) => Polled::Ready(Err(error)),
        Polled::Finished => Polled::Finished,
    }
}

pub open spec fn hex_chunk_view<E>(chunk: HexChunk<E>) -> HexChunkView<E> {
    match chunk {
        Polled::Pending => Polled::Pending,
        Polled::Ready(Ok(bytes)) => Polled::Ready(Ok(bytes@)),
        Polled::Ready(Err(error)) => Polled::Ready(Err(error)),
        Polled::Finished => Polled::Finished,
    }
}

/// One chunk as it is emitted: its hexadecimal text, behind the separator for
/// every chunk but the first.
pub open spec fn hex_line(is_first: bool, ending: LineEnding, data: Seq<u8>) -> Seq<u8> {
    if is_first {
        hex_text(data)
    } else {
        ending.bytes() + hex_text(data)
    }
}

/// One poll: whether the next chunk is still the first, and the answer.
pub open spec fn hex_step<E>(is_first: bool, ending: LineEnding, polled: BinaryView<E>) -> (
    bool,
    HexChunkView<E>,
) {
    match polled {
        Polled::Pending => (is_first, Polled::Pending),
        Polled::Ready(Ok(data)) => (false, Polled::Ready(Ok(hex_line(is_first, ending, data)))),
        Polled::Ready(Err(error)) => (
            is_first,
            Polled::Ready(Err(SerializedStreamError::SourceError(error))),
        ),
        Polled::Finished => (is_first, Polled::Finished),
    }
}

/// Writes binary chunks as hexadecimal text, with a separator before every
/// chunk but the first.
///
/// The digits of each chunk are written into one buffer that is kept from
/// chunk to chunk. The encoder owns the inner sequence and never polls it: the
/// driver polls it through `stream_mut` and hands the report to `poll_next`.
pub struct HexStream<S> {
    is_first: bool,
    line_ending: LineEnding,
    scratch: Vec<u8>,
    stream: S,
}

impl<S> HexStream<S> {
    /// Whether no chunk has been written yet.
    pub closed spec fn is_first(&self) -> bool {
        self.is_first
    }

    pub closed spec fn line_ending(&self) -> LineEnding {
        self.line_ending
    }

    /// The inner sequence.
    pub closed spec fn stream(&self) -> S {
        self.stream
    }

    pub fn from(stream: S, line_ending: LineEnding) -> (encoder: Self)
        ensures
            encoder.is_first(),
            encoder.line_ending() == line_ending,
            encoder.stream() == stream,
    {
        HexStream { is_first: true, line_ending, scratch: Vec::new(), stream }
    }

    /// The inner sequence, for the driver to poll.
    pub fn stream_mut(&mut self) -> (stream: &mut S)
        ensures
            *stream == old(self).stream(),
            final(self).stream() == *final(stream),
            final(self).is_first() == old(self).is_first(),
            final(self).line_ending() == old(self).line_ending(),
    {
        &mut self.stream
    }

    /// Answers one poll.
    pub fn poll_next<E>(&mut self, polled: Binary<E>) -> (chunk: HexChunk<E>)
        ensures
            (final(self).is_first(), hex_chunk_view(chunk)) == hex_step(
                old(self).is_first(),
                old(self).line_ending(),
                binary_view(polled),
            ),
            final(self).line_ending() == old(self).line_ending(),
            final(self).stream() == old(self).stream(),
    {
        match polled {
            Polled::Pending => Polled::Pending,
            Polled::Ready(Ok(bytes)) => {
                let is_first = self.is_first;
                self.is_first = false;
                fit_scratch(&mut self.scratch, bytes.len());
                match encode_to_slice(bytes.as_slice(), &mut self.scratch) {
                    Ok(()) => {
                        let mut line: Vec<u8> = Vec::new();
                        if !is_first {
                            let separator = self.line_ending.value();
                            proof {
                                assert(vstd::string::is_ascii(separator));
                                vstd::string::is_ascii_spec_bytes(separator);
                                assert(separator.spec_bytes() =~= self.line_ending.bytes());
                            }
                            line.extend_from_slice(separator.as_bytes());
                            assert(line@ =~= self.line_ending.bytes());
                        }
                        let ghost before = line@;
                        line.extend_from_slice(self.scratch.as_slice());
                        assert(line@ =~= before + hex_text(bytes@));
                        Polled::Ready(Ok(line))
                    },
                    Err(refusal) => Polled::Ready(
                        Err(SerializedStreamError::DecodingError(refusal)),
                    ),
                }
            },
            Polled::Ready(Err(error)) => Polled::Ready(
                Err(SerializedStreamError::SourceError(error)),
            ),
            Polled::Finished => Polled::Finished,
        }
    }
}

/// The bytes of an answer: what a chunk holds, nothing for anything else.
pub open spec fn hex_chunk_bytes<E>(chunk: HexChunkView<E>) -> Seq<u8> {
    match chunk {
        Polled::Ready(Ok(bytes)) => bytes,
        _ => Seq::empty(),
    }
}

/// The answers' bytes, one behind the other.
pub open spec fn joined_bytes<E>(chunks: Seq<HexChunkView<E>>) -> Seq<u8>
    decreases chunks.len(),
{
    if chunks.len() == 0 {
        Seq::empty()
    } else {
        hex_chunk_bytes(chunks[0]) + joined_bytes(chunks.skip(1))
    }
}

/// Whether every answer is a chunk.
pub open spec fn all_hex_chunks<E>(chunks: Seq<HexChunkView<E>>) -> bool {
    forall|i: int| 0 <= i < chunks.len() ==> (#[trigger] chunks[i]) matches Polled::Ready(Ok(_))
}

/// Each of `chunks` as the inner sequence reports it.
pub open spec fn binary_reports<E>(chunks: Seq<Seq<u8>>) -> Seq<BinaryView<E>> {
    Seq::new(chunks.len(), |i: int| Polled::Ready(Ok(chunks[i])))
}

/// Whether the next chunk is still the first, and the answers, after one poll
/// for each of `reports`.
pub open spec fn hex_run<E>(is_first: bool, ending: LineEnding, reports: Seq<BinaryView<E>>) -> (
    bool,
    Seq<HexChunkView<E>>,
)
    decreases reports.len(),
{
    if reports.len() == 0 {
        (is_first, Seq::empty())
    } else {
        let (next, chunk) = hex_step(is_first, ending, reports[0]);
        let (end, rest) = hex_run(next, ending, reports.skip(1));
        (end, seq![chunk] + rest)
    }
}

/// Whether a byte of text is neither a carriage return nor a line feed.
pub open spec fn is_not_line_break(byte: u8) -> bool {
    byte != 13 && byte != 10
}

/// The value of a hexadecimal digit of either case.
pub open spec fn hex_value(digit: u8) -> int {
    if 48 <= digit <= 57 {
        digit - 48
    } else if 97 <= digit <= 102 {
        digit - 87
    } else {
        digit - 55
    }
}

/// What hexadecimal text stands for: one byte for each two digits, the high
/// half first.
pub open spec fn hex_decoded(text: Seq<u8>) -> Seq<u8> {
    Seq::new(
        text.len() / 2,
        |i: int| (hex_value(text[2 * i]) * 16 + hex_value(text[2 * i + 1])) as u8,
    )
}

/// Hexadecimal text stands for the bytes it was written from.
pub proof fn lemma_hex_decoded_text(data: Seq<u8>)
    ensures
        hex_decoded(hex_text(data)) == data,
{
    let text = hex_text(data);
    assert forall|i: int| 0 <= i < data.len() implies hex_decoded(text)[i] == data[i] by {
        let byte = data[i] as int;
        assert(text[2 * i] == hex_digit(byte / 16));
        assert(text[2 * i + 1] == hex_digit(byte % 16));
    }
    assert(hex_decoded(text) =~= data);
}

/// The text of two runs of bytes is the text of the first and then that of the
/// second.
proof fn lemma_hex_text_add(a: Seq<u8>, b: Seq<u8>)
    ensures
        hex_text(a + b) == hex_text(a) + hex_text(b),
{
    assert forall|i: int| 0 <= i < 2 * (a.len() + b.len()) implies hex_text(a + b)[i] == (hex_text(
        a,
    ) + hex_text(b))[i] by {
        if i >= 2 * a.len() {
            assert((a + b)[i / 2] == b[(i - 2 * a.len()) / 2]);
        }
    }
    assert(hex_text(a + b) =~= hex_text(a) + hex_text(b));
}

/// A filter that every element passes keeps everything.
proof fn lemma_filter_keeps_all(text: Seq<u8>, pred: spec_fn(u8) -> bool)
    requires
        forall|i: int| 0 <= i < text.len() ==> pred(#[trigger] text[i]),
    ensures
        text.filter(pred) == text,
    decreases text.len(),
{
    reveal(Seq::filter);
    if text.len() > 0 {
        lemma_filter_keeps_all(text.drop_last(), pred);
        assert(text.drop_last().push(text.last()) =~= text);
    }
}

/// Taking the line breaks out of one emitted chunk leaves its digits.
proof fn lemma_hex_line_without_breaks(is_first: bool, ending: LineEnding, data: Seq<u8>)
    ensures
        hex_line(is_first, ending, data).filter(|byte: u8| is_not_line_break(byte)) == hex_text(
            data,
        ),
{
    let pred = |byte: u8| is_not_line_break(byte);
    lemma_filter_keeps_all(hex_text(data), pred);
    if !is_first {
        let separator = ending.bytes();
        assert(separator.all(|byte: u8| !pred(byte)));
        separator.lemma_all_neg_filter_empty(pred);
        Seq::filter_distributes_over_add(separator, hex_text(data), pred);
        assert(separator.filter(pred) + hex_text(data) =~= hex_text(data));
    }
}

/// The digits that the polls over `chunks` emit are the text of all the
/// chunks' bytes in a row.
proof fn lemma_hex_run_digits<E>(is_first: bool, ending: LineEnding, chunks: Seq<Seq<u8>>)
    ensures
        ({
            let (_, answers) = hex_run::<E>(is_first, ending, binary_reports(chunks));
            &&& answers.len() == chunks.len()
            &&& all_hex_chunks(answers)
            &&& joined_bytes(answers).filter(|byte: u8| is_not_line_break(byte)) == hex_text(
                chunks.flatten(),
            )
        }),
    decreases chunks.len(),
{
    let pred = |byte: u8| is_not_line_break(byte);
    let reports = binary_reports::<E>(chunks);
    if chunks.len() == 0 {
        assert(hex_text(chunks.flatten()) =~= Seq::<u8>::empty());
        assert(Seq::<u8>::empty().filter(pred) =~= Seq::<u8>::empty()) by {
            reveal(Seq::filter);
        }
    } else {
        let (next, chunk) = hex_step(is_first, ending, reports[0]);
        let (end, rest) = hex_run(next, ending, reports.skip(1));
        let answers = seq![chunk] + rest;
        assert(reports.skip(1) =~= binary_reports::<E>(chunks.skip(1)));
        lemma_hex_run_digits::<E>(false, ending, chunks.skip(1));
        assert(answers.skip(1) =~= rest);
        assert forall|i: int| 0 <= i < answers.len() implies (#[trigger] answers[i]) matches Polled::Ready(
            Ok(_),
        ) by {
            if i > 0 {
                assert(answers[i] == rest[i - 1]);
            }
        }
        let line = hex_line(is_first, ending, chunks[0]);
        assert(joined_bytes(answers) == line + joined_bytes(rest));
        Seq::filter_distributes_over_add(line, joined_bytes(rest), pred);
        lemma_hex_line_without_breaks(is_first, ending, chunks[0]);
        lemma_hex_text_add(chunks[0], chunks.skip(1).flatten());
        assert(chunks.flatten() == chunks[0] + chunks.skip(1).flatten());
    }
}

/// Reading back what was written: the chunks that the encoder emits for
/// `chunks`, one behind the other and without the line breaks, stand for the
/// bytes of `chunks` in a row.
pub proof fn lemma_hex_round_trip<E>(ending: LineEnding, chunks: Seq<Seq<u8>>)
    ensures
        ({
            let (_, answers) = hex_run::<E>(true, ending, binary_reports(chunks));
            &&& answers.len() == chunks.len()
            &&& all_hex_chunks(answers)
            &&& hex_decoded(joined_bytes(answers).filter(|byte: u8| is_not_line_break(byte)))
                == chunks.flatten()
        }),
{
    lemma_hex_run_digits::<E>(true, ending, chunks);
    lemma_hex_decoded_text(chunks.flatten());
}

} // verus!
