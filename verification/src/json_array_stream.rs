use vstd::prelude::*;

use crate::polled::Polled;
use crate::serialized_stream_error::SerializedStreamError;

verus! {

/// Where the framing of an array stands.
#[derive(Clone, Copy, PartialEq, Eq, Structural, Debug)]
pub enum FrameState {
    /// Nothing has been emitted.
    NotStarted,
    /// The opening bracket is out and items are being framed. `is_first` holds
    /// until the inner sequence has yielded a value.
    Streaming { is_first: bool },
    /// The inner sequence has ended and the closing bracket has been handed
    /// out with the poll that saw the end. The end of the output has not been
    /// reported yet.
    Closed,
    /// The end of the output has been reported.
    Done,
}

/// What the inner sequence of a JSON encoder reports, with each value already
/// written as JSON text, or with the reason why it could not be.
pub type Encoded<E> = Polled<Result<Result<String, serde_json::Error>, E>>;

/// What a JSON encoder answers to one poll.
pub type Chunk<E> = Polled<Result<String, SerializedStreamError<E>>>;

/// `Encoded`, with each text as the characters it holds.
pub type EncodedView<E> = Polled<Result<Result<Seq<char>, serde_json::Error>, E>>;

/// `Chunk`, with each text as the characters it holds.
pub type ChunkView<E> = Polled<Result<Seq<char>, SerializedStreamError<E>>>;

pub open spec fn encoded_view<E>(polled: Encoded<E>) -> EncodedView<E> {
    match polled {
        Polled::Pending => Polled::Pending,
        Polled::Ready(Ok(Ok(text))) => Polled::Ready(Ok(Ok(text@))),
        Polled::Ready(Ok(Err(failure))) => Polled::Ready(Ok(Err(failure))),
        Polled::Ready(Err(error)) => Polled::Ready(Err(error)),
        Polled::Finished => Polled::Finished,
    }
}

pub open spec fn chunk_view<E>(chunk: Chunk<E>) -> ChunkView<E> {
    match chunk {
        Polled::Pending => Polled::Pending,
        Polled::Ready(Ok(text)) => Polled::Ready(Ok(text@)),
        Polled::Ready(Err(error)) => Polled::Ready(Err(error)),
        Polled::Finished => Polled::Finished,
    }
}

/// The opening token: a bracket, a line break and the indentation of the
/// first item.
pub open spec fn array_opening() -> Seq<char> {
    "[\n    "@
}

/// What stands between two items.
pub open spec fn array_separator() -> Seq<char> {
    ",\n    "@
}

/// The closing token.
pub open spec fn array_closing() -> Seq<char> {
    "\n]"@
}

/// One item as it is emitted: as it is where no value came before it, behind
/// a separator otherwise.
pub open spec fn framed_item(is_first: bool, text: Seq<char>) -> Seq<char> {
    if is_first {
        text
    } else {
        array_separator() + text
    }
}

/// One poll: the state after it and the answer.
///
/// `polled` is what the inner sequence reported. It is looked at while the
/// state is `Streaming` and nowhere else.
pub open spec fn array_step<E>(state: FrameState, polled: EncodedView<E>) -> (
    FrameState,
    ChunkView<E>,
) {
    match state {
        FrameState::NotStarted => (
            FrameState::Streaming { is_first: true },
            Polled::Ready(Ok(array_opening())),
        ),
        FrameState::Streaming { is_first } => match polled {
            Polled::Pending => (state, Polled::Pending),
            Polled::Ready(Ok(Ok(text))) => (
                FrameState::Streaming { is_first: false },
                Polled::Ready(Ok(framed_item(is_first, text))),
            ),
            Polled::Ready(Ok(Err(failure))) => (
                FrameState::Streaming { is_first: false },
                Polled::Ready(Err(SerializedStreamError::EncodingError(failure))),
            ),
            Polled::Ready(Err(error)) => (
                state,
                Polled::Ready(Err(SerializedStreamError::SourceError(error))),
            ),
            Polled::Finished => (FrameState::Closed, Polled::Ready(Ok(array_closing()))),
        },
        FrameState::Closed => (FrameState::Done, Polled::Finished),
        FrameState::Done => (FrameState::Done, Polled::Finished),
    }
}

/// Frames one sequence of values as a JSON array: an opening token, each value
/// behind the separator it needs, a closing token.
///
/// The encoder owns the inner sequence and never polls it. The driver polls it
/// through `stream_mut` while `wants_item` holds, and hands the report to
/// `poll_next`.
pub struct JsonArrayStream<S> {
    state: FrameState,
    stream: S,
}

impl<S> From<S> for JsonArrayStream<S> {
    /// An encoder that has emitted nothing yet.
    fn from(stream: S) -> (encoder: Self)
        ensures
            encoder.state() == FrameState::NotStarted,
            encoder.stream() == stream,
    {
        JsonArrayStream { state: FrameState::NotStarted, stream }
    }
}

impl<S> vstd::std_specs::convert::FromSpecImpl<S> for JsonArrayStream<S> {
    open spec fn obeys_from_spec() -> bool {
        true
    }

    closed spec fn from_spec(stream: S) -> Self {
        JsonArrayStream { state: FrameState::NotStarted, stream }
    }
}

impl<S> JsonArrayStream<S> {
    pub closed spec fn state(&self) -> FrameState {
        self.state
    }

    /// The inner sequence.
    pub closed spec fn stream(&self) -> S {
        self.stream
    }

    pub fn frame_state(&self) -> (state: FrameState)
        ensures
            state == self.state(),
    {
        self.state
    }

    /// Whether the next poll looks at a report of the inner sequence.
    pub fn wants_item(&self) -> (wanted: bool)
        ensures
            wanted == (self.state() is Streaming),
    {
        match self.state {
            FrameState::Streaming { .. } => true,
            _ => false,
        }
    }

    /// The inner sequence, for the driver to poll.
    pub fn stream_mut(&mut self) -> (stream: &mut S)
        ensures
            *stream == old(self).stream(),
            final(self).stream() == *final(stream),
            final(self).state() == old(self).state(),
    {
        &mut self.stream
    }

    /// Answers one poll.
    pub fn poll_next<E>(&mut self, polled: Encoded<E>) -> (chunk: Chunk<E>)
        ensures
            (final(self).state(), chunk_view(chunk)) == array_step(
                old(self).state(),
                encoded_view(polled),
            ),
            final(self).stream() == old(self).stream(),
    {
        match self.state {
            FrameState::NotStarted => {
                self.state = FrameState::Streaming { is_first: true };
                Polled::Ready(Ok(String::from_str("[\n    ")))
            },
            FrameState::Streaming { is_first } => match polled {
                Polled::Pending => Polled::Pending,
                Polled::Ready(Ok(encoded)) => {
                    self.state = FrameState::Streaming { is_first: false };
                    Polled::Ready(frame_item(is_first, encoded))
                },
                Polled::Ready(Err(error)) => Polled::Ready(
                    Err(SerializedStreamError::SourceError(error)),
                ),
                Polled::Finished => {
                    self.state = FrameState::Closed;
                    Polled::Ready(Ok(String::from_str("\n]")))
                },
            },
            FrameState::Closed => {
                self.state = FrameState::Done;
                Polled::Finished
            },
            FrameState::Done => Polled::Finished,
        }
    }
}

/// Frames one value of an array, given what writing it as JSON gave: the text
/// behind the separator it needs, or the failure as an encoding error.
pub fn frame_item<E>(is_first: bool, encoded: Result<String, serde_json::Error>) -> (framed: Result<
    String,
    SerializedStreamError<E>,
>)
    ensures
        match encoded {
            Ok(text) => framed matches Ok(out) && out@ == framed_item(is_first, text@),
            Err(failure) => framed == Err::<String, SerializedStreamError<E>>(
                SerializedStreamError::EncodingError(failure),
            ),
        },
{
    match encoded {
        Ok(text) => {
            if is_first {
                Ok(text)
            } else {
                let mut out = String::from_str(",\n    ");
                out.append(text.as_str());
                Ok(out)
            }
        },
        Err(failure) => Err(SerializedStreamError::EncodingError(failure)),
    }
}

/// The text of an answer: what a chunk holds, nothing for anything else.
pub open spec fn chunk_text<E>(chunk: ChunkView<E>) -> Seq<char> {
    match chunk {
        Polled::Ready(Ok(text)) => text,
        _ => Seq::empty(),
    }
}

/// The answers' texts, one behind the other.
pub open spec fn joined_text<E>(chunks: Seq<ChunkView<E>>) -> Seq<char>
    decreases chunks.len(),
{
    if chunks.len() == 0 {
        Seq::empty()
    } else {
        chunk_text(chunks[0]) + joined_text(chunks.skip(1))
    }
}

/// Whether every answer is a chunk.
pub open spec fn all_chunks<E>(chunks: Seq<ChunkView<E>>) -> bool {
    forall|i: int| 0 <= i < chunks.len() ==> (#[trigger] chunks[i]) matches Polled::Ready(Ok(_))
}

/// Each item of `items`, written as JSON, as a sequence reports it.
pub open spec fn ready_reports<E>(items: Seq<Seq<char>>) -> Seq<EncodedView<E>> {
    Seq::new(items.len(), |i: int| Polled::Ready(Ok(Ok(items[i]))))
}

/// What the inner sequence reports for `items` and nothing else: each item,
/// written as JSON, then the end.
pub open spec fn array_reports<E>(items: Seq<Seq<char>>) -> Seq<EncodedView<E>> {
    ready_reports(items).push(Polled::Finished)
}

/// Whether the end of the sequence is not among `reports`.
pub open spec fn no_end_within<E>(reports: Seq<EncodedView<E>>) -> bool {
    forall|i: int| 0 <= i < reports.len() ==> !((#[trigger] reports[i]) is Finished)
}

/// Whether every one of `reports` is a value that was written as JSON.
pub open spec fn all_written<E>(reports: Seq<EncodedView<E>>) -> bool {
    forall|i: int|
        0 <= i < reports.len() ==> (#[trigger] reports[i]) matches Polled::Ready(Ok(Ok(_)))
}

/// The texts of the values among `reports` that were written as JSON, in
/// order.
pub open spec fn written<E>(reports: Seq<EncodedView<E>>) -> Seq<Seq<char>>
    decreases reports.len(),
{
    if reports.len() == 0 {
        Seq::empty()
    } else {
        match reports[0] {
            Polled::Ready(Ok(Ok(text))) => seq![text] + written(reports.skip(1)),
            _ => written(reports.skip(1)),
        }
    }
}

/// Whether a value is among `reports`, written as JSON or not.
pub open spec fn yielded<E>(reports: Seq<EncodedView<E>>) -> bool
    decreases reports.len(),
{
    if reports.len() == 0 {
        false
    } else {
        (reports[0] matches Polled::Ready(Ok(_))) || yielded(reports.skip(1))
    }
}

/// Whether the first value among `reports` was written as JSON, or none was
/// at all. A value that could not be written still counts as the first of
/// its array, so where one comes before every written value, the first value
/// in the output stands behind a separator.
pub open spec fn unspoiled<E>(reports: Seq<EncodedView<E>>) -> bool
    decreases reports.len(),
{
    if reports.len() == 0 {
        true
    } else {
        match reports[0] {
            Polled::Ready(Ok(Ok(_))) => true,
            Polled::Ready(Ok(Err(_))) => written(reports.skip(1)).len() == 0,
            _ => unspoiled(reports.skip(1)),
        }
    }
}

/// The state and the answers of the polls from `state` on, while the inner
/// sequence reports `reports`, one report for each poll that looks at one,
/// until the reports are used up or the closing token is out.
pub open spec fn array_run<E>(state: FrameState, reports: Seq<EncodedView<E>>) -> (
    FrameState,
    Seq<ChunkView<E>>,
)
    decreases reports.len(), (if state is NotStarted { 1nat } else { 0nat }),
{
    match state {
        FrameState::NotStarted => {
            let (next, chunk) = array_step::<E>(state, Polled::Pending);
            let (end, rest) = array_run(next, reports);
            (end, seq![chunk] + rest)
        },
        FrameState::Streaming { .. } => if reports.len() == 0 {
            (state, Seq::empty())
        } else {
            let (next, chunk) = array_step(state, reports[0]);
            let (end, rest) = array_run(next, reports.skip(1));
            (end, seq![chunk] + rest)
        },
        _ => (state, Seq::empty()),
    }
}

/// The items of an array as they stand between the brackets.
pub open spec fn array_items_text(is_first: bool, items: Seq<Seq<char>>) -> Seq<char>
    decreases items.len(),
{
    if items.len() == 0 {
        Seq::empty()
    } else {
        framed_item(is_first, items[0]) + array_items_text(false, items.skip(1))
    }
}

/// A whole array: the opening token, the items with a separator between each
/// two, the closing token.
pub open spec fn array_text(items: Seq<Seq<char>>) -> Seq<char> {
    array_opening() + array_items_text(true, items) + array_closing()
}

/// The text, the number and the kind of the answers where one answer stands
/// before others.
pub proof fn lemma_joined_text_cons<E>(chunk: ChunkView<E>, rest: Seq<ChunkView<E>>)
    ensures
        joined_text(seq![chunk] + rest) == chunk_text(chunk) + joined_text(rest),
        (seq![chunk] + rest).len() == rest.len() + 1,
        all_chunks(seq![chunk] + rest) <==> (chunk matches Polled::Ready(Ok(_))) && all_chunks(rest),
{
    let all = seq![chunk] + rest;
    assert(all.skip(1) =~= rest);
    assert(all[0] == chunk);
    if all_chunks(all) {
        assert forall|i: int| 0 <= i < rest.len() implies (#[trigger] rest[i]) matches Polled::Ready(
            Ok(_),
        ) by {
            assert(all[i + 1] == rest[i]);
        }
    }
}

/// Items and nothing else are values that were all written, and they are
/// what was written.
pub proof fn lemma_ready_reports<E>(items: Seq<Seq<char>>)
    ensures
        no_end_within(ready_reports::<E>(items)),
        all_written(ready_reports::<E>(items)),
        unspoiled(ready_reports::<E>(items)),
        written(ready_reports::<E>(items)) == items,
    decreases items.len(),
{
    let reports = ready_reports::<E>(items);
    if items.len() > 0 {
        assert(reports[0] == Polled::<Result<Result<Seq<char>, serde_json::Error>, E>>::Ready(
            Ok(Ok(items[0])),
        ));
        assert(reports.skip(1) =~= ready_reports::<E>(items.skip(1)));
        lemma_ready_reports::<E>(items.skip(1));
        assert(seq![items[0]] + items.skip(1) =~= items);
    } else {
        assert(written(reports) =~= items);
    }
}

/// From a state in which items are framed, the polls over `reports` and the
/// end of the inner sequence give one answer for each report and the closing
/// token.
proof fn lemma_array_run_streaming<E>(is_first: bool, reports: Seq<EncodedView<E>>)
    requires
        no_end_within(reports),
    ensures
        ({
            let (end, chunks) = array_run::<E>(
                FrameState::Streaming { is_first },
                reports.push(Polled::Finished),
            );
            &&& end == FrameState::Closed
            &&& chunks.len() == reports.len() + 1
            &&& all_written(reports) ==> all_chunks(chunks)
            &&& (is_first ==> unspoiled(reports)) ==> joined_text(chunks) == array_items_text(
                is_first,
                written(reports),
            ) + array_closing()
        }),
    decreases reports.len(),
{
    let state = FrameState::Streaming { is_first };
    let all = reports.push(Polled::Finished);
    let (next, chunk) = array_step(state, all[0]);
    let (end, rest) = array_run(next, all.skip(1));
    lemma_joined_text_cons(chunk, rest);
    if reports.len() == 0 {
        assert(rest =~= Seq::empty());
        assert(joined_text(rest) =~= Seq::<char>::empty());
        assert(chunk_text(chunk) + joined_text(rest) =~= array_items_text(
            is_first,
            written(reports),
        ) + array_closing());
    } else {
        let later = reports.skip(1);
        assert(all[0] == reports[0]);
        assert(all.skip(1) =~= later.push(Polled::Finished));
        assert(no_end_within(later)) by {
            assert forall|i: int| 0 <= i < later.len() implies !((#[trigger] later[i]) is Finished) by {
                assert(later[i] == reports[i + 1]);
            }
        }
        if all_written(reports) {
            assert(all_written(later)) by {
                assert forall|i: int| 0 <= i < later.len() implies (#[trigger] later[i]) matches Polled::Ready(
                    Ok(Ok(_)),
                ) by {
                    assert(later[i] == reports[i + 1]);
                }
            }
        }
        match reports[0] {
            Polled::Ready(Ok(Ok(text))) => {
                lemma_array_run_streaming::<E>(false, later);
                assert(written(reports).skip(1) =~= written(later));
                assert(chunk_text(chunk) + (array_items_text(false, written(later))
                    + array_closing()) =~= array_items_text(is_first, written(reports))
                    + array_closing());
            },
            Polled::Ready(Ok(Err(_))) => {
                lemma_array_run_streaming::<E>(false, later);
                if is_first ==> unspoiled(reports) {
                    assert(array_items_text(false, written(later)) =~= array_items_text(
                        is_first,
                        written(reports),
                    ));
                    assert(chunk_text(chunk) + joined_text(rest) =~= joined_text(rest));
                }
            },
            _ => {
                lemma_array_run_streaming::<E>(is_first, later);
                assert(chunk_text(chunk) + joined_text(rest) =~= joined_text(rest));
            },
        }
    }
}

/// Whatever the inner sequence reports before it ends, every poll up to the
/// closing token is answered, and the chunks, one behind the other, are the
/// array of the values that were written as JSON, in their order. A report of
/// nothing yet, and a failure of the backend, leave no trace in the text.
///
/// The one thing left out is a value that could not be written and came
/// before every written one.
pub proof fn lemma_array_of_reports<E>(reports: Seq<EncodedView<E>>)
    requires
        no_end_within(reports),
        unspoiled(reports),
    ensures
        ({
            let (end, chunks) = array_run::<E>(
                FrameState::NotStarted,
                reports.push(Polled::Finished),
            );
            &&& end == FrameState::Closed
            &&& chunks.len() == reports.len() + 2
            &&& all_written(reports) ==> all_chunks(chunks)
            &&& joined_text(chunks) == array_text(written(reports))
        }),
{
    let all = reports.push(Polled::Finished);
    let (next, chunk) = array_step::<E>(FrameState::NotStarted, Polled::Pending);
    let (end, rest) = array_run::<E>(next, all);
    lemma_array_run_streaming::<E>(true, reports);
    lemma_joined_text_cons(chunk, rest);
    assert(array_opening() + (array_items_text(true, written(reports)) + array_closing())
        =~= array_text(written(reports)));
}

/// Where no item fails, an array of `n` items takes `n + 2` chunks: the
/// opening token, one chunk for each item, the closing token. One behind the
/// other they are the array's text, and the next poll reports the end.
pub proof fn lemma_array_of_items<E>(items: Seq<Seq<char>>)
    ensures
        ({
            let (end, chunks) = array_run::<E>(FrameState::NotStarted, array_reports(items));
            &&& end == FrameState::Closed
            &&& chunks.len() == items.len() + 2
            &&& all_chunks(chunks)
            &&& joined_text(chunks) == array_text(items)
        }),
{
    lemma_ready_reports::<E>(items);
    lemma_array_of_reports::<E>(ready_reports(items));
}

/// Once the closing token is out, every poll reports the end and emits
/// nothing, whatever it is handed.
pub proof fn lemma_array_ends<E>(state: FrameState, polled: EncodedView<E>)
    requires
        state is Closed || state is Done,
    ensures
        array_step(state, polled) == (FrameState::Done, Polled::<
            Result<Seq<char>, SerializedStreamError<E>>,
        >::Finished),
{
}

} // verus!
