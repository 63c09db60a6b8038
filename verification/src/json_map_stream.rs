use vstd::prelude::*;

use crate::json_array_stream::{
    Chunk, ChunkView, Encoded, EncodedView, all_chunks, all_written, chunk_text, chunk_view,
    encoded_view, joined_text, lemma_joined_text_cons, no_end_within, unspoiled, written, yielded,
};
use crate::owned_pool_stream::OwnedPoolStream;
use crate::polled::Polled;
use crate::serialized_stream_error::SerializedStreamError;

verus! {

/// Where the framing of an object of arrays stands between two polls.
///
/// A poll that takes a label binds its sequence and emits its opening token
/// at once, and a poll that sees the last sequence end emits the closing token
/// at once. So no state waits for a token that is still to be emitted, and
/// none has to carry a label.
#[derive(Clone, Copy, PartialEq, Eq, Structural, Debug)]
pub enum KeyedFrameState {
    /// Nothing has been emitted and nothing is bound.
    Init,
    /// The array of one label is open and its sequence is bound. `is_first`
    /// holds until that sequence has yielded a value.
    EmittingItems { is_first: bool },
    /// The output has ended and nothing is bound.
    Done,
}

/// The JSON text of a string, quotes and escapes included: what
/// `serde_json::to_string` gives for it.
pub uninterp spec fn json_string_text(text: Seq<char>) -> Seq<char>;

/// Calls `serde_json::to_string` on a string. Where the call succeeds, its
/// result is the JSON text of that string. Nothing is claimed of when it does.
#[verifier::external_body]
fn json_label(label: &str) -> (encoded: Result<String, serde_json::Error>)
    ensures
        encoded matches Ok(text) ==> text@ == json_string_text(label@),
{
    serde_json::to_string(label)
}

/// The token that opens the array of a label, given the label's JSON text:
/// it opens the object before the first label and closes the array before it
/// after any other.
pub open spec fn label_opening(first: bool, label_text: Seq<char>) -> Seq<char> {
    if first {
        "{\n    "@ + label_text + ": ["@
    } else {
        "\n    ],\n    "@ + label_text + ": ["@
    }
}

/// One item of a label's array as it is emitted, on a line of its own.
pub open spec fn framed_member(is_first: bool, text: Seq<char>) -> Seq<char> {
    if is_first {
        "\n        "@ + text
    } else {
        ",\n        "@ + text
    }
}

/// The token that ends the output: the whole object where there was no label,
/// the end of the last array and of the object otherwise.
pub open spec fn object_closing(first: bool) -> Seq<char> {
    if first {
        "{}"@
    } else {
        "\n    ]\n}"@
    }
}

/// Whether a poll takes the next label: at the start, and when the sequence of
/// the label before it has ended.
pub open spec fn opens_label<E>(
    state: KeyedFrameState,
    labels: Seq<Seq<char>>,
    polled: EncodedView<E>,
) -> bool {
    labels.len() > 0 && (state is Init || (state is EmittingItems && polled is Finished))
}

/// One poll, where the label it takes, if any, can be written as JSON: the
/// state after it, the labels still to come, and the answer.
///
/// `polled` is what the bound sequence reported. It is looked at while the
/// state is `EmittingItems` and nowhere else.
pub open spec fn map_step<E>(
    state: KeyedFrameState,
    labels: Seq<Seq<char>>,
    polled: EncodedView<E>,
) -> (KeyedFrameState, Seq<Seq<char>>, ChunkView<E>) {
    match state {
        KeyedFrameState::Init => if labels.len() > 0 {
            (
                KeyedFrameState::EmittingItems { is_first: true },
                labels.skip(1),
                Polled::Ready(Ok(label_opening(true, json_string_text(labels[0])))),
            )
        } else {
            (KeyedFrameState::Done, labels, Polled::Ready(Ok(object_closing(true))))
        },
        KeyedFrameState::EmittingItems { is_first } => match polled {
            Polled::Pending => (state, labels, Polled::Pending),
            Polled::Ready(Ok(Ok(text))) => (
                KeyedFrameState::EmittingItems { is_first: false },
                labels,
                Polled::Ready(Ok(framed_member(is_first, text))),
            ),
            Polled::Ready(Ok(Err(failure))) => (
                KeyedFrameState::EmittingItems { is_first: false },
                labels,
                Polled::Ready(Err(SerializedStreamError::EncodingError(failure))),
            ),
            Polled::Ready(Err(error)) => (
                state,
                labels,
                Polled::Ready(Err(SerializedStreamError::SourceError(error))),
            ),
            Polled::Finished => if labels.len() > 0 {
                (
                    KeyedFrameState::EmittingItems { is_first: true },
                    labels.skip(1),
                    Polled::Ready(Ok(label_opening(false, json_string_text(labels[0])))),
                )
            } else {
                (KeyedFrameState::Done, labels, Polled::Ready(Ok(object_closing(false))))
            },
        },
        KeyedFrameState::Done => (KeyedFrameState::Done, labels, Polled::Finished),
    }
}

/// A poll that took a label which could not be written as JSON: the answer is
/// an encoding error and the output ends there.
pub open spec fn label_failed<E>(
    state: KeyedFrameState,
    labels: Seq<Seq<char>>,
    polled: EncodedView<E>,
    chunk: ChunkView<E>,
    next: KeyedFrameState,
) -> bool {
    &&& opens_label(state, labels, polled)
    &&& chunk matches Polled::Ready(Err(SerializedStreamError::EncodingError(_)))
    &&& next == KeyedFrameState::Done
}

/// The opening token of a label, given what writing the label as JSON gave,
/// or the failure as an encoding error.
pub fn frame_label<E>(first: bool, encoded: Result<String, serde_json::Error>) -> (framed: Result<
    String,
    SerializedStreamError<E>,
>)
    ensures
        match encoded {
            Ok(text) => framed matches Ok(out) && out@ == label_opening(first, text@),
            Err(failure) => framed == Err::<String, SerializedStreamError<E>>(
                SerializedStreamError::EncodingError(failure),
            ),
        },
{
    match encoded {
        Ok(text) => {
            let mut out = if first {
                String::from_str("{\n    ")
            } else {
                String::from_str("\n    ],\n    ")
            };
            out.append(text.as_str());
            out.append(": [");
            Ok(out)
        },
        Err(failure) => Err(SerializedStreamError::EncodingError(failure)),
    }
}

/// Frames one value of a label's array, given what writing it as JSON gave.
pub fn frame_member<E>(is_first: bool, encoded: Result<String, serde_json::Error>) -> (framed: Result<
    String,
    SerializedStreamError<E>,
>)
    ensures
        match encoded {
            Ok(text) => framed matches Ok(out) && out@ == framed_member(is_first, text@),
            Err(failure) => framed == Err::<String, SerializedStreamError<E>>(
                SerializedStreamError::EncodingError(failure),
            ),
        },
{
    match encoded {
        Ok(text) => {
            let mut out = if is_first {
                String::from_str("\n        ")
            } else {
                String::from_str(",\n        ")
            };
            out.append(text.as_str());
            Ok(out)
        },
        Err(failure) => Err(SerializedStreamError::EncodingError(failure)),
    }
}

/// What is bound at the moment, together with the state that goes with it, so
/// that a sequence is bound exactly while items are emitted.
enum Phase<R, S> {
    Init,
    EmittingItems { is_first: bool, active: OwnedPoolStream<R, S> },
    Done,
}

/// Frames labelled sequences as one JSON object whose values are arrays.
///
/// The encoder is made with a resource, the labels in order, each with what is
/// to be bound to the resource for it, and the function that binds. A label's
/// sequence is bound when its turn comes and released when it has ended, before
/// the next one is bound, so at most one is bound at any time.
///
/// The encoder never polls. The driver polls the bound sequence through
/// `active_mut` while `wants_item` holds, and hands the report to `poll_next`.
#[verifier::reject_recursive_types(R)]
#[verifier::reject_recursive_types(D)]
#[verifier::reject_recursive_types(S)]
pub struct JsonMapStream<R, D, S, B> where B: Fn(&R, D) -> S {
    phase: Phase<R, S>,
    pool: R,
    bind: B,
    /// The labels still to come, the next one last.
    queue: Vec<(String, D)>,
}

impl<R, D, S, B> JsonMapStream<R, D, S, B> where B: Fn(&R, D) -> S {
    /// The function that binds accepts every handle and every descriptor.
    /// The constructor asks for it, and no method changes the function.
    pub open spec fn wf(&self) -> bool {
        forall|pool: &R, query: D| call_requires(self.binder(), (pool, query))
    }

    pub closed spec fn state(&self) -> KeyedFrameState {
        self.phase.state()
    }

    /// The one sequence that is bound, with its handle on the resource.
    pub closed spec fn active(&self) -> Option<OwnedPoolStream<R, S>> {
        self.phase.active()
    }

    /// The resource.
    pub closed spec fn pool(&self) -> R {
        self.pool
    }

    /// The function that binds.
    pub closed spec fn binder(&self) -> B {
        self.bind
    }

    /// The labels still to come, in order, each with what is bound for it.
    pub closed spec fn pending(&self) -> Seq<(String, D)> {
        Seq::new(self.queue@.len(), |i: int| self.queue@[self.queue@.len() - 1 - i])
    }

    /// The labels still to come, in order.
    pub open spec fn labels(&self) -> Seq<Seq<char>> {
        Seq::new(self.pending().len(), |i: int| self.pending()[i].0@)
    }

    /// The bound sequence is what the function that binds gave for `query`
    /// and a handle cloned from the resource, and it owns that handle.
    pub open spec fn bound_to(&self, query: D) -> bool where R: Clone {
        &&& self.active() matches Some(bound)
        &&& cloned(self.pool(), bound.pool())
        &&& call_ensures(self.binder(), (&bound.pool(), query), bound.stream())
    }

    /// A sequence is bound exactly while items are emitted.
    pub proof fn lemma_bound_while_emitting(&self)
        ensures
            self.active() is Some <==> self.state() is EmittingItems,
    {
    }

    /// An encoder for `descriptors`, in their order, that has emitted nothing
    /// and bound nothing yet.
    pub fn from(pool: R, descriptors: Vec<(String, D)>, bind: B) -> (encoder: Self)
        requires
            forall|pool: &R, query: D| call_requires(bind, (pool, query)),
        ensures
            encoder.wf(),
            encoder.state() == KeyedFrameState::Init,
            encoder.active() is None,
            encoder.pool() == pool,
            encoder.binder() == bind,
            encoder.pending() == descriptors@,
    {
        let ghost all = descriptors@;
        let mut rest = descriptors;
        let mut queue: Vec<(String, D)> = Vec::new();
        while rest.len() > 0
            invariant
                rest@.len() + queue@.len() == all.len(),
                rest@ == all.subrange(0, rest@.len() as int),
                forall|j: int| 0 <= j < queue@.len() ==> queue@[j] == all[all.len() - 1 - j],
            decreases rest@.len(),
        {
            match rest.pop() {
                Some(entry) => queue.push(entry),
                None => {},
            }
        }
        let encoder = JsonMapStream { phase: Phase::Init, pool, bind, queue };
        assert(encoder.pending() =~= all);
        encoder
    }

    pub fn frame_state(&self) -> (state: KeyedFrameState)
        ensures
            state == self.state(),
    {
        match &self.phase {
            Phase::Init => KeyedFrameState::Init,
            Phase::EmittingItems { is_first, .. } => KeyedFrameState::EmittingItems {
                is_first: *is_first,
            },
            Phase::Done => KeyedFrameState::Done,
        }
    }

    /// Whether the next poll looks at a report of the bound sequence.
    pub fn wants_item(&self) -> (wanted: bool)
        ensures
            wanted == (self.state() is EmittingItems),
    {
        match &self.phase {
            Phase::EmittingItems { .. } => true,
            _ => false,
        }
    }

    /// How many labels are still to come.
    pub fn pending_len(&self) -> (len: usize)
        ensures
            len == self.pending().len(),
    {
        self.queue.len()
    }

    /// The bound sequence, for the driver to poll; `None` where none is bound.
    pub fn active_mut(&mut self) -> (active: Option<&mut S>)
        ensures
            final(self).state() == old(self).state(),
            final(self).pending() == old(self).pending(),
            final(self).pool() == old(self).pool(),
            final(self).binder() == old(self).binder(),
            match active {
                Some(stream) => {
                    &&& old(self).active() matches Some(before)
                    &&& final(self).active() matches Some(after)
                    &&& *stream == before.stream()
                    &&& after.stream() == *final(stream)
                    &&& after.pool() == before.pool()
                },
                None => old(self).active() is None && final(self).active() is None,
            },
    {
        self.phase.stream_mut()
    }

    /// Takes the next label, if there is one, and binds its sequence; ends the
    /// output if there is none. Nothing may be bound when this is called.
    fn open_next<E>(&mut self, first: bool) -> (chunk: Chunk<E>) where R: Clone
        requires
            old(self).wf(),
            old(self).active() is None,
        ensures
            final(self).wf(),
            final(self).pool() == old(self).pool(),
            final(self).binder() == old(self).binder(),
            old(self).pending().len() == 0 ==> {
                &&& chunk_view(chunk) == Polled::<Result<Seq<char>, SerializedStreamError<E>>>::Ready(
                    Ok(object_closing(first)),
                )
                &&& final(self).state() == KeyedFrameState::Done
                &&& final(self).pending() == old(self).pending()
            },
            old(self).pending().len() > 0 ==> {
                &&& final(self).pending() == old(self).pending().skip(1)
                &&& match chunk {
                    Polled::Ready(Ok(text)) => {
                        &&& text@ == label_opening(
                            first,
                            json_string_text(old(self).pending()[0].0@),
                        )
                        &&& final(self).state() == KeyedFrameState::EmittingItems { is_first: true }
                        &&& final(self).bound_to(old(self).pending()[0].1)
                    },
                    Polled::Ready(Err(error)) => {
                        &&& error is EncodingError
                        &&& final(self).state() == KeyedFrameState::Done
                    },
                    _ => false,
                }
            },
    {
        let ghost before = self.pending();
        match self.queue.pop() {
            None => {
                self.phase = Phase::Done;
                assert(self.binder() == old(self).binder());
                assert(self.pending() =~= before);
                let closing = if first {
                    String::from_str("{}")
                } else {
                    String::from_str("\n    ]\n}")
                };
                Polled::Ready(Ok(closing))
            },
            Some(entry) => {
                assert(self.pending() =~= before.skip(1));
                let (label, query) = entry;
                assert(label == before[0].0 && query == before[0].1);
                match frame_label(first, json_label(label.as_str())) {
                    Ok(text) => {
                        let handle = self.pool.clone();
                        assert(self.binder() == old(self).binder());
                        assert(call_requires(self.binder(), (&handle, query)));
                        let active = OwnedPoolStream::from(handle, query, &self.bind);
                        self.phase = Phase::EmittingItems { is_first: true, active };
                        assert(self.binder() == old(self).binder());
                        Polled::Ready(Ok(text))
                    },
                    Err(error) => {
                        self.phase = Phase::Done;
                        assert(self.binder() == old(self).binder());
                        Polled::Ready(Err(error))
                    },
                }
            },
        }
    }

    /// Answers one poll.
    pub fn poll_next<E>(&mut self, polled: Encoded<E>) -> (chunk: Chunk<E>) where R: Clone
        requires
            old(self).wf(),
        ensures
            final(self).wf(),
            final(self).pool() == old(self).pool(),
            final(self).binder() == old(self).binder(),
            final(self).active() is Some <==> final(self).state() is EmittingItems,
            final(self).pending() == if opens_label(
                old(self).state(),
                old(self).labels(),
                encoded_view(polled),
            ) {
                old(self).pending().skip(1)
            } else {
                old(self).pending()
            },
            label_failed(
                old(self).state(),
                old(self).labels(),
                encoded_view(polled),
                chunk_view(chunk),
                final(self).state(),
            ) || (final(self).state(), final(self).labels(), chunk_view(chunk)) == map_step(
                old(self).state(),
                old(self).labels(),
                encoded_view(polled),
            ),
            if opens_label(old(self).state(), old(self).labels(), encoded_view(polled)) {
                final(self).state() is EmittingItems ==> final(self).bound_to(old(self).pending()[0].1)
            } else {
                final(self).state() is EmittingItems ==> final(self).active() == old(self).active()
            },
    {
        let ghost labels = self.labels();
        let ghost pending = self.pending();
        let state = self.frame_state();
        let chunk = match state {
            KeyedFrameState::Init => self.open_next(true),
            KeyedFrameState::EmittingItems { is_first } => match polled {
                Polled::Pending => Polled::Pending,
                Polled::Ready(Ok(encoded)) => {
                    self.phase.past_first();
                    Polled::Ready(frame_member(is_first, encoded))
                },
                Polled::Ready(Err(error)) => Polled::Ready(
                    Err(SerializedStreamError::SourceError(error)),
                ),
                Polled::Finished => {
                    self.phase = Phase::Done;
                    assert(self.binder() == old(self).binder());
                    self.open_next(false)
                },
            },
            KeyedFrameState::Done => Polled::Finished,
        };
        proof {
            assert(self.binder() == old(self).binder());
            if self.pending() == pending {
                assert(self.labels() =~= labels);
            } else {
                assert(self.labels() =~= labels.skip(1));
            }
        }
        chunk
    }
}

impl<R, S> Phase<R, S> {
    spec fn active(&self) -> Option<OwnedPoolStream<R, S>> {
        match *self {
            Phase::EmittingItems { active, .. } => Some(active),
            _ => None,
        }
    }

    spec fn state(&self) -> KeyedFrameState {
        match *self {
            Phase::Init => KeyedFrameState::Init,
            Phase::EmittingItems { is_first, .. } => KeyedFrameState::EmittingItems { is_first },
            Phase::Done => KeyedFrameState::Done,
        }
    }

    fn stream_mut(&mut self) -> (active: Option<&mut S>)
        ensures
            final(self).state() == old(self).state(),
            match active {
                Some(stream) => {
                    &&& old(self).active() matches Some(before)
                    &&& final(self).active() matches Some(after)
                    &&& *stream == before.stream()
                    &&& after.stream() == *final(stream)
                    &&& after.pool() == before.pool()
                },
                None => old(self).active() is None && final(self).active() is None,
            },
    {
        match self {
            Phase::EmittingItems { active, .. } => Some(active.stream_mut()),
            _ => None,
        }
    }

    /// Notes that the bound sequence has yielded a value.
    fn past_first(&mut self)
        ensures
            final(self).active() == old(self).active(),
            final(self).state() == match old(self).state() {
                KeyedFrameState::EmittingItems { .. } => KeyedFrameState::EmittingItems {
                    is_first: false,
                },
                other => other,
            },
    {
        match self {
            Phase::EmittingItems { is_first, .. } => {
                *is_first = false;
            },
            _ => {},
        }
    }
}

/// The state and the answers of the polls from `state` on, where every label
/// can be written as JSON, while the bound sequences report `reports`, one
/// report for each poll that looks at one, until the reports are used up or
/// the output has ended.
pub open spec fn map_run<E>(
    state: KeyedFrameState,
    labels: Seq<Seq<char>>,
    reports: Seq<EncodedView<E>>,
) -> (KeyedFrameState, Seq<ChunkView<E>>)
    decreases reports.len(), (if state is Init { 1nat } else { 0nat }),
{
    match state {
        KeyedFrameState::Init => {
            let (next, left, chunk) = map_step::<E>(state, labels, Polled::Pending);
            let (end, rest) = map_run(next, left, reports);
            (end, seq![chunk] + rest)
        },
        KeyedFrameState::EmittingItems { .. } => if reports.len() == 0 {
            (state, Seq::empty())
        } else {
            let (next, left, chunk) = map_step(state, labels, reports[0]);
            let (end, rest) = map_run(next, left, reports.skip(1));
            (end, seq![chunk] + rest)
        },
        KeyedFrameState::Done => (state, Seq::empty()),
    }
}

/// The labels of `entries`, in order.
pub open spec fn entry_labels<A>(entries: Seq<(Seq<char>, A)>) -> Seq<Seq<char>> {
    Seq::new(entries.len(), |i: int| entries[i].0)
}

/// Each label with the texts of the values that its sequence reported and
/// that were written as JSON.
pub open spec fn written_entries<E>(entries: Seq<(Seq<char>, Seq<EncodedView<E>>)>) -> Seq<
    (Seq<char>, Seq<Seq<char>>),
> {
    Seq::new(entries.len(), |i: int| (entries[i].0, written(entries[i].1)))
}

/// How many reports `entries` hold, all labels together.
pub open spec fn total_reports<E>(entries: Seq<(Seq<char>, Seq<EncodedView<E>>)>) -> nat
    decreases entries.len(),
{
    if entries.len() == 0 {
        0
    } else {
        entries[0].1.len() + total_reports(entries.skip(1))
    }
}

/// What the polls look at where each label's sequence reports what stands
/// with the label in `entries` and then ends.
pub open spec fn object_reports<E>(entries: Seq<(Seq<char>, Seq<EncodedView<E>>)>) -> Seq<
    EncodedView<E>,
>
    decreases entries.len(),
{
    if entries.len() == 0 {
        Seq::empty()
    } else {
        entries[0].1.push(Polled::Finished) + object_reports(entries.skip(1))
    }
}

/// Whether no sequence reports its end before it ends, and none starts with a
/// value that could not be written and then has a written one.
pub open spec fn well_reported<E>(entries: Seq<(Seq<char>, Seq<EncodedView<E>>)>) -> bool {
    forall|i: int|
        0 <= i < entries.len() ==> no_end_within((#[trigger] entries[i]).1) && unspoiled(
            entries[i].1,
        )
}

/// Whether every report is a value that was written as JSON.
pub open spec fn all_entries_written<E>(entries: Seq<(Seq<char>, Seq<EncodedView<E>>)>) -> bool {
    forall|i: int| 0 <= i < entries.len() ==> all_written((#[trigger] entries[i]).1)
}

/// The items of one label as they stand between its brackets.
pub open spec fn members_text(is_first: bool, items: Seq<Seq<char>>) -> Seq<char>
    decreases items.len(),
{
    if items.len() == 0 {
        Seq::empty()
    } else {
        framed_member(is_first, items[0]) + members_text(false, items.skip(1))
    }
}

/// The labels with their arrays, up to the last item of the last array.
pub open spec fn arrays_text(first: bool, entries: Seq<(Seq<char>, Seq<Seq<char>>)>) -> Seq<char>
    decreases entries.len(),
{
    if entries.len() == 0 {
        Seq::empty()
    } else {
        label_opening(first, json_string_text(entries[0].0)) + members_text(true, entries[0].1)
            + arrays_text(false, entries.skip(1))
    }
}

/// A whole object: `{}` where there is no label, else each label with its
/// array, in order, and the closing token.
pub open spec fn object_text(entries: Seq<(Seq<char>, Seq<Seq<char>>)>) -> Seq<char> {
    if entries.len() == 0 {
        object_closing(true)
    } else {
        arrays_text(true, entries) + object_closing(false)
    }
}

/// The polls over what one label's sequence reports before it ends give one
/// answer for each report, and go on as they would have without those
/// reports.
proof fn lemma_map_run_sequence<E>(
    is_first: bool,
    labels: Seq<Seq<char>>,
    reports: Seq<EncodedView<E>>,
    tail: Seq<EncodedView<E>>,
)
    requires
        no_end_within(reports),
    ensures
        ({
            let (end, chunks) = map_run::<E>(
                KeyedFrameState::EmittingItems { is_first },
                labels,
                reports + tail,
            );
            let (after_end, after) = map_run::<E>(
                KeyedFrameState::EmittingItems { is_first: is_first && !yielded(reports) },
                labels,
                tail,
            );
            &&& end == after_end
            &&& chunks.len() == reports.len() + after.len()
            &&& all_written(reports) ==> (all_chunks(chunks) <==> all_chunks(after))
            &&& (is_first ==> unspoiled(reports)) ==> joined_text(chunks) == members_text(
                is_first,
                written(reports),
            ) + joined_text(after)
        }),
    decreases reports.len(),
{
    let state = KeyedFrameState::EmittingItems { is_first };
    let all = reports + tail;
    if reports.len() == 0 {
        assert(all =~= tail);
        let (after_end, after) = map_run::<E>(state, labels, tail);
        assert(members_text(is_first, written(reports)) + joined_text(after) =~= joined_text(
            after,
        ));
    } else {
        let later = reports.skip(1);
        let (next, left, chunk) = map_step(state, labels, all[0]);
        let (end, rest) = map_run(next, left, all.skip(1));
        assert(all[0] == reports[0]);
        assert(all.skip(1) =~= later + tail);
        lemma_joined_text_cons(chunk, rest);
        assert(no_end_within(later)) by {
            assert forall|i: int| 0 <= i < later.len() implies !((#[trigger] later[i]) is Finished) by {
                assert(later[i] == reports[i + 1]);
            }
        }
        if all_written(reports) {
            assert(all_written(later)) by {
                assert forall|i: int| 0 <= i < later.len() implies (#[trigger] later[i]) matches Polled::Ready(
                    Ok(Ok(_)),
                ) by {
                    assert(later[i] == reports[i + 1]);
                }
            }
        }
        match reports[0] {
            Polled::Ready(Ok(Ok(text))) => {
                lemma_map_run_sequence::<E>(false, labels, later, tail);
                let (after_end, after) = map_run::<E>(
                    KeyedFrameState::EmittingItems { is_first: false },
                    labels,
                    tail,
                );
                assert(written(reports).skip(1) =~= written(later));
                assert(chunk_text(chunk) + (members_text(false, written(later)) + joined_text(
                    after,
                )) =~= members_text(is_first, written(reports)) + joined_text(after));
            },
            Polled::Ready(Ok(Err(_))) => {
                lemma_map_run_sequence::<E>(false, labels, later, tail);
                if is_first ==> unspoiled(reports) {
                    assert(members_text(false, written(later)) =~= members_text(
                        is_first,
                        written(reports),
                    ));
                    assert(chunk_text(chunk) + joined_text(rest) =~= joined_text(rest));
                }
            },
            _ => {
                lemma_map_run_sequence::<E>(is_first, labels, later, tail);
                assert(chunk_text(chunk) + joined_text(rest) =~= joined_text(rest));
            },
        }
    }
}

proof fn lemma_entries_skip<E>(entries: Seq<(Seq<char>, Seq<EncodedView<E>>)>)
    requires
        entries.len() > 0,
    ensures
        entry_labels(entries).skip(1) == entry_labels(entries.skip(1)),
        written_entries(entries).skip(1) == written_entries(entries.skip(1)),
        well_reported(entries) ==> well_reported(entries.skip(1)),
        all_entries_written(entries) ==> all_entries_written(entries.skip(1)),
{
    let others = entries.skip(1);
    assert(entry_labels(entries).skip(1) =~= entry_labels(others));
    assert(written_entries(entries).skip(1) =~= written_entries(others));
    if well_reported(entries) {
        assert forall|i: int| 0 <= i < others.len() implies no_end_within(
            (#[trigger] others[i]).1,
        ) && unspoiled(others[i].1) by {
            assert(others[i] == entries[i + 1]);
        }
    }
    if all_entries_written(entries) {
        assert forall|i: int| 0 <= i < others.len() implies all_written(
            (#[trigger] others[i]).1,
        ) by {
            assert(others[i] == entries[i + 1]);
        }
    }
}

/// From the end of one label's sequence on, the polls give the opening token
/// and the items of each label still to come, and the closing token.
proof fn lemma_map_run_rest<E>(is_first: bool, entries: Seq<(Seq<char>, Seq<EncodedView<E>>)>)
    requires
        well_reported(entries),
    ensures
        ({
            let (end, chunks) = map_run::<E>(
                KeyedFrameState::EmittingItems { is_first },
                entry_labels(entries),
                seq![Polled::Finished] + object_reports(entries),
            );
            &&& end == KeyedFrameState::Done
            &&& chunks.len() == entries.len() + total_reports(entries) + 1
            &&& all_entries_written(entries) ==> all_chunks(chunks)
            &&& joined_text(chunks) == arrays_text(false, written_entries(entries))
                + object_closing(false)
        }),
    decreases entries.len(), 1nat,
{
    let state = KeyedFrameState::EmittingItems { is_first };
    let labels = entry_labels(entries);
    let reports = seq![Polled::<Result<Result<Seq<char>, serde_json::Error>, E>>::Finished]
        + object_reports(entries);
    let (next, left, chunk) = map_step(state, labels, reports[0]);
    let (end, rest) = map_run(next, left, reports.skip(1));
    assert(reports.skip(1) =~= object_reports::<E>(entries));
    lemma_joined_text_cons(chunk, rest);
    if entries.len() == 0 {
        assert(joined_text(rest) =~= Seq::<char>::empty());
        assert(chunk_text(chunk) + joined_text(rest) =~= arrays_text(
            false,
            written_entries(entries),
        ) + object_closing(false));
    } else {
        lemma_map_run_opened::<E>(false, entries);
    }
}

/// From the opening of the first of `entries` on, the polls give its items,
/// and then what follows the end of its sequence.
proof fn lemma_map_run_opened<E>(first: bool, entries: Seq<(Seq<char>, Seq<EncodedView<E>>)>)
    requires
        entries.len() > 0,
        well_reported(entries),
    ensures
        ({
            let (end, chunks) = map_run::<E>(
                KeyedFrameState::EmittingItems { is_first: true },
                entry_labels(entries).skip(1),
                object_reports(entries),
            );
            &&& end == KeyedFrameState::Done
            &&& chunks.len() + 1 == entries.len() + total_reports(entries) + 1
            &&& all_entries_written(entries) ==> all_chunks(chunks)
            &&& label_opening(first, json_string_text(entries[0].0)) + joined_text(chunks)
                == arrays_text(first, written_entries(entries)) + object_closing(false)
        }),
    decreases entries.len(), 0nat,
{
    let reports = entries[0].1;
    let others = entries.skip(1);
    let tail = seq![Polled::<Result<Result<Seq<char>, serde_json::Error>, E>>::Finished]
        + object_reports(others);
    lemma_entries_skip(entries);
    assert(object_reports::<E>(entries) =~= reports + tail);
    lemma_map_run_sequence::<E>(true, entry_labels(others), reports, tail);
    lemma_map_run_rest::<E>(!yielded(reports), others);
    assert(written_entries(entries)[0] == (entries[0].0, written(reports)));
    assert(label_opening(first, json_string_text(entries[0].0)) + (members_text(
        true,
        written(reports),
    ) + (arrays_text(false, written_entries(others)) + object_closing(false))) =~= arrays_text(
        first,
        written_entries(entries),
    ) + object_closing(false));
}

/// Where every label can be written as JSON, whatever the bound sequences
/// report before they end, every poll up to the end of the output is
/// answered, and the chunks, one behind the other, are the object's text: the
/// labels in their order, each with the array of the values that its sequence
/// yielded and that were written as JSON, in their order. A report of nothing
/// yet, and a failure of the backend, leave no trace in the text.
///
/// The one thing left out is a value that could not be written and came
/// before every written one of its label.
pub proof fn lemma_object_of_reports<E>(entries: Seq<(Seq<char>, Seq<EncodedView<E>>)>)
    requires
        well_reported(entries),
    ensures
        ({
            let (end, chunks) = map_run::<E>(
                KeyedFrameState::Init,
                entry_labels(entries),
                object_reports(entries),
            );
            &&& end == KeyedFrameState::Done
            &&& chunks.len() == entries.len() + total_reports(entries) + 1
            &&& all_entries_written(entries) ==> all_chunks(chunks)
            &&& joined_text(chunks) == object_text(written_entries(entries))
        }),
{
    let labels = entry_labels(entries);
    let reports = object_reports::<E>(entries);
    let (next, left, chunk) = map_step::<E>(KeyedFrameState::Init, labels, Polled::Pending);
    let (end, rest) = map_run(next, left, reports);
    lemma_joined_text_cons(chunk, rest);
    if entries.len() == 0 {
        assert(joined_text(rest) =~= Seq::<char>::empty());
        assert(chunk_text(chunk) + joined_text(rest) =~= object_text(written_entries(entries)));
    } else {
        lemma_map_run_opened::<E>(true, entries);
    }
}

/// Once the output has ended, every poll reports the end and emits nothing,
/// whatever it is handed, and no label is taken.
pub proof fn lemma_map_ends<E>(labels: Seq<Seq<char>>, polled: EncodedView<E>)
    ensures
        map_step(KeyedFrameState::Done, labels, polled) == (
            KeyedFrameState::Done,
            labels,
            Polled::<Result<Seq<char>, SerializedStreamError<E>>>::Finished,
        ),
        !opens_label(KeyedFrameState::Done, labels, polled),
{
}

} // verus!
