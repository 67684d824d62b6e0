//! A streamed answer as a whole: what comes of it does not depend on how it arrives, and the pieces
//! that are handed out make up the message.

use crate::client::TokenUsage;
use crate::delta::extended;
use crate::newline_split::{first_line, lemma_newline_found};
use crate::streaming::{
    choice_applied, choices_applied, data_of, delta_chunks, events_do_not_depend_on_pieces, scan,
    Applied, Scan, StepView, StreamChoice, StreamChunk, StreamEvent, StreamState, StreamingChunk,
};
use crate::text::{concat, lemma_concat_push};
use vstd::prelude::*;
use vstd::utf8::{decode_utf8, valid_utf8};

verus! {

/// What comes of a streamed answer
pub struct Outcome {
    /// The chunks that were handed out
    pub chunks: Seq<StreamingChunk>,
    /// The state in the end
    pub state: StreamState,
    /// The end
    pub end: StepView,
}

/// What comes of a streamed answer of which `pieces` are still to arrive, after `out` has been
/// handed out: it is asked for chunks until its end, with bytes as they are needed, and `parse` for
/// its events.
pub open spec fn streamed(
    state: StreamState,
    pieces: Seq<Vec<u8>>,
    parse: spec_fn(Seq<char>) -> Result<StreamChunk, String>,
    out: Seq<StreamingChunk>,
) -> Outcome
    decreases
            pieces.len() + if state.ended {
                0nat
            } else {
                1nat
            },
            state.unread.len(),
            state.chunks.len(),
{
    proof {
        lemma_scan(state.unread, state.ended);
    }
    let (next, step) = state.polled();
    match step {
        StepView::Chunk(chunk) => streamed(next, pieces, parse, out.push(chunk)),
        StepView::NeedBytes => if pieces.len() > 0 {
            streamed(next.told(StreamEvent::Bytes(pieces[0])).0, pieces.skip(1), parse, out)
        } else {
            streamed(next.told(StreamEvent::Ended).0, pieces, parse, out)
        },
        StepView::Parse(data) => match next.told(parsed(parse, data)) {
            (last, Some(error)) => Outcome {
                chunks: out,
                state: last,
                end: StepView::Failed(error),
            },
            (following, None) => streamed(following, pieces, parse, out),
        },
        end => Outcome { chunks: out, state: next, end },
    }
}

/// The event that an attempt to parse makes.
pub open spec fn parsed(
    parse: spec_fn(Seq<char>) -> Result<StreamChunk, String>,
    data: Seq<char>,
) -> StreamEvent {
    match parse(data) {
        Ok(chunk) => StreamEvent::Parsed(chunk),
        Err(error) => StreamEvent::Invalid(error),
    }
}

/// All bytes of the pieces, one after the other.
pub open spec fn all_bytes(pieces: Seq<Vec<u8>>) -> Seq<u8>
    decreases pieces.len(),
{
    if pieces.len() == 0 {
        seq![]
    } else {
        pieces[0]@ + all_bytes(pieces.skip(1))
    }
}

/// The state with more bytes to be read.
spec fn fed(state: StreamState, bytes: Seq<u8>) -> StreamState {
    StreamState { unread: state.unread + bytes, ..state }
}

/// An event takes up bytes. More bytes are needed only as long as they may come, and there is an end
/// only once they do not.
pub proof fn lemma_scan(bytes: Seq<u8>, eof: bool)
    ensures
        scan(bytes, eof) matches Scan::Data { data, rest } ==> rest.len() < bytes.len(),
        scan(bytes, eof) is NeedBytes ==> !eof,
        scan(bytes, eof) is Ended ==> eof,
    decreases bytes.len(),
{
    match first_line(bytes, eof) {
        None => {},
        Some((line, rest)) => {
            lemma_newline_found(bytes);
            if valid_utf8(line) && data_of(decode_utf8(line)) is None {
                lemma_scan(rest, eof);
            }
        },
    }
}

/// It makes no difference whether bytes are there before they are needed.
proof fn lemma_fed_early(
    state: StreamState,
    pieces: Seq<Vec<u8>>,
    parse: spec_fn(Seq<char>) -> Result<StreamChunk, String>,
    out: Seq<StreamingChunk>,
)
    requires
        !state.ended,
        pieces.len() > 0,
    ensures
        streamed(state, pieces, parse, out) == streamed(
            fed(state, pieces[0]@),
            pieces.skip(1),
            parse,
            out,
        ),
    decreases state.unread.len(), state.chunks.len(),
{
    let bytes = pieces[0]@;
    let early = fed(state, bytes);
    let rest = pieces.skip(1);
    lemma_scan(state.unread, false);
    events_do_not_depend_on_pieces(state.unread, bytes, false);
    let (next, step) = state.polled();
    match step {
        StepView::Chunk(chunk) => {
            assert(early.polled() == (fed(next, bytes), step));
            lemma_fed_early(next, pieces, parse, out.push(chunk));
        },
        StepView::NeedBytes => {
            let late = next.told(StreamEvent::Bytes(pieces[0])).0;
            assert(late.polled() == early.polled());
            assert(streamed(late, rest, parse, out) == streamed(early, rest, parse, out));
        },
        StepView::Parse(data) => {
            assert(early.polled() == (fed(next, bytes), step));
            let event = parsed(parse, data);
            let (following, error) = next.told(event);
            assert(fed(next, bytes).told(event).1 == error);
            if error is None {
                assert(fed(next, bytes).told(event).0 == fed(following, bytes));
                lemma_fed_early(following, pieces, parse, out);
            }
        },
        _ => {
            assert(early.polled() == (next, step));
        },
    }
}

/// What comes of a streamed answer is what comes of all its bytes at once.
proof fn lemma_all_at_once(
    state: StreamState,
    pieces: Seq<Vec<u8>>,
    parse: spec_fn(Seq<char>) -> Result<StreamChunk, String>,
    out: Seq<StreamingChunk>,
)
    requires
        !state.ended,
    ensures
        streamed(state, pieces, parse, out) == streamed(
            fed(state, all_bytes(pieces)),
            seq![],
            parse,
            out,
        ),
    decreases pieces.len(),
{
    if pieces.len() == 0 {
        assert(pieces =~= seq![]);
        assert(state.unread + all_bytes(pieces) =~= state.unread);
    } else {
        let first = fed(state, pieces[0]@);
        let rest = pieces.skip(1);
        lemma_fed_early(state, pieces, parse, out);
        lemma_all_at_once(first, rest, parse, out);
        assert(state.unread + (pieces[0]@ + all_bytes(rest)) =~= state.unread + pieces[0]@
            + all_bytes(rest));
    }
}

/// How the bytes of an answer are cut into pieces makes no difference: the same chunks are handed
/// out in the same order, with the same end, the same message and the same token counts.
pub proof fn answers_do_not_depend_on_pieces(
    usage: TokenUsage,
    a: Seq<Vec<u8>>,
    b: Seq<Vec<u8>>,
    parse: spec_fn(Seq<char>) -> Result<StreamChunk, String>,
)
    requires
        all_bytes(a) == all_bytes(b),
    ensures
        streamed(StreamState::fresh(usage), a, parse, seq![]) == streamed(
            StreamState::fresh(usage),
            b,
            parse,
            seq![],
        ),
{
    lemma_all_at_once(StreamState::fresh(usage), a, parse, seq![]);
    lemma_all_at_once(StreamState::fresh(usage), b, parse, seq![]);
}

/// The content among chunks.
pub open spec fn contents(chunks: Seq<StreamingChunk>) -> Seq<Seq<char>>
    decreases chunks.len(),
{
    if chunks.len() == 0 {
        seq![]
    } else {
        match chunks.last() {
            StreamingChunk::Content(text) => contents(chunks.drop_last()).push(text@),
            StreamingChunk::Reasoning(_) => contents(chunks.drop_last()),
        }
    }
}

/// The reasoning among chunks.
pub open spec fn reasonings(chunks: Seq<StreamingChunk>) -> Seq<Seq<char>>
    decreases chunks.len(),
{
    if chunks.len() == 0 {
        seq![]
    } else {
        match chunks.last() {
            StreamingChunk::Content(_) => reasonings(chunks.drop_last()),
            StreamingChunk::Reasoning(text) => reasonings(chunks.drop_last()).push(text@),
        }
    }
}

/// A text that is there if any piece of it is.
pub open spec fn made_of(pieces: Seq<Seq<char>>) -> Option<Seq<char>> {
    if pieces.len() == 0 {
        None
    } else {
        Some(concat(pieces))
    }
}

/// One more chunk.
proof fn lemma_chunk_added(chunks: Seq<StreamingChunk>, chunk: StreamingChunk)
    ensures
        contents(chunks.push(chunk)) == match chunk {
            StreamingChunk::Content(text) => contents(chunks).push(text@),
            StreamingChunk::Reasoning(_) => contents(chunks),
        },
        reasonings(chunks.push(chunk)) == match chunk {
            StreamingChunk::Content(_) => reasonings(chunks),
            StreamingChunk::Reasoning(text) => reasonings(chunks).push(text@),
        },
{
    assert(chunks.push(chunk).drop_last() =~= chunks);
}

/// One more piece.
proof fn lemma_made_of_push(pieces: Seq<Seq<char>>, piece: Seq<char>)
    ensures
        made_of(pieces.push(piece)) == extended(made_of(pieces), Some(piece)),
{
    lemma_concat_push(pieces, piece);
    if pieces.len() == 0 {
        assert(concat(pieces) + piece =~= piece);
    }
}

/// Whether chunks make up the message so far.
spec fn made_up(
    content: Option<Seq<char>>,
    reasoning: Option<Seq<char>>,
    chunks: Seq<StreamingChunk>,
) -> bool {
    content == made_of(contents(chunks)) && reasoning == made_of(reasonings(chunks))
}

/// As long as nothing is wrong, choices add to the message what they add to the chunks.
proof fn lemma_choices_add_alike(
    out: Seq<StreamingChunk>,
    start: Applied,
    choices: Seq<StreamChoice>,
)
    requires
        made_up(start.message.content, start.message.reasoning_content, out + start.chunks),
        choices_applied(start, choices).error is None,
    ensures
        ({
            let applied = choices_applied(start, choices);
            made_up(
                applied.message.content,
                applied.message.reasoning_content,
                out + applied.chunks,
            )
        }),
    decreases choices.len(),
{
    if choices.len() > 0 {
        let before = choices_applied(start, choices.drop_last());
        let delta = choices.last().delta;
        assert(choices_applied(start, choices) == choice_applied(before, choices.last()));
        lemma_choices_add_alike(out, start, choices.drop_last());
        let chunks = out + before.chunks;
        let with_content = match delta.content {
            Some(text) => chunks.push(StreamingChunk::Content(text)),
            None => chunks,
        };
        match delta.content {
            Some(text) => {
                lemma_chunk_added(chunks, StreamingChunk::Content(text));
                lemma_made_of_push(contents(chunks), text@);
            },
            None => {},
        }
        let all = out + (before.chunks + delta_chunks(delta));
        match delta.reasoning_content {
            Some(text) => {
                lemma_chunk_added(with_content, StreamingChunk::Reasoning(text));
                lemma_made_of_push(reasonings(with_content), text@);
                assert(all =~= with_content.push(StreamingChunk::Reasoning(text)));
            },
            None => {
                assert(all =~= with_content);
            },
        }
    }
}

/// The chunks make up the message, from any point on where they do so far.
proof fn lemma_still_made_up(
    state: StreamState,
    pieces: Seq<Vec<u8>>,
    parse: spec_fn(Seq<char>) -> Result<StreamChunk, String>,
    out: Seq<StreamingChunk>,
)
    requires
        made_up(
            state.constructing.content,
            state.constructing.reasoning_content,
            out + state.chunks,
        ),
    ensures
        ({
            let outcome = streamed(state, pieces, parse, out);
            outcome.end is Finished ==> (outcome.state.full matches Some(message) && made_up(
                message.content,
                message.reasoning_content,
                outcome.chunks,
            ))
        }),
    decreases
            pieces.len() + if state.ended {
                0nat
            } else {
                1nat
            },
            state.unread.len(),
            state.chunks.len(),
{
    lemma_scan(state.unread, state.ended);
    let (next, step) = state.polled();
    match step {
        StepView::Chunk(chunk) => {
            assert(out.push(chunk) + next.chunks =~= out + state.chunks);
            lemma_still_made_up(next, pieces, parse, out.push(chunk));
        },
        StepView::NeedBytes => {
            if pieces.len() > 0 {
                let following = next.told(StreamEvent::Bytes(pieces[0])).0;
                lemma_still_made_up(following, pieces.skip(1), parse, out);
            } else {
                lemma_still_made_up(next.told(StreamEvent::Ended).0, pieces, parse, out);
            }
        },
        StepView::Parse(data) => {
            match (parse(data), next.told(parsed(parse, data))) {
                (Ok(chunk), (following, None)) => {
                    let start = Applied {
                        message: next.constructing,
                        chunks: next.chunks,
                        tokens: next.usage.streamed_tokens,
                        error: None,
                    };
                    lemma_choices_add_alike(out, start, chunk.choices@);
                    lemma_still_made_up(following, pieces, parse, out);
                },
                _ => {},
            }
        },
        _ => {
            assert(step is Finished ==> out + state.chunks =~= out);
        },
    }
}

/// The chunks that are handed out make up the message: once an answer has been streamed to its end
/// without an error, in whatever pieces, the content of the full message is the content of all
/// chunks in their order, and its reasoning is theirs.
pub proof fn chunks_make_up_the_message(
    usage: TokenUsage,
    pieces: Seq<Vec<u8>>,
    parse: spec_fn(Seq<char>) -> Result<StreamChunk, String>,
)
    requires
        streamed(StreamState::fresh(usage), pieces, parse, seq![]).end is Finished,
    ensures
        ({
            let outcome = streamed(StreamState::fresh(usage), pieces, parse, seq![]);
            &&& outcome.state.full matches Some(message)
            &&& message.content == made_of(contents(outcome.chunks))
            &&& message.reasoning_content == made_of(reasonings(outcome.chunks))
        }),
{
    let none: Seq<StreamingChunk> = seq![];
    assert(none + none =~= none);
    lemma_still_made_up(StreamState::fresh(usage), pieces, parse, none);
}

} // verus!
