//! The listener-side state machine: reassembling a FETCH request from a
//! streaming transport, and framing the reply.
//!
//! One socket read may return a partial message or more than one message's
//! worth of bytes, so the parser runs incrementally: the caller reads a
//! chunk and hands it in, and the parser answers whether it needs more,
//! finished a filename, or must reject the peer with a response code.  The
//! parser performs no I/O itself, which makes every transition a pure,
//! testable function.

use vstd::prelude::*;

verus! {

use crate::codec::{append_bytes, first_nul, nul_free, spec_fetch_message};
use crate::resolve::{fetch_name_ok, resolve_path, spec_resolved};
use crate::error::{Error, ErrorKind};
use crate::types::ResponseType;

/// Capacity of the filename accumulator, in bytes.
pub const NAME_CAPACITY: usize = 100;

/// Holds when every collected byte is ASCII.
pub open spec fn ascii_name(name: Seq<u8>) -> bool {
    forall|i: int| 0 <= i < name.len() ==> #[trigger] name[i] < 128
}

/// The parser's state, as contracts speak of it.
pub enum ParserModel {
    /// No byte seen yet; the next chunk must start with an action tag.
    Awaiting,
    /// A FETCH tag was seen; `name` holds the filename bytes so far.
    Collecting { name: Seq<u8> },
    /// A full filename was collected.
    Done { name: Seq<u8> },
    /// The request was rejected with `response`, for the reason `kind`.
    Failed { response: ResponseType, kind: ErrorKind },
}

/// What feeding one chunk produced, as contracts speak of it.
pub enum SpecOutcome {
    /// The chunk is consumed; another read is needed.
    NeedMore,
    /// The peer disconnected before sending anything: a no-op.
    Idle,
    /// A full filename was collected; the `Done` state holds it.
    Complete,
    /// The request is rejected: send the response tag, report the error.
    Reject(ResponseType, ErrorKind),
}

/// One step of byte collection: what consuming `bytes` does to a name
/// accumulator holding `name`.
pub enum CollectStep {
    /// All bytes consumed without a terminator; collection continues.
    More(Seq<u8>),
    /// A NUL as the final byte ended the name.
    Finished(Seq<u8>),
    /// The accumulator overran, or bytes followed the terminator.
    Overflow,
}

/// Consumes chunk bytes one at a time: a NUL anywhere but the last byte
/// of the chunk overruns (there is no message pipelining); a final NUL
/// finishes whatever name fit so far; a name byte that would grow the
/// accumulator past its capacity overruns.
pub open spec fn spec_collect(name: Seq<u8>, bytes: Seq<u8>) -> CollectStep
    decreases bytes.len(),
{
    if bytes.len() == 0 {
        CollectStep::More(name)
    } else if bytes[0] == 0 {
        if bytes.len() == 1 {
            CollectStep::Finished(name)
        } else {
            CollectStep::Overflow
        }
    } else if name.len() >= NAME_CAPACITY {
        CollectStep::Overflow
    } else {
        spec_collect(name.push(bytes[0]), bytes.drop_first())
    }
}

/// Ends collection: a pure-ASCII name is done; anything else is rejected
/// as invalid data.
pub open spec fn spec_finish(name: Seq<u8>) -> (ParserModel, SpecOutcome) {
    if ascii_name(name) {
        (ParserModel::Done { name }, SpecOutcome::Complete)
    } else {
        (
            ParserModel::Failed {
                response: ResponseType::INVALID_DATA,
                kind: ErrorKind::InvalidEncoding,
            },
            SpecOutcome::Reject(ResponseType::INVALID_DATA, ErrorKind::InvalidEncoding),
        )
    }
}

/// Collection outcome lifted to a parser transition.
pub open spec fn spec_step_collect(name: Seq<u8>, bytes: Seq<u8>) -> (ParserModel, SpecOutcome) {
    match spec_collect(name, bytes) {
        CollectStep::More(n) => (ParserModel::Collecting { name: n }, SpecOutcome::NeedMore),
        CollectStep::Finished(n) => spec_finish(n),
        CollectStep::Overflow => (
            ParserModel::Failed {
                response: ResponseType::TOO_MUCH_DATA,
                kind: ErrorKind::TooMuchData,
            },
            SpecOutcome::Reject(ResponseType::TOO_MUCH_DATA, ErrorKind::TooMuchData),
        ),
    }
}

/// The parser's full transition function: what one read chunk does in each
/// state.  `Done` and `Failed` absorb: a finished connection changes no
/// more.
pub open spec fn spec_step(m: ParserModel, chunk: Seq<u8>) -> (ParserModel, SpecOutcome) {
    match m {
        ParserModel::Awaiting => {
            if chunk.len() == 0 {
                (ParserModel::Awaiting, SpecOutcome::Idle)
            } else if chunk[0] > 4 {
                (
                    ParserModel::Failed {
                        response: ResponseType::UNKNOWN_ACTION,
                        kind: ErrorKind::UnknownAction,
                    },
                    SpecOutcome::Reject(ResponseType::UNKNOWN_ACTION, ErrorKind::UnknownAction),
                )
            } else if chunk[0] != 3 {
                (
                    ParserModel::Failed {
                        response: ResponseType::UNHANDLED_ACTION,
                        kind: ErrorKind::UnhandledAction,
                    },
                    SpecOutcome::Reject(ResponseType::UNHANDLED_ACTION, ErrorKind::UnhandledAction),
                )
            } else {
                spec_step_collect(Seq::empty(), chunk.drop_first())
            }
        },
        ParserModel::Collecting { name } => {
            if chunk.len() == 0 {
                spec_finish(name)
            } else {
                spec_step_collect(name, chunk)
            }
        },
        ParserModel::Done { name } => (m, SpecOutcome::NeedMore),
        ParserModel::Failed { response, kind } => (m, SpecOutcome::Reject(response, kind)),
    }
}

/// Folds the transition function over a whole sequence of read chunks.
pub open spec fn spec_run(m: ParserModel, chunks: Seq<Seq<u8>>) -> ParserModel
    decreases chunks.len(),
{
    if chunks.len() == 0 {
        m
    } else {
        spec_run(spec_step(m, chunks[0]).0, chunks.drop_first())
    }
}

/// One step of a run: feeding the first chunk, then the rest.
proof fn lemma_run_unfold(m: ParserModel, chunks: Seq<Seq<u8>>)
    requires
        chunks.len() > 0,
    ensures
        spec_run(m, chunks) == spec_run(spec_step(m, chunks[0]).0, chunks.drop_first()),
{
}

/// A run over no chunks changes nothing.
proof fn lemma_run_empty(m: ParserModel, chunks: Seq<Seq<u8>>)
    requires
        chunks.len() == 0,
    ensures
        spec_run(m, chunks) == m,
{
}

// --- how collection treats one chunk ---

/// Terminator-free bytes that fit are appended whole.
proof fn lemma_collect_appends(name: Seq<u8>, bytes: Seq<u8>)
    requires
        nul_free(bytes),
        name.len() + bytes.len() <= NAME_CAPACITY,
    ensures
        spec_collect(name, bytes) == CollectStep::More(name + bytes),
    decreases bytes.len(),
{
    if bytes.len() == 0 {
        assert(name + bytes =~= name);
    } else {
        assert(nul_free(bytes.drop_first()));
        lemma_collect_appends(name.push(bytes[0]), bytes.drop_first());
        assert(name.push(bytes[0]) + bytes.drop_first() =~= name + bytes);
    }
}

/// A terminator-free name followed by a final NUL finishes collection with
/// exactly that name, as long as it fits the accumulator.
proof fn lemma_collect_terminated(name: Seq<u8>, rest: Seq<u8>)
    requires
        nul_free(rest),
        name.len() + rest.len() <= NAME_CAPACITY,
    ensures
        spec_collect(name, rest + seq![0u8]) == CollectStep::Finished(name + rest),
    decreases rest.len(),
{
    let bytes = rest + seq![0u8];
    if rest.len() == 0 {
        assert(bytes =~= seq![0u8]);
        assert(name + rest =~= name);
    } else {
        assert(bytes[0] == rest[0]);
        assert(bytes.drop_first() =~= rest.drop_first() + seq![0u8]);
        lemma_collect_terminated(name.push(rest[0]), rest.drop_first());
        assert(name.push(rest[0]) + rest.drop_first() =~= name + rest);
    }
}

/// A name that would overrun the accumulator overruns it even when its
/// final byte is a terminator.
proof fn lemma_collect_capacity_overrun(name: Seq<u8>, rest: Seq<u8>)
    requires
        nul_free(rest),
        name.len() <= NAME_CAPACITY,
        name.len() + rest.len() > NAME_CAPACITY,
    ensures
        spec_collect(name, rest + seq![0u8]) == CollectStep::Overflow,
    decreases rest.len(),
{
    let bytes = rest + seq![0u8];
    assert(rest.len() > 0);
    assert(bytes[0] == rest[0]);
    if name.len() >= NAME_CAPACITY {
    } else {
        assert(bytes.drop_first() =~= rest.drop_first() + seq![0u8]);
        lemma_collect_capacity_overrun(name.push(rest[0]), rest.drop_first());
    }
}

/// Terminator-free bytes that do not fit overrun the accumulator.
proof fn lemma_collect_overrun(name: Seq<u8>, bytes: Seq<u8>)
    requires
        nul_free(bytes),
        name.len() <= NAME_CAPACITY,
        name.len() + bytes.len() > NAME_CAPACITY,
    ensures
        spec_collect(name, bytes) == CollectStep::Overflow,
    decreases bytes.len(),
{
    assert(bytes.len() > 0);
    if name.len() >= NAME_CAPACITY {
    } else {
        assert(nul_free(bytes.drop_first()));
        lemma_collect_overrun(name.push(bytes[0]), bytes.drop_first());
    }
}

/// A NUL anywhere but the final byte of its chunk is rejected as too much
/// data, whatever was collected before.
proof fn lemma_collect_nonfinal_nul(name: Seq<u8>, bytes: Seq<u8>)
    requires
        first_nul(bytes) < bytes.len() - 1,
    ensures
        spec_collect(name, bytes) == CollectStep::Overflow,
    decreases bytes.len(),
{
    assert(bytes.len() >= 2);
    if name.len() >= NAME_CAPACITY {
    } else if bytes[0] == 0 {
    } else {
        lemma_collect_nonfinal_nul(name.push(bytes[0]), bytes.drop_first());
    }
}

// --- how a run treats a whole split request ---

/// Concatenating non-empty chunks yields at least one byte.
proof fn lemma_flatten_nonempty(chunks: Seq<Seq<u8>>)
    requires
        chunks.len() >= 1,
        forall|i: int| 0 <= i < chunks.len() ==> #[trigger] chunks[i].len() > 0,
    ensures
        chunks.flatten().len() > 0,
{
    assert(chunks.flatten() == chunks[0] + chunks.drop_first().flatten());
}

/// A failed connection stays failed, whatever else is read.
proof fn lemma_run_failed_absorbing(m: ParserModel, chunks: Seq<Seq<u8>>)
    requires
        m is Failed,
    ensures
        spec_run(m, chunks) == m,
    decreases chunks.len(),
{
    if chunks.len() > 0 {
        lemma_run_failed_absorbing(m, chunks.drop_first());
    }
}

/// While a name is being collected, feeding reads that carry the rest of
/// the name and its final terminator ends with exactly the whole name
/// collected, however the reads are cut.
proof fn lemma_run_collecting(got: Seq<u8>, rest: Seq<u8>, chunks: Seq<Seq<u8>>)
    requires
        got.len() + rest.len() <= NAME_CAPACITY,
        nul_free(rest),
        ascii_name(got + rest),
        chunks.len() >= 1,
        forall|i: int| 0 <= i < chunks.len() ==> #[trigger] chunks[i].len() > 0,
        chunks.flatten() == rest + seq![0u8],
    ensures
        spec_run(ParserModel::Collecting { name: got }, chunks) == (ParserModel::Done {
            name: got + rest,
        }),
    decreases chunks.len(),
{
    let c0 = chunks[0];
    let tail = chunks.drop_first();
    assert(chunks.flatten() == c0 + tail.flatten());
    lemma_run_unfold(ParserModel::Collecting { name: got }, chunks);
    assert(c0.len() <= rest.len() + 1);
    if tail.len() == 0 {
        assert(c0 =~= rest + seq![0u8]);
        lemma_collect_terminated(got, rest);
        assert(spec_step(ParserModel::Collecting { name: got }, c0) == spec_finish(got + rest));
        lemma_run_empty(spec_step(ParserModel::Collecting { name: got }, c0).0, tail);
    } else {
        lemma_flatten_nonempty(tail);
        assert(c0.len() < rest.len() + 1);
        assert(c0 =~= (rest + seq![0u8]).take(c0.len() as int));
        assert(c0 =~= rest.take(c0.len() as int));
        assert(nul_free(c0));
        lemma_collect_appends(got, c0);
        assert(spec_step(ParserModel::Collecting { name: got }, c0)
            == (ParserModel::Collecting { name: got + c0 }, SpecOutcome::NeedMore));
        let rest2 = rest.skip(c0.len() as int);
        assert(tail.flatten() =~= (rest + seq![0u8]).skip(c0.len() as int));
        assert((rest + seq![0u8]).skip(c0.len() as int) =~= rest2 + seq![0u8]);
        assert(got + c0 + rest2 =~= got + rest);
        lemma_run_collecting(got + c0, rest2, tail);
    }
}

/// Listener framing, reassembly direction: a FETCH request for a fitting
/// name, split across any number of non-empty reads at arbitrary byte
/// boundaries (the terminating NUL thereby the final byte of its read),
/// always reassembles to exactly the original filename.
pub proof fn lemma_request_reassembles(name: Seq<u8>, chunks: Seq<Seq<u8>>)
    requires
        name.len() <= NAME_CAPACITY,
        forall|i: int| 0 <= i < name.len() ==> 0 < #[trigger] name[i] < 128,
        chunks.len() >= 1,
        forall|i: int| 0 <= i < chunks.len() ==> #[trigger] chunks[i].len() > 0,
        chunks.flatten() == spec_fetch_message(name),
    ensures
        spec_run(ParserModel::Awaiting, chunks) == (ParserModel::Done { name }),
{
    let msg = spec_fetch_message(name);
    let c0 = chunks[0];
    let tail = chunks.drop_first();
    assert(chunks.flatten() == c0 + tail.flatten());
    lemma_run_unfold(ParserModel::Awaiting, chunks);
    assert(msg.len() == name.len() + 2);
    assert(c0[0] == msg[0]);
    assert(c0[0] == 3);
    assert(nul_free(name));
    assert(ascii_name(name));
    let body = c0.drop_first();
    if tail.len() == 0 {
        assert(c0 =~= msg);
        assert(body =~= name + seq![0u8]);
        lemma_collect_terminated(Seq::empty(), name);
        assert(Seq::<u8>::empty() + name =~= name);
        lemma_run_empty(spec_step(ParserModel::Awaiting, c0).0, tail);
    } else {
        lemma_flatten_nonempty(tail);
        assert(c0.len() < msg.len());
        assert(c0 =~= msg.take(c0.len() as int));
        assert(body =~= name.take(c0.len() - 1));
        assert(nul_free(body));
        lemma_collect_appends(Seq::empty(), body);
        assert(Seq::<u8>::empty() + body =~= body);
        assert(spec_step(ParserModel::Awaiting, c0) == (ParserModel::Collecting { name: body },
        SpecOutcome::NeedMore));
        let rest2 = name.skip(c0.len() - 1);
        assert(tail.flatten() =~= msg.skip(c0.len() as int));
        assert(msg.skip(c0.len() as int) =~= rest2 + seq![0u8]);
        assert(ascii_name(body + rest2));
        assert(nul_free(rest2));
        lemma_run_collecting(body, rest2, tail);
        assert(body + rest2 =~= name);
    }
}

/// While a name is being collected, reads that would push the accumulator
/// past its capacity before any terminator end in rejection as too much
/// data, however the reads are cut.
proof fn lemma_run_collecting_overrun(got: Seq<u8>, rest: Seq<u8>, chunks: Seq<Seq<u8>>)
    requires
        got.len() <= NAME_CAPACITY,
        got.len() + rest.len() > NAME_CAPACITY,
        nul_free(rest),
        chunks.len() >= 1,
        forall|i: int| 0 <= i < chunks.len() ==> #[trigger] chunks[i].len() > 0,
        chunks.flatten() == rest + seq![0u8],
    ensures
        spec_run(ParserModel::Collecting { name: got }, chunks) == (ParserModel::Failed {
            response: ResponseType::TOO_MUCH_DATA,
            kind: ErrorKind::TooMuchData,
        }),
    decreases chunks.len(),
{
    let c0 = chunks[0];
    let tail = chunks.drop_first();
    assert(chunks.flatten() == c0 + tail.flatten());
    lemma_run_unfold(ParserModel::Collecting { name: got }, chunks);
    assert(c0.len() <= rest.len() + 1);
    let failed = ParserModel::Failed {
        response: ResponseType::TOO_MUCH_DATA,
        kind: ErrorKind::TooMuchData,
    };
    if tail.len() == 0 {
        assert(c0 =~= rest + seq![0u8]);
        lemma_collect_capacity_overrun(got, rest);
        assert(spec_step(ParserModel::Collecting { name: got }, c0).0 == failed);
        lemma_run_empty(failed, tail);
    } else {
        lemma_flatten_nonempty(tail);
        assert(c0.len() < rest.len() + 1);
        assert(c0 =~= (rest + seq![0u8]).take(c0.len() as int));
        assert(c0 =~= rest.take(c0.len() as int));
        assert(nul_free(c0));
        let rest2 = rest.skip(c0.len() as int);
        assert(tail.flatten() =~= (rest + seq![0u8]).skip(c0.len() as int));
        assert((rest + seq![0u8]).skip(c0.len() as int) =~= rest2 + seq![0u8]);
        if got.len() + c0.len() <= NAME_CAPACITY {
            lemma_collect_appends(got, c0);
            lemma_run_collecting_overrun(got + c0, rest2, tail);
        } else {
            lemma_collect_overrun(got, c0);
            assert(spec_step(ParserModel::Collecting { name: got }, c0).0 == failed);
            lemma_run_failed_absorbing(failed, tail);
        }
    }
}

/// Listener framing, overrun direction: a FETCH request whose name would
/// need the accumulator to exceed its capacity is rejected as too much
/// data, however the reads are cut.
pub proof fn lemma_request_too_long(name: Seq<u8>, chunks: Seq<Seq<u8>>)
    requires
        name.len() > NAME_CAPACITY,
        nul_free(name),
        chunks.len() >= 1,
        forall|i: int| 0 <= i < chunks.len() ==> #[trigger] chunks[i].len() > 0,
        chunks.flatten() == spec_fetch_message(name),
    ensures
        spec_run(ParserModel::Awaiting, chunks) == (ParserModel::Failed {
            response: ResponseType::TOO_MUCH_DATA,
            kind: ErrorKind::TooMuchData,
        }),
{
    let msg = spec_fetch_message(name);
    let c0 = chunks[0];
    let tail = chunks.drop_first();
    assert(chunks.flatten() == c0 + tail.flatten());
    lemma_run_unfold(ParserModel::Awaiting, chunks);
    assert(msg.len() == name.len() + 2);
    assert(c0[0] == msg[0]);
    assert(c0[0] == 3);
    let body = c0.drop_first();
    let failed = ParserModel::Failed {
        response: ResponseType::TOO_MUCH_DATA,
        kind: ErrorKind::TooMuchData,
    };
    if tail.len() == 0 {
        assert(c0 =~= msg);
        assert(body =~= name + seq![0u8]);
        lemma_collect_capacity_overrun(Seq::empty(), name);
        assert(spec_step(ParserModel::Awaiting, c0).0 == failed);
        lemma_run_empty(failed, tail);
    } else {
        lemma_flatten_nonempty(tail);
        assert(c0.len() < msg.len());
        assert(c0 =~= msg.take(c0.len() as int));
        assert(body =~= name.take(c0.len() - 1));
        assert(nul_free(body));
        let rest2 = name.skip(c0.len() - 1);
        assert(tail.flatten() =~= msg.skip(c0.len() as int));
        assert(msg.skip(c0.len() as int) =~= rest2 + seq![0u8]);
        assert(nul_free(rest2));
        if body.len() <= NAME_CAPACITY {
            lemma_collect_appends(Seq::empty(), body);
            assert(Seq::<u8>::empty() + body =~= body);
            lemma_run_collecting_overrun(body, rest2, tail);
        } else {
            lemma_collect_overrun(Seq::empty(), body);
            assert(spec_step(ParserModel::Awaiting, c0).0 == failed);
            lemma_run_failed_absorbing(failed, tail);
        }
    }
}

/// Listener framing, pipelining direction: when some read carries a NUL
/// that is not its final byte (and no earlier read carried one), the
/// request is rejected as too much data: there is no message pipelining.
pub proof fn lemma_request_nonfinal_nul(chunks: Seq<Seq<u8>>, k: int)
    requires
        0 <= k < chunks.len(),
        forall|i: int| 0 <= i < chunks.len() ==> #[trigger] chunks[i].len() > 0,
        forall|i: int| 0 <= i < k ==> nul_free(#[trigger] chunks[i]),
        first_nul(chunks[k]) < chunks[k].len() - 1,
        chunks[0].len() > 0 && chunks[0][0] == 3,
    ensures
        spec_run(ParserModel::Awaiting, chunks) == (ParserModel::Failed {
            response: ResponseType::TOO_MUCH_DATA,
            kind: ErrorKind::TooMuchData,
        }),
{
    let c0 = chunks[0];
    let tail = chunks.drop_first();
    lemma_run_unfold(ParserModel::Awaiting, chunks);
    let failed = ParserModel::Failed {
        response: ResponseType::TOO_MUCH_DATA,
        kind: ErrorKind::TooMuchData,
    };
    let body = c0.drop_first();
    if k == 0 {
        lemma_first_nul_drop_tag(c0);
        lemma_collect_nonfinal_nul(Seq::empty(), body);
        assert(spec_step(ParserModel::Awaiting, c0).0 == failed);
        lemma_run_failed_absorbing(failed, tail);
    } else {
        assert(nul_free(c0));
        assert(nul_free(body));
        if body.len() > NAME_CAPACITY {
            lemma_collect_overrun(Seq::empty(), body);
            assert(spec_step(ParserModel::Awaiting, c0).0 == failed);
            lemma_run_failed_absorbing(failed, tail);
        } else {
            lemma_collect_appends(Seq::empty(), body);
            assert(Seq::<u8>::empty() + body =~= body);
            assert(spec_step(ParserModel::Awaiting, c0).0 == (ParserModel::Collecting {
                name: body,
            }));
            lemma_run_collecting_nonfinal_nul(body, tail, k - 1);
        }
    }
}

/// The pipelining direction, from a collecting state.
proof fn lemma_run_collecting_nonfinal_nul(got: Seq<u8>, chunks: Seq<Seq<u8>>, k: int)
    requires
        got.len() <= NAME_CAPACITY,
        0 <= k < chunks.len(),
        forall|i: int| 0 <= i < chunks.len() ==> #[trigger] chunks[i].len() > 0,
        forall|i: int| 0 <= i < k ==> nul_free(#[trigger] chunks[i]),
        first_nul(chunks[k]) < chunks[k].len() - 1,
    ensures
        spec_run(ParserModel::Collecting { name: got }, chunks) == (ParserModel::Failed {
            response: ResponseType::TOO_MUCH_DATA,
            kind: ErrorKind::TooMuchData,
        }),
    decreases chunks.len(),
{
    let c0 = chunks[0];
    let tail = chunks.drop_first();
    lemma_run_unfold(ParserModel::Collecting { name: got }, chunks);
    let failed = ParserModel::Failed {
        response: ResponseType::TOO_MUCH_DATA,
        kind: ErrorKind::TooMuchData,
    };
    if k == 0 {
        lemma_collect_nonfinal_nul(got, c0);
        assert(spec_step(ParserModel::Collecting { name: got }, c0).0 == failed);
        lemma_run_failed_absorbing(failed, tail);
    } else {
        assert(nul_free(c0));
        if got.len() + c0.len() > NAME_CAPACITY {
            lemma_collect_overrun(got, c0);
            assert(spec_step(ParserModel::Collecting { name: got }, c0).0 == failed);
            lemma_run_failed_absorbing(failed, tail);
        } else {
            lemma_collect_appends(got, c0);
            lemma_run_collecting_nonfinal_nul(got + c0, tail, k - 1);
        }
    }
}

/// Dropping a non-NUL leading tag moves the first NUL one position left.
proof fn lemma_first_nul_drop_tag(c: Seq<u8>)
    requires
        c.len() > 0,
        c[0] != 0,
    ensures
        first_nul(c.drop_first()) == first_nul(c) - 1,
{
}

/// What feeding one chunk returned to the caller.
pub enum FeedOutcome {
    /// The chunk is consumed; read again and feed the next chunk.
    NeedMore,
    /// The peer disconnected before sending anything: close, no error.
    Idle,
    /// A full filename was collected; `RequestParser::name` hands it out.
    Complete,
    /// Send the response tag to the peer, then drop the connection.
    Reject(ResponseType, Error),
}

/// Holds when the returned outcome is the one the transition function
/// names.
pub open spec fn outcome_matches(r: FeedOutcome, s: SpecOutcome) -> bool {
    match (r, s) {
        (FeedOutcome::NeedMore, SpecOutcome::NeedMore) => true,
        (FeedOutcome::Idle, SpecOutcome::Idle) => true,
        (FeedOutcome::Complete, SpecOutcome::Complete) => true,
        (FeedOutcome::Reject(rt, e), SpecOutcome::Reject(st, k)) => rt == st && e.kind == k,
        _ => false,
    }
}

/// The exec phases of the parser.
enum ParsePhase {
    AwaitingAction,
    CollectingName,
    Done,
    Failed,
}

/// The incremental FETCH-request parser a listener runs per connection.
pub struct RequestParser {
    phase: ParsePhase,
    collected: Vec<u8>,
    fail_response: ResponseType,
    fail_kind: ErrorKind,
}

impl RequestParser {
    /// The state this parser is in, as `spec_step` speaks of it.
    pub closed spec fn model(&self) -> ParserModel {
        match self.phase {
            ParsePhase::AwaitingAction => ParserModel::Awaiting,
            ParsePhase::CollectingName => ParserModel::Collecting { name: self.collected@ },
            ParsePhase::Done => ParserModel::Done { name: self.collected@ },
            ParsePhase::Failed => ParserModel::Failed {
                response: self.fail_response,
                kind: self.fail_kind,
            },
        }
    }

    /// A fresh parser, awaiting the action tag.
    pub fn new() -> (r: RequestParser)
        ensures
            r.model() == ParserModel::Awaiting,
    {
        RequestParser {
            phase: ParsePhase::AwaitingAction,
            collected: Vec::new(),
            fail_response: ResponseType::ERROR,
            fail_kind: ErrorKind::Other,
        }
    }

    /// Ends collection with the bytes gathered so far.
    fn finish(&mut self) -> (r: FeedOutcome)
        ensures
            ({
                let (m2, out) = spec_finish(old(self).collected@);
                final(self).model() == m2 && outcome_matches(r, out)
            }),
    {
        let mut ok = true;
        let mut i: usize = 0;
        while i < self.collected.len()
            invariant
                i <= self.collected@.len(),
                self == old(self),
                ok == forall|j: int| 0 <= j < i ==> #[trigger] self.collected@[j] < 128,
            decreases self.collected@.len() - i,
        {
            if self.collected[i] >= 128 {
                ok = false;
            }
            i = i + 1;
        }
        if ok {
            self.phase = ParsePhase::Done;
            FeedOutcome::Complete
        } else {
            self.phase = ParsePhase::Failed;
            self.fail_response = ResponseType::INVALID_DATA;
            self.fail_kind = ErrorKind::InvalidEncoding;
            FeedOutcome::Reject(
                ResponseType::INVALID_DATA,
                Error::with_kind(
                    ErrorKind::InvalidEncoding,
                    "collected filename is not valid ASCII text",
                ),
            )
        }
    }

    /// The collected filename, once a request has been fully parsed.
    pub fn name(&self) -> (r: &Vec<u8>)
        requires
            self.model() is Done,
        ensures
            self.model() matches ParserModel::Done { name } && r@ == name,
    {
        &self.collected
    }

    /// Feeds one read chunk to the parser; an empty chunk is a read that
    /// returned nothing, meaning the peer closed the connection.
    ///
    /// The returned outcome and the parser's new state are exactly what
    /// the transition function `spec_step` names for this chunk.
    pub fn on_chunk(&mut self, chunk: &Vec<u8>) -> (r: FeedOutcome)
        requires
            old(self).model() is Awaiting || old(self).model() is Collecting,
        ensures
            ({
                let (m2, out) = spec_step(old(self).model(), chunk@);
                final(self).model() == m2 && outcome_matches(r, out)
            }),
    {
        let offset: usize;
        match self.phase {
            ParsePhase::AwaitingAction => {
                if chunk.len() == 0 {
                    return FeedOutcome::Idle;
                }
                let b = chunk[0];
                if b > 4 {
                    self.phase = ParsePhase::Failed;
                    self.fail_response = ResponseType::UNKNOWN_ACTION;
                    self.fail_kind = ErrorKind::UnknownAction;
                    return FeedOutcome::Reject(
                        ResponseType::UNKNOWN_ACTION,
                        Error::with_kind(
                            ErrorKind::UnknownAction,
                            "unknown action received from peer",
                        ),
                    );
                }
                if b != 3 {
                    self.phase = ParsePhase::Failed;
                    self.fail_response = ResponseType::UNHANDLED_ACTION;
                    self.fail_kind = ErrorKind::UnhandledAction;
                    return FeedOutcome::Reject(
                        ResponseType::UNHANDLED_ACTION,
                        Error::with_kind(
                            ErrorKind::UnhandledAction,
                            "unhandled action received from peer",
                        ),
                    );
                }
                self.phase = ParsePhase::CollectingName;
                self.collected.clear();
                offset = 1;
            },
            ParsePhase::CollectingName => {
                if chunk.len() == 0 {
                    return self.finish();
                }
                offset = 0;
            },
            _ => {
                proof {
                    assert(false);
                }
                return vstd::pervasive::unreached();
            },
        }
        let ghost entry_name = self.collected@;
        let ghost entry_bytes = chunk@.skip(offset as int);
        proof {
            if offset == 1 {
                assert(chunk@.skip(1) =~= chunk@.drop_first());
            } else {
                assert(chunk@.skip(0) =~= chunk@);
            }
            assert(spec_step(old(self).model(), chunk@) == spec_step_collect(
                entry_name,
                entry_bytes,
            ));
        }
        let mut j: usize = offset;
        while j < chunk.len()
            invariant
                offset <= j <= chunk@.len(),
                self.phase is CollectingName,
                spec_step(old(self).model(), chunk@) == spec_step_collect(
                    entry_name,
                    entry_bytes,
                ),
                spec_collect(entry_name, entry_bytes) == spec_collect(
                    self.collected@,
                    chunk@.skip(j as int),
                ),
            decreases chunk@.len() - j,
        {
            proof {
                assert(chunk@.skip(j as int).len() > 0);
                assert(chunk@.skip(j as int)[0] == chunk@[j as int]);
            }
            let b = chunk[j];
            if b == 0 {
                if j != chunk.len() - 1 {
                    self.phase = ParsePhase::Failed;
                    self.fail_response = ResponseType::TOO_MUCH_DATA;
                    self.fail_kind = ErrorKind::TooMuchData;
                    return FeedOutcome::Reject(
                        ResponseType::TOO_MUCH_DATA,
                        Error::with_kind(
                            ErrorKind::TooMuchData,
                            "bytes follow the name terminator",
                        ),
                    );
                }
                proof {
                    assert(chunk@.skip(j as int).len() == 1);
                }
                return self.finish();
            }
            if self.collected.len() >= NAME_CAPACITY {
                self.phase = ParsePhase::Failed;
                self.fail_response = ResponseType::TOO_MUCH_DATA;
                self.fail_kind = ErrorKind::TooMuchData;
                return FeedOutcome::Reject(
                    ResponseType::TOO_MUCH_DATA,
                    Error::with_kind(ErrorKind::TooMuchData, "too much data received from peer"),
                );
            }
            self.collected.push(b);
            proof {
                assert(chunk@.skip(j as int).drop_first() =~= chunk@.skip(j + 1));
            }
            j = j + 1;
        }
        proof {
            assert(chunk@.skip(j as int).len() == 0);
        }
        FeedOutcome::NeedMore
    }
}

// --- serving a completed request ---

/// Decides the reply to a completed FETCH request: the resolved path of
/// the file to open and stream, or the response tag to send before the
/// connection is dropped.  Every peer-supplied name passes through the
/// path resolver before any filesystem call.
pub fn handle_request(shared_root: &Vec<u8>, name: &Vec<u8>) -> (r: Result<
    Vec<u8>,
    (ResponseType, Error),
>)
    ensures
        fetch_name_ok(name@) ==> (r matches Ok(p) && p@ == spec_resolved(shared_root@, name@)),
        !fetch_name_ok(name@) ==> (r matches Err((rt, e)) && rt == ResponseType::INVALID_DATA
            && e.kind == ErrorKind::InvalidPath),
{
    match resolve_path(shared_root, name) {
        Ok(p) => Ok(p),
        Err(e) => Err((ResponseType::INVALID_DATA, e)),
    }
}

/// The reply when the resolved file cannot be opened for reading: the
/// peer is told `ERROR` and the failure is reported as `OpenFailed`.
pub fn open_failure() -> (r: (ResponseType, Error))
    ensures
        r.0 == ResponseType::ERROR,
        r.1.kind == ErrorKind::OpenFailed,
{
    (
        ResponseType::ERROR,
        Error::with_kind(ErrorKind::OpenFailed, "failed to open the requested file"),
    )
}

/// The single-byte frame carrying a response tag.
pub fn rejection_frame(response: ResponseType) -> (frame: Vec<u8>)
    ensures
        frame@ == seq![response.spec_tag()],
{
    let mut frame: Vec<u8> = Vec::new();
    frame.push(response.tag());
    proof {
        assert(frame@ =~= seq![response.spec_tag()]);
    }
    frame
}

/// Frames the reply to a served FETCH.
///
/// The very first outgoing chunk carries the `SUCCESS` tag in front of the
/// file data; every further chunk is raw file data with no header; an
/// empty file still gets a single `SUCCESS` byte, so the requester always
/// receives a definitive success signal.  End of stream is communicated
/// solely by closing the connection after the last frame.
pub struct FetchResponder {
    started: bool,
}

impl FetchResponder {
    /// Whether any frame has been handed out yet.
    pub closed spec fn spec_started(&self) -> bool {
        self.started
    }

    /// A responder for one connection, with nothing sent yet.
    pub fn new() -> (r: FetchResponder)
        ensures
            !r.spec_started(),
    {
        FetchResponder { started: false }
    }

    /// The frame carrying one non-empty chunk of file data: tagged with
    /// `SUCCESS` the first time, verbatim afterwards.
    pub fn data_frame(&mut self, data: &Vec<u8>) -> (frame: Vec<u8>)
        requires
            data@.len() > 0,
    ensures
            final(self).spec_started(),
            !old(self).spec_started() ==> frame@ == seq![0u8] + data@,
            old(self).spec_started() ==> frame@ == data@,
    {
        let mut frame: Vec<u8> = Vec::new();
        if !self.started {
            frame.push(0);
        }
        append_bytes(&mut frame, data.as_slice());
        self.started = true;
        proof {
            if !old(self).spec_started() {
                assert(frame@ =~= seq![0u8] + data@);
            } else {
                assert(frame@ =~= data@);
            }
        }
        frame
    }

    /// The closing frame at end of file: a lone `SUCCESS` byte if nothing
    /// was sent yet (the file was empty), nothing otherwise.
    pub fn final_frame(&mut self) -> (frame: Option<Vec<u8>>)
        ensures
            final(self).spec_started(),
            !old(self).spec_started() ==> (frame matches Some(f) && f@ == seq![0u8]),
            old(self).spec_started() ==> frame is None,
    {
        if self.started {
            None
        } else {
            self.started = true;
            let mut frame: Vec<u8> = Vec::new();
            frame.push(0);
            proof {
                assert(frame@ =~= seq![0u8]);
            }
            Some(frame)
        }
    }
}

} // verus!
