//! What holds of every stream: the pieces in which the input arrives do not
//! matter, and what a stream hands out is what the decode of the whole input
//! yields.

use crate::error::{Fault, Field};
use crate::header::{header_of, HeaderModel};
use crate::header_laws::{
    lemma_header_agrees, lemma_header_stays_wrong, lemma_header_within, same_up_to,
};
use crate::kmer::{edge_sets_at, record_at, record_len, KmerModel};
use crate::stream::{graph_of, kmers_end, kmers_from, BatchModel, Event, StreamModel};
use crate::wire::{shorter, signature, signature_at, u32s_at, u64s_at};
use vstd::prelude::*;

verus! {

/// A record has the same value in every input with the same bytes up to its
/// end.
proof fn lemma_record_agrees(s1: Seq<u8>, s2: Seq<u8>, at: int, w: u32, c: u32)
    requires
        0 <= at,
        same_up_to(s1, s2, at + record_len(w, c)),
    ensures
        record_at(s2, at, w, c) == record_at(s1, at, w, c),
{
    assert(u64s_at(s2, at, w as nat) == u64s_at(s1, at, w as nat));
    assert(u32s_at(s2, at + 8 * w, c as nat) == u32s_at(s1, at + 8 * w, c as nat));
    assert(edge_sets_at(s2, at + 8 * w + 4 * c, c as nat) == edge_sets_at(
        s1,
        at + 8 * w + 4 * c,
        c as nat,
    ));
}

/// A record has the same value when the bytes before it are dropped.
proof fn lemma_record_shifts(s: Seq<u8>, k: int, at: int, w: u32, c: u32)
    requires
        0 <= k,
        0 <= at,
        k + at + record_len(w, c) <= s.len(),
    ensures
        record_at(s.skip(k), at, w, c) == record_at(s, k + at, w, c),
{
    let t = s.skip(k);
    assert(u64s_at(t, at, w as nat) == u64s_at(s, k + at, w as nat));
    assert(u32s_at(t, at + 8 * w, c as nat) == u32s_at(s, k + at + 8 * w, c as nat));
    assert(edge_sets_at(t, at + 8 * w + 4 * c, c as nat) == edge_sets_at(
        s,
        k + at + 8 * w + 4 * c,
        c as nat,
    ));
}

/// The whole records end within the input, and what lies behind them is
/// shorter than a record.
proof fn lemma_kmers_within(s: Seq<u8>, at: int, w: u32, c: u32)
    requires
        0 <= at <= s.len(),
    ensures
        at <= kmers_end(s, at, w, c) <= s.len(),
        record_len(w, c) > 0 ==> s.len() - kmers_end(s, at, w, c) < record_len(w, c),
        kmers_from(s, kmers_end(s, at, w, c), w, c) == Seq::<KmerModel>::empty(),
        kmers_end(s, kmers_end(s, at, w, c), w, c) == kmers_end(s, at, w, c),
    decreases s.len() - at,
{
    if record_len(w, c) > 0 && at + record_len(w, c) <= s.len() {
        lemma_kmers_within(s, at + record_len(w, c), w, c);
    }
}

/// Dropping the bytes before the records changes no record.
proof fn lemma_kmers_shift(s: Seq<u8>, k: int, at: int, w: u32, c: u32)
    requires
        0 <= k,
        0 <= at,
        k + at <= s.len(),
    ensures
        kmers_from(s.skip(k), at, w, c) == kmers_from(s, k + at, w, c),
        kmers_end(s.skip(k), at, w, c) + k == kmers_end(s, k + at, w, c),
    decreases s.len() - at - k,
{
    if record_len(w, c) > 0 && k + at + record_len(w, c) <= s.len() {
        lemma_record_shifts(s, k, at, w, c);
        lemma_kmers_shift(s, k, at + record_len(w, c), w, c);
    }
}

/// More input changes no record that was whole before: the records of the
/// longer input are those of the shorter one, and then those that begin
/// where the shorter one's ended.
proof fn lemma_kmers_extend(s: Seq<u8>, more: Seq<u8>, at: int, w: u32, c: u32)
    requires
        0 <= at <= s.len(),
    ensures
        kmers_from(s + more, at, w, c) == kmers_from(s, at, w, c) + kmers_from(
            s + more,
            kmers_end(s, at, w, c),
            w,
            c,
        ),
        kmers_end(s + more, at, w, c) == kmers_end(s + more, kmers_end(s, at, w, c), w, c),
    decreases s.len() - at,
{
    if record_len(w, c) > 0 && at + record_len(w, c) <= s.len() {
        lemma_record_agrees(s, s + more, at, w, c);
        lemma_kmers_extend(s, more, at + record_len(w, c), w, c);
    }
}

/// Decoding records in two steps, keeping between them only what the first
/// step left over, yields the records of one step over both inputs, and
/// leaves the same bytes over.
proof fn lemma_kmers_resume(s: Seq<u8>, more: Seq<u8>, at: int, w: u32, c: u32)
    requires
        0 <= at <= s.len(),
    ensures
        ({
            let kept = s.skip(kmers_end(s, at, w, c)) + more;
            &&& kmers_from(s + more, at, w, c) == kmers_from(s, at, w, c) + kmers_from(
                kept,
                0,
                w,
                c,
            )
            &&& (s + more).skip(kmers_end(s + more, at, w, c)) == kept.skip(
                kmers_end(kept, 0, w, c),
            )
        }),
{
    let end = kmers_end(s, at, w, c);
    let kept = s.skip(end) + more;
    lemma_kmers_within(s, at, w, c);
    lemma_kmers_extend(s, more, at, w, c);
    assert((s + more).skip(end) == kept);
    lemma_kmers_shift(s + more, end, 0, w, c);
    lemma_kmers_within(kept, 0, w, c);
}

/// The events of two batches, of which the second holds no header, are
/// the events of one batch with the records of both.
proof fn lemma_events_join(first: BatchModel, second: BatchModel)
    requires
        second.header is None,
    ensures
        first.events() + second.events() == (BatchModel {
            header: first.header,
            kmers: first.kmers + second.kmers,
        }).events(),
{
}

/// The pieces in which the input arrives do not matter: pushing two pieces
/// one after the other leaves the stream where pushing both at once leaves
/// it, and hands out the same events in the same order.
pub proof fn lemma_push_in_pieces(m: StreamModel, a: Seq<u8>, b: Seq<u8>)
    ensures
        m.after(a).after(b) == m.after(a + b),
        m.batch(a).events() + m.after(a).batch(b).events() == m.batch(a + b).events(),
{
    match m {
        StreamModel::AwaitingHeader { buffer } => {
            let first = buffer + a;
            assert(buffer + (a + b) == first + b);
            match header_of(first) {
                Ok((end, header)) => {
                    let w = header.n_words_per_kmer;
                    let c = header.n_colours;
                    lemma_header_within(first);
                    lemma_header_agrees(first, first + b);
                    lemma_kmers_resume(first, b, end, w, c);
                    lemma_events_join(m.batch(a), m.after(a).batch(b));
                },
                Err(fault) => {
                    if fault.is_fatal() {
                        lemma_header_stays_wrong(first, b);
                    }
                },
            }
        },
        StreamModel::AwaitingKmer { n_words_per_kmer, n_colours, buffer } => {
            let first = buffer + a;
            assert(buffer + (a + b) == first + b);
            lemma_kmers_resume(first, b, 0, n_words_per_kmer, n_colours);
            lemma_events_join(m.batch(a), m.after(a).batch(b));
        },
        StreamModel::Aborted { .. } => {
        },
    }
}

/// The pieces joined, in their order.
pub open spec fn joined(pieces: Seq<Seq<u8>>) -> Seq<u8>
    decreases pieces.len(),
{
    if pieces.len() == 0 {
        Seq::empty()
    } else {
        joined(pieces.drop_last()) + pieces.last()
    }
}

/// Where a stream stands, and what it has handed out in all, once the
/// pieces have been pushed one after the other.
pub open spec fn fed(m: StreamModel, pieces: Seq<Seq<u8>>) -> (StreamModel, Seq<Event>)
    decreases pieces.len(),
{
    if pieces.len() == 0 {
        (m, Seq::empty())
    } else {
        let (before, events) = fed(m, pieces.drop_last());
        (before.after(pieces.last()), events + before.batch(pieces.last()).events())
    }
}

/// The input cut into pieces of one byte each.
pub open spec fn singly(s: Seq<u8>) -> Seq<Seq<u8>> {
    Seq::new(s.len(), |i: int| seq![s[i]])
}

/// What the decode of a complete input hands out, one thing after the
/// other: the header and then the records, or nothing where the header
/// could not be decoded.
pub open spec fn graph_events(s: Seq<u8>) -> Seq<Event> {
    match graph_of(s) {
        Ok((_, graph)) => (BatchModel { header: Some(graph.header), kmers: graph.kmers }).events(),
        Err(_) => Seq::empty(),
    }
}

/// A fresh stream that is pushed a whole input at once hands out the graph
/// that the input decodes to, and keeps the bytes behind the last whole
/// record; it aborts exactly where the header is wrong, with that error.
pub proof fn lemma_stream_matches_graph(s: Seq<u8>)
    ensures
        StreamModel::start().batch(s).events() == graph_events(s),
        match graph_of(s) {
            Ok((end, graph)) => StreamModel::start().after(s) == (StreamModel::AwaitingKmer {
                n_words_per_kmer: graph.header.n_words_per_kmer,
                n_colours: graph.header.n_colours,
                buffer: s.skip(end),
            }),
            Err(fault) => StreamModel::start().after(s) == if fault.is_fatal() {
                StreamModel::Aborted { fault }
            } else {
                StreamModel::AwaitingHeader { buffer: s }
            },
        },
{
}

/// Nothing pushed changes nothing: a fresh stream that is pushed no bytes
/// is a fresh stream still.
proof fn lemma_nothing_pushed()
    ensures
        StreamModel::start().after(Seq::empty()) == StreamModel::start(),
        graph_events(Seq::empty()) == Seq::<Event>::empty(),
{
    assert(Seq::<u8>::empty().subrange(0, 0) == signature().take(0));
}

/// However the input is cut into pieces, a stream that is pushed the
/// pieces one after the other ends where a stream ends that is pushed the
/// whole input at once, and has handed out the same events in the same
/// order: those of the decode of the whole input.
pub proof fn lemma_fed_in_pieces(pieces: Seq<Seq<u8>>)
    ensures
        fed(StreamModel::start(), pieces) == (
            StreamModel::start().after(joined(pieces)),
            graph_events(joined(pieces)),
        ),
    decreases pieces.len(),
{
    let start = StreamModel::start();
    if pieces.len() == 0 {
        lemma_nothing_pushed();
    } else {
        let head = joined(pieces.drop_last());
        lemma_fed_in_pieces(pieces.drop_last());
        lemma_stream_matches_graph(head);
        lemma_stream_matches_graph(head + pieces.last());
        lemma_push_in_pieces(start, head, pieces.last());
    }
}

/// The pieces of one byte each make up the input.
proof fn lemma_joined_singly(s: Seq<u8>)
    ensures
        joined(singly(s)) == s,
    decreases s.len(),
{
    if s.len() > 0 {
        lemma_joined_singly(s.drop_last());
        assert(singly(s).drop_last() == singly(s.drop_last()));
    }
}

/// A stream that is fed one byte at a time ends where a stream ends that is
/// pushed the whole input at once, and has handed out the same events in
/// the same order: those of the decode of the whole input.
pub proof fn lemma_fed_singly(s: Seq<u8>)
    ensures
        fed(StreamModel::start(), singly(s)) == (
            StreamModel::start().after(s),
            graph_events(s),
        ),
{
    lemma_joined_singly(s);
    lemma_fed_in_pieces(singly(s));
}

/// The header is handed out at most once, and before every record: only a
/// stream that awaits the header hands one out, and it awaits records from
/// then on; a stream that awaits records hands out no header, and goes on
/// awaiting records.
pub proof fn lemma_header_comes_first(m: StreamModel, bytes: Seq<u8>)
    ensures
        m.batch(bytes).header is Some ==> m is AwaitingHeader && m.after(bytes) is AwaitingKmer,
        m.batch(bytes).kmers.len() > 0 ==> m.after(bytes) is AwaitingKmer,
        m is AwaitingKmer ==> m.batch(bytes).header is None && m.after(bytes) is AwaitingKmer,
        m is Aborted ==> m.batch(bytes) == BatchModel::empty() && m.after(bytes) == m,
{
}

/// Between two pushes a stream that awaits records keeps less than one
/// record.
pub proof fn lemma_keeps_less_than_a_record(m: StreamModel, bytes: Seq<u8>)
    ensures
        m.after(bytes) matches StreamModel::AwaitingKmer { n_words_per_kmer, n_colours, buffer }
            ==> record_len(n_words_per_kmer, n_colours) > 0 ==> buffer.len() < record_len(
            n_words_per_kmer,
            n_colours,
        ),
{
    match m {
        StreamModel::AwaitingHeader { buffer } => {
            if let Ok((end, header)) = header_of(buffer + bytes) {
                lemma_header_within(buffer + bytes);
                lemma_kmers_within(
                    buffer + bytes,
                    end,
                    header.n_words_per_kmer,
                    header.n_colours,
                );
            }
        },
        StreamModel::AwaitingKmer { n_words_per_kmer, n_colours, buffer } => {
            lemma_kmers_within(buffer + bytes, 0, n_words_per_kmer, n_colours);
        },
        StreamModel::Aborted { .. } => {},
    }
}

/// A signature that is wrong at the very start aborts the decode before
/// anything is handed out: as soon as one of the first six bytes differs
/// from the signature, the header is malformed at offset 0, whatever
/// follows, and a fresh stream aborts with an empty batch.
pub proof fn lemma_wrong_start_aborts(s: Seq<u8>, i: int)
    requires
        0 <= i < 6,
        i < s.len(),
        s[i] != signature()[i],
    ensures
        header_of(s) == Err::<(int, HeaderModel), Fault>(
            Fault::Malformed { offset: 0, field: Field::LeadingSignature },
        ),
        StreamModel::start().batch(s) == BatchModel::empty(),
        StreamModel::start().after(s) == (StreamModel::Aborted {
            fault: Fault::Malformed { offset: 0, field: Field::LeadingSignature },
        }),
{
    let seen = shorter(s.len() as int, 6);
    assert(s.subrange(0, seen)[i] != signature().take(seen)[i]);
}

} // verus!
