//! The datagram transport: a message travels as numbered datagrams, and
//! comes together again from datagrams that arrive in any order.

use crate::error::{ClientError, MemcacheError, TransportError};
use crate::wire::{be16, be16_value, lemma_be16_round_trip, read_u16, write_all, write_u16};
use std::collections::HashMap;
use vstd::prelude::*;
use vstd::slice::slice_to_vec;

verus! {

broadcast use {vstd::std_specs::hash::group_hash_axioms, crate::wire::group_be_len};

/// The length of the frame header that opens every datagram.
pub const FRAME_HEADER_LEN: usize = 8;

/// The longest datagram that is sent.
pub const MAX_DATAGRAM_LEN: usize = 1400;

/// The most bytes of a message that one datagram carries.
pub const MAX_PAYLOAD_LEN: usize = 1392;

/// The most datagrams that one message can be split into.
pub const MAX_DATAGRAMS: usize = 0xffff;

/// The header that opens every datagram.
#[derive(Clone, Copy, Debug, PartialEq, Eq, Structural)]
pub struct FrameHeader {
    /// Tells the datagrams of one exchange from all others.
    pub request_id: u16,
    /// The place of this datagram in its message, counted from zero.
    pub sequence_number: u16,
    /// How many datagrams the message has.
    pub total_datagrams: u16,
    /// Not used; sent as zero.
    pub reserved: u16,
}

impl FrameHeader {
    /// The 8 bytes of the header, big-endian.
    pub open spec fn wire(self) -> Seq<u8> {
        be16(self.request_id) + be16(self.sequence_number) + be16(self.total_datagrams) + be16(
            self.reserved,
        )
    }

    /// The header that the first 8 bytes of `b` spell.
    pub open spec fn of_wire(b: Seq<u8>) -> FrameHeader
        recommends
            b.len() >= FRAME_HEADER_LEN,
    {
        FrameHeader {
            request_id: be16_value(b.subrange(0, 2)),
            sequence_number: be16_value(b.subrange(2, 4)),
            total_datagrams: be16_value(b.subrange(4, 6)),
            reserved: be16_value(b.subrange(6, 8)),
        }
    }

    /// What reading the frame header of a datagram gives: a datagram
    /// shorter than a header is refused.
    pub open spec fn read_spec(datagram: Seq<u8>) -> Result<FrameHeader, MemcacheError> {
        if datagram.len() < FRAME_HEADER_LEN {
            Err(MemcacheError::IOError(TransportError::InvalidDatagram))
        } else {
            Ok(FrameHeader::of_wire(datagram))
        }
    }

    /// Decoding the bytes of a header gives the header back, whatever follows them.
    pub proof fn lemma_wire_round_trip(self, payload: Seq<u8>)
        ensures
            self.wire().len() == FRAME_HEADER_LEN,
            FrameHeader::of_wire(self.wire() + payload) == self,
            FrameHeader::read_spec(self.wire() + payload) == Ok::<FrameHeader, MemcacheError>(self),
            (self.wire() + payload).skip(FRAME_HEADER_LEN as int) == payload,
    {
        let b = self.wire() + payload;
        lemma_be16_round_trip(self.request_id);
        lemma_be16_round_trip(self.sequence_number);
        lemma_be16_round_trip(self.total_datagrams);
        lemma_be16_round_trip(self.reserved);
        assert(b.subrange(0, 2) =~= be16(self.request_id));
        assert(b.subrange(2, 4) =~= be16(self.sequence_number));
        assert(b.subrange(4, 6) =~= be16(self.total_datagrams));
        assert(b.subrange(6, 8) =~= be16(self.reserved));
        assert(b.skip(FRAME_HEADER_LEN as int) =~= payload);
    }

    /// Appends the 8 bytes of the header to `writer`.
    pub fn write(self, writer: &mut Vec<u8>)
        ensures
            final(writer)@ == old(writer)@ + self.wire(),
    {
        write_u16(writer, self.request_id);
        write_u16(writer, self.sequence_number);
        write_u16(writer, self.total_datagrams);
        write_u16(writer, self.reserved);
        assert(writer@ =~= old(writer)@ + self.wire());
    }

    /// Reads the frame header of a datagram.
    pub fn read(datagram: &[u8]) -> (result: Result<FrameHeader, MemcacheError>)
        ensures
            result == FrameHeader::read_spec(datagram@),
    {
        if datagram.len() < FRAME_HEADER_LEN {
            return Err(MemcacheError::IOError(TransportError::InvalidDatagram));
        }
        Ok(
            FrameHeader {
                request_id: read_u16(&datagram[0..2]),
                sequence_number: read_u16(&datagram[2..4]),
                total_datagrams: read_u16(&datagram[4..6]),
                reserved: read_u16(&datagram[6..8]),
            },
        )
    }
}

/// A message cut into pieces of `size` bytes, the last one shorter where
/// the length asks for it. An empty message is one empty piece.
pub open spec fn chunks(message: Seq<u8>, size: nat) -> Seq<Seq<u8>>
    decreases message.len(),
{
    if size == 0 || message.len() <= size {
        seq![message]
    } else {
        seq![message.take(size as int)] + chunks(message.skip(size as int), size)
    }
}

/// The pieces of a sequence joined end to end.
pub open spec fn joined(parts: Seq<Seq<u8>>) -> Seq<u8>
    decreases parts.len(),
{
    if parts.len() == 0 {
        seq![]
    } else {
        joined(parts.drop_last()) + parts.last()
    }
}

/// Datagram number `i` of `count`, carrying `payload`.
pub open spec fn frame(request_id: u16, i: int, count: nat, payload: Seq<u8>) -> Seq<u8> {
    FrameHeader {
        request_id,
        sequence_number: i as u16,
        total_datagrams: count as u16,
        reserved: 0,
    }.wire() + payload
}

/// The datagrams that carry `message`: its pieces of `size` bytes, each
/// behind a header with the request id, its number, and the count.
pub open spec fn frames(message: Seq<u8>, request_id: u16, size: nat) -> Seq<Seq<u8>> {
    let parts = chunks(message, size);
    Seq::new(parts.len(), |i: int| frame(request_id, i, parts.len(), parts[i]))
}

/// What a vector of byte vectors holds, as plain values.
pub open spec fn contents(v: Seq<Vec<u8>>) -> Seq<Seq<u8>> {
    Seq::new(v.len(), |i: int| v[i]@)
}

/// Cutting a message and joining the pieces gives the message; there is
/// at least one piece, and none is longer than `size`.
pub proof fn lemma_chunks_join(message: Seq<u8>, size: nat)
    requires
        size > 0,
    ensures
        chunks(message, size).len() >= 1,
        joined(chunks(message, size)) == message,
        forall|i: int| 0 <= i < chunks(message, size).len() ==> (#[trigger] chunks(message, size)[i]).len() <= size,
    decreases message.len(),
{
    if message.len() <= size {
        assert(seq![message].drop_last() =~= Seq::<Seq<u8>>::empty());
        assert(joined(Seq::<Seq<u8>>::empty()) =~= Seq::<u8>::empty());
        assert(joined(seq![message]) =~= message);
    } else {
        let head = message.take(size as int);
        let tail = message.skip(size as int);
        lemma_chunks_join(tail, size);
        lemma_joined_prepend(head, chunks(tail, size));
        assert(head + tail =~= message);
    }
}

/// Joining distributes over putting one more piece in front.
pub proof fn lemma_joined_prepend(head: Seq<u8>, parts: Seq<Seq<u8>>)
    ensures
        joined(seq![head] + parts) == head + joined(parts),
    decreases parts.len(),
{
    if parts.len() == 0 {
        assert(seq![head] + parts =~= seq![head]);
        assert(seq![head].drop_last() =~= Seq::<Seq<u8>>::empty());
        assert(joined(Seq::<Seq<u8>>::empty()) =~= Seq::<u8>::empty());
        assert(joined(seq![head]) =~= head + joined(parts));
    } else {
        lemma_joined_prepend(head, parts.drop_last());
        assert((seq![head] + parts).drop_last() =~= seq![head] + parts.drop_last());
        assert((seq![head] + parts).last() == parts.last());
        assert(joined(seq![head] + parts) =~= head + joined(parts));
    }
}

/// Cuts `message` into pieces of at most 1392 bytes.
fn split_payload(message: &[u8]) -> (parts: Vec<Vec<u8>>)
    ensures
        contents(parts@) == chunks(message@, MAX_PAYLOAD_LEN as nat),
{
    let mut parts: Vec<Vec<u8>> = Vec::new();
    let mut at: usize = 0;
    assert(message@.skip(0) =~= message@);
    while message.len() - at > MAX_PAYLOAD_LEN
        invariant
            at <= message@.len(),
            chunks(message@, MAX_PAYLOAD_LEN as nat) == contents(parts@) + chunks(
                message@.skip(at as int),
                MAX_PAYLOAD_LEN as nat,
            ),
        decreases message@.len() - at,
    {
        let ghost rest = message@.skip(at as int);
        let ghost before = contents(parts@);
        let piece = slice_to_vec(&message[at..at + MAX_PAYLOAD_LEN]);
        parts.push(piece);
        proof {
            assert(piece@ =~= rest.take(MAX_PAYLOAD_LEN as int));
            assert(rest.skip(MAX_PAYLOAD_LEN as int) =~= message@.skip(at + MAX_PAYLOAD_LEN));
            assert(contents(parts@) =~= before + seq![piece@]);
            assert(before + (seq![piece@] + chunks(
                rest.skip(MAX_PAYLOAD_LEN as int),
                MAX_PAYLOAD_LEN as nat,
            )) =~= (before + seq![piece@]) + chunks(
                rest.skip(MAX_PAYLOAD_LEN as int),
                MAX_PAYLOAD_LEN as nat,
            ));
        }
        at = at + MAX_PAYLOAD_LEN;
    }
    let ghost before = contents(parts@);
    let piece = slice_to_vec(&message[at..message.len()]);
    parts.push(piece);
    proof {
        assert(piece@ =~= message@.skip(at as int));
        assert(contents(parts@) =~= before + seq![piece@]);
    }
    parts
}

/// What splitting a message gives: its datagrams, unless they are more
/// than a 16-bit count can number.
pub open spec fn split_spec(message: Seq<u8>, request_id: u16) -> Result<
    Seq<Seq<u8>>,
    MemcacheError,
> {
    if chunks(message, MAX_PAYLOAD_LEN as nat).len() > MAX_DATAGRAMS {
        Err(MemcacheError::ClientError(ClientError::ValueTooLong))
    } else {
        Ok(frames(message, request_id, MAX_PAYLOAD_LEN as nat))
    }
}

/// Splits `message` into the datagrams that carry it under `request_id`.
pub fn split_message(message: &[u8], request_id: u16) -> (result: Result<
    Vec<Vec<u8>>,
    MemcacheError,
>)
    ensures
        match (result, split_spec(message@, request_id)) {
            (Ok(datagrams), Ok(expected)) => contents(datagrams@) == expected,
            (Err(e), Err(expected)) => e == expected,
            _ => false,
        },
{
    let parts = split_payload(message);
    if parts.len() > MAX_DATAGRAMS {
        return Err(MemcacheError::ClientError(ClientError::ValueTooLong));
    }
    let total = parts.len() as u16;
    let mut datagrams: Vec<Vec<u8>> = Vec::new();
    let mut i: usize = 0;
    while i < parts.len()
        invariant
            i <= parts@.len(),
            parts@.len() <= MAX_DATAGRAMS,
            total == parts@.len(),
            datagrams@.len() == i,
            forall|j: int|
                0 <= j < i ==> (#[trigger] datagrams@[j])@ == frame(
                    request_id,
                    j,
                    parts@.len() as nat,
                    parts@[j]@,
                ),
        decreases parts@.len() - i,
    {
        let header = FrameHeader {
            request_id,
            sequence_number: i as u16,
            total_datagrams: total,
            reserved: 0,
        };
        let mut datagram: Vec<u8> = Vec::new();
        header.write(&mut datagram);
        write_all(&mut datagram, parts[i].as_slice());
        assert(datagram@ =~= frame(request_id, i as int, parts@.len() as nat, parts@[i as int]@));
        datagrams.push(datagram);
        i = i + 1;
    }
    assert(contents(datagrams@) =~= frames(message@, request_id, MAX_PAYLOAD_LEN as nat));
    Ok(datagrams)
}

/// What a reassembly holds, as plain values.
pub struct ReassemblyView {
    /// The request id of the exchange, once a datagram has come.
    pub expected_id: Option<u16>,
    /// The count of datagrams, once datagram zero has declared it.
    pub total: Option<u16>,
    /// The payloads that have come, each under its sequence number.
    pub fragments: Map<u16, Seq<u8>>,
}

impl ReassemblyView {
    /// The state before any datagram has come.
    pub open spec fn empty() -> ReassemblyView {
        ReassemblyView { expected_id: None, total: None, fragments: Map::empty() }
    }

    /// The state after one more datagram.
    ///
    /// A datagram shorter than a frame header is an error. The first
    /// datagram settles the request id; one with another id is passed
    /// over. Otherwise the payload is filed under the datagram's sequence
    /// number, and datagram zero declares the count.
    pub open spec fn accept(self, datagram: Seq<u8>) -> Result<ReassemblyView, MemcacheError> {
        match FrameHeader::read_spec(datagram) {
            Err(e) => Err(e),
            Ok(header) => if self.expected_id is Some && self.expected_id != Some(
                header.request_id,
            ) {
                Ok(self)
            } else {
                Ok(
                    ReassemblyView {
                        expected_id: Some(header.request_id),
                        total: if header.sequence_number == 0 {
                            Some(header.total_datagrams)
                        } else {
                            self.total
                        },
                        fragments: self.fragments.insert(
                            header.sequence_number,
                            datagram.skip(FRAME_HEADER_LEN as int),
                        ),
                    },
                )
            },
        }
    }

    /// The state after a run of datagrams, or the first error among them.
    pub open spec fn feed(self, datagrams: Seq<Seq<u8>>) -> Result<ReassemblyView, MemcacheError>
        decreases datagrams.len(),
    {
        if datagrams.len() == 0 {
            Ok(self)
        } else {
            match self.feed(datagrams.drop_last()) {
                Err(e) => Err(e),
                Ok(state) => state.accept(datagrams.last()),
            }
        }
    }

    /// Whether the message is whole: the count is known, and a payload
    /// has come for every sequence number below it.
    pub open spec fn complete(self) -> bool {
        match self.total {
            None => false,
            Some(n) => forall|i: u16| i < n ==> self.fragments.contains_key(i),
        }
    }

    /// The first `n` payloads, in the order of their sequence numbers.
    pub open spec fn payloads(self, n: nat) -> Seq<Seq<u8>> {
        Seq::new(n, |i: int| self.fragments[i as u16])
    }

    /// The message: the payloads joined in the order of their sequence numbers.
    pub open spec fn message(self) -> Seq<u8>
        recommends
            self.complete(),
    {
        joined(self.payloads(self.total->0 as nat))
    }
}

/// Whether `arrivals` is a way in which the datagrams of a message may
/// come: the first one is a datagram of the message, each later one is
/// either that or a datagram with a whole header and another request id,
/// and every datagram of the message is among them.
pub open spec fn delivers(arrivals: Seq<Seq<u8>>, sent: Seq<Seq<u8>>, request_id: u16) -> bool {
    &&& arrivals.len() > 0
    &&& sent.contains(arrivals[0])
    &&& forall|k: int|
        0 <= k < arrivals.len() ==> sent.contains(#[trigger] arrivals[k]) || (arrivals[k].len()
            >= FRAME_HEADER_LEN && FrameHeader::of_wire(arrivals[k]).request_id != request_id)
    &&& forall|i: int| 0 <= i < sent.len() ==> arrivals.contains(#[trigger] sent[i])
}

/// What the reassembly has learnt of a message after the first `k` arrivals.
spec fn tracks(
    state: ReassemblyView,
    parts: Seq<Seq<u8>>,
    sent: Seq<Seq<u8>>,
    request_id: u16,
    arrivals: Seq<Seq<u8>>,
    k: int,
) -> bool {
    &&& state.expected_id == Some(request_id)
    &&& forall|i: u16| #[trigger]
        state.fragments.contains_key(i) ==> i < parts.len() && state.fragments[i] == parts[i as int]
    &&& forall|i: int, j: int|
        0 <= i < parts.len() && 0 <= j < k && #[trigger] arrivals[j] == #[trigger] sent[i]
            ==> state.fragments.contains_key(i as u16)
    &&& state.total == if state.fragments.contains_key(0) {
        Some(parts.len() as u16)
    } else {
        None
    }
}

/// Whether a payload has come for sequence number `i`.
spec fn has_piece(state: ReassemblyView, i: int) -> bool {
    state.fragments.contains_key(i as u16)
}

/// Each datagram of a message spells its own header, and carries its piece.
proof fn lemma_frame_parts(message: Seq<u8>, request_id: u16, size: nat, i: int)
    requires
        size > 0,
        chunks(message, size).len() <= MAX_DATAGRAMS,
        0 <= i < chunks(message, size).len(),
    ensures
        frames(message, request_id, size).len() == chunks(message, size).len(),
        frames(message, request_id, size)[i].len() >= FRAME_HEADER_LEN,
        FrameHeader::of_wire(frames(message, request_id, size)[i]) == (FrameHeader {
            request_id,
            sequence_number: i as u16,
            total_datagrams: chunks(message, size).len() as u16,
            reserved: 0,
        }),
        frames(message, request_id, size)[i].skip(FRAME_HEADER_LEN as int) == chunks(
            message,
            size,
        )[i],
{
    let parts = chunks(message, size);
    let header = FrameHeader {
        request_id,
        sequence_number: i as u16,
        total_datagrams: parts.len() as u16,
        reserved: 0,
    };
    header.lemma_wire_round_trip(parts[i]);
}

/// After the first `k` arrivals the reassembly holds the pieces of the
/// datagrams that have come, each in its place, and nothing else.
proof fn lemma_feed_tracks(
    message: Seq<u8>,
    request_id: u16,
    size: nat,
    arrivals: Seq<Seq<u8>>,
    k: int,
)
    requires
        size > 0,
        chunks(message, size).len() <= MAX_DATAGRAMS,
        delivers(arrivals, frames(message, request_id, size), request_id),
        1 <= k <= arrivals.len(),
    ensures
        ReassemblyView::empty().feed(arrivals.take(k)) matches Ok(state) && tracks(
            state,
            chunks(message, size),
            frames(message, request_id, size),
            request_id,
            arrivals,
            k,
        ),
    decreases k,
{
    let parts = chunks(message, size);
    let sent = frames(message, request_id, size);
    let prefix = arrivals.take(k);
    let datagram = arrivals[k - 1];
    assert(prefix.drop_last() =~= arrivals.take(k - 1));
    assert(prefix.last() == datagram);
    let before = if k == 1 {
        assert(arrivals.take(0) =~= Seq::<Seq<u8>>::empty());
        ReassemblyView::empty()
    } else {
        lemma_feed_tracks(message, request_id, size, arrivals, k - 1);
        ReassemblyView::empty().feed(arrivals.take(k - 1))->Ok_0
    };
    assert(ReassemblyView::empty().feed(arrivals.take(k - 1)) == Ok::<
        ReassemblyView,
        MemcacheError,
    >(before));
    if sent.contains(datagram) {
        let i = choose|i: int| 0 <= i < sent.len() && sent[i] == datagram;
        lemma_frame_parts(message, request_id, size, i);
        let after = before.accept(datagram)->Ok_0;
        assert(after.fragments == before.fragments.insert(i as u16, parts[i]));
        assert forall|a: int, j: int|
            0 <= a < parts.len() && 0 <= j < k && #[trigger] arrivals[j] == #[trigger] sent[a]
            implies after.fragments.contains_key(a as u16) by {
            if j == k - 1 {
                lemma_frame_parts(message, request_id, size, a);
                assert(FrameHeader::of_wire(sent[a]).sequence_number == a as u16);
                assert(a as u16 == i as u16);
            } else {
                assert(before.fragments.contains_key(a as u16));
            }
        }
        if i != 0 && after.fragments.contains_key(0) {
            assert(before.fragments.contains_key(0));
        }
    } else {
        assert(k > 1);
        assert(before.accept(datagram) == Ok::<ReassemblyView, MemcacheError>(before));
        assert forall|a: int, j: int|
            0 <= a < parts.len() && 0 <= j < k && #[trigger] arrivals[j] == #[trigger] sent[a]
            implies before.fragments.contains_key(a as u16) by {
            if j == k - 1 {
                assert(sent.contains(datagram));
            }
        }
    }
}

impl ReassemblyView {
    /// The datagrams of a message give the message back when they come in
    /// any order, some of them more than once, with datagrams of other
    /// exchanges among them: the reassembly is whole at the end, and what
    /// it holds is the message that was split.
    pub proof fn lemma_reassembles_in_any_order(
        message: Seq<u8>,
        request_id: u16,
        size: nat,
        arrivals: Seq<Seq<u8>>,
    )
        requires
            size > 0,
            chunks(message, size).len() <= MAX_DATAGRAMS,
            delivers(arrivals, frames(message, request_id, size), request_id),
        ensures
            ReassemblyView::empty().feed(arrivals) matches Ok(state) && state.complete()
                && state.message() == message,
    {
        let parts = chunks(message, size);
        let sent = frames(message, request_id, size);
        lemma_chunks_join(message, size);
        lemma_feed_tracks(message, request_id, size, arrivals, arrivals.len() as int);
        assert(arrivals.take(arrivals.len() as int) =~= arrivals);
        let state = ReassemblyView::empty().feed(arrivals)->Ok_0;
        assert forall|i: int| 0 <= i < parts.len() implies #[trigger] has_piece(state, i) by {
            assert(arrivals.contains(sent[i]));
            let j = choose|j: int| 0 <= j < arrivals.len() && arrivals[j] == sent[i];
            assert(arrivals[j] == sent[i]);
        }
        assert(has_piece(state, 0));
        assert forall|i: u16| i < parts.len() as u16 implies state.fragments.contains_key(i) by {
            assert(has_piece(state, i as int));
        }
        assert(state.payloads(parts.len()) =~= parts) by {
            assert forall|i: int| 0 <= i < parts.len() implies state.payloads(parts.len())[i]
                == parts[i] by {
                assert(has_piece(state, i));
            }
        }
    }
}

impl ReassemblyView {
    /// Nothing but the message is ever handed on: at whatever point of
    /// the arrivals the reassembly is whole, what it holds is the message
    /// that was split, so that to stop at the first such point is right.
    pub proof fn lemma_whole_is_the_message(
        message: Seq<u8>,
        request_id: u16,
        size: nat,
        arrivals: Seq<Seq<u8>>,
        k: int,
    )
        requires
            size > 0,
            chunks(message, size).len() <= MAX_DATAGRAMS,
            delivers(arrivals, frames(message, request_id, size), request_id),
            1 <= k <= arrivals.len(),
        ensures
            ReassemblyView::empty().feed(arrivals.take(k)) matches Ok(state) && (state.complete()
                ==> state.message() == message),
    {
        let parts = chunks(message, size);
        lemma_chunks_join(message, size);
        lemma_feed_tracks(message, request_id, size, arrivals, k);
        let state = ReassemblyView::empty().feed(arrivals.take(k))->Ok_0;
        if state.complete() {
            let n = state.total->0;
            assert(state.fragments.contains_key(0u16));
            assert(n == parts.len());
            assert(state.payloads(parts.len()) =~= parts) by {
                assert forall|i: int| 0 <= i < parts.len() implies state.payloads(parts.len())[i]
                    == parts[i] by {
                    assert(state.fragments.contains_key(i as u16));
                }
            }
        }
    }
}

/// Collects the datagrams of one message until the message is whole.
pub struct Reassembly {
    expected_id: Option<u16>,
    total: Option<u16>,
    fragments: HashMap<u16, Vec<u8>>,
}

impl View for Reassembly {
    type V = ReassemblyView;

    closed spec fn view(&self) -> ReassemblyView {
        ReassemblyView {
            expected_id: self.expected_id,
            total: self.total,
            fragments: Map::new(
                |i: u16| self.fragments@.contains_key(i),
                |i: u16| self.fragments@[i]@,
            ),
        }
    }
}

impl Reassembly {
    /// A reassembly that has seen no datagram.
    pub fn new() -> (reassembly: Reassembly)
        ensures
            reassembly@ == ReassemblyView::empty(),
    {
        let reassembly = Reassembly { expected_id: None, total: None, fragments: HashMap::new() };
        assert(reassembly@.fragments =~= Map::<u16, Seq<u8>>::empty());
        reassembly
    }

    /// Takes one datagram in, and tells whether the message is whole now.
    pub fn accept(&mut self, datagram: &[u8]) -> (result: Result<bool, MemcacheError>)
        ensures
            match old(self)@.accept(datagram@) {
                Ok(next) => final(self)@ == next && result == Ok::<bool, MemcacheError>(
                    next.complete(),
                ),
                Err(e) => final(self)@ == old(self)@ && result == Err::<bool, MemcacheError>(e),
            },
    {
        let header = FrameHeader::read(datagram)?;
        let stray = match self.expected_id {
            Some(id) => id != header.request_id,
            None => false,
        };
        if stray {
            return Ok(self.is_complete());
        }
        self.expected_id = Some(header.request_id);
        if header.sequence_number == 0 {
            self.total = Some(header.total_datagrams);
        }
        let payload = slice_to_vec(&datagram[FRAME_HEADER_LEN..datagram.len()]);
        let _ = self.fragments.insert(header.sequence_number, payload);
        assert(self@.fragments =~= old(self)@.fragments.insert(
            header.sequence_number,
            datagram@.skip(FRAME_HEADER_LEN as int),
        ));
        Ok(self.is_complete())
    }

    /// Whether the message is whole.
    pub fn is_complete(&self) -> (whole: bool)
        ensures
            whole == self@.complete(),
    {
        match self.total {
            None => false,
            Some(n) => {
                let mut i: u16 = 0;
                while i < n
                    invariant
                        i <= n,
                        self.total == Some(n),
                        forall|j: u16| j < i ==> self@.fragments.contains_key(j),
                    decreases n - i,
                {
                    if !self.fragments.contains_key(&i) {
                        assert(!self@.fragments.contains_key(i));
                        return false;
                    }
                    i = i + 1;
                }
                true
            },
        }
    }

    /// The message, once it is whole.
    pub fn message(&self) -> (message: Option<Vec<u8>>)
        ensures
            match message {
                Some(bytes) => self@.complete() && bytes@ == self@.message(),
                None => !self@.complete(),
            },
    {
        if !self.is_complete() {
            return None;
        }
        let n = match self.total {
            Some(n) => n,
            None => { return None; },
        };
        let mut bytes: Vec<u8> = Vec::new();
        let mut i: u16 = 0;
        assert(self@.payloads(0) =~= Seq::<Seq<u8>>::empty());
        while i < n
            invariant
                i <= n,
                self.total == Some(n),
                self@.complete(),
                bytes@ == joined(self@.payloads(i as nat)),
            decreases n - i,
        {
            assert(self@.fragments.contains_key(i));
            match self.fragments.get(&i) {
                Some(payload) => {
                    write_all(&mut bytes, payload.as_slice());
                    proof {
                        let next = self@.payloads((i + 1) as nat);
                        assert(next.drop_last() =~= self@.payloads(i as nat));
                        assert(next.last() == payload@);
                    }
                },
                None => {
                    assert(false);
                },
            }
            i = i + 1;
        }
        Some(bytes)
    }
}

/// What a datagram stream holds, as plain values.
pub struct UdpStreamView {
    /// The bytes of the last whole response that have not been read yet.
    pub read_buf: Seq<u8>,
    /// The bytes of the request that has been written and not yet flushed.
    pub write_buf: Seq<u8>,
    /// The request id under which the last request went out.
    pub request_id: u16,
    /// The datagrams of the response that have come so far.
    pub reassembly: ReassemblyView,
}

impl UdpStreamView {
    /// The stream after one more datagram has come in.
    ///
    /// Once the response is whole, further datagrams are passed over.
    /// Until then the datagram goes to the reassembly; the bytes of the
    /// response become readable when the last missing datagram has come,
    /// and not before.
    pub open spec fn receive(self, datagram: Seq<u8>) -> Result<UdpStreamView, MemcacheError> {
        if self.reassembly.complete() {
            Ok(self)
        } else {
            match self.reassembly.accept(datagram) {
                Err(e) => Err(e),
                Ok(next) => Ok(
                    UdpStreamView {
                        read_buf: if next.complete() {
                            next.message()
                        } else {
                            self.read_buf
                        },
                        reassembly: next,
                        ..self
                    },
                ),
            }
        }
    }
}

/// `rand::random::<u16>()`: a number to tell one exchange from another.
/// Nothing is claimed of the number that comes back.
#[verifier::external_body]
fn fresh_request_id() -> u16 {
    rand::random::<u16>()
}

/// A byte stream over datagrams, without the socket: a request is
/// written and flushed into datagrams to send, and the datagrams that
/// come back are received until the response can be read.
pub struct UdpStream {
    read_buf: Vec<u8>,
    write_buf: Vec<u8>,
    request_id: u16,
    reassembly: Reassembly,
}

impl View for UdpStream {
    type V = UdpStreamView;

    closed spec fn view(&self) -> UdpStreamView {
        UdpStreamView {
            read_buf: self.read_buf@,
            write_buf: self.write_buf@,
            request_id: self.request_id,
            reassembly: self.reassembly@,
        }
    }
}

impl UdpStream {
    /// A stream with nothing written and nothing received.
    pub fn new() -> (stream: UdpStream)
        ensures
            stream@ == (UdpStreamView {
                read_buf: Seq::empty(),
                write_buf: Seq::empty(),
                request_id: 0,
                reassembly: ReassemblyView::empty(),
            }),
    {
        UdpStream {
            read_buf: Vec::new(),
            write_buf: Vec::new(),
            request_id: 0,
            reassembly: Reassembly::new(),
        }
    }

    /// The request id under which the last request went out.
    pub fn request_id(&self) -> (id: u16)
        ensures
            id == self@.request_id,
    {
        self.request_id
    }

    /// Adds `buf` to the request that is being composed. All of it is taken.
    pub fn write(&mut self, buf: &[u8]) -> (written: usize)
        ensures
            written == buf@.len(),
            final(self)@ == (UdpStreamView { write_buf: old(self)@.write_buf + buf@, ..old(self)@ }),
    {
        write_all(&mut self.write_buf, buf);
        buf.len()
    }

    /// Ends the request: hands out the datagrams that carry it, under a
    /// request id picked at random, and makes the stream ready for the
    /// response. A request of more datagrams than can be numbered is
    /// refused, and the stream stays as it was.
    pub fn flush(&mut self) -> (result: Result<Vec<Vec<u8>>, MemcacheError>)
        ensures
            match (result, split_spec(old(self)@.write_buf, final(self)@.request_id)) {
                (Ok(datagrams), Ok(expected)) => contents(datagrams@) == expected && final(self)@
                    == (UdpStreamView {
                    read_buf: Seq::empty(),
                    write_buf: Seq::empty(),
                    request_id: final(self)@.request_id,
                    reassembly: ReassemblyView::empty(),
                }),
                (Err(e), Err(expected)) => e == expected && final(self)@ == old(self)@,
                _ => false,
            },
    {
        let request_id = fresh_request_id();
        let datagrams = split_message(self.write_buf.as_slice(), request_id)?;
        self.request_id = request_id;
        self.write_buf.clear();
        self.read_buf.clear();
        self.reassembly = Reassembly::new();
        Ok(datagrams)
    }

    /// Takes in one datagram of the response, and tells whether the
    /// response is whole and can be read.
    pub fn receive(&mut self, datagram: &[u8]) -> (result: Result<bool, MemcacheError>)
        ensures
            match old(self)@.receive(datagram@) {
                Ok(next) => final(self)@ == next && result == Ok::<bool, MemcacheError>(
                    next.reassembly.complete(),
                ),
                Err(e) => final(self)@ == old(self)@ && result == Err::<bool, MemcacheError>(e),
            },
    {
        if self.reassembly.is_complete() {
            return Ok(true);
        }
        let whole = self.reassembly.accept(datagram)?;
        if whole {
            match self.reassembly.message() {
                Some(message) => {
                    self.read_buf = message;
                },
                None => {},
            }
        }
        Ok(whole)
    }

    /// Moves bytes of the response into `buf`, from the front of what is
    /// left of it: as many as `buf` has room for, or all that are left.
    pub fn read(&mut self, buf: &mut [u8]) -> (count: usize)
        ensures
            count == if old(buf)@.len() <= old(self)@.read_buf.len() {
                old(buf)@.len()
            } else {
                old(self)@.read_buf.len()
            },
            final(buf)@ == old(self)@.read_buf.take(count as int) + old(buf)@.skip(count as int),
            final(self)@ == (UdpStreamView {
                read_buf: old(self)@.read_buf.skip(count as int),
                ..old(self)@
            }),
    {
        let count = if buf.len() <= self.read_buf.len() {
            buf.len()
        } else {
            self.read_buf.len()
        };
        let mut i: usize = 0;
        while i < count
            invariant
                i <= count,
                count <= buf@.len(),
                count <= self.read_buf@.len(),
                buf@.len() == old(buf)@.len(),
                self@ == old(self)@,
                buf@ == old(self)@.read_buf.take(i as int) + old(buf)@.skip(i as int),
            decreases count - i,
        {
            buf[i] = self.read_buf[i];
            i = i + 1;
            assert(buf@ =~= old(self)@.read_buf.take(i as int) + old(buf)@.skip(i as int));
        }
        let rest = self.read_buf.split_off(count);
        self.read_buf = rest;
        assert(self.read_buf@ =~= old(self)@.read_buf.skip(count as int));
        count
    }
}

} // verus!
