//! The model server on the binary protocol, and what exchanges with it come to.

use crate::client::key_fits;
use crate::error::{CommandError, MemcacheError};
use crate::model::{table_of, Answer, Cache, Command, StoreMode};
use crate::protocol::binary::{
    delete_request, flush_request, flush_with_delay_request, framable, get_request, request,
    request_header, store_request, touch_request,
};
use crate::protocol::binary_packet::{
    cas_outcome, done_outcome, found_outcome, get_outcome, parse_response_spec,
    response_outcome, stats_outcome, Magic, Opcode, PacketHeader, ResponseView, HEADER_LEN,
};
use crate::protocol::value_fits;
use crate::wire::{be32, be32_value, lemma_be32_round_trip};
use vstd::prelude::*;
use vstd::utf8::{encode_utf8, encode_utf8_decode_utf8, encode_utf8_valid_utf8};

verus! {

broadcast use crate::wire::group_be_len;

/// A request as the server reads it from the wire.
pub struct Request {
    pub opcode: u8,
    pub cas: u64,
    pub extras: Seq<u8>,
    pub key: Seq<u8>,
    pub value: Seq<u8>,
}

/// The request that `b` spell: a header with the request marker, and a
/// body of just the length that the header declares, cut by its lengths.
pub open spec fn read_request(b: Seq<u8>) -> Option<Request> {
    if b.len() < HEADER_LEN {
        None
    } else {
        let header = PacketHeader::of_wire(b);
        let key_start = HEADER_LEN as int + header.extras_length;
        let value_start = key_start + header.key_length;
        let end = HEADER_LEN as int + header.total_body_length;
        if header.magic != Magic::Request.spec_code() || end < value_start || b.len() != end {
            None
        } else {
            Some(
                Request {
                    opcode: header.opcode,
                    cas: header.cas,
                    extras: b.subrange(HEADER_LEN as int, key_start),
                    key: b.subrange(key_start, value_start),
                    value: b.subrange(value_start, end),
                },
            )
        }
    }
}

/// The command that a request asks for, where it is one that the model serves.
pub open spec fn command_of(r: Request) -> Option<Command> {
    if r.opcode == Opcode::Get.spec_code() && r.extras.len() == 0 && r.value.len() == 0 {
        Some(Command::Get { key: r.key })
    } else if r.opcode == Opcode::SetValue.spec_code() && r.extras.len() == 8 {
        Some(
            Command::Store {
                mode: if r.cas == 0 {
                    StoreMode::Always
                } else {
                    StoreMode::IfToken(r.cas)
                },
                key: r.key,
                value: r.value,
            },
        )
    } else if r.opcode == Opcode::Add.spec_code() && r.extras.len() == 8 {
        Some(Command::Store { mode: StoreMode::IfAbsent, key: r.key, value: r.value })
    } else if r.opcode == Opcode::Replace.spec_code() && r.extras.len() == 8 {
        Some(Command::Store { mode: StoreMode::IfPresent, key: r.key, value: r.value })
    } else if r.opcode == Opcode::Delete.spec_code() && r.extras.len() == 0 && r.value.len()
        == 0 {
        Some(Command::Delete { key: r.key })
    } else if r.opcode == Opcode::Touch.spec_code() && r.extras.len() == 4 && r.value.len() == 0 {
        Some(Command::Touch { key: r.key })
    } else if r.opcode == Opcode::Flush.spec_code() && r.key.len() == 0 && r.value.len() == 0
        && r.extras.len() == 0 {
        Some(Command::Flush { delay: 0 })
    } else if r.opcode == Opcode::Flush.spec_code() && r.key.len() == 0 && r.value.len() == 0
        && r.extras.len() == 4 {
        Some(Command::Flush { delay: be32_value(r.extras) })
    } else {
        None
    }
}

/// The bytes of a response with the given status and body.
pub open spec fn response(
    opcode: u8,
    status: u16,
    extras: Seq<u8>,
    key: Seq<u8>,
    value: Seq<u8>,
) -> Seq<u8> {
    PacketHeader {
        magic: Magic::Response.spec_code(),
        opcode,
        key_length: key.len() as u16,
        extras_length: extras.len() as u8,
        data_type: 0,
        vbucket_id_or_status: status,
        total_body_length: (extras.len() + key.len() + value.len()) as u32,
        opaque: 0,
        cas: 0,
    }.wire() + extras + key + value
}

/// The bytes that carry an answer: a value goes out behind four bytes
/// of flags; a failure goes out as its status.
pub open spec fn answer_bytes(opcode: u8, answer: Answer) -> Seq<u8> {
    match answer {
        Answer::Done => response(opcode, 0, seq![], seq![], seq![]),
        Answer::Value(value) => response(opcode, 0, be32(0), seq![], value),
        Answer::Failed(error) => response(opcode, error.spec_status(), seq![], seq![], seq![]),
    }
}

/// The cache after the server has been sent `b`, and the bytes that it
/// answers with. What the model does not understand it answers as an
/// unknown command.
pub open spec fn serve(cache: Cache, b: Seq<u8>) -> (Cache, Seq<u8>) {
    match read_request(b) {
        None => (cache, answer_bytes(0, Answer::Failed(CommandError::UnknownCommand))),
        Some(r) => match command_of(r) {
            None => (cache, answer_bytes(r.opcode, Answer::Failed(CommandError::UnknownCommand))),
            Some(command) => {
                let (next, answer) = cache.apply(command);
                (next, answer_bytes(r.opcode, answer))
            },
        },
    }
}

/// The server reads a request of this crate as what went into it.
pub proof fn lemma_request_is_read(
    opcode: Opcode,
    cas: u64,
    extras: Seq<u8>,
    key: Seq<u8>,
    value: Seq<u8>,
)
    requires
        framable(extras, key, value),
    ensures
        read_request(request(opcode, cas, extras, key, value)) == Some(
            Request { opcode: opcode.spec_code(), cas, extras, key, value },
        ),
{
    let header = request_header(opcode, cas, extras, key, value);
    let b = request(opcode, cas, extras, key, value);
    header.lemma_wire_len();
    assert(b =~= header.wire() + (extras + key + value));
    header.lemma_wire_round_trip(extras + key + value);
    let key_start = HEADER_LEN as int + extras.len();
    let value_start = key_start + key.len();
    let end = value_start + value.len();
    assert(b.subrange(HEADER_LEN as int, key_start) =~= extras);
    assert(b.subrange(key_start, value_start) =~= key);
    assert(b.subrange(value_start, end) =~= value);
}

/// This crate reads a response of the server as what went into it,
/// whatever bytes follow the response.
pub proof fn lemma_response_is_read(
    opcode: u8,
    status: u16,
    extras: Seq<u8>,
    key: Seq<u8>,
    value: Seq<u8>,
    rest: Seq<u8>,
)
    requires
        framable(extras, key, value),
    ensures
        parse_response_spec(response(opcode, status, extras, key, value) + rest) matches Ok(
            (r, used),
        ) && r.key == key && r.value == value && r.header.vbucket_id_or_status == status && used
            == response(opcode, status, extras, key, value).len() && used == HEADER_LEN
            + extras.len() + key.len() + value.len(),
{
    let b = response(opcode, status, extras, key, value) + rest;
    let header = PacketHeader {
        magic: Magic::Response.spec_code(),
        opcode,
        key_length: key.len() as u16,
        extras_length: extras.len() as u8,
        data_type: 0,
        vbucket_id_or_status: status,
        total_body_length: (extras.len() + key.len() + value.len()) as u32,
        opaque: 0,
        cas: 0,
    };
    header.lemma_wire_len();
    assert(b =~= header.wire() + (extras + key + value + rest));
    header.lemma_read_what_was_written(extras + key + value + rest);
    let key_start = HEADER_LEN as int + extras.len();
    let value_start = key_start + key.len();
    let end = value_start + value.len();
    assert(b.subrange(key_start, value_start) =~= key);
    assert(b.subrange(value_start, end) =~= value);
}

/// The server reads a storing request as the command to store.
proof fn lemma_store_is_served(
    opcode: Opcode,
    key: Seq<u8>,
    value: Seq<u8>,
    expiration: u32,
    cas: Option<u64>,
)
    requires
        key_fits(key),
        value_fits(key, value),
    ensures
        read_request(store_request(opcode, key, value, expiration, cas)) matches Some(r)
            && r.opcode == opcode.spec_code() && r.key == key && r.value == value
            && r.extras.len() == 8 && r.cas == (match cas {
            Some(token) => token,
            None => 0,
        }),
{
    let extras = be32(0) + be32(expiration);
    lemma_request_is_read(
        opcode,
        match cas {
            Some(token) => token,
            None => 0,
        },
        extras,
        key,
        value,
    );
}

/// This crate reads the bytes of an answer as that answer.
proof fn lemma_answer_is_read(opcode: u8, answer: Answer)
    requires
        answer matches Answer::Value(value) ==> framable(be32(0), seq![], value),
    ensures
        match answer {
            Answer::Done => response_outcome(answer_bytes(opcode, answer)) is Ok,
            Answer::Value(value) => response_outcome(answer_bytes(opcode, answer)) matches Ok(
                (r, _),
            ) && r.value == value,
            Answer::Failed(error) => error.spec_status() != 0 && CommandError::of_status(
                error.spec_status(),
            ) == error ==> response_outcome(answer_bytes(opcode, answer)) == Err::<
                (ResponseView, nat),
                MemcacheError,
            >(MemcacheError::CommandError(error)),
        },
{
    let b = answer_bytes(opcode, answer);
    assert(b + Seq::<u8>::empty() =~= b);
    match answer {
        Answer::Done => {
            lemma_response_is_read(opcode, 0, seq![], seq![], seq![], seq![]);
        },
        Answer::Value(value) => {
            lemma_response_is_read(opcode, 0, be32(0), seq![], value, seq![]);
        },
        Answer::Failed(error) => {
            lemma_response_is_read(opcode, error.spec_status(), seq![], seq![], seq![], seq![]);
        },
    }
    let r = parse_response_spec(b)->Ok_0.0;
    assert(parse_response_spec(b) is Ok);
    assert(r.status() == 0 ==> r.err() is Ok);
}

/// What was stored comes back: after a `set` of `value` under `key`, a
/// `get` of `key` gives `value`, byte for byte.
pub proof fn lemma_set_then_get(cache: Cache, key: Seq<u8>, value: Seq<u8>, expiration: u32)
    requires
        key_fits(key),
        value_fits(key, value),
    ensures
        ({
            let (stored, answer) = serve(
                cache,
                store_request(Opcode::SetValue, key, value, expiration, None),
            );
            let (_, got) = serve(stored, get_request(key));
            &&& done_outcome(answer) == Ok::<(), MemcacheError>(())
            &&& get_outcome(got) == Ok::<Option<Seq<u8>>, MemcacheError>(Some(value))
        }),
{
    lemma_store_is_served(Opcode::SetValue, key, value, expiration, None);
    let (stored, answer) = serve(
        cache,
        store_request(Opcode::SetValue, key, value, expiration, None),
    );
    lemma_answer_is_read(Opcode::SetValue.spec_code(), Answer::Done);
    lemma_request_is_read(Opcode::Get, 0, seq![], key, seq![]);
    lemma_answer_is_read(Opcode::Get.spec_code(), Answer::Value(value));
}

/// An `add` stores under a key that is absent, and fails on one that is
/// present; a `replace` does the reverse.
pub proof fn lemma_add_and_replace(cache: Cache, key: Seq<u8>, value: Seq<u8>, expiration: u32)
    requires
        key_fits(key),
        value_fits(key, value),
    ensures
        ({
            let (added, add) = serve(
                cache,
                store_request(Opcode::Add, key, value, expiration, None),
            );
            let (replaced, replace) = serve(
                cache,
                store_request(Opcode::Replace, key, value, expiration, None),
            );
            if cache.items.contains_key(key) {
                &&& done_outcome(add) == Err::<(), MemcacheError>(
                    MemcacheError::CommandError(CommandError::KeyExists),
                )
                &&& added == cache
                &&& done_outcome(replace) == Ok::<(), MemcacheError>(())
                &&& get_outcome(serve(replaced, get_request(key)).1) == Ok::<
                    Option<Seq<u8>>,
                    MemcacheError,
                >(Some(value))
            } else {
                &&& done_outcome(add) == Ok::<(), MemcacheError>(())
                &&& get_outcome(serve(added, get_request(key)).1) == Ok::<
                    Option<Seq<u8>>,
                    MemcacheError,
                >(Some(value))
                &&& done_outcome(replace) == Err::<(), MemcacheError>(
                    MemcacheError::CommandError(CommandError::KeyNotFound),
                )
                &&& replaced == cache
            }
        }),
{
    lemma_store_is_served(Opcode::Add, key, value, expiration, None);
    lemma_store_is_served(Opcode::Replace, key, value, expiration, None);
    lemma_answer_is_read(Opcode::Add.spec_code(), Answer::Done);
    lemma_answer_is_read(Opcode::Replace.spec_code(), Answer::Done);
    lemma_answer_is_read(Opcode::Add.spec_code(), Answer::Failed(CommandError::KeyExists));
    lemma_answer_is_read(Opcode::Replace.spec_code(), Answer::Failed(CommandError::KeyNotFound));
    lemma_request_is_read(Opcode::Get, 0, seq![], key, seq![]);
    lemma_answer_is_read(Opcode::Get.spec_code(), Answer::Value(value));
}

/// A `delete` of a key that is absent gives `false`. A `delete` of a
/// key that is present gives `true`, and a `get` after it gives nothing.
pub proof fn lemma_delete(cache: Cache, key: Seq<u8>)
    requires
        key_fits(key),
    ensures
        ({
            let (after, answer) = serve(cache, delete_request(key));
            let (_, got) = serve(after, get_request(key));
            &&& found_outcome(answer) == Ok::<bool, MemcacheError>(cache.items.contains_key(key))
            &&& get_outcome(got) == Ok::<Option<Seq<u8>>, MemcacheError>(None)
        }),
{
    lemma_request_is_read(Opcode::Delete, 0, seq![], key, seq![]);
    lemma_answer_is_read(Opcode::Delete.spec_code(), Answer::Done);
    lemma_answer_is_read(Opcode::Delete.spec_code(), Answer::Failed(CommandError::KeyNotFound));
    lemma_request_is_read(Opcode::Get, 0, seq![], key, seq![]);
    lemma_answer_is_read(Opcode::Get.spec_code(), Answer::Failed(CommandError::KeyNotFound));
}

/// A `touch` of a key that is absent gives `false`. A `touch` of a key
/// that is present gives `true` and leaves the cache as it was, so that a
/// `get` after it gives the value that was there.
pub proof fn lemma_touch(cache: Cache, key: Seq<u8>, expiration: u32)
    requires
        key_fits(key),
        cache.items.contains_key(key) ==> value_fits(key, cache.items[key].value),
    ensures
        ({
            let (after, answer) = serve(cache, touch_request(key, expiration));
            let (_, got) = serve(after, get_request(key));
            &&& found_outcome(answer) == Ok::<bool, MemcacheError>(cache.items.contains_key(key))
            &&& after == cache
            &&& cache.items.contains_key(key) ==> get_outcome(got) == Ok::<
                Option<Seq<u8>>,
                MemcacheError,
            >(Some(cache.items[key].value))
        }),
{
    lemma_request_is_read(Opcode::Touch, 0, be32(expiration), key, seq![]);
    lemma_answer_is_read(Opcode::Touch.spec_code(), Answer::Done);
    lemma_answer_is_read(Opcode::Touch.spec_code(), Answer::Failed(CommandError::KeyNotFound));
    lemma_request_is_read(Opcode::Get, 0, seq![], key, seq![]);
    if cache.items.contains_key(key) {
        lemma_answer_is_read(Opcode::Get.spec_code(), Answer::Value(cache.items[key].value));
    }
}

/// A compare-and-swap with a token that is not the one of the stored
/// value, or for a key that is absent, gives `false` and changes nothing.
/// The token zero is left out: on this protocol it asks for no comparison.
pub proof fn lemma_cas_with_stale_token(
    cache: Cache,
    key: Seq<u8>,
    value: Seq<u8>,
    expiration: u32,
    token: u64,
)
    requires
        key_fits(key),
        value_fits(key, value),
        token != 0,
        !cache.items.contains_key(key) || cache.items[key].cas != token,
    ensures
        ({
            let (after, answer) = serve(
                cache,
                store_request(Opcode::SetValue, key, value, expiration, Some(token)),
            );
            &&& cas_outcome(answer) == Ok::<bool, MemcacheError>(false)
            &&& after == cache
        }),
{
    lemma_store_is_served(Opcode::SetValue, key, value, expiration, Some(token));
    lemma_answer_is_read(Opcode::SetValue.spec_code(), Answer::Failed(CommandError::KeyExists));
    lemma_answer_is_read(Opcode::SetValue.spec_code(), Answer::Failed(CommandError::KeyNotFound));
}

/// A compare-and-swap with the token of the stored value gives `true`,
/// and the new value is what a `get` gives after it. The same token is
/// stale from then on: a second compare-and-swap with it gives `false`.
pub proof fn lemma_cas_with_valid_token(
    cache: Cache,
    key: Seq<u8>,
    value: Seq<u8>,
    expiration: u32,
    again: Seq<u8>,
)
    requires
        cache.wf(),
        key_fits(key),
        value_fits(key, value),
        value_fits(key, again),
        cache.items.contains_key(key),
    ensures
        ({
            let token = cache.items[key].cas;
            let (swapped, first) = serve(
                cache,
                store_request(Opcode::SetValue, key, value, expiration, Some(token)),
            );
            let (_, got) = serve(swapped, get_request(key));
            let (last, second) = serve(
                swapped,
                store_request(Opcode::SetValue, key, again, expiration, Some(token)),
            );
            &&& cas_outcome(first) == Ok::<bool, MemcacheError>(true)
            &&& get_outcome(got) == Ok::<Option<Seq<u8>>, MemcacheError>(Some(value))
            &&& cas_outcome(second) == Ok::<bool, MemcacheError>(false)
            &&& last == swapped
        }),
{
    let token = cache.items[key].cas;
    assert(token != 0);
    lemma_store_is_served(Opcode::SetValue, key, value, expiration, Some(token));
    lemma_answer_is_read(Opcode::SetValue.spec_code(), Answer::Done);
    lemma_request_is_read(Opcode::Get, 0, seq![], key, seq![]);
    lemma_answer_is_read(Opcode::Get.spec_code(), Answer::Value(value));
    let swapped = serve(
        cache,
        store_request(Opcode::SetValue, key, value, expiration, Some(token)),
    ).0;
    lemma_cas_with_stale_token(swapped, key, again, expiration, token);
}

/// A flush empties the cache: no key is found after it.
pub proof fn lemma_flush(cache: Cache, key: Seq<u8>)
    requires
        key_fits(key),
    ensures
        ({
            let (after, answer) = serve(cache, flush_request());
            let (_, got) = serve(after, get_request(key));
            &&& done_outcome(answer) == Ok::<(), MemcacheError>(())
            &&& get_outcome(got) == Ok::<Option<Seq<u8>>, MemcacheError>(None)
        }),
{
    lemma_request_is_read(Opcode::Flush, 0, seq![], seq![], seq![]);
    lemma_answer_is_read(Opcode::Flush.spec_code(), Answer::Done);
    lemma_request_is_read(Opcode::Get, 0, seq![], key, seq![]);
    lemma_answer_is_read(Opcode::Get.spec_code(), Answer::Failed(CommandError::KeyNotFound));
}

/// A flush with a delay of zero empties the cache as a plain flush
/// does. A flush with any other delay is accepted and leaves the cache
/// as it is for the time being: a `get` right after it gives the value
/// that was there.
pub proof fn lemma_flush_with_delay(cache: Cache, key: Seq<u8>, delay: u32)
    requires
        key_fits(key),
        cache.items.contains_key(key) ==> value_fits(key, cache.items[key].value),
    ensures
        ({
            let (after, answer) = serve(cache, flush_with_delay_request(delay));
            let (_, got) = serve(after, get_request(key));
            &&& done_outcome(answer) == Ok::<(), MemcacheError>(())
            &&& after == if delay == 0 {
                Cache { items: Map::empty() }
            } else {
                cache
            }
            &&& delay != 0 && cache.items.contains_key(key) ==> get_outcome(got) == Ok::<
                Option<Seq<u8>>,
                MemcacheError,
            >(Some(cache.items[key].value))
        }),
{
    lemma_request_is_read(Opcode::Flush, 0, be32(delay), seq![], seq![]);
    lemma_be32_round_trip(delay);
    lemma_answer_is_read(Opcode::Flush.spec_code(), Answer::Done);
    lemma_request_is_read(Opcode::Get, 0, seq![], key, seq![]);
    if cache.items.contains_key(key) {
        lemma_answer_is_read(Opcode::Get.spec_code(), Answer::Value(cache.items[key].value));
    }
}

/// The responses that carry a table of statistics: one for each entry,
/// in their order, and the response with empty key and empty value that
/// ends them.
pub open spec fn stats_responses(entries: Seq<(Seq<char>, Seq<char>)>) -> Seq<u8>
    decreases entries.len(),
{
    let opcode = Opcode::Stat.spec_code();
    if entries.len() == 0 {
        response(opcode, 0, seq![], seq![], seq![])
    } else {
        response(
            opcode,
            0,
            seq![],
            encode_utf8(entries[0].0),
            encode_utf8(entries[0].1),
        ) + stats_responses(entries.drop_first())
    }
}

/// Whether an entry can travel in one response and is not mistaken for
/// the end of the list: name and value fit their fields, and are not
/// both empty.
pub open spec fn stat_fits(entry: (Seq<char>, Seq<char>)) -> bool {
    &&& framable(seq![], encode_utf8(entry.0), encode_utf8(entry.1))
    &&& entry.0.len() > 0 || entry.1.len() > 0
}

/// Statistics are read in full, however many there are: the responses
/// for any number of entries, ended as they should be, are read as the
/// table of just those entries, and what follows the end is left alone.
pub proof fn lemma_stats_are_read(
    entries: Seq<(Seq<char>, Seq<char>)>,
    seen: Map<Seq<char>, Seq<char>>,
    rest: Seq<u8>,
)
    requires
        forall|i: int| 0 <= i < entries.len() ==> stat_fits(#[trigger] entries[i]),
    ensures
        stats_outcome(stats_responses(entries) + rest, seen) == Ok::<
            Map<Seq<char>, Seq<char>>,
            MemcacheError,
        >(table_of(entries, seen)),
    decreases entries.len(),
{
    let opcode = Opcode::Stat.spec_code();
    let b = stats_responses(entries) + rest;
    if entries.len() == 0 {
        lemma_response_is_read(opcode, 0, seq![], seq![], seq![], rest);
        let r = parse_response_spec(b)->Ok_0.0;
        assert(r.err() is Ok);
        assert(r.key =~= encode_utf8(Seq::<char>::empty()));
        encode_utf8_valid_utf8(Seq::<char>::empty());
        encode_utf8_decode_utf8(Seq::<char>::empty());
    } else {
        let name = entries[0].0;
        let value = entries[0].1;
        let first = response(opcode, 0, seq![], encode_utf8(name), encode_utf8(value));
        let later = stats_responses(entries.drop_first()) + rest;
        assert(stat_fits(entries[0]));
        assert(b =~= first + later);
        lemma_response_is_read(opcode, 0, seq![], encode_utf8(name), encode_utf8(value), later);
        let r = parse_response_spec(b)->Ok_0.0;
        assert(r.err() is Ok);
        encode_utf8_valid_utf8(name);
        encode_utf8_decode_utf8(name);
        encode_utf8_valid_utf8(value);
        encode_utf8_decode_utf8(value);
        assert(b.skip(first.len() as int) =~= later);
        assert forall|i: int| 0 <= i < entries.drop_first().len() implies stat_fits(
            #[trigger] entries.drop_first()[i],
        ) by {
            assert(entries.drop_first()[i] == entries[i + 1]);
        }
        lemma_stats_are_read(entries.drop_first(), seen.insert(name, value), rest);
    }
}

} // verus!
