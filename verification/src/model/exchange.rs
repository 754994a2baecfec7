//! What whole exchanges come to, for either wire format: the laws of
//! the operation set, each stated of a request of this crate, served by
//! the model, and read back by this crate.

use crate::client::key_fits;
use crate::error::{ClientError, MemcacheError};
use crate::model::ascii::is_word;
use crate::model::{ascii, binary, table_of, Cache};
use crate::protocol::{keyed, storing, value_fits, Protocol};
use crate::text::lit;
use vstd::prelude::*;

verus! {

impl Protocol {
    /// The cache after the model has been sent `b` in this wire format,
    /// and the bytes that it answers with.
    pub open spec fn serve(self, cache: Cache, b: Seq<u8>) -> (Cache, Seq<u8>) {
        match self {
            Protocol::Ascii(_) => ascii::serve(cache, b),
            Protocol::Binary(_) => binary::serve(cache, b),
        }
    }

    /// Whether this wire format can carry `key`: in a line of text a
    /// key is one word, so it holds no space and no line feed; a packet
    /// carries any bytes.
    pub open spec fn carries(self, key: Seq<u8>) -> bool {
        match self {
            Protocol::Ascii(_) => is_word(key),
            Protocol::Binary(_) => true,
        }
    }

    /// Whether this wire format can carry `value` under `key`: a line
    /// of text announces a length of any size that a machine can hold; a
    /// packet has a body length of 32 bits for extras, key and value.
    pub open spec fn carries_value(self, key: Seq<u8>, value: Seq<u8>) -> bool {
        match self {
            Protocol::Ascii(_) => value.len() <= usize::MAX,
            Protocol::Binary(_) => value_fits(key, value),
        }
    }

    /// The bytes in which a server hands out a table of statistics.
    pub open spec fn stats_answer(self, entries: Seq<(Seq<char>, Seq<char>)>) -> Seq<u8> {
        match self {
            Protocol::Ascii(_) => ascii::stats_lines(entries),
            Protocol::Binary(_) => binary::stats_responses(entries),
        }
    }

    /// Whether a table of statistics can travel in this wire format.
    pub open spec fn stats_fit(self, entries: Seq<(Seq<char>, Seq<char>)>) -> bool {
        forall|i: int|
            0 <= i < entries.len() ==> match self {
                Protocol::Ascii(_) => ascii::stat_fits(#[trigger] entries[i]),
                Protocol::Binary(_) => binary::stat_fits(entries[i]),
            }
    }

    /// A key of more than 250 bytes is refused by every operation that
    /// takes a key, whatever else it is given, and no bytes are handed
    /// out to be sent.
    pub proof fn lemma_long_key_is_refused(key: Seq<u8>, value: Seq<u8>, bytes: Seq<u8>)
        requires
            key.len() > 250,
        ensures
            keyed(key, bytes) == Err::<Seq<u8>, MemcacheError>(
                MemcacheError::ClientError(ClientError::KeyTooLong),
            ),
            storing(key, value, bytes) == Err::<Seq<u8>, MemcacheError>(
                MemcacheError::ClientError(ClientError::KeyTooLong),
            ),
            forall|protocol: Protocol| #[trigger]
                protocol.storing(key, value, bytes) == Err::<Seq<u8>, MemcacheError>(
                    MemcacheError::ClientError(ClientError::KeyTooLong),
                ),
    {
    }

    /// What was stored comes back: after a `set` of `value` under `key`,
    /// a `get` of `key` gives `value`, byte for byte, in either wire format.
    pub proof fn lemma_set_then_get(
        self,
        cache: Cache,
        key: Seq<u8>,
        value: Seq<u8>,
        expiration: u32,
    )
        requires
            key_fits(key),
            self.carries_value(key, value),
            self.carries(key),
        ensures
            ({
                let (stored, answer) = self.serve(
                    cache,
                    self.set_request(key, value, expiration),
                );
                let (_, got) = self.serve(stored, self.get_request(key));
                &&& self.done_outcome(answer, lit("STORED")) == Ok::<(), MemcacheError>(())
                &&& self.get_outcome(got, key) == Ok::<Option<Seq<u8>>, MemcacheError>(
                    Some(value),
                )
            }),
    {
        match self {
            Protocol::Ascii(_) => ascii::lemma_set_then_get(cache, key, value, expiration),
            Protocol::Binary(_) => binary::lemma_set_then_get(cache, key, value, expiration),
        }
    }

    /// A `delete` of a key that is absent gives `false`. A `delete` of a
    /// key that is present gives `true`, and a `get` after it gives
    /// nothing.
    pub proof fn lemma_delete(self, cache: Cache, key: Seq<u8>)
        requires
            key_fits(key),
            self.carries(key),
        ensures
            ({
                let (after, answer) = self.serve(cache, self.delete_request(key));
                let (_, got) = self.serve(after, self.get_request(key));
                &&& self.delete_outcome(answer) == Ok::<bool, MemcacheError>(
                    cache.items.contains_key(key),
                )
                &&& self.get_outcome(got, key) == Ok::<Option<Seq<u8>>, MemcacheError>(None)
            }),
    {
        match self {
            Protocol::Ascii(_) => ascii::lemma_delete(cache, key),
            Protocol::Binary(_) => binary::lemma_delete(cache, key),
        }
    }

    /// A `touch` of a key that is absent gives `false`. A `touch` of a
    /// key that is present gives `true` and leaves its value as it was:
    /// a `get` after it gives the value that was there.
    pub proof fn lemma_touch(self, cache: Cache, key: Seq<u8>, expiration: u32)
        requires
            key_fits(key),
            self.carries(key),
            cache.items.contains_key(key) ==> self.carries_value(key, cache.items[key].value),
        ensures
            ({
                let (after, answer) = self.serve(cache, self.touch_request(key, expiration));
                let (_, got) = self.serve(after, self.get_request(key));
                &&& self.touch_outcome(answer) == Ok::<bool, MemcacheError>(
                    cache.items.contains_key(key),
                )
                &&& after == cache
                &&& cache.items.contains_key(key) ==> self.get_outcome(got, key) == Ok::<
                    Option<Seq<u8>>,
                    MemcacheError,
                >(Some(cache.items[key].value))
            }),
    {
        match self {
            Protocol::Ascii(_) => ascii::lemma_touch(cache, key, expiration),
            Protocol::Binary(_) => binary::lemma_touch(cache, key, expiration),
        }
    }

    /// A `cas` with a token that is not the one of the stored value, or
    /// for a key that is absent, gives `false`, never an error, and
    /// changes nothing. In a packet the token zero asks for no
    /// comparison, so it is left out there.
    pub proof fn lemma_cas_with_stale_token(
        self,
        cache: Cache,
        key: Seq<u8>,
        value: Seq<u8>,
        expiration: u32,
        token: u64,
    )
        requires
            key_fits(key),
            self.carries_value(key, value),
            self.carries(key),
            self is Binary ==> token != 0,
            !cache.items.contains_key(key) || cache.items[key].cas != token,
        ensures
            ({
                let (after, answer) = self.serve(
                    cache,
                    self.cas_request(key, value, expiration, token),
                );
                &&& self.cas_outcome(answer) == Ok::<bool, MemcacheError>(false)
                &&& after == cache
            }),
    {
        match self {
            Protocol::Ascii(_) => ascii::lemma_cas_with_stale_token(
                cache,
                key,
                value,
                expiration,
                token,
            ),
            Protocol::Binary(_) => binary::lemma_cas_with_stale_token(
                cache,
                key,
                value,
                expiration,
                token,
            ),
        }
    }

    /// A `cas` with the token of the stored value gives `true`, and the
    /// new value is what a `get` gives after it. The token is stale from
    /// then on: a second `cas` with it gives `false` and changes nothing.
    pub proof fn lemma_cas_with_valid_token(
        self,
        cache: Cache,
        key: Seq<u8>,
        value: Seq<u8>,
        expiration: u32,
        again: Seq<u8>,
    )
        requires
            cache.wf(),
            key_fits(key),
            self.carries_value(key, value),
            self.carries_value(key, again),
            self.carries(key),
            cache.items.contains_key(key),
        ensures
            ({
                let token = cache.items[key].cas;
                let (swapped, first) = self.serve(
                    cache,
                    self.cas_request(key, value, expiration, token),
                );
                let (_, got) = self.serve(swapped, self.get_request(key));
                let (last, second) = self.serve(
                    swapped,
                    self.cas_request(key, again, expiration, token),
                );
                &&& self.cas_outcome(first) == Ok::<bool, MemcacheError>(true)
                &&& self.get_outcome(got, key) == Ok::<Option<Seq<u8>>, MemcacheError>(
                    Some(value),
                )
                &&& self.cas_outcome(second) == Ok::<bool, MemcacheError>(false)
                &&& last == swapped
            }),
    {
        match self {
            Protocol::Ascii(_) => ascii::lemma_cas_with_valid_token(
                cache,
                key,
                value,
                expiration,
                again,
            ),
            Protocol::Binary(_) => binary::lemma_cas_with_valid_token(
                cache,
                key,
                value,
                expiration,
                again,
            ),
        }
    }

    /// A `flush` empties the cache: no key is found after it.
    pub proof fn lemma_flush(self, cache: Cache, key: Seq<u8>)
        requires
            key_fits(key),
            self.carries(key),
        ensures
            ({
                let (after, answer) = self.serve(cache, self.flush_request());
                let (_, got) = self.serve(after, self.get_request(key));
                &&& self.done_outcome(answer, lit("OK")) == Ok::<(), MemcacheError>(())
                &&& self.get_outcome(got, key) == Ok::<Option<Seq<u8>>, MemcacheError>(None)
            }),
    {
        match self {
            Protocol::Ascii(_) => ascii::lemma_flush(cache, key),
            Protocol::Binary(_) => binary::lemma_flush(cache, key),
        }
    }

    /// A `flush_with_delay` is accepted. With a delay of zero it empties
    /// the cache as a `flush` does. With any other delay the keys that
    /// were set before it are still there right after it: a `get` gives
    /// the value.
    pub proof fn lemma_flush_with_delay(self, cache: Cache, key: Seq<u8>, delay: u32)
        requires
            key_fits(key),
            self.carries(key),
            cache.items.contains_key(key) ==> self.carries_value(key, cache.items[key].value),
        ensures
            ({
                let (after, answer) = self.serve(cache, self.flush_with_delay_request(delay));
                let (_, got) = self.serve(after, self.get_request(key));
                &&& self.done_outcome(answer, lit("OK")) == Ok::<(), MemcacheError>(())
                &&& after == if delay == 0 {
                    Cache { items: Map::empty() }
                } else {
                    cache
                }
                &&& delay != 0 && cache.items.contains_key(key) ==> self.get_outcome(got, key)
                    == Ok::<Option<Seq<u8>>, MemcacheError>(Some(cache.items[key].value))
            }),
    {
        match self {
            Protocol::Ascii(_) => ascii::lemma_flush_with_delay(cache, key, delay),
            Protocol::Binary(_) => binary::lemma_flush_with_delay(cache, key, delay),
        }
    }

    /// Statistics are read in full: for any number of entries, none
    /// included, the answer that hands them out and ends as it should is
    /// read as the table of just those entries.
    pub proof fn lemma_stats_are_read(self, entries: Seq<(Seq<char>, Seq<char>)>)
        requires
            self.stats_fit(entries),
        ensures
            self.stats_outcome(self.stats_answer(entries)) == Ok::<
                Map<Seq<char>, Seq<char>>,
                MemcacheError,
            >(table_of(entries, Map::empty())),
    {
        let empty = Seq::<u8>::empty();
        assert(self.stats_answer(entries) + empty =~= self.stats_answer(entries));
        match self {
            Protocol::Ascii(_) => {
                assert forall|i: int| 0 <= i < entries.len() implies ascii::stat_fits(
                    #[trigger] entries[i],
                ) by {}
                ascii::lemma_stats_are_read(entries, Map::empty(), empty);
            },
            Protocol::Binary(_) => {
                assert forall|i: int| 0 <= i < entries.len() implies binary::stat_fits(
                    #[trigger] entries[i],
                ) by {}
                binary::lemma_stats_are_read(entries, Map::empty(), empty);
            },
        }
    }
}

} // verus!
