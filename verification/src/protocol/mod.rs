//! The two wire formats and the operation set they share.

pub mod ascii;
pub mod binary;
pub mod binary_packet;

use crate::client::{key_fits, Stats};
use crate::error::{ClientError, MemcacheError};
use crate::protocol::ascii::{AsciiProtocol, StoreCommand};
use crate::protocol::binary::BinaryProtocol;
use crate::protocol::binary_packet::Opcode;
use crate::text::lit;
use vstd::prelude::*;
use vstd::string::StringSliceAdditionalSpecFns;

verus! {

/// The longest body that the 32-bit length field of a binary packet can describe.
pub const MAX_BODY_LEN: u64 = 0xffff_ffff;

/// Whether a value can travel in a binary packet with its key: the 8
/// bytes of extras, the key and the value together are a body that the
/// length field can describe.
pub open spec fn value_fits(key: Seq<u8>, value: Seq<u8>) -> bool {
    8 + key.len() + value.len() <= MAX_BODY_LEN
}

/// Whether what an operation hands out to be sent is what was expected of
/// it: the same bytes, or the same refusal.
pub open spec fn sends(
    result: Result<Vec<u8>, MemcacheError>,
    expected: Result<Seq<u8>, MemcacheError>,
) -> bool {
    match (result, expected) {
        (Ok(bytes), Ok(e)) => bytes@ == e,
        (Err(error), Err(e)) => error == e,
        _ => false,
    }
}

/// The request of an operation on a key: `bytes`, unless the key is over
/// 250 bytes and the operation is refused.
pub open spec fn keyed(key: Seq<u8>, bytes: Seq<u8>) -> Result<Seq<u8>, MemcacheError> {
    if key_fits(key) {
        Ok(bytes)
    } else {
        Err(MemcacheError::ClientError(ClientError::KeyTooLong))
    }
}

/// The request of an operation that stores a value in a binary packet:
/// `bytes`, unless the key is over 250 bytes, or the value so long that
/// the body length of the packet cannot describe it.
pub open spec fn storing(key: Seq<u8>, value: Seq<u8>, bytes: Seq<u8>) -> Result<
    Seq<u8>,
    MemcacheError,
> {
    if !key_fits(key) {
        Err(MemcacheError::ClientError(ClientError::KeyTooLong))
    } else if !value_fits(key, value) {
        Err(MemcacheError::ClientError(ClientError::ValueTooLong))
    } else {
        Ok(bytes)
    }
}

/// The wire format of a connection: one of two, chosen when the
/// connection is set up. Either speaks the whole operation set, so that
/// a caller need not know which one it holds.
///
/// An operation has two halves. The half named after the operation gives
/// the bytes of the request; the `parse_` half reads the result from the
/// bytes of the response. An early end of those bytes is reported as
/// such, and the caller reads on and asks again.
#[derive(Clone, Copy, Debug, PartialEq, Eq, Structural)]
pub enum Protocol {
    Ascii(AsciiProtocol),
    Binary(BinaryProtocol),
}

impl Protocol {
    /// The bytes that authenticate with a user name and a password, where
    /// they can be sent.
    pub open spec fn auth_request(self, username: Seq<u8>, password: Seq<u8>) -> Result<
        Seq<u8>,
        MemcacheError,
    > {
        match self {
            Protocol::Ascii(_) => Ok(ascii::auth_request(username, password)),
            Protocol::Binary(_) => if binary::credentials_fit(username, password) {
                Ok(binary::auth_request(username, password))
            } else {
                Err(MemcacheError::ClientError(ClientError::ValueTooLong))
            },
        }
    }

    /// The request of an operation that stores a value: `bytes`,
    /// unless the key is over 250 bytes. A line of text takes a value of
    /// any length; a packet refuses one that its body length cannot
    /// describe.
    pub open spec fn storing(self, key: Seq<u8>, value: Seq<u8>, bytes: Seq<u8>) -> Result<
        Seq<u8>,
        MemcacheError,
    > {
        match self {
            Protocol::Ascii(_) => keyed(key, bytes),
            Protocol::Binary(_) => storing(key, value, bytes),
        }
    }

    /// The bytes that ask for the server's version.
    pub open spec fn version_request(self) -> Seq<u8> {
        match self {
            Protocol::Ascii(_) => ascii::version_request(),
            Protocol::Binary(_) => binary::version_request(),
        }
    }

    /// The bytes that empty the cache at once.
    pub open spec fn flush_request(self) -> Seq<u8> {
        match self {
            Protocol::Ascii(_) => ascii::flush_request(),
            Protocol::Binary(_) => binary::flush_request(),
        }
    }

    /// The bytes that empty the cache after `delay` seconds.
    pub open spec fn flush_with_delay_request(self, delay: u32) -> Seq<u8> {
        match self {
            Protocol::Ascii(_) => ascii::flush_with_delay_request(delay),
            Protocol::Binary(_) => binary::flush_with_delay_request(delay),
        }
    }

    /// The bytes that ask for the value under `key`.
    pub open spec fn get_request(self, key: Seq<u8>) -> Seq<u8> {
        match self {
            Protocol::Ascii(_) => ascii::get_request(key),
            Protocol::Binary(_) => binary::get_request(key),
        }
    }

    /// The bytes that store `value` under `key`, present or not.
    pub open spec fn set_request(self, key: Seq<u8>, value: Seq<u8>, expiration: u32) -> Seq<u8> {
        match self {
            Protocol::Ascii(_) => ascii::store_request(
                StoreCommand::SetValue,
                key,
                value,
                expiration,
                None,
            ),
            Protocol::Binary(_) => binary::store_request(
                Opcode::SetValue,
                key,
                value,
                expiration,
                None,
            ),
        }
    }

    /// The bytes that store `value` under `key` if `cas` is still the
    /// token of the stored value.
    pub open spec fn cas_request(
        self,
        key: Seq<u8>,
        value: Seq<u8>,
        expiration: u32,
        cas: u64,
    ) -> Seq<u8> {
        match self {
            Protocol::Ascii(_) => ascii::store_request(
                StoreCommand::Cas,
                key,
                value,
                expiration,
                Some(cas),
            ),
            Protocol::Binary(_) => binary::store_request(
                Opcode::SetValue,
                key,
                value,
                expiration,
                Some(cas),
            ),
        }
    }

    /// The bytes that store `value` under `key` if the key is absent.
    pub open spec fn add_request(self, key: Seq<u8>, value: Seq<u8>, expiration: u32) -> Seq<u8> {
        match self {
            Protocol::Ascii(_) => ascii::store_request(
                StoreCommand::Add,
                key,
                value,
                expiration,
                None,
            ),
            Protocol::Binary(_) => binary::store_request(Opcode::Add, key, value, expiration, None),
        }
    }

    /// The bytes that store `value` under `key` if the key is present.
    pub open spec fn replace_request(
        self,
        key: Seq<u8>,
        value: Seq<u8>,
        expiration: u32,
    ) -> Seq<u8> {
        match self {
            Protocol::Ascii(_) => ascii::store_request(
                StoreCommand::Replace,
                key,
                value,
                expiration,
                None,
            ),
            Protocol::Binary(_) => binary::store_request(
                Opcode::Replace,
                key,
                value,
                expiration,
                None,
            ),
        }
    }

    /// The bytes that remove `key`.
    pub open spec fn delete_request(self, key: Seq<u8>) -> Seq<u8> {
        match self {
            Protocol::Ascii(_) => ascii::delete_request(key),
            Protocol::Binary(_) => binary::delete_request(key),
        }
    }

    /// The bytes that give `key` a new expiration.
    pub open spec fn touch_request(self, key: Seq<u8>, expiration: u32) -> Seq<u8> {
        match self {
            Protocol::Ascii(_) => ascii::touch_request(key, expiration),
            Protocol::Binary(_) => binary::touch_request(key, expiration),
        }
    }

    /// The bytes that ask for the server's statistics.
    pub open spec fn stats_request(self) -> Seq<u8> {
        match self {
            Protocol::Ascii(_) => ascii::stats_request(),
            Protocol::Binary(_) => binary::stats_request(),
        }
    }

    /// What the answer `b` to a request without a result of its own
    /// means, where the text protocol answers with the line `word`.
    pub open spec fn done_outcome(self, b: Seq<u8>, word: Seq<u8>) -> Result<(), MemcacheError> {
        match self {
            Protocol::Ascii(_) => ascii::word_outcome(b, word),
            Protocol::Binary(_) => binary_packet::done_outcome(b),
        }
    }

    /// What the answer `b` to a version request means.
    pub open spec fn version_outcome(self, b: Seq<u8>) -> Result<Seq<char>, MemcacheError> {
        match self {
            Protocol::Ascii(_) => ascii::version_outcome(b),
            Protocol::Binary(_) => binary_packet::version_outcome(b),
        }
    }

    /// What the answer `b` to a get for `key` means.
    pub open spec fn get_outcome(self, b: Seq<u8>, key: Seq<u8>) -> Result<
        Option<Seq<u8>>,
        MemcacheError,
    > {
        match self {
            Protocol::Ascii(_) => ascii::get_outcome(b, key),
            Protocol::Binary(_) => binary_packet::get_outcome(b),
        }
    }

    /// What the answer `b` to a compare-and-swap means.
    pub open spec fn cas_outcome(self, b: Seq<u8>) -> Result<bool, MemcacheError> {
        match self {
            Protocol::Ascii(_) => ascii::cas_outcome(b),
            Protocol::Binary(_) => binary_packet::cas_outcome(b),
        }
    }

    /// What the answer `b` to a delete means.
    pub open spec fn delete_outcome(self, b: Seq<u8>) -> Result<bool, MemcacheError> {
        match self {
            Protocol::Ascii(_) => ascii::found_outcome(b, lit("DELETED")),
            Protocol::Binary(_) => binary_packet::found_outcome(b),
        }
    }

    /// What the answer `b` to a touch means.
    pub open spec fn touch_outcome(self, b: Seq<u8>) -> Result<bool, MemcacheError> {
        match self {
            Protocol::Ascii(_) => ascii::found_outcome(b, lit("TOUCHED")),
            Protocol::Binary(_) => binary_packet::found_outcome(b),
        }
    }

    /// What the answer `b` to a statistics request means.
    pub open spec fn stats_outcome(self, b: Seq<u8>) -> Result<
        Map<Seq<char>, Seq<char>>,
        MemcacheError,
    > {
        match self {
            Protocol::Ascii(_) => ascii::stats_outcome(b, Map::empty()),
            Protocol::Binary(_) => binary_packet::stats_outcome(b, Map::empty()),
        }
    }

    /// The request that authenticates with `username` and `password`.
    pub fn auth(&self, username: &str, password: &str) -> (result: Result<Vec<u8>, MemcacheError>)
        ensures
            sends(result, self.auth_request(username.spec_bytes(), password.spec_bytes())),
    {
        match self {
            Protocol::Ascii(protocol) => Ok(protocol.auth(username, password)),
            Protocol::Binary(protocol) => protocol.auth(username, password),
        }
    }

    /// The request for the server's version.
    pub fn version(&self) -> (bytes: Vec<u8>)
        ensures
            bytes@ == self.version_request(),
    {
        match self {
            Protocol::Ascii(protocol) => protocol.version(),
            Protocol::Binary(protocol) => protocol.version(),
        }
    }

    /// The request that empties the cache at once.
    pub fn flush(&self) -> (bytes: Vec<u8>)
        ensures
            bytes@ == self.flush_request(),
    {
        match self {
            Protocol::Ascii(protocol) => protocol.flush(),
            Protocol::Binary(protocol) => protocol.flush(),
        }
    }

    /// The request that empties the cache after `delay` seconds.
    pub fn flush_with_delay(&self, delay: u32) -> (bytes: Vec<u8>)
        ensures
            bytes@ == self.flush_with_delay_request(delay),
    {
        match self {
            Protocol::Ascii(protocol) => protocol.flush_with_delay(delay),
            Protocol::Binary(protocol) => protocol.flush_with_delay(delay),
        }
    }

    /// The request for the value under `key`. A key over 250 bytes is
    /// refused, and nothing is to be sent.
    pub fn get(&self, key: &str) -> (result: Result<Vec<u8>, MemcacheError>)
        ensures
            sends(result, keyed(key.spec_bytes(), self.get_request(key.spec_bytes()))),
    {
        match self {
            Protocol::Ascii(protocol) => protocol.get(key),
            Protocol::Binary(protocol) => protocol.get(key),
        }
    }

    /// The request that stores `value` under `key`, present or not. A
    /// key over 250 bytes is refused, and so is a value too long for a
    /// packet, where packets are spoken; nothing is to be sent then.
    pub fn set(&self, key: &str, value: &[u8], expiration: u32) -> (result: Result<
        Vec<u8>,
        MemcacheError,
    >)
        ensures
            sends(
                result,
                self.storing(
                    key.spec_bytes(),
                    value@,
                    self.set_request(key.spec_bytes(), value@, expiration),
                ),
            ),
    {
        match self {
            Protocol::Ascii(protocol) => protocol.set(key, value, expiration),
            Protocol::Binary(protocol) => protocol.set(key, value, expiration),
        }
    }

    /// The request that stores `value` under `key` if `cas` is still the
    /// token of the stored value. A key over 250 bytes is refused, and so
    /// is a value too long for a packet, where packets are spoken; nothing
    /// is to be sent then.
    pub fn cas(&self, key: &str, value: &[u8], expiration: u32, cas: u64) -> (result: Result<
        Vec<u8>,
        MemcacheError,
    >)
        ensures
            sends(
                result,
                self.storing(
                    key.spec_bytes(),
                    value@,
                    self.cas_request(key.spec_bytes(), value@, expiration, cas),
                ),
            ),
    {
        match self {
            Protocol::Ascii(protocol) => protocol.cas(key, value, expiration, cas),
            Protocol::Binary(protocol) => protocol.cas(key, value, expiration, cas),
        }
    }

    /// The request that stores `value` under `key` if the key is absent.
    /// A key over 250 bytes is refused, and so is a value too long for a
    /// packet, where packets are spoken; nothing is to be sent then.
    pub fn add(&self, key: &str, value: &[u8], expiration: u32) -> (result: Result<
        Vec<u8>,
        MemcacheError,
    >)
        ensures
            sends(
                result,
                self.storing(
                    key.spec_bytes(),
                    value@,
                    self.add_request(key.spec_bytes(), value@, expiration),
                ),
            ),
    {
        match self {
            Protocol::Ascii(protocol) => protocol.add(key, value, expiration),
            Protocol::Binary(protocol) => protocol.add(key, value, expiration),
        }
    }

    /// The request that stores `value` under `key` if the key is present.
    /// A key over 250 bytes is refused, and so is a value too long for a
    /// packet, where packets are spoken; nothing is to be sent then.
    pub fn replace(&self, key: &str, value: &[u8], expiration: u32) -> (result: Result<
        Vec<u8>,
        MemcacheError,
    >)
        ensures
            sends(
                result,
                self.storing(
                    key.spec_bytes(),
                    value@,
                    self.replace_request(key.spec_bytes(), value@, expiration),
                ),
            ),
    {
        match self {
            Protocol::Ascii(protocol) => protocol.replace(key, value, expiration),
            Protocol::Binary(protocol) => protocol.replace(key, value, expiration),
        }
    }

    /// The request that removes `key`. A key over 250 bytes is refused,
    /// and nothing is to be sent.
    pub fn delete(&self, key: &str) -> (result: Result<Vec<u8>, MemcacheError>)
        ensures
            sends(result, keyed(key.spec_bytes(), self.delete_request(key.spec_bytes()))),
    {
        match self {
            Protocol::Ascii(protocol) => protocol.delete(key),
            Protocol::Binary(protocol) => protocol.delete(key),
        }
    }

    /// The request that gives `key` a new expiration. A key over 250
    /// bytes is refused, and nothing is to be sent.
    pub fn touch(&self, key: &str, expiration: u32) -> (result: Result<Vec<u8>, MemcacheError>)
        ensures
            sends(
                result,
                keyed(key.spec_bytes(), self.touch_request(key.spec_bytes(), expiration)),
            ),
    {
        match self {
            Protocol::Ascii(protocol) => protocol.touch(key, expiration),
            Protocol::Binary(protocol) => protocol.touch(key, expiration),
        }
    }

    /// The request for the server's statistics.
    pub fn stats(&self) -> (bytes: Vec<u8>)
        ensures
            bytes@ == self.stats_request(),
    {
        match self {
            Protocol::Ascii(protocol) => protocol.stats(),
            Protocol::Binary(protocol) => protocol.stats(),
        }
    }

    /// Reads the answer to `auth`.
    pub fn parse_auth_response(&self, reader: &[u8]) -> (result: Result<(), MemcacheError>)
        ensures
            result == self.done_outcome(reader@, lit("STORED")),
    {
        match self {
            Protocol::Ascii(protocol) => protocol.parse_auth_response(reader),
            Protocol::Binary(protocol) => protocol.parse_auth_response(reader),
        }
    }

    /// Reads the answer to `version`.
    pub fn parse_version_response(&self, reader: &[u8]) -> (result: Result<String, MemcacheError>)
        ensures
            match (result, self.version_outcome(reader@)) {
                (Ok(version), Ok(expected)) => version@ == expected,
                (Err(e), Err(expected)) => e == expected,
                _ => false,
            },
    {
        match self {
            Protocol::Ascii(protocol) => protocol.parse_version_response(reader),
            Protocol::Binary(protocol) => protocol.parse_version_response(reader),
        }
    }

    /// Reads the answer to `flush` and to `flush_with_delay`.
    pub fn parse_flush_response(&self, reader: &[u8]) -> (result: Result<(), MemcacheError>)
        ensures
            result == self.done_outcome(reader@, lit("OK")),
    {
        match self {
            Protocol::Ascii(protocol) => protocol.parse_flush_response(reader),
            Protocol::Binary(protocol) => protocol.parse_flush_response(reader),
        }
    }

    /// Reads the answer to `get` for `key`: the stored bytes, or nothing
    /// for a key that is not there.
    pub fn parse_get_response(&self, reader: &[u8], key: &str) -> (result: Result<
        Option<Vec<u8>>,
        MemcacheError,
    >)
        ensures
            match (result, self.get_outcome(reader@, key.spec_bytes())) {
                (Ok(Some(value)), Ok(Some(expected))) => value@ == expected,
                (Ok(None), Ok(None)) => true,
                (Err(e), Err(expected)) => e == expected,
                _ => false,
            },
    {
        match self {
            Protocol::Ascii(protocol) => protocol.parse_get_response(reader, key),
            Protocol::Binary(protocol) => protocol.parse_get_response(reader),
        }
    }

    /// Reads the answer to `set`, `add` and `replace`.
    pub fn parse_store_response(&self, reader: &[u8]) -> (result: Result<(), MemcacheError>)
        ensures
            result == self.done_outcome(reader@, lit("STORED")),
    {
        match self {
            Protocol::Ascii(protocol) => protocol.parse_store_response(reader),
            Protocol::Binary(protocol) => protocol.parse_store_response(reader),
        }
    }

    /// Reads the answer to `cas`: `true` where the value was swapped in,
    /// `false` where the key is missing or the token stale.
    pub fn parse_cas_response(&self, reader: &[u8]) -> (result: Result<bool, MemcacheError>)
        ensures
            result == self.cas_outcome(reader@),
    {
        match self {
            Protocol::Ascii(protocol) => protocol.parse_cas_response(reader),
            Protocol::Binary(protocol) => protocol.parse_cas_response(reader),
        }
    }

    /// Reads the answer to `delete`: whether the key was there.
    pub fn parse_delete_response(&self, reader: &[u8]) -> (result: Result<bool, MemcacheError>)
        ensures
            result == self.delete_outcome(reader@),
    {
        match self {
            Protocol::Ascii(protocol) => protocol.parse_delete_response(reader),
            Protocol::Binary(protocol) => protocol.parse_delete_response(reader),
        }
    }

    /// Reads the answer to `touch`: whether the key was there.
    pub fn parse_touch_response(&self, reader: &[u8]) -> (result: Result<bool, MemcacheError>)
        ensures
            result == self.touch_outcome(reader@),
    {
        match self {
            Protocol::Ascii(protocol) => protocol.parse_touch_response(reader),
            Protocol::Binary(protocol) => protocol.parse_touch_response(reader),
        }
    }

    /// Reads the answer to `stats`.
    pub fn parse_stats_response(&self, reader: &[u8]) -> (result: Result<Stats, MemcacheError>)
        ensures
            match (result, self.stats_outcome(reader@)) {
                (Ok(stats), Ok(expected)) => stats@ == expected,
                (Err(e), Err(expected)) => e == expected,
                _ => false,
            },
    {
        match self {
            Protocol::Ascii(protocol) => protocol.parse_stats_response(reader),
            Protocol::Binary(protocol) => protocol.parse_stats_response(reader),
        }
    }
}

} // verus!
