//! The binary protocol: what each operation sends, and how its answer is read.

use crate::client::{check_key_len, Stats};
use crate::error::{ClientError, MemcacheError};
use crate::protocol::binary_packet::{
    cas_outcome, done_outcome, found_outcome, get_outcome, parse_cas_response,
    parse_delete_response, parse_done_response, parse_get_response, parse_start_auth_response,
    parse_stats_response, parse_touch_response, parse_version_response, stats_outcome,
    version_outcome, Magic, Opcode, PacketHeader, StoreExtras,
};
use crate::protocol::{keyed, sends, storing, MAX_BODY_LEN};
use crate::wire::{be32, write_all, write_u32};
use vstd::prelude::*;
use vstd::string::StringSliceAdditionalSpecFns;

verus! {

broadcast use crate::wire::group_be_len;

/// The header of a request with the given opcode, token and body.
pub open spec fn request_header(
    opcode: Opcode,
    cas: u64,
    extras: Seq<u8>,
    key: Seq<u8>,
    value: Seq<u8>,
) -> PacketHeader {
    PacketHeader {
        magic: Magic::Request.spec_code(),
        opcode: opcode.spec_code(),
        key_length: key.len() as u16,
        extras_length: extras.len() as u8,
        data_type: 0,
        vbucket_id_or_status: 0,
        total_body_length: (extras.len() + key.len() + value.len()) as u32,
        opaque: 0,
        cas,
    }
}

/// Whether a body of these parts can be framed: each length fits its field.
pub open spec fn framable(extras: Seq<u8>, key: Seq<u8>, value: Seq<u8>) -> bool {
    &&& extras.len() <= u8::MAX
    &&& key.len() <= u16::MAX
    &&& extras.len() + key.len() + value.len() <= MAX_BODY_LEN
}

/// The bytes of a request: the header, then extras, key and value.
pub open spec fn request(
    opcode: Opcode,
    cas: u64,
    extras: Seq<u8>,
    key: Seq<u8>,
    value: Seq<u8>,
) -> Seq<u8> {
    request_header(opcode, cas, extras, key, value).wire() + extras + key + value
}

/// A request is framed as its header says: the header declares the
/// lengths of extras and key, and a body of extras, key and value and
/// nothing else.
pub proof fn lemma_request_is_framed(
    opcode: Opcode,
    cas: u64,
    extras: Seq<u8>,
    key: Seq<u8>,
    value: Seq<u8>,
)
    requires
        framable(extras, key, value),
    ensures
        ({
            let header = request_header(opcode, cas, extras, key, value);
            &&& header.extras_length == extras.len()
            &&& header.key_length == key.len()
            &&& header.total_body_length == extras.len() + key.len() + value.len()
            &&& request(opcode, cas, extras, key, value).len() == 24 + header.total_body_length
        }),
{
    request_header(opcode, cas, extras, key, value).lemma_wire_len();
}

/// The name of the one authentication mechanism that is spoken.
pub open spec fn plain() -> Seq<u8> {
    seq![0x50u8, 0x4c, 0x41, 0x49, 0x4e]
}

/// The credentials as the PLAIN mechanism wants them: a zero byte before each.
pub open spec fn plain_credentials(username: Seq<u8>, password: Seq<u8>) -> Seq<u8> {
    seq![0u8] + username + seq![0u8] + password
}

/// The request that authenticates with a user name and a password.
pub open spec fn auth_request(username: Seq<u8>, password: Seq<u8>) -> Seq<u8> {
    request(Opcode::StartAuth, 0, seq![], plain(), plain_credentials(username, password))
}

/// The request for the server's version.
pub open spec fn version_request() -> Seq<u8> {
    request(Opcode::Version, 0, seq![], seq![], seq![])
}

/// The request that empties the cache at once.
pub open spec fn flush_request() -> Seq<u8> {
    request(Opcode::Flush, 0, seq![], seq![], seq![])
}

/// The request that empties the cache after `delay` seconds.
pub open spec fn flush_with_delay_request(delay: u32) -> Seq<u8> {
    request(Opcode::Flush, 0, be32(delay), seq![], seq![])
}

/// The request for the value under `key`.
pub open spec fn get_request(key: Seq<u8>) -> Seq<u8> {
    request(Opcode::Get, 0, seq![], key, seq![])
}

/// The extras of a storing request: the flags, then the expiration.
pub open spec fn store_extras(extras: StoreExtras) -> Seq<u8> {
    be32(extras.flags) + be32(extras.expiration)
}

/// The request that stores `value` under `key`; the flags it carries are zero.
pub open spec fn store_request(
    opcode: Opcode,
    key: Seq<u8>,
    value: Seq<u8>,
    expiration: u32,
    cas: Option<u64>,
) -> Seq<u8> {
    request(
        opcode,
        match cas {
            Some(token) => token,
            None => 0,
        },
        store_extras(StoreExtras { flags: 0, expiration }),
        key,
        value,
    )
}

/// The request that removes `key`.
pub open spec fn delete_request(key: Seq<u8>) -> Seq<u8> {
    request(Opcode::Delete, 0, seq![], key, seq![])
}

/// The request that gives `key` a new expiration.
pub open spec fn touch_request(key: Seq<u8>, expiration: u32) -> Seq<u8> {
    request(Opcode::Touch, 0, be32(expiration), key, seq![])
}

/// The request for the server's statistics.
pub open spec fn stats_request() -> Seq<u8> {
    request(Opcode::Stat, 0, seq![], seq![], seq![])
}

/// Whether the credentials are short enough for one packet.
pub open spec fn credentials_fit(username: Seq<u8>, password: Seq<u8>) -> bool {
    plain().len() + plain_credentials(username, password).len() <= MAX_BODY_LEN
}

/// The binary protocol.
#[derive(Clone, Copy, Debug, PartialEq, Eq, Structural)]
pub struct BinaryProtocol {}

impl BinaryProtocol {
    /// The request that authenticates with `username` and `password`, by
    /// the PLAIN mechanism. Credentials too long for one packet are refused.
    pub fn auth(&self, username: &str, password: &str) -> (result: Result<Vec<u8>, MemcacheError>)
        ensures
            sends(
                result,
                if credentials_fit(username.spec_bytes(), password.spec_bytes()) {
                    Ok(auth_request(username.spec_bytes(), password.spec_bytes()))
                } else {
                    Err(MemcacheError::ClientError(ClientError::ValueTooLong))
                },
            ),
    {
        let key = "PLAIN";
        proof {
            reveal_strlit("PLAIN");
            plain_is_ascii();
        }
        let username = username.as_bytes();
        let password = password.as_bytes();
        if username.len() as u64 > MAX_BODY_LEN || password.len() as u64 > MAX_BODY_LEN {
            return Err(MemcacheError::ClientError(ClientError::ValueTooLong));
        }
        let length = key.as_bytes().len() as u64 + username.len() as u64 + password.len() as u64
            + 2;
        if length > MAX_BODY_LEN {
            return Err(MemcacheError::ClientError(ClientError::ValueTooLong));
        }
        let request_header = PacketHeader {
            magic: Magic::Request.code(),
            opcode: Opcode::StartAuth.code(),
            key_length: key.as_bytes().len() as u16,
            extras_length: 0,
            data_type: 0,
            vbucket_id_or_status: 0,
            total_body_length: length as u32,
            opaque: 0,
            cas: 0,
        };
        let mut stream: Vec<u8> = Vec::new();
        request_header.write(&mut stream);
        write_all(&mut stream, key.as_bytes());
        stream.push(0);
        write_all(&mut stream, username);
        stream.push(0);
        write_all(&mut stream, password);
        assert(stream@ =~= auth_request(username@, password@));
        Ok(stream)
    }

    /// The request for the server's version.
    pub fn version(&self) -> (bytes: Vec<u8>)
        ensures
            bytes@ == version_request(),
    {
        let request_header = PacketHeader {
            magic: Magic::Request.code(),
            opcode: Opcode::Version.code(),
            key_length: 0,
            extras_length: 0,
            data_type: 0,
            vbucket_id_or_status: 0,
            total_body_length: 0,
            opaque: 0,
            cas: 0,
        };
        let mut stream: Vec<u8> = Vec::new();
        request_header.write(&mut stream);
        assert(stream@ =~= version_request());
        stream
    }

    /// The request that empties the cache at once.
    pub fn flush(&self) -> (bytes: Vec<u8>)
        ensures
            bytes@ == flush_request(),
    {
        let request_header = PacketHeader {
            magic: Magic::Request.code(),
            opcode: Opcode::Flush.code(),
            key_length: 0,
            extras_length: 0,
            data_type: 0,
            vbucket_id_or_status: 0,
            total_body_length: 0,
            opaque: 0,
            cas: 0,
        };
        let mut stream: Vec<u8> = Vec::new();
        request_header.write(&mut stream);
        assert(stream@ =~= flush_request());
        stream
    }

    /// The request that empties the cache after `delay` seconds.
    pub fn flush_with_delay(&self, delay: u32) -> (bytes: Vec<u8>)
        ensures
            bytes@ == flush_with_delay_request(delay),
    {
        let request_header = PacketHeader {
            magic: Magic::Request.code(),
            opcode: Opcode::Flush.code(),
            key_length: 0,
            extras_length: 4,
            data_type: 0,
            vbucket_id_or_status: 0,
            total_body_length: 4,
            opaque: 0,
            cas: 0,
        };
        let mut stream: Vec<u8> = Vec::new();
        request_header.write(&mut stream);
        write_u32(&mut stream, delay);
        assert(stream@ =~= flush_with_delay_request(delay));
        stream
    }

    /// The request for the value under `key`. A key over 250 bytes is refused.
    pub fn get(&self, key: &str) -> (result: Result<Vec<u8>, MemcacheError>)
        ensures
            sends(result, keyed(key.spec_bytes(), get_request(key.spec_bytes()))),
    {
        check_key_len(key)?;
        let key = key.as_bytes();
        let request_header = PacketHeader {
            magic: Magic::Request.code(),
            opcode: Opcode::Get.code(),
            key_length: key.len() as u16,
            extras_length: 0,
            data_type: 0,
            vbucket_id_or_status: 0,
            total_body_length: key.len() as u32,
            opaque: 0,
            cas: 0,
        };
        let mut stream: Vec<u8> = Vec::new();
        request_header.write(&mut stream);
        write_all(&mut stream, key);
        assert(stream@ =~= get_request(key@));
        Ok(stream)
    }

    /// The request that removes `key`. A key over 250 bytes is refused.
    pub fn delete(&self, key: &str) -> (result: Result<Vec<u8>, MemcacheError>)
        ensures
            sends(result, keyed(key.spec_bytes(), delete_request(key.spec_bytes()))),
    {
        check_key_len(key)?;
        let key = key.as_bytes();
        let request_header = PacketHeader {
            magic: Magic::Request.code(),
            opcode: Opcode::Delete.code(),
            key_length: key.len() as u16,
            extras_length: 0,
            data_type: 0,
            vbucket_id_or_status: 0,
            total_body_length: key.len() as u32,
            opaque: 0,
            cas: 0,
        };
        let mut stream: Vec<u8> = Vec::new();
        request_header.write(&mut stream);
        write_all(&mut stream, key);
        assert(stream@ =~= delete_request(key@));
        Ok(stream)
    }

    /// The request that gives `key` a new expiration. A key over 250 bytes
    /// is refused.
    pub fn touch(&self, key: &str, expiration: u32) -> (result: Result<Vec<u8>, MemcacheError>)
        ensures
            sends(result, keyed(key.spec_bytes(), touch_request(key.spec_bytes(), expiration))),
    {
        check_key_len(key)?;
        let key = key.as_bytes();
        let request_header = PacketHeader {
            magic: Magic::Request.code(),
            opcode: Opcode::Touch.code(),
            key_length: key.len() as u16,
            extras_length: 4,
            data_type: 0,
            vbucket_id_or_status: 0,
            total_body_length: key.len() as u32 + 4,
            opaque: 0,
            cas: 0,
        };
        let mut stream: Vec<u8> = Vec::new();
        request_header.write(&mut stream);
        write_u32(&mut stream, expiration);
        write_all(&mut stream, key);
        assert(stream@ =~= touch_request(key@, expiration));
        Ok(stream)
    }

    /// The request for the server's statistics.
    pub fn stats(&self) -> (bytes: Vec<u8>)
        ensures
            bytes@ == stats_request(),
    {
        let request_header = PacketHeader {
            magic: Magic::Request.code(),
            opcode: Opcode::Stat.code(),
            key_length: 0,
            extras_length: 0,
            data_type: 0,
            vbucket_id_or_status: 0,
            total_body_length: 0,
            opaque: 0,
            cas: 0,
        };
        let mut stream: Vec<u8> = Vec::new();
        request_header.write(&mut stream);
        assert(stream@ =~= stats_request());
        stream
    }

    /// The request that stores `value` under `key`: header, flags,
    /// expiration, key, value. A key over 250 bytes is refused, and so is a
    /// value that the body length cannot describe.
    pub fn send_request(
        &self,
        opcode: Opcode,
        key: &str,
        value: &[u8],
        expiration: u32,
        cas: Option<u64>,
    ) -> (result: Result<Vec<u8>, MemcacheError>)
        ensures
            sends(
                result,
                storing(
                    key.spec_bytes(),
                    value@,
                    store_request(opcode, key.spec_bytes(), value@, expiration, cas),
                ),
            ),
    {
        check_key_len(key)?;
        let key = key.as_bytes();
        if value.len() as u64 > MAX_BODY_LEN - 8 - key.len() as u64 {
            return Err(MemcacheError::ClientError(ClientError::ValueTooLong));
        }
        let request_header = PacketHeader {
            magic: Magic::Request.code(),
            opcode: opcode.code(),
            key_length: key.len() as u16,
            extras_length: 8,
            data_type: 0,
            vbucket_id_or_status: 0,
            total_body_length: (8 + key.len() as u64 + value.len() as u64) as u32,
            opaque: 0,
            cas: match cas {
                Some(token) => token,
                None => 0,
            },
        };
        let extras = StoreExtras { flags: 0, expiration };
        let mut stream: Vec<u8> = Vec::new();
        request_header.write(&mut stream);
        write_u32(&mut stream, extras.flags);
        write_u32(&mut stream, extras.expiration);
        write_all(&mut stream, key);
        write_all(&mut stream, value);
        assert(stream@ =~= store_request(opcode, key@, value@, expiration, cas));
        Ok(stream)
    }

    /// The request that stores `value` under `key` by the given opcode.
    pub fn store(
        &self,
        opcode: Opcode,
        key: &str,
        value: &[u8],
        expiration: u32,
        cas: Option<u64>,
    ) -> (result: Result<Vec<u8>, MemcacheError>)
        ensures
            sends(
                result,
                storing(
                    key.spec_bytes(),
                    value@,
                    store_request(opcode, key.spec_bytes(), value@, expiration, cas),
                ),
            ),
    {
        self.send_request(opcode, key, value, expiration, cas)
    }

    /// The request that stores `value` under `key` if the token `cas` is
    /// still the one of the stored value.
    pub fn cas(&self, key: &str, value: &[u8], expiration: u32, cas: u64) -> (result: Result<
        Vec<u8>,
        MemcacheError,
    >)
        ensures
            sends(
                result,
                storing(
                    key.spec_bytes(),
                    value@,
                    store_request(
                        Opcode::SetValue,
                        key.spec_bytes(),
                        value@,
                        expiration,
                        Some(cas),
                    ),
                ),
            ),
    {
        self.send_request(Opcode::SetValue, key, value, expiration, Some(cas))
    }

    /// The request that stores `value` under `key`, present or not.
    pub fn set(&self, key: &str, value: &[u8], expiration: u32) -> (result: Result<
        Vec<u8>,
        MemcacheError,
    >)
        ensures
            sends(
                result,
                storing(
                    key.spec_bytes(),
                    value@,
                    store_request(Opcode::SetValue, key.spec_bytes(), value@, expiration, None),
                ),
            ),
    {
        self.store(Opcode::SetValue, key, value, expiration, None)
    }

    /// The request that stores `value` under `key` if the key is absent.
    pub fn add(&self, key: &str, value: &[u8], expiration: u32) -> (result: Result<
        Vec<u8>,
        MemcacheError,
    >)
        ensures
            sends(
                result,
                storing(
                    key.spec_bytes(),
                    value@,
                    store_request(Opcode::Add, key.spec_bytes(), value@, expiration, None),
                ),
            ),
    {
        self.store(Opcode::Add, key, value, expiration, None)
    }

    /// The request that stores `value` under `key` if the key is present.
    pub fn replace(&self, key: &str, value: &[u8], expiration: u32) -> (result: Result<
        Vec<u8>,
        MemcacheError,
    >)
        ensures
            sends(
                result,
                storing(
                    key.spec_bytes(),
                    value@,
                    store_request(Opcode::Replace, key.spec_bytes(), value@, expiration, None),
                ),
            ),
    {
        self.store(Opcode::Replace, key, value, expiration, None)
    }

    /// Reads the answer to `auth`: any successful response will do.
    pub fn parse_auth_response(&self, reader: &[u8]) -> (result: Result<(), MemcacheError>)
        ensures
            result == done_outcome(reader@),
    {
        match parse_start_auth_response(reader) {
            Ok(_) => Ok(()),
            Err(e) => Err(e),
        }
    }

    /// Reads the answer to `version`.
    pub fn parse_version_response(&self, reader: &[u8]) -> (result: Result<String, MemcacheError>)
        ensures
            match (result, version_outcome(reader@)) {
                (Ok(version), Ok(expected)) => version@ == expected,
                (Err(e), Err(expected)) => e == expected,
                _ => false,
            },
    {
        parse_version_response(reader)
    }

    /// Reads the answer to `flush` and to `flush_with_delay`.
    pub fn parse_flush_response(&self, reader: &[u8]) -> (result: Result<(), MemcacheError>)
        ensures
            result == done_outcome(reader@),
    {
        parse_done_response(reader)
    }

    /// Reads the answer to `get`: the stored bytes, or nothing for a key
    /// that is not there.
    pub fn parse_get_response(&self, reader: &[u8]) -> (result: Result<
        Option<Vec<u8>>,
        MemcacheError,
    >)
        ensures
            match (result, get_outcome(reader@)) {
                (Ok(Some(value)), Ok(Some(expected))) => value@ == expected,
                (Ok(None), Ok(None)) => true,
                (Err(e), Err(expected)) => e == expected,
                _ => false,
            },
    {
        parse_get_response(reader)
    }

    /// Reads the answer to `set`, `add` and `replace`.
    pub fn parse_store_response(&self, reader: &[u8]) -> (result: Result<(), MemcacheError>)
        ensures
            result == done_outcome(reader@),
    {
        parse_done_response(reader)
    }

    /// Reads the answer to `cas`: whether the value was swapped in.
    pub fn parse_cas_response(&self, reader: &[u8]) -> (result: Result<bool, MemcacheError>)
        ensures
            result == cas_outcome(reader@),
    {
        parse_cas_response(reader)
    }

    /// Reads the answer to `delete`: whether the key was there.
    pub fn parse_delete_response(&self, reader: &[u8]) -> (result: Result<bool, MemcacheError>)
        ensures
            result == found_outcome(reader@),
    {
        parse_delete_response(reader)
    }

    /// Reads the answer to `touch`: whether the key was there.
    pub fn parse_touch_response(&self, reader: &[u8]) -> (result: Result<bool, MemcacheError>)
        ensures
            result == found_outcome(reader@),
    {
        parse_touch_response(reader)
    }

    /// Reads the answer to `stats`.
    pub fn parse_stats_response(&self, reader: &[u8]) -> (result: Result<Stats, MemcacheError>)
        ensures
            match (result, stats_outcome(reader@, Map::empty())) {
                (Ok(stats), Ok(expected)) => stats@ == expected,
                (Err(e), Err(expected)) => e == expected,
                _ => false,
            },
    {
        parse_stats_response(reader)
    }
}

/// The letters of `PLAIN` are the bytes of the mechanism's name.
proof fn plain_is_ascii()
    ensures
        "PLAIN".spec_bytes() == plain(),
{
    reveal_strlit("PLAIN");
    let s = "PLAIN";
    assert(vstd::string::is_ascii(s)) by {
        assert(vstd::utf8::is_ascii_chars(s@));
    }
    vstd::string::is_ascii_spec_bytes(s);
    assert(s.spec_bytes() =~= plain());
}

} // verus!
