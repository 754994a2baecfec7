//! Packets of the binary protocol: the fixed header, and whole responses.

use crate::client::Stats;
use crate::error::{CommandError, MemcacheError, ParseError, ServerError, TransportError};
use crate::text::{read_text, text_of};
use crate::wire::{
    be16, be16_value, be32, be32_value, be64, be64_value, lemma_be16_of_value,
    lemma_be16_round_trip, lemma_be32_of_value, lemma_be32_round_trip, lemma_be64_of_value,
    lemma_be64_round_trip, read_u16, read_u32, read_u64, write_u16, write_u32, write_u64,
};
use vstd::prelude::*;
use vstd::slice::slice_to_vec;
use vstd::utf8::{encode_scalar, encode_utf8};

verus! {

broadcast use crate::wire::group_be_len;

/// The length of a packet header on the wire.
pub const HEADER_LEN: usize = 24;

/// The operations of the binary protocol.
#[derive(Clone, Copy, Debug, PartialEq, Eq, Structural)]
pub enum Opcode {
    Get,
    /// Stores a value whether or not the key is present (`set` on the wire).
    SetValue,
    Add,
    Replace,
    Delete,
    Increment,
    Decrement,
    Flush,
    Stat,
    Noop,
    Version,
    GetKQ,
    Append,
    Prepend,
    Touch,
    StartAuth,
}

impl Opcode {
    /// The byte that stands for the operation on the wire.
    pub open spec fn spec_code(self) -> u8 {
        match self {
            Opcode::Get => 0x00,
            Opcode::SetValue => 0x01,
            Opcode::Add => 0x02,
            Opcode::Replace => 0x03,
            Opcode::Delete => 0x04,
            Opcode::Increment => 0x05,
            Opcode::Decrement => 0x06,
            Opcode::Flush => 0x08,
            Opcode::Stat => 0x10,
            Opcode::Noop => 0x0a,
            Opcode::Version => 0x0b,
            Opcode::GetKQ => 0x0d,
            Opcode::Append => 0x0e,
            Opcode::Prepend => 0x0f,
            Opcode::Touch => 0x1c,
            Opcode::StartAuth => 0x21,
        }
    }

    /// The byte that stands for the operation on the wire.
    #[verifier::when_used_as_spec(spec_code)]
    pub fn code(self) -> (byte: u8)
        ensures
            byte == self.spec_code(),
    {
        match self {
            Opcode::Get => 0x00,
            Opcode::SetValue => 0x01,
            Opcode::Add => 0x02,
            Opcode::Replace => 0x03,
            Opcode::Delete => 0x04,
            Opcode::Increment => 0x05,
            Opcode::Decrement => 0x06,
            Opcode::Flush => 0x08,
            Opcode::Stat => 0x10,
            Opcode::Noop => 0x0a,
            Opcode::Version => 0x0b,
            Opcode::GetKQ => 0x0d,
            Opcode::Append => 0x0e,
            Opcode::Prepend => 0x0f,
            Opcode::Touch => 0x1c,
            Opcode::StartAuth => 0x21,
        }
    }

    /// No two operations share a byte.
    pub proof fn lemma_code_injective(a: Opcode, b: Opcode)
        requires
            a.spec_code() == b.spec_code(),
        ensures
            a == b,
    {
    }
}

/// The first byte of a packet, which tells requests from responses.
#[derive(Clone, Copy, Debug, PartialEq, Eq, Structural)]
pub enum Magic {
    Request,
    Response,
}

impl Magic {
    /// The byte that marks a packet of this direction.
    pub open spec fn spec_code(self) -> u8 {
        match self {
            Magic::Request => 0x80,
            Magic::Response => 0x81,
        }
    }

    /// The byte that marks a packet of this direction.
    #[verifier::when_used_as_spec(spec_code)]
    pub fn code(self) -> (byte: u8)
        ensures
            byte == self.spec_code(),
    {
        match self {
            Magic::Request => 0x80,
            Magic::Response => 0x81,
        }
    }
}

/// The fixed header that opens every packet.
#[derive(Clone, Copy, Debug, PartialEq, Eq, Structural)]
pub struct PacketHeader {
    pub magic: u8,
    pub opcode: u8,
    pub key_length: u16,
    pub extras_length: u8,
    pub data_type: u8,
    pub vbucket_id_or_status: u16,
    pub total_body_length: u32,
    pub opaque: u32,
    pub cas: u64,
}

/// The extras of a storing request.
#[derive(Clone, Copy, Debug, PartialEq, Eq, Structural)]
pub struct StoreExtras {
    /// A tag of the application's, stored with the value.
    pub flags: u32,
    /// Seconds until the value expires, or the time at which it does.
    pub expiration: u32,
}

impl Default for PacketHeader {
    fn default() -> (header: PacketHeader)
        ensures
            header == PacketHeader::zeroed(),
    {
        PacketHeader {
            magic: 0,
            opcode: 0,
            key_length: 0,
            extras_length: 0,
            data_type: 0,
            vbucket_id_or_status: 0,
            total_body_length: 0,
            opaque: 0,
            cas: 0,
        }
    }
}

impl PacketHeader {
    /// The header whose fields are all zero.
    pub open spec fn zeroed() -> PacketHeader {
        PacketHeader {
            magic: 0,
            opcode: 0,
            key_length: 0,
            extras_length: 0,
            data_type: 0,
            vbucket_id_or_status: 0,
            total_body_length: 0,
            opaque: 0,
            cas: 0,
        }
    }

    /// The 24 bytes of the header, fields in wire order, integers big-endian.
    pub open spec fn wire(self) -> Seq<u8> {
        seq![self.magic, self.opcode] + be16(self.key_length) + seq![
            self.extras_length,
            self.data_type,
        ] + be16(self.vbucket_id_or_status) + be32(self.total_body_length) + be32(self.opaque)
            + be64(self.cas)
    }

    /// The header that the first 24 bytes of `b` spell.
    pub open spec fn of_wire(b: Seq<u8>) -> PacketHeader
        recommends
            b.len() >= HEADER_LEN,
    {
        PacketHeader {
            magic: b[0],
            opcode: b[1],
            key_length: be16_value(b.subrange(2, 4)),
            extras_length: b[4],
            data_type: b[5],
            vbucket_id_or_status: be16_value(b.subrange(6, 8)),
            total_body_length: be32_value(b.subrange(8, 12)),
            opaque: be32_value(b.subrange(12, 16)),
            cas: be64_value(b.subrange(16, 24)),
        }
    }

    /// What reading a response header from `b` gives: the bytes must open
    /// with the response marker and hold a whole header.
    pub open spec fn read_spec(b: Seq<u8>) -> Result<PacketHeader, MemcacheError> {
        if b.len() == 0 {
            Err(MemcacheError::IOError(TransportError::UnexpectedEof))
        } else if b[0] != Magic::Response.spec_code() {
            Err(MemcacheError::ServerError(ServerError::BadMagic(b[0])))
        } else if b.len() < HEADER_LEN {
            Err(MemcacheError::IOError(TransportError::UnexpectedEof))
        } else {
            Ok(PacketHeader::of_wire(b))
        }
    }

    /// A header is 24 bytes long on the wire.
    pub proof fn lemma_wire_len(self)
        ensures
            self.wire().len() == HEADER_LEN,
    {
    }

    /// Decoding the bytes of a header gives the header back, whatever follows them.
    pub proof fn lemma_wire_round_trip(self, rest: Seq<u8>)
        ensures
            PacketHeader::of_wire(self.wire() + rest) == self,
    {
        let b = self.wire() + rest;
        lemma_be16_round_trip(self.key_length);
        lemma_be16_round_trip(self.vbucket_id_or_status);
        lemma_be32_round_trip(self.total_body_length);
        lemma_be32_round_trip(self.opaque);
        lemma_be64_round_trip(self.cas);
        assert(b.subrange(2, 4) =~= be16(self.key_length));
        assert(b.subrange(6, 8) =~= be16(self.vbucket_id_or_status));
        assert(b.subrange(8, 12) =~= be32(self.total_body_length));
        assert(b.subrange(12, 16) =~= be32(self.opaque));
        assert(b.subrange(16, 24) =~= be64(self.cas));
    }

    /// Encoding the header that 24 bytes spell gives those bytes back.
    pub proof fn lemma_of_wire_round_trip(b: Seq<u8>)
        requires
            b.len() == HEADER_LEN,
        ensures
            PacketHeader::of_wire(b).wire() == b,
    {
        lemma_be16_of_value(b.subrange(2, 4));
        lemma_be16_of_value(b.subrange(6, 8));
        lemma_be32_of_value(b.subrange(8, 12));
        lemma_be32_of_value(b.subrange(12, 16));
        lemma_be64_of_value(b.subrange(16, 24));
        let h = PacketHeader::of_wire(b);
        assert(h.wire() =~= seq![b[0], b[1]] + b.subrange(2, 4) + seq![b[4], b[5]] + b.subrange(
            6,
            8,
        ) + b.subrange(8, 12) + b.subrange(12, 16) + b.subrange(16, 24));
        assert(h.wire() =~= b);
    }

    /// A response header that was written is read back unchanged.
    pub proof fn lemma_read_what_was_written(self, rest: Seq<u8>)
        requires
            self.magic == Magic::Response.spec_code(),
        ensures
            PacketHeader::read_spec(self.wire() + rest) == Ok::<PacketHeader, MemcacheError>(self),
    {
        self.lemma_wire_round_trip(rest);
    }

    /// Appends the 24 bytes of the header to `writer`.
    pub fn write(self, writer: &mut Vec<u8>)
        ensures
            final(writer)@ == old(writer)@ + self.wire(),
    {
        writer.push(self.magic);
        writer.push(self.opcode);
        write_u16(writer, self.key_length);
        writer.push(self.extras_length);
        writer.push(self.data_type);
        write_u16(writer, self.vbucket_id_or_status);
        write_u32(writer, self.total_body_length);
        write_u32(writer, self.opaque);
        write_u64(writer, self.cas);
        assert(writer@ =~= old(writer)@ + self.wire());
    }

    /// Reads a response header from the front of `reader`.
    ///
    /// A first byte other than the response marker is refused at once; with
    /// the right marker, fewer than 24 bytes are an early end of the input.
    pub fn read(reader: &[u8]) -> (result: Result<PacketHeader, MemcacheError>)
        ensures
            result == PacketHeader::read_spec(reader@),
    {
        if reader.len() == 0 {
            return Err(MemcacheError::IOError(TransportError::UnexpectedEof));
        }
        let magic = reader[0];
        if magic != Magic::Response.code() {
            return Err(MemcacheError::ServerError(ServerError::BadMagic(magic)));
        }
        if reader.len() < HEADER_LEN {
            return Err(MemcacheError::IOError(TransportError::UnexpectedEof));
        }
        let header = PacketHeader {
            magic,
            opcode: reader[1],
            key_length: read_u16(&reader[2..4]),
            extras_length: reader[4],
            data_type: reader[5],
            vbucket_id_or_status: read_u16(&reader[6..8]),
            total_body_length: read_u32(&reader[8..12]),
            opaque: read_u32(&reader[12..16]),
            cas: read_u64(&reader[16..24]),
        };
        Ok(header)
    }
}

/// A response: its header, and the key and the value that follow it.
///
/// The extras that a response may carry between header and key are read
/// over and not kept.
#[derive(Debug)]
pub struct Response {
    pub header: PacketHeader,
    pub key: Vec<u8>,
    pub value: Vec<u8>,
}

/// What a response holds, as plain values.
pub struct ResponseView {
    pub header: PacketHeader,
    pub key: Seq<u8>,
    pub value: Seq<u8>,
}

impl View for Response {
    type V = ResponseView;

    open spec fn view(&self) -> ResponseView {
        ResponseView { header: self.header, key: self.key@, value: self.value@ }
    }
}

impl ResponseView {
    /// The status that the server reported.
    pub open spec fn status(self) -> u16 {
        self.header.vbucket_id_or_status
    }

    /// The response itself where the status is zero, else the error that the
    /// status stands for.
    pub open spec fn err(self) -> Result<ResponseView, MemcacheError> {
        if self.status() == 0 {
            Ok(self)
        } else {
            Err(MemcacheError::CommandError(CommandError::of_status(self.status())))
        }
    }
}

impl Response {
    /// Passes a successful response through, and turns any other status
    /// into the error it stands for.
    pub fn err(self) -> (result: Result<Response, MemcacheError>)
        ensures
            match (result, self@.err()) {
                (Ok(response), Ok(expected)) => response == self,
                (Err(e), Err(expected)) => e == expected,
                _ => false,
            },
    {
        let status = self.header.vbucket_id_or_status;
        if status == 0 {
            Ok(self)
        } else {
            Err(MemcacheError::CommandError(CommandError::from(status)))
        }
    }
}

/// What the front of `b` holds as a response, and how many bytes it takes.
///
/// The header comes first. A body length smaller than the lengths of
/// extras and key together cannot be framed and is refused. The body must
/// be there in full; key and value are cut from it by the header's lengths.
pub open spec fn parse_response_spec(b: Seq<u8>) -> Result<(ResponseView, nat), MemcacheError> {
    match PacketHeader::read_spec(b) {
        Err(e) => Err(e),
        Ok(header) => {
            let key_start = HEADER_LEN as nat + header.extras_length as nat;
            let value_start = key_start + header.key_length as nat;
            let end = HEADER_LEN as nat + header.total_body_length as nat;
            if end < value_start {
                Err(MemcacheError::ServerError(ServerError::BadResponse))
            } else if b.len() < end {
                Err(MemcacheError::IOError(TransportError::UnexpectedEof))
            } else {
                Ok(
                    (
                        ResponseView {
                            header,
                            key: b.subrange(key_start as int, value_start as int),
                            value: b.subrange(value_start as int, end as int),
                        },
                        end,
                    ),
                )
            }
        },
    }
}

/// The response at the front of `b` if its status is zero, with its length;
/// else the error that its status stands for.
pub open spec fn response_outcome(b: Seq<u8>) -> Result<(ResponseView, nat), MemcacheError> {
    match parse_response_spec(b) {
        Err(e) => Err(e),
        Ok((response, used)) => match response.err() {
            Err(e) => Err(e),
            Ok(_) => Ok((response, used)),
        },
    }
}

/// Parses the response at the front of `reader`, and tells how many bytes it takes.
pub fn parse_response(reader: &[u8]) -> (result: Result<(Response, usize), MemcacheError>)
    ensures
        match (result, parse_response_spec(reader@)) {
            (Ok((response, used)), Ok((expected, n))) => response@ == expected && used == n,
            (Err(e), Err(expected)) => e == expected,
            _ => false,
        },
{
    let header = PacketHeader::read(reader)?;
    let key_start = HEADER_LEN as u64 + header.extras_length as u64;
    let value_start = key_start + header.key_length as u64;
    let end = HEADER_LEN as u64 + header.total_body_length as u64;
    if end < value_start {
        return Err(MemcacheError::ServerError(ServerError::BadResponse));
    }
    if (reader.len() as u64) < end {
        return Err(MemcacheError::IOError(TransportError::UnexpectedEof));
    }
    let key = slice_to_vec(&reader[key_start as usize..value_start as usize]);
    let value = slice_to_vec(&reader[value_start as usize..end as usize]);
    Ok((Response { header, key, value }, end as usize))
}

/// What a compare-and-swap is answered with: `true` for success, `false`
/// where the key is missing or its token is stale, an error otherwise.
pub open spec fn cas_outcome(b: Seq<u8>) -> Result<bool, MemcacheError> {
    match response_outcome(b) {
        Ok(_) => Ok(true),
        Err(MemcacheError::CommandError(CommandError::KeyNotFound)) => Ok(false),
        Err(MemcacheError::CommandError(CommandError::KeyExists)) => Ok(false),
        Err(e) => Err(e),
    }
}

/// Parses the response to a compare-and-swap.
pub fn parse_cas_response(reader: &[u8]) -> (result: Result<bool, MemcacheError>)
    ensures
        result == cas_outcome(reader@),
{
    match parse_response(reader)?.0.err() {
        Ok(_) => Ok(true),
        Err(MemcacheError::CommandError(CommandError::KeyNotFound)) => Ok(false),
        Err(MemcacheError::CommandError(CommandError::KeyExists)) => Ok(false),
        Err(e) => Err(e),
    }
}

/// What a version request is answered with: the value of a successful
/// response, read as UTF-8 text.
pub open spec fn version_outcome(b: Seq<u8>) -> Result<Seq<char>, MemcacheError> {
    match response_outcome(b) {
        Err(e) => Err(e),
        Ok((response, _)) => match text_of(response.value) {
            Some(text) => Ok(text),
            None => Err(MemcacheError::ParseError(ParseError::Utf8)),
        },
    }
}

/// Parses the response to a version request.
pub fn parse_version_response(reader: &[u8]) -> (result: Result<String, MemcacheError>)
    ensures
        match (result, version_outcome(reader@)) {
            (Ok(version), Ok(expected)) => version@ == expected,
            (Err(e), Err(expected)) => e == expected,
            _ => false,
        },
{
    let response = parse_response(reader)?.0.err()?;
    match read_text(response.value) {
        Some(version) => Ok(version),
        None => Err(MemcacheError::ParseError(ParseError::Utf8)),
    }
}

/// What a get is answered with: the value of a successful response,
/// nothing where the key is missing, an error otherwise.
pub open spec fn get_outcome(b: Seq<u8>) -> Result<Option<Seq<u8>>, MemcacheError> {
    match response_outcome(b) {
        Ok((response, _)) => Ok(Some(response.value)),
        Err(MemcacheError::CommandError(CommandError::KeyNotFound)) => Ok(None),
        Err(e) => Err(e),
    }
}

/// Parses the response to a get. The value comes back as the bytes that
/// the server stored.
pub fn parse_get_response(reader: &[u8]) -> (result: Result<Option<Vec<u8>>, MemcacheError>)
    ensures
        match (result, get_outcome(reader@)) {
            (Ok(Some(value)), Ok(Some(expected))) => value@ == expected,
            (Ok(None), Ok(None)) => true,
            (Err(e), Err(expected)) => e == expected,
            _ => false,
        },
{
    match parse_response(reader)?.0.err() {
        Ok(response) => Ok(Some(response.value)),
        Err(MemcacheError::CommandError(CommandError::KeyNotFound)) => Ok(None),
        Err(e) => Err(e),
    }
}

/// What a delete or a touch is answered with: `true` for success, `false`
/// where the key is missing, an error otherwise.
pub open spec fn found_outcome(b: Seq<u8>) -> Result<bool, MemcacheError> {
    match response_outcome(b) {
        Ok(_) => Ok(true),
        Err(MemcacheError::CommandError(CommandError::KeyNotFound)) => Ok(false),
        Err(e) => Err(e),
    }
}

/// Parses the response to a delete.
pub fn parse_delete_response(reader: &[u8]) -> (result: Result<bool, MemcacheError>)
    ensures
        result == found_outcome(reader@),
{
    match parse_response(reader)?.0.err() {
        Ok(_) => Ok(true),
        Err(MemcacheError::CommandError(CommandError::KeyNotFound)) => Ok(false),
        Err(e) => Err(e),
    }
}

/// Parses the response to a touch.
pub fn parse_touch_response(reader: &[u8]) -> (result: Result<bool, MemcacheError>)
    ensures
        result == found_outcome(reader@),
{
    match parse_response(reader)?.0.err() {
        Ok(_) => Ok(true),
        Err(MemcacheError::CommandError(CommandError::KeyNotFound)) => Ok(false),
        Err(e) => Err(e),
    }
}

/// What a statistics request is answered with, given the entries `seen`
/// so far: each response adds one entry, until one with empty key and
/// empty value ends the list.
pub open spec fn stats_outcome(b: Seq<u8>, seen: Map<Seq<char>, Seq<char>>) -> Result<
    Map<Seq<char>, Seq<char>>,
    MemcacheError,
>
    decreases b.len(),
{
    match response_outcome(b) {
        Err(e) => Err(e),
        Ok((response, used)) => match (text_of(response.key), text_of(response.value)) {
            (Some(name), Some(value)) => if name.len() == 0 && value.len() == 0 {
                Ok(seen)
            } else {
                stats_outcome(b.skip(used as int), seen.insert(name, value))
            },
            _ => Err(MemcacheError::ParseError(ParseError::Utf8)),
        },
    }
}

/// Parses the responses to a statistics request, up to and with the one
/// that ends the list.
pub fn parse_stats_response(reader: &[u8]) -> (result: Result<Stats, MemcacheError>)
    ensures
        match (result, stats_outcome(reader@, Map::empty())) {
            (Ok(stats), Ok(expected)) => stats@ == expected,
            (Err(e), Err(expected)) => e == expected,
            _ => false,
        },
{
    let mut result = Stats::new();
    let mut at: usize = 0;
    assert(reader@.skip(0) =~= reader@);
    loop
        invariant
            at <= reader@.len(),
            stats_outcome(reader@, Map::empty()) == stats_outcome(reader@.skip(at as int), result@),
        decreases reader@.len() - at,
    {
        let rest = &reader[at..reader.len()];
        assert(rest@ == reader@.skip(at as int));
        let (response, used) = parse_response(rest)?;
        let response = response.err()?;
        let key = match read_text(response.key) {
            Some(key) => key,
            None => { return Err(MemcacheError::ParseError(ParseError::Utf8)); },
        };
        let value = match read_text(response.value) {
            Some(value) => value,
            None => { return Err(MemcacheError::ParseError(ParseError::Utf8)); },
        };
        if key.as_str().as_bytes().len() == 0 && value.as_str().as_bytes().len() == 0 {
            proof {
                lemma_empty_text(key@);
                lemma_empty_text(value@);
            }
            return Ok(result);
        }
        proof {
            lemma_empty_text(key@);
            lemma_empty_text(value@);
            assert(reader@.skip(at as int).skip(used as int) == reader@.skip(at + used));
        }
        result.insert(key, value);
        at = at + used;
    }
}

/// What a request without a result is answered with: nothing for a
/// successful response, an error otherwise.
pub open spec fn done_outcome(b: Seq<u8>) -> Result<(), MemcacheError> {
    match response_outcome(b) {
        Ok(_) => Ok(()),
        Err(e) => Err(e),
    }
}

/// Parses the response to a request that has no result of its own:
/// storing a value, or emptying the cache.
pub fn parse_done_response(reader: &[u8]) -> (result: Result<(), MemcacheError>)
    ensures
        result == done_outcome(reader@),
{
    match parse_response(reader)?.0.err() {
        Ok(_) => Ok(()),
        Err(e) => Err(e),
    }
}

/// What an authentication request is answered with: `true` for any
/// successful response.
pub open spec fn start_auth_outcome(b: Seq<u8>) -> Result<bool, MemcacheError> {
    match response_outcome(b) {
        Ok(_) => Ok(true),
        Err(e) => Err(e),
    }
}

/// Parses the response to an authentication request.
pub fn parse_start_auth_response(reader: &[u8]) -> (result: Result<bool, MemcacheError>)
    ensures
        result == start_auth_outcome(reader@),
{
    match parse_response(reader)?.0.err() {
        Ok(_) => Ok(true),
        Err(e) => Err(e),
    }
}

/// Bytes that open with anything but the response marker are refused
/// as such by every reader, whatever follows and however much of it
/// there is: the error names the byte, and there is no result.
pub proof fn lemma_bad_magic_is_refused(b: Seq<u8>, seen: Map<Seq<char>, Seq<char>>)
    requires
        b.len() > 0,
        b[0] != Magic::Response.spec_code(),
    ensures
        ({
            let refused = MemcacheError::ServerError(ServerError::BadMagic(b[0]));
            &&& PacketHeader::read_spec(b) == Err::<PacketHeader, MemcacheError>(refused)
            &&& parse_response_spec(b) == Err::<(ResponseView, nat), MemcacheError>(refused)
            &&& done_outcome(b) == Err::<(), MemcacheError>(refused)
            &&& get_outcome(b) == Err::<Option<Seq<u8>>, MemcacheError>(refused)
            &&& cas_outcome(b) == Err::<bool, MemcacheError>(refused)
            &&& found_outcome(b) == Err::<bool, MemcacheError>(refused)
            &&& start_auth_outcome(b) == Err::<bool, MemcacheError>(refused)
            &&& version_outcome(b) == Err::<Seq<char>, MemcacheError>(refused)
            &&& stats_outcome(b, seen) == Err::<Map<Seq<char>, Seq<char>>, MemcacheError>(
                refused,
            )
        }),
{
}

/// A response that was read is framed as its header says: the key is as
/// long as the header declares, the body is extras, key and value and
/// nothing else, and the bytes taken are the header and the body.
pub proof fn lemma_response_is_framed(b: Seq<u8>)
    requires
        parse_response_spec(b) is Ok,
    ensures
        ({
            let (response, used) = parse_response_spec(b)->Ok_0;
            let header = response.header;
            &&& header.magic == Magic::Response.spec_code()
            &&& response.key.len() == header.key_length
            &&& header.total_body_length == header.extras_length + response.key.len()
                + response.value.len()
            &&& used == HEADER_LEN + header.total_body_length
            &&& used <= b.len()
        }),
{
}

/// Whether a reader came to the end of the bytes before the end of the message.
pub open spec fn ended_early<T>(outcome: Result<T, MemcacheError>) -> bool {
    outcome == Err::<T, MemcacheError>(MemcacheError::IOError(TransportError::UnexpectedEof))
}

/// Bytes that come later change nothing of what was read: where a
/// response was read from `b`, or refused for another reason than an
/// early end, the same comes of `b` with more bytes behind it. So a
/// caller may read on and ask again until the answer is another one than
/// an early end, and that answer is final.
pub proof fn lemma_later_bytes_change_nothing(b: Seq<u8>, more: Seq<u8>)
    requires
        !ended_early(parse_response_spec(b)),
    ensures
        parse_response_spec(b + more) == parse_response_spec(b),
        response_outcome(b + more) == response_outcome(b),
        done_outcome(b + more) == done_outcome(b),
        get_outcome(b + more) == get_outcome(b),
        cas_outcome(b + more) == cas_outcome(b),
        found_outcome(b + more) == found_outcome(b),
        start_auth_outcome(b + more) == start_auth_outcome(b),
        version_outcome(b + more) == version_outcome(b),
{
    let longer = b + more;
    if b.len() > 0 && b[0] == Magic::Response.spec_code() {
        assert(b.len() >= HEADER_LEN);
        assert(longer.subrange(2, 4) =~= b.subrange(2, 4));
        assert(longer.subrange(6, 8) =~= b.subrange(6, 8));
        assert(longer.subrange(8, 12) =~= b.subrange(8, 12));
        assert(longer.subrange(12, 16) =~= b.subrange(12, 16));
        assert(longer.subrange(16, 24) =~= b.subrange(16, 24));
        let header = PacketHeader::of_wire(b);
        assert(PacketHeader::of_wire(longer) == header);
        let key_start = HEADER_LEN as int + header.extras_length;
        let value_start = key_start + header.key_length;
        let end = HEADER_LEN as int + header.total_body_length;
        if end >= value_start {
            assert(b.len() >= end);
            assert(longer.subrange(key_start, value_start) =~= b.subrange(key_start, value_start));
            assert(longer.subrange(value_start, end) =~= b.subrange(value_start, end));
        }
    }
}

/// Bytes that come later change nothing of statistics that were read:
/// where the answer to a statistics request was read from `b`, or refused
/// for another reason than an early end, the same comes of `b` with more
/// bytes behind it.
pub proof fn lemma_later_bytes_change_no_stats(
    b: Seq<u8>,
    more: Seq<u8>,
    seen: Map<Seq<char>, Seq<char>>,
)
    requires
        !ended_early(stats_outcome(b, seen)),
    ensures
        stats_outcome(b + more, seen) == stats_outcome(b, seen),
    decreases b.len(),
{
    assert(!ended_early(parse_response_spec(b)));
    lemma_later_bytes_change_nothing(b, more);
    if let Ok((response, used)) = response_outcome(b) {
        lemma_response_is_framed(b);
        if let (Some(name), Some(value)) = (text_of(response.key), text_of(response.value)) {
            if !(name.len() == 0 && value.len() == 0) {
                let rest = b.skip(used as int);
                assert((b + more).skip(used as int) =~= rest + more);
                lemma_later_bytes_change_no_stats(rest, more, seen.insert(name, value));
            }
        }
    }
}

/// Text is empty exactly when its UTF-8 encoding is.
pub proof fn lemma_empty_text(text: Seq<char>)
    ensures
        text.len() == 0 <==> encode_utf8(text).len() == 0,
{
    reveal_with_fuel(encode_utf8, 2);
    if text.len() > 0 {
        assert(encode_scalar(text[0] as u32).len() > 0);
    }
}

} // verus!
