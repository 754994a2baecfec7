//! The text protocol: what each operation sends, and how its answer is read.

use crate::client::{check_key_len, Stats};
use crate::error::{ClientError, CommandError, MemcacheError, ParseError, ServerError};
use crate::protocol::{keyed, sends};
use crate::text::{
    decimal, first_line, first_word, lit, number, parse_decimal, read_line, read_text,
    same_bytes, split_word, starts_with, text_of, write_decimal, CR, LF,
};
use crate::wire::write_all;
use vstd::prelude::*;
use vstd::slice::slice_to_vec;
use vstd::string::StringSliceAdditionalSpecFns;

verus! {

/// The commands that store a value.
#[derive(Clone, Copy, Debug, PartialEq, Eq, Structural)]
pub enum StoreCommand {
    /// Stores if the token is still that of the stored value.
    Cas,
    /// Stores whether or not the key is present (`set` on the wire).
    SetValue,
    /// Stores if the key is absent.
    Add,
    /// Stores if the key is present.
    Replace,
}

impl StoreCommand {
    /// The word that names the command on the wire.
    pub open spec fn spec_name(self) -> Seq<u8> {
        match self {
            StoreCommand::Cas => lit("cas"),
            StoreCommand::SetValue => lit("set"),
            StoreCommand::Add => lit("add"),
            StoreCommand::Replace => lit("replace"),
        }
    }

    /// The word that names the command on the wire.
    pub fn name(self) -> (word: &'static str)
        ensures
            word.spec_bytes() == self.spec_name(),
    {
        match self {
            StoreCommand::Cas => "cas",
            StoreCommand::SetValue => "set",
            StoreCommand::Add => "add",
            StoreCommand::Replace => "replace",
        }
    }
}

/// The request for the server's version.
pub open spec fn version_request() -> Seq<u8> {
    lit("version\r\n")
}

/// The request that empties the cache at once.
pub open spec fn flush_request() -> Seq<u8> {
    lit("flush_all\r\n")
}

/// The request that empties the cache after `delay` seconds.
pub open spec fn flush_with_delay_request(delay: u32) -> Seq<u8> {
    lit("flush_all ") + decimal(delay as nat) + lit("\r\n")
}

/// The request for the value under `key`.
pub open spec fn get_request(key: Seq<u8>) -> Seq<u8> {
    lit("get ") + key + lit("\r\n")
}

/// The request that stores `value` under `key`: the command line with
/// key, flags (zero), expiration and length, and the token where there is
/// one; then the value on a line of its own.
pub open spec fn store_request(
    command: StoreCommand,
    key: Seq<u8>,
    value: Seq<u8>,
    expiration: u32,
    cas: Option<u64>,
) -> Seq<u8> {
    command.spec_name() + lit(" ") + key + lit(" 0 ") + decimal(expiration as nat) + lit(" ")
        + decimal(value.len()) + (match cas {
        Some(token) => lit(" ") + decimal(token as nat),
        None => Seq::<u8>::empty(),
    }) + lit("\r\n") + value + lit("\r\n")
}

/// The request that removes `key`.
pub open spec fn delete_request(key: Seq<u8>) -> Seq<u8> {
    lit("delete ") + key + lit("\r\n")
}

/// The request that gives `key` a new expiration.
pub open spec fn touch_request(key: Seq<u8>, expiration: u32) -> Seq<u8> {
    lit("touch ") + key + lit(" ") + decimal(expiration as nat) + lit("\r\n")
}

/// The request for the server's statistics.
pub open spec fn stats_request() -> Seq<u8> {
    lit("stats\r\n")
}

/// The credentials as they are stored to authenticate: user name, a
/// space, password.
pub open spec fn credentials(username: Seq<u8>, password: Seq<u8>) -> Seq<u8> {
    username + lit(" ") + password
}

/// The request that authenticates: the credentials, set under the key `auth`.
pub open spec fn auth_request(username: Seq<u8>, password: Seq<u8>) -> Seq<u8> {
    store_request(StoreCommand::SetValue, lit("auth"), credentials(username, password), 0, None)
}

/// The text protocol.
#[derive(Clone, Copy, Debug, PartialEq, Eq, Structural)]
pub struct AsciiProtocol {}

impl AsciiProtocol {
    /// The request that authenticates with `username` and `password`.
    pub fn auth(&self, username: &str, password: &str) -> (bytes: Vec<u8>)
        ensures
            bytes@ == auth_request(username.spec_bytes(), password.spec_bytes()),
    {
        let mut value: Vec<u8> = Vec::new();
        write_all(&mut value, username.as_bytes());
        write_all(&mut value, " ".as_bytes());
        write_all(&mut value, password.as_bytes());
        self.store_line(StoreCommand::SetValue, "auth".as_bytes(), value.as_slice(), 0, None)
    }

    /// The request for the server's version.
    pub fn version(&self) -> (bytes: Vec<u8>)
        ensures
            bytes@ == version_request(),
    {
        slice_to_vec("version\r\n".as_bytes())
    }

    /// The request that empties the cache at once.
    pub fn flush(&self) -> (bytes: Vec<u8>)
        ensures
            bytes@ == flush_request(),
    {
        slice_to_vec("flush_all\r\n".as_bytes())
    }

    /// The request that empties the cache after `delay` seconds.
    pub fn flush_with_delay(&self, delay: u32) -> (bytes: Vec<u8>)
        ensures
            bytes@ == flush_with_delay_request(delay),
    {
        let mut stream: Vec<u8> = Vec::new();
        write_all(&mut stream, "flush_all ".as_bytes());
        write_decimal(&mut stream, delay as u64);
        write_all(&mut stream, "\r\n".as_bytes());
        stream
    }

    /// The request for the value under `key`. A key over 250 bytes is refused.
    pub fn get(&self, key: &str) -> (result: Result<Vec<u8>, MemcacheError>)
        ensures
            sends(result, keyed(key.spec_bytes(), get_request(key.spec_bytes()))),
    {
        check_key_len(key)?;
        let mut stream: Vec<u8> = Vec::new();
        write_all(&mut stream, "get ".as_bytes());
        write_all(&mut stream, key.as_bytes());
        write_all(&mut stream, "\r\n".as_bytes());
        Ok(stream)
    }

    /// The request that removes `key`. A key over 250 bytes is refused.
    pub fn delete(&self, key: &str) -> (result: Result<Vec<u8>, MemcacheError>)
        ensures
            sends(result, keyed(key.spec_bytes(), delete_request(key.spec_bytes()))),
    {
        check_key_len(key)?;
        let mut stream: Vec<u8> = Vec::new();
        write_all(&mut stream, "delete ".as_bytes());
        write_all(&mut stream, key.as_bytes());
        write_all(&mut stream, "\r\n".as_bytes());
        Ok(stream)
    }

    /// The request that gives `key` a new expiration. A key over 250 bytes
    /// is refused.
    pub fn touch(&self, key: &str, expiration: u32) -> (result: Result<Vec<u8>, MemcacheError>)
        ensures
            sends(result, keyed(key.spec_bytes(), touch_request(key.spec_bytes(), expiration))),
    {
        check_key_len(key)?;
        let mut stream: Vec<u8> = Vec::new();
        write_all(&mut stream, "touch ".as_bytes());
        write_all(&mut stream, key.as_bytes());
        write_all(&mut stream, " ".as_bytes());
        write_decimal(&mut stream, expiration as u64);
        write_all(&mut stream, "\r\n".as_bytes());
        Ok(stream)
    }

    /// The request for the server's statistics.
    pub fn stats(&self) -> (bytes: Vec<u8>)
        ensures
            bytes@ == stats_request(),
    {
        slice_to_vec("stats\r\n".as_bytes())
    }

    /// The bytes of a storing request.
    fn store_line(
        &self,
        command: StoreCommand,
        key: &[u8],
        value: &[u8],
        expiration: u32,
        cas: Option<u64>,
    ) -> (bytes: Vec<u8>)
        ensures
            bytes@ == store_request(command, key@, value@, expiration, cas),
    {
        let mut stream: Vec<u8> = Vec::new();
        write_all(&mut stream, command.name().as_bytes());
        write_all(&mut stream, " ".as_bytes());
        write_all(&mut stream, key);
        write_all(&mut stream, " 0 ".as_bytes());
        write_decimal(&mut stream, expiration as u64);
        write_all(&mut stream, " ".as_bytes());
        write_decimal(&mut stream, value.len() as u64);
        match cas {
            Some(token) => {
                write_all(&mut stream, " ".as_bytes());
                write_decimal(&mut stream, token);
            },
            None => {
                assert(stream@ + Seq::<u8>::empty() =~= stream@);
            },
        }
        write_all(&mut stream, "\r\n".as_bytes());
        write_all(&mut stream, value);
        write_all(&mut stream, "\r\n".as_bytes());
        assert(stream@ =~= store_request(command, key@, value@, expiration, cas));
        stream
    }

    /// The request that stores `value` under `key` by the given command.
    /// A key over 250 bytes is refused; a value of any length is taken.
    fn store(
        &self,
        command: StoreCommand,
        key: &str,
        value: &[u8],
        expiration: u32,
        cas: Option<u64>,
    ) -> (result: Result<Vec<u8>, MemcacheError>)
        ensures
            sends(
                result,
                keyed(
                    key.spec_bytes(),
                    store_request(command, key.spec_bytes(), value@, expiration, cas),
                ),
            ),
    {
        check_key_len(key)?;
        Ok(self.store_line(command, key.as_bytes(), value, expiration, cas))
    }

    /// The request that stores `value` under `key` if the token `cas` is
    /// still the one of the stored value.
    pub fn cas(&self, key: &str, value: &[u8], expiration: u32, cas: u64) -> (result: Result<
        Vec<u8>,
        MemcacheError,
    >)
        ensures
            sends(
                result,
                keyed(
                    key.spec_bytes(),
                    store_request(
                        StoreCommand::Cas,
                        key.spec_bytes(),
                        value@,
                        expiration,
                        Some(cas),
                    ),
                ),
            ),
    {
        self.store(StoreCommand::Cas, key, value, expiration, Some(cas))
    }

    /// The request that stores `value` under `key`, present or not.
    pub fn set(&self, key: &str, value: &[u8], expiration: u32) -> (result: Result<
        Vec<u8>,
        MemcacheError,
    >)
        ensures
            sends(
                result,
                keyed(
                    key.spec_bytes(),
                    store_request(
                        StoreCommand::SetValue,
                        key.spec_bytes(),
                        value@,
                        expiration,
                        None,
                    ),
                ),
            ),
    {
        self.store(StoreCommand::SetValue, key, value, expiration, None)
    }

    /// The request that stores `value` under `key` if the key is absent.
    pub fn add(&self, key: &str, value: &[u8], expiration: u32) -> (result: Result<
        Vec<u8>,
        MemcacheError,
    >)
        ensures
            sends(
                result,
                keyed(
                    key.spec_bytes(),
                    store_request(StoreCommand::Add, key.spec_bytes(), value@, expiration, None),
                ),
            ),
    {
        self.store(StoreCommand::Add, key, value, expiration, None)
    }

    /// The request that stores `value` under `key` if the key is present.
    pub fn replace(&self, key: &str, value: &[u8], expiration: u32) -> (result: Result<
        Vec<u8>,
        MemcacheError,
    >)
        ensures
            sends(
                result,
                keyed(
                    key.spec_bytes(),
                    store_request(
                        StoreCommand::Replace,
                        key.spec_bytes(),
                        value@,
                        expiration,
                        None,
                    ),
                ),
            ),
    {
        self.store(StoreCommand::Replace, key, value, expiration, None)
    }
}

/// The error that a line of the server stands for, where it is one of
/// the lines that report a failure.
pub open spec fn line_error(line: Seq<u8>) -> Option<MemcacheError> {
    if line == lit("ERROR") {
        Some(MemcacheError::CommandError(CommandError::UnknownCommand))
    } else if lit("CLIENT_ERROR").is_prefix_of(line) {
        Some(MemcacheError::ClientError(ClientError::Error))
    } else if lit("SERVER_ERROR").is_prefix_of(line) {
        Some(MemcacheError::ServerError(ServerError::Error))
    } else if line == lit("NOT_FOUND") {
        Some(MemcacheError::CommandError(CommandError::KeyNotFound))
    } else if line == lit("EXISTS") {
        Some(MemcacheError::CommandError(CommandError::KeyExists))
    } else if line == lit("NOT_STORED") {
        Some(MemcacheError::CommandError(CommandError::ItemNotStored))
    } else {
        None
    }
}

/// Tells whether a line reports a failure, and which.
pub fn check_line(line: &[u8]) -> (error: Option<MemcacheError>)
    ensures
        error == line_error(line@),
{
    if same_bytes(line, "ERROR".as_bytes()) {
        Some(MemcacheError::CommandError(CommandError::UnknownCommand))
    } else if starts_with(line, "CLIENT_ERROR".as_bytes()) {
        Some(MemcacheError::ClientError(ClientError::Error))
    } else if starts_with(line, "SERVER_ERROR".as_bytes()) {
        Some(MemcacheError::ServerError(ServerError::Error))
    } else if same_bytes(line, "NOT_FOUND".as_bytes()) {
        Some(MemcacheError::CommandError(CommandError::KeyNotFound))
    } else if same_bytes(line, "EXISTS".as_bytes()) {
        Some(MemcacheError::CommandError(CommandError::KeyExists))
    } else if same_bytes(line, "NOT_STORED".as_bytes()) {
        Some(MemcacheError::CommandError(CommandError::ItemNotStored))
    } else {
        None
    }
}

/// The first line of `b` and its length on the wire, where the line
/// reports no failure; else the failure.
pub open spec fn status_line(b: Seq<u8>) -> Result<(Seq<u8>, nat), MemcacheError> {
    match first_line(b) {
        Err(e) => Err(e),
        Ok((line, used)) => match line_error(line) {
            Some(e) => Err(e),
            None => Ok((line, used)),
        },
    }
}

/// Reads the first line of `reader`, and turns a line that reports a
/// failure into its error.
pub fn read_status_line<'a>(reader: &'a [u8]) -> (result: Result<(&'a [u8], usize), MemcacheError>)
    ensures
        match (result, status_line(reader@)) {
            (Ok((line, used)), Ok((expected, n))) => line@ == expected && used == n,
            (Err(e), Err(expected)) => e == expected,
            _ => false,
        },
{
    let (line, used) = read_line(reader)?;
    match check_line(line) {
        Some(e) => Err(e),
        None => Ok((line, used)),
    }
}

/// What a request is answered with whose only good answer is the line `word`.
pub open spec fn word_outcome(b: Seq<u8>, word: Seq<u8>) -> Result<(), MemcacheError> {
    match status_line(b) {
        Err(e) => Err(e),
        Ok((line, _)) => if line == word {
            Ok(())
        } else {
            Err(MemcacheError::ServerError(ServerError::BadResponse))
        },
    }
}

/// What a request is answered with that finds its key or does not:
/// `true` for the line `word`, `false` where the key is missing.
pub open spec fn found_outcome(b: Seq<u8>, word: Seq<u8>) -> Result<bool, MemcacheError> {
    match word_outcome(b, word) {
        Ok(_) => Ok(true),
        Err(MemcacheError::CommandError(CommandError::KeyNotFound)) => Ok(false),
        Err(e) => Err(e),
    }
}

/// What a compare-and-swap is answered with: `true` once stored, `false`
/// where the key is missing or its token is stale.
pub open spec fn cas_outcome(b: Seq<u8>) -> Result<bool, MemcacheError> {
    match word_outcome(b, lit("STORED")) {
        Ok(_) => Ok(true),
        Err(MemcacheError::CommandError(CommandError::KeyNotFound)) => Ok(false),
        Err(MemcacheError::CommandError(CommandError::KeyExists)) => Ok(false),
        Err(e) => Err(e),
    }
}

/// What a version request is answered with: the text after `VERSION `.
pub open spec fn version_outcome(b: Seq<u8>) -> Result<Seq<char>, MemcacheError> {
    match status_line(b) {
        Err(e) => Err(e),
        Ok((line, _)) => if lit("VERSION ").is_prefix_of(line) {
            match text_of(line.skip(lit("VERSION ").len() as int)) {
                Some(text) => Ok(text),
                None => Err(MemcacheError::ParseError(ParseError::Utf8)),
            }
        } else {
            Err(MemcacheError::ServerError(ServerError::BadResponse))
        },
    }
}

/// What the line that opens a value says: the key, the flags, and the
/// length of the value. The line has four words, `VALUE` first; flags and
/// length are decimal numbers.
pub open spec fn value_header(line: Seq<u8>) -> Result<(Seq<u8>, u32, nat), MemcacheError> {
    let (word, after_word) = first_word(line);
    if word != lit("VALUE") || after_word is None {
        Err(MemcacheError::ServerError(ServerError::BadResponse))
    } else {
        let (key, after_key) = first_word(after_word->0);
        if after_key is None {
            Err(MemcacheError::ServerError(ServerError::BadResponse))
        } else {
            let (flags, after_flags) = first_word(after_key->0);
            if after_flags is None {
                Err(MemcacheError::ServerError(ServerError::BadResponse))
            } else {
                let (length, rest) = first_word(after_flags->0);
                if rest is Some {
                    Err(MemcacheError::ServerError(ServerError::BadResponse))
                } else {
                    match (number(flags, u32::MAX as nat), number(length, usize::MAX as nat)) {
                        (Some(f), Some(n)) => Ok((key, f as u32, n)),
                        _ => Err(MemcacheError::ParseError(ParseError::Number)),
                    }
                }
            }
        }
    }
}

/// Reads the line that opens a value.
pub fn parse_value_header<'a>(line: &'a [u8]) -> (result: Result<
    (&'a [u8], u32, usize),
    MemcacheError,
>)
    ensures
        match (result, value_header(line@)) {
            (Ok((key, flags, length)), Ok(expected)) => key@ == expected.0 && flags == expected.1
                && length == expected.2,
            (Err(e), Err(expected)) => e == expected,
            _ => false,
        },
{
    let (word, after_word) = split_word(line);
    if !same_bytes(word, "VALUE".as_bytes()) {
        return Err(MemcacheError::ServerError(ServerError::BadResponse));
    }
    let after_word = match after_word {
        Some(rest) => rest,
        None => { return Err(MemcacheError::ServerError(ServerError::BadResponse)); },
    };
    let (key, after_key) = split_word(after_word);
    let after_key = match after_key {
        Some(rest) => rest,
        None => { return Err(MemcacheError::ServerError(ServerError::BadResponse)); },
    };
    let (flags, after_flags) = split_word(after_key);
    let after_flags = match after_flags {
        Some(rest) => rest,
        None => { return Err(MemcacheError::ServerError(ServerError::BadResponse)); },
    };
    let (length, rest) = split_word(after_flags);
    if rest.is_some() {
        return Err(MemcacheError::ServerError(ServerError::BadResponse));
    }
    let flags = match parse_decimal(flags) {
        Some(f) => f,
        None => { return Err(MemcacheError::ParseError(ParseError::Number)); },
    };
    let length = match parse_decimal(length) {
        Some(n) => n,
        None => { return Err(MemcacheError::ParseError(ParseError::Number)); },
    };
    if flags > u32::MAX as u64 || length > usize::MAX as u64 {
        return Err(MemcacheError::ParseError(ParseError::Number));
    }
    Ok((key, flags as u32, length as usize))
}

/// The value of `length` bytes at the front of `b`, where a line end
/// follows it and then the line `END`.
pub open spec fn value_block(b: Seq<u8>, length: nat) -> Result<Seq<u8>, MemcacheError> {
    if b.len() < length + 2 {
        Err(MemcacheError::IOError(crate::error::TransportError::UnexpectedEof))
    } else if b[length as int] != CR || b[length as int + 1] != LF {
        Err(MemcacheError::ServerError(ServerError::BadResponse))
    } else {
        match word_outcome(b.skip(length as int + 2), lit("END")) {
            Err(e) => Err(e),
            Ok(_) => Ok(b.take(length as int)),
        }
    }
}

/// What a get for `key` is answered with: nothing where the answer is
/// the line `END` alone; else the value that is announced for that key.
pub open spec fn get_outcome(b: Seq<u8>, key: Seq<u8>) -> Result<Option<Seq<u8>>, MemcacheError> {
    match status_line(b) {
        Err(e) => Err(e),
        Ok((line, used)) => if line == lit("END") {
            Ok(None)
        } else {
            match value_header(line) {
                Err(e) => Err(e),
                Ok((name, _, length)) => if name != key {
                    Err(MemcacheError::ServerError(ServerError::BadResponse))
                } else {
                    match value_block(b.skip(used as int), length) {
                        Err(e) => Err(e),
                        Ok(value) => Ok(Some(value)),
                    }
                },
            }
        },
    }
}

/// What a line of statistics says: after the word `STAT`, a name and,
/// behind one space, its value, both UTF-8 text.
pub open spec fn stat_entry(line: Seq<u8>) -> Result<(Seq<char>, Seq<char>), MemcacheError> {
    let (word, after_word) = first_word(line);
    if word != lit("STAT") || after_word is None {
        Err(MemcacheError::ServerError(ServerError::BadResponse))
    } else {
        let (name, value) = first_word(after_word->0);
        if value is None {
            Err(MemcacheError::ServerError(ServerError::BadResponse))
        } else {
            match (text_of(name), text_of(value->0)) {
                (Some(n), Some(v)) => Ok((n, v)),
                _ => Err(MemcacheError::ParseError(ParseError::Utf8)),
            }
        }
    }
}

/// Reads a line of statistics.
pub fn parse_stat_entry(line: &[u8]) -> (result: Result<(String, String), MemcacheError>)
    ensures
        match (result, stat_entry(line@)) {
            (Ok((name, value)), Ok(expected)) => name@ == expected.0 && value@ == expected.1,
            (Err(e), Err(expected)) => e == expected,
            _ => false,
        },
{
    let (word, after_word) = split_word(line);
    if !same_bytes(word, "STAT".as_bytes()) {
        return Err(MemcacheError::ServerError(ServerError::BadResponse));
    }
    let after_word = match after_word {
        Some(rest) => rest,
        None => { return Err(MemcacheError::ServerError(ServerError::BadResponse)); },
    };
    let (name, value) = split_word(after_word);
    let value = match value {
        Some(rest) => rest,
        None => { return Err(MemcacheError::ServerError(ServerError::BadResponse)); },
    };
    let name = match read_text(slice_to_vec(name)) {
        Some(text) => text,
        None => { return Err(MemcacheError::ParseError(ParseError::Utf8)); },
    };
    let value = match read_text(slice_to_vec(value)) {
        Some(text) => text,
        None => { return Err(MemcacheError::ParseError(ParseError::Utf8)); },
    };
    Ok((name, value))
}

/// What a statistics request is answered with, given the entries `seen`
/// so far: each line adds one entry, until the line `END`.
pub open spec fn stats_outcome(b: Seq<u8>, seen: Map<Seq<char>, Seq<char>>) -> Result<
    Map<Seq<char>, Seq<char>>,
    MemcacheError,
>
    decreases b.len(),
    via stats_outcome_ends
{
    match status_line(b) {
        Err(e) => Err(e),
        Ok((line, used)) => if line == lit("END") {
            Ok(seen)
        } else {
            match stat_entry(line) {
                Err(e) => Err(e),
                Ok((name, value)) => stats_outcome(b.skip(used as int), seen.insert(name, value)),
            }
        },
    }
}

#[via_fn]
proof fn stats_outcome_ends(b: Seq<u8>, seen: Map<Seq<char>, Seq<char>>) {
    b.index_of_first_ensures(LF);
}

/// A line that was read takes at least its two closing bytes, and no
/// more bytes than there are.
pub proof fn lemma_line_length(b: Seq<u8>)
    ensures
        first_line(b) matches Ok((line, used)) ==> 2 <= used <= b.len() && line.len() + 2 == used,
{
    b.index_of_first_ensures(LF);
}

/// Bytes that come later change nothing of a line that was read: where
/// the first line of `b` was read, or refused for another reason than an
/// early end, the same comes of `b` with more bytes behind it, and so
/// does every answer that is one line long.
pub proof fn lemma_later_bytes_change_no_line(b: Seq<u8>, more: Seq<u8>, word: Seq<u8>)
    requires
        first_line(b) != Err::<(Seq<u8>, nat), MemcacheError>(
            MemcacheError::IOError(crate::error::TransportError::UnexpectedEof),
        ),
    ensures
        first_line(b + more) == first_line(b),
        status_line(b + more) == status_line(b),
        word_outcome(b + more, word) == word_outcome(b, word),
        found_outcome(b + more, word) == found_outcome(b, word),
        cas_outcome(b + more) == cas_outcome(b),
        version_outcome(b + more) == version_outcome(b),
{
    let longer = b + more;
    b.index_of_first_ensures(LF);
    longer.index_of_first_ensures(LF);
    let at = b.index_of_first(LF)->0;
    assert(longer[at] == LF);
    assert(longer.contains(LF));
    let there = longer.index_of_first(LF)->0;
    if there < at {
        assert(b[there] == longer[there]);
    }
    assert(there == at);
    if at >= 1 {
        assert(longer[at - 1] == b[at - 1]);
        assert(longer.take(at - 1) =~= b.take(at - 1));
    }
}

/// Bytes that come later change nothing of a value that was read: where
/// the answer to a get was read from `b`, or refused for another reason
/// than an early end, the same comes of `b` with more bytes behind it.
pub proof fn lemma_later_bytes_change_no_value(b: Seq<u8>, more: Seq<u8>, key: Seq<u8>)
    requires
        get_outcome(b, key) != Err::<Option<Seq<u8>>, MemcacheError>(
            MemcacheError::IOError(crate::error::TransportError::UnexpectedEof),
        ),
    ensures
        get_outcome(b + more, key) == get_outcome(b, key),
{
    let eof = MemcacheError::IOError(crate::error::TransportError::UnexpectedEof);
    let longer = b + more;
    assert(first_line(b) != Err::<(Seq<u8>, nat), MemcacheError>(eof));
    lemma_later_bytes_change_no_line(b, more, lit("END"));
    lemma_line_length(b);
    if let Ok((line, used)) = status_line(b) {
        if line != lit("END") {
            if let Ok((name, _, length)) = value_header(line) {
                if name == key {
                    let rest = b.skip(used as int);
                    assert(longer.skip(used as int) =~= rest + more);
                    assert(value_block(rest, length) != Err::<Seq<u8>, MemcacheError>(eof));
                    let n = length as int;
                    assert(rest.len() >= n + 2);
                    assert((rest + more)[n] == rest[n]);
                    assert((rest + more)[n + 1] == rest[n + 1]);
                    if rest[n] == CR && rest[n + 1] == LF {
                        let tail = rest.skip(n + 2);
                        assert((rest + more).skip(n + 2) =~= tail + more);
                        assert(first_line(tail) != Err::<(Seq<u8>, nat), MemcacheError>(eof));
                        lemma_later_bytes_change_no_line(tail, more, lit("END"));
                        assert((rest + more).take(n) =~= rest.take(n));
                    }
                }
            }
        }
    }
}

/// Bytes that come later change nothing of statistics that were read:
/// where the answer to a statistics request was read from `b`, or refused
/// for another reason than an early end, the same comes of `b` with more
/// bytes behind it.
pub proof fn lemma_later_bytes_change_no_stats(
    b: Seq<u8>,
    more: Seq<u8>,
    seen: Map<Seq<char>, Seq<char>>,
)
    requires
        stats_outcome(b, seen) != Err::<Map<Seq<char>, Seq<char>>, MemcacheError>(
            MemcacheError::IOError(crate::error::TransportError::UnexpectedEof),
        ),
    ensures
        stats_outcome(b + more, seen) == stats_outcome(b, seen),
    decreases b.len(),
{
    let eof = MemcacheError::IOError(crate::error::TransportError::UnexpectedEof);
    let longer = b + more;
    assert(first_line(b) != Err::<(Seq<u8>, nat), MemcacheError>(eof));
    lemma_later_bytes_change_no_line(b, more, lit("END"));
    lemma_line_length(b);
    if let Ok((line, used)) = status_line(b) {
        if line != lit("END") {
            if let Ok((name, value)) = stat_entry(line) {
                let rest = b.skip(used as int);
                assert(longer.skip(used as int) =~= rest + more);
                lemma_later_bytes_change_no_stats(rest, more, seen.insert(name, value));
            }
        }
    }
}

impl AsciiProtocol {
    /// Reads an answer whose only good form is the line `word`.
    fn parse_word_response(&self, reader: &[u8], word: &str) -> (result: Result<
        (),
        MemcacheError,
    >)
        ensures
            result == word_outcome(reader@, lit(word)),
    {
        let (line, _) = read_status_line(reader)?;
        if same_bytes(line, word.as_bytes()) {
            Ok(())
        } else {
            Err(MemcacheError::ServerError(ServerError::BadResponse))
        }
    }

    /// Reads the answer to `auth`: the credentials were stored.
    pub fn parse_auth_response(&self, reader: &[u8]) -> (result: Result<(), MemcacheError>)
        ensures
            result == word_outcome(reader@, lit("STORED")),
    {
        self.parse_word_response(reader, "STORED")
    }

    /// Reads the answer to `version`.
    pub fn parse_version_response(&self, reader: &[u8]) -> (result: Result<String, MemcacheError>)
        ensures
            match (result, version_outcome(reader@)) {
                (Ok(version), Ok(expected)) => version@ == expected,
                (Err(e), Err(expected)) => e == expected,
                _ => false,
            },
    {
        let (line, _) = read_status_line(reader)?;
        let word = "VERSION ".as_bytes();
        if !starts_with(line, word) {
            return Err(MemcacheError::ServerError(ServerError::BadResponse));
        }
        let version = slice_to_vec(&line[word.len()..line.len()]);
        match read_text(version) {
            Some(text) => Ok(text),
            None => Err(MemcacheError::ParseError(ParseError::Utf8)),
        }
    }

    /// Reads the answer to `flush` and to `flush_with_delay`.
    pub fn parse_flush_response(&self, reader: &[u8]) -> (result: Result<(), MemcacheError>)
        ensures
            result == word_outcome(reader@, lit("OK")),
    {
        self.parse_word_response(reader, "OK")
    }

    /// Reads the answer to `get` for `key`: the stored bytes, or nothing
    /// for a key that is not there.
    pub fn parse_get_response(&self, reader: &[u8], key: &str) -> (result: Result<
        Option<Vec<u8>>,
        MemcacheError,
    >)
        ensures
            match (result, get_outcome(reader@, key.spec_bytes())) {
                (Ok(Some(value)), Ok(Some(expected))) => value@ == expected,
                (Ok(None), Ok(None)) => true,
                (Err(e), Err(expected)) => e == expected,
                _ => false,
            },
    {
        let (line, used) = read_status_line(reader)?;
        if same_bytes(line, "END".as_bytes()) {
            return Ok(None);
        }
        let (name, _, length) = parse_value_header(line)?;
        if !same_bytes(name, key.as_bytes()) {
            return Err(MemcacheError::ServerError(ServerError::BadResponse));
        }
        proof {
            lemma_line_length(reader@);
        }
        let rest = &reader[used..reader.len()];
        assert(rest@ == reader@.skip(used as int));
        if rest.len() < 2 || length > rest.len() - 2 {
            return Err(MemcacheError::IOError(crate::error::TransportError::UnexpectedEof));
        }
        if rest[length] != CR || rest[length + 1] != LF {
            return Err(MemcacheError::ServerError(ServerError::BadResponse));
        }
        let tail = &rest[length + 2..rest.len()];
        assert(tail@ == rest@.skip(length + 2));
        self.parse_word_response(tail, "END")?;
        let value = slice_to_vec(&rest[0..length]);
        assert(value@ == rest@.take(length as int));
        Ok(Some(value))
    }

    /// Reads the answer to `set`, `add` and `replace`.
    pub fn parse_store_response(&self, reader: &[u8]) -> (result: Result<(), MemcacheError>)
        ensures
            result == word_outcome(reader@, lit("STORED")),
    {
        self.parse_word_response(reader, "STORED")
    }

    /// Reads the answer to `cas`: whether the value was swapped in.
    pub fn parse_cas_response(&self, reader: &[u8]) -> (result: Result<bool, MemcacheError>)
        ensures
            result == cas_outcome(reader@),
    {
        match self.parse_word_response(reader, "STORED") {
            Ok(_) => Ok(true),
            Err(MemcacheError::CommandError(CommandError::KeyNotFound)) => Ok(false),
            Err(MemcacheError::CommandError(CommandError::KeyExists)) => Ok(false),
            Err(e) => Err(e),
        }
    }

    /// Reads the answer to `delete`: whether the key was there.
    pub fn parse_delete_response(&self, reader: &[u8]) -> (result: Result<bool, MemcacheError>)
        ensures
            result == found_outcome(reader@, lit("DELETED")),
    {
        match self.parse_word_response(reader, "DELETED") {
            Ok(_) => Ok(true),
            Err(MemcacheError::CommandError(CommandError::KeyNotFound)) => Ok(false),
            Err(e) => Err(e),
        }
    }

    /// Reads the answer to `touch`: whether the key was there.
    pub fn parse_touch_response(&self, reader: &[u8]) -> (result: Result<bool, MemcacheError>)
        ensures
            result == found_outcome(reader@, lit("TOUCHED")),
    {
        match self.parse_word_response(reader, "TOUCHED") {
            Ok(_) => Ok(true),
            Err(MemcacheError::CommandError(CommandError::KeyNotFound)) => Ok(false),
            Err(e) => Err(e),
        }
    }

    /// Reads the answer to `stats`, up to and with the line that ends it.
    pub fn parse_stats_response(&self, reader: &[u8]) -> (result: Result<Stats, MemcacheError>)
        ensures
            match (result, stats_outcome(reader@, Map::empty())) {
                (Ok(stats), Ok(expected)) => stats@ == expected,
                (Err(e), Err(expected)) => e == expected,
                _ => false,
            },
    {
        let mut result = Stats::new();
        let mut at: usize = 0;
        assert(reader@.skip(0) =~= reader@);
        loop
            invariant
                at <= reader@.len(),
                stats_outcome(reader@, Map::empty()) == stats_outcome(
                    reader@.skip(at as int),
                    result@,
                ),
            decreases reader@.len() - at,
        {
            let rest = &reader[at..reader.len()];
            assert(rest@ == reader@.skip(at as int));
            proof {
                lemma_line_length(rest@);
            }
            let (line, used) = read_status_line(rest)?;
            if same_bytes(line, "END".as_bytes()) {
                return Ok(result);
            }
            let (name, value) = parse_stat_entry(line)?;
            assert(reader@.skip(at as int).skip(used as int) == reader@.skip(at + used));
            result.insert(name, value);
            at = at + used;
        }
    }
}

} // verus!
