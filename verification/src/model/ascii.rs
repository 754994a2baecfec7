//! The model server on the text protocol, and what exchanges with it come to.

use crate::error::{CommandError, MemcacheError};
use crate::model::words::{
    word_add, word_cas, word_client_error, word_delete, word_deleted, word_end,
    word_delete_, word_error, word_exists, word_flush_all, word_flush_all_, word_flush_all_line,
    word_get,
    word_get_, word_line_end, word_touch_, word_not_found, word_not_stored, word_ok,
    word_replace, word_server_error, word_set, word_space, word_stat, word_stored, word_touch,
    word_touched, word_value, word_zero_flags,
};
use crate::model::{table_of, Answer, Cache, Command, StoreMode};
use crate::protocol::ascii::{
    cas_outcome, delete_request, flush_request, flush_with_delay_request, found_outcome,
    get_outcome, get_request,
    line_error, stat_entry, stats_outcome, status_line, store_request, touch_request,
    value_block, value_header, word_outcome, StoreCommand,
};
use crate::text::{
    decimal, first_line, first_word, is_digit, lemma_decimal_round_trip, lit,
    number, CR, LF, SPACE,
};
use vstd::prelude::*;
use vstd::utf8::{encode_utf8, encode_utf8_decode_utf8, encode_utf8_valid_utf8};

verus! {

/// Whether `bytes` can stand as one word of a line: there is no space
/// and no line feed among them.
pub open spec fn is_word(bytes: Seq<u8>) -> bool {
    forall|i: int| 0 <= i < bytes.len() ==> bytes[i] != SPACE && bytes[i] != LF
}

/// Whether `bytes` can stand in a line: there is no line feed among them.
pub open spec fn is_line(bytes: Seq<u8>) -> bool {
    forall|i: int| 0 <= i < bytes.len() ==> bytes[i] != LF
}

/// A line that is written is the first line that is read.
pub proof fn lemma_line_is_read(line: Seq<u8>, rest: Seq<u8>)
    requires
        is_line(line),
    ensures
        first_line(line + lit("\r\n") + rest) == Ok::<(Seq<u8>, nat), MemcacheError>(
            (line, line.len() + 2),
        ),
        (line + lit("\r\n") + rest).skip(line.len() as int + 2) == rest,
{
    word_line_end();
    let b = line + lit("\r\n") + rest;
    b.index_of_first_ensures(LF);
    let at = line.len() as int + 1;
    assert(b[at] == LF);
    assert(b[at - 1] == CR);
    assert forall|j: int| 0 <= j < at implies b[j] != LF by {
        if j < line.len() {
            assert(b[j] == line[j]);
        }
    }
    assert(b.index_of_first(LF) == Some(at));
    assert(b.take(at - 1) =~= line);
    assert(b.skip(line.len() as int + 2) =~= rest);
}

/// A word that is written before a space is the first word that is read.
pub proof fn lemma_word_is_read(word: Seq<u8>, rest: Seq<u8>)
    requires
        is_word(word),
    ensures
        first_word(word + lit(" ") + rest) == (word, Some(rest)),
{
    word_space();
    let b = word + lit(" ") + rest;
    b.index_of_first_ensures(SPACE);
    let at = word.len() as int;
    assert(b[at] == SPACE);
    assert forall|j: int| 0 <= j < at implies b[j] != SPACE by {
        assert(b[j] == word[j]);
    }
    assert(b.index_of_first(SPACE) == Some(at));
    assert(b.take(at) =~= word);
    assert(b.skip(at + 1) =~= rest);
}

/// A word that nothing follows is read as that word.
pub proof fn lemma_last_word_is_read(word: Seq<u8>)
    requires
        is_word(word),
    ensures
        first_word(word) == (word, None::<Seq<u8>>),
{
    word.index_of_first_ensures(SPACE);
}

/// The digits of a number are a word, and are read as that number.
pub proof fn lemma_number_is_read(n: nat, max: nat)
    requires
        n <= max,
    ensures
        is_word(decimal(n)),
        is_line(decimal(n)),
        number(decimal(n), max) == Some(n),
{
    lemma_decimal_round_trip(n);
    assert forall|i: int| 0 <= i < decimal(n).len() implies decimal(n)[i] != SPACE && decimal(
        n,
    )[i] != LF by {
        assert(is_digit(decimal(n)[i]));
    }
}

/// The way of storing that a command word asks for, with the token
/// that the line carries where it carries one.
pub open spec fn store_mode(word: Seq<u8>, token: Option<u64>) -> Option<StoreMode> {
    if word == lit("set") && token is None {
        Some(StoreMode::Always)
    } else if word == lit("add") && token is None {
        Some(StoreMode::IfAbsent)
    } else if word == lit("replace") && token is None {
        Some(StoreMode::IfPresent)
    } else if word == lit("cas") && token is Some {
        Some(StoreMode::IfToken(token->0))
    } else {
        None
    }
}

/// The storing command that a line and the bytes after it spell: behind
/// the command word come key, flags, expiration and length, and a token
/// at most; the value follows on a line of its own, as long as announced.
pub open spec fn read_store(word: Seq<u8>, rest: Seq<u8>, body: Seq<u8>) -> Option<Command> {
    let (key, after_key) = first_word(rest);
    if after_key is None {
        None
    } else {
        let (flags, after_flags) = first_word(after_key->0);
        if after_flags is None {
            None
        } else {
            let (expiration, after_expiration) = first_word(after_flags->0);
            if after_expiration is None {
                None
            } else {
                let (length, after_length) = first_word(after_expiration->0);
                let token = match after_length {
                    Some(digits) => number(digits, u64::MAX as nat),
                    None => None,
                };
                let n = number(length, usize::MAX as nat);
                if number(flags, u32::MAX as nat) is None || number(expiration, u32::MAX as nat)
                    is None || n is None || (after_length is Some && token is None) {
                    None
                } else if body.len() != n->0 + 2 || body[n->0 as int] != CR || body[n->0 as int
                    + 1] != LF {
                    None
                } else {
                    match store_mode(
                        word,
                        match token {
                            Some(t) => Some(t as u64),
                            None => None,
                        },
                    ) {
                        Some(mode) => Some(
                            Command::Store { mode, key, value: body.take(n->0 as int) },
                        ),
                        None => None,
                    }
                }
            }
        }
    }
}

/// The command that `b` spell, where it is one that the model serves.
pub open spec fn read_request(b: Seq<u8>) -> Option<Command> {
    match first_line(b) {
        Err(_) => None,
        Ok((line, used)) => {
            let body = b.skip(used as int);
            let (word, rest) = first_word(line);
            if rest is None {
                if word == lit("flush_all") && body.len() == 0 {
                    Some(Command::Flush { delay: 0 })
                } else {
                    None
                }
            } else if word == lit("flush_all") {
                let delay = number(rest->0, u32::MAX as nat);
                if body.len() == 0 && delay is Some {
                    Some(Command::Flush { delay: delay->0 as u32 })
                } else {
                    None
                }
            } else if word == lit("get") {
                if body.len() == 0 {
                    Some(Command::Get { key: rest->0 })
                } else {
                    None
                }
            } else if word == lit("delete") {
                if body.len() == 0 {
                    Some(Command::Delete { key: rest->0 })
                } else {
                    None
                }
            } else if word == lit("touch") {
                let (key, expiration) = first_word(rest->0);
                if body.len() == 0 && expiration is Some && number(
                    expiration->0,
                    u32::MAX as nat,
                ) is Some {
                    Some(Command::Touch { key })
                } else {
                    None
                }
            } else {
                read_store(word, rest->0, body)
            }
        },
    }
}

/// The bytes that carry a value: the line that announces it, the value
/// on a line of its own, and the line that ends the answer.
pub open spec fn value_reply(key: Seq<u8>, value: Seq<u8>) -> Seq<u8> {
    lit("VALUE") + lit(" ") + key + lit(" ") + decimal(0) + lit(" ") + decimal(value.len()) + lit(
        "\r\n",
    ) + value + lit("\r\n") + lit("END") + lit("\r\n")
}

/// The line that answers a command.
pub open spec fn answer_word(command: Command, answer: Answer) -> Seq<u8> {
    match command {
        Command::Get { .. } => lit("END"),
        Command::Store { mode, .. } => match answer {
            Answer::Failed(error) => match mode {
                StoreMode::IfToken(_) => if error == CommandError::KeyExists {
                    lit("EXISTS")
                } else {
                    lit("NOT_FOUND")
                },
                _ => lit("NOT_STORED"),
            },
            _ => lit("STORED"),
        },
        Command::Delete { .. } => match answer {
            Answer::Failed(_) => lit("NOT_FOUND"),
            _ => lit("DELETED"),
        },
        Command::Touch { .. } => match answer {
            Answer::Failed(_) => lit("NOT_FOUND"),
            _ => lit("TOUCHED"),
        },
        Command::Flush { .. } => lit("OK"),
    }
}

/// The bytes that carry an answer.
pub open spec fn answer_bytes(command: Command, answer: Answer) -> Seq<u8> {
    match (command, answer) {
        (Command::Get { key }, Answer::Value(value)) => value_reply(key, value),
        _ => answer_word(command, answer) + lit("\r\n"),
    }
}

/// The cache after the server has been sent `b`, and the bytes that it
/// answers with. What the model does not understand it answers with the
/// line `ERROR`.
pub open spec fn serve(cache: Cache, b: Seq<u8>) -> (Cache, Seq<u8>) {
    match read_request(b) {
        None => (cache, lit("ERROR") + lit("\r\n")),
        Some(command) => {
            let (next, answer) = cache.apply(command);
            (next, answer_bytes(command, answer))
        },
    }
}

/// The server reads a `get` of this crate as the command to get.
pub proof fn lemma_get_is_read(key: Seq<u8>)
    requires
        is_word(key),
    ensures
        read_request(get_request(key)) == Some(Command::Get { key }),
{
    word_flush_all();
    word_get();
    assert(lit("get").len() != lit("flush_all").len());
    word_get_();
    word_space();
    word_line_end();
    let line = lit("get ") + key;
    let b = get_request(key);
    assert(is_line(line));
    assert(b =~= line + lit("\r\n") + Seq::<u8>::empty());
    lemma_line_is_read(line, Seq::empty());
    assert(line =~= lit("get") + lit(" ") + key);
    assert(is_word(lit("get")));
    lemma_word_is_read(lit("get"), key);
}

/// The server reads a `delete` of this crate as the command to delete.
pub proof fn lemma_delete_is_read(key: Seq<u8>)
    requires
        is_word(key),
    ensures
        read_request(delete_request(key)) == Some(Command::Delete { key }),
{
    word_flush_all();
    word_delete();
    assert(lit("delete").len() != lit("flush_all").len());
    word_delete_();
    word_get();
    word_space();
    word_line_end();
    let line = lit("delete ") + key;
    let b = delete_request(key);
    assert(is_line(line));
    assert(b =~= line + lit("\r\n") + Seq::<u8>::empty());
    lemma_line_is_read(line, Seq::empty());
    assert(line =~= lit("delete") + lit(" ") + key);
    assert(is_word(lit("delete")));
    lemma_word_is_read(lit("delete"), key);
    assert(lit("delete") != lit("get")) by {
        assert(lit("delete")[0] != lit("get")[0]);
    }
}

/// The server reads a `touch` of this crate as the command to touch.
pub proof fn lemma_touch_is_read(key: Seq<u8>, expiration: u32)
    requires
        is_word(key),
    ensures
        read_request(touch_request(key, expiration)) == Some(Command::Touch { key }),
{
    word_flush_all();
    word_touch();
    assert(lit("touch").len() != lit("flush_all").len());
    word_touch_();
    word_get();
    word_delete();
    word_space();
    word_line_end();
    let digits = decimal(expiration as nat);
    lemma_number_is_read(expiration as nat, u32::MAX as nat);
    let line = lit("touch ") + key + lit(" ") + digits;
    let b = touch_request(key, expiration);
    assert(is_line(line));
    assert(b =~= line + lit("\r\n") + Seq::<u8>::empty());
    lemma_line_is_read(line, Seq::empty());
    let rest = key + lit(" ") + digits;
    assert(line =~= lit("touch") + lit(" ") + rest);
    assert(is_word(lit("touch")));
    lemma_word_is_read(lit("touch"), rest);
    lemma_word_is_read(key, digits);
    assert(lit("touch") != lit("get")) by {
        assert(lit("touch")[0] != lit("get")[0]);
    }
    assert(lit("touch") != lit("delete")) by {
        assert(lit("touch")[0] != lit("delete")[0]);
    }
}

/// The server reads a `flush` of this crate as the command to flush.
pub proof fn lemma_flush_is_read()
    ensures
        read_request(flush_request()) == Some(Command::Flush { delay: 0 }),
{
    word_flush_all_line();
    word_flush_all();
    word_line_end();
    let b = flush_request();
    let line = lit("flush_all");
    assert(is_line(line));
    assert(is_word(line));
    assert(b =~= line + lit("\r\n") + Seq::<u8>::empty());
    lemma_line_is_read(line, Seq::empty());
    lemma_last_word_is_read(line);
}

/// The server reads a `flush_with_delay` of this crate as the command to
/// flush after that delay.
pub proof fn lemma_flush_with_delay_is_read(delay: u32)
    ensures
        read_request(flush_with_delay_request(delay)) == Some(Command::Flush { delay }),
{
    word_flush_all_();
    word_flush_all();
    word_space();
    word_line_end();
    let digits = decimal(delay as nat);
    lemma_number_is_read(delay as nat, u32::MAX as nat);
    let line = lit("flush_all ") + digits;
    let b = flush_with_delay_request(delay);
    assert(is_line(lit("flush_all ")));
    lemma_line_join(lit("flush_all "), digits);
    assert(b =~= line + lit("\r\n") + Seq::<u8>::empty());
    lemma_line_is_read(line, Seq::empty());
    assert(line =~= lit("flush_all") + lit(" ") + digits);
    assert(is_word(lit("flush_all")));
    lemma_word_is_read(lit("flush_all"), digits);
}

/// The word of a storing command asks for the way of storing that the
/// command stands for.
pub open spec fn mode_of(command: StoreCommand, cas: Option<u64>) -> StoreMode {
    match command {
        StoreCommand::Cas => StoreMode::IfToken(cas->0),
        StoreCommand::SetValue => StoreMode::Always,
        StoreCommand::Add => StoreMode::IfAbsent,
        StoreCommand::Replace => StoreMode::IfPresent,
    }
}

/// Two runs of bytes without a line feed make one such run.
pub proof fn lemma_line_join(a: Seq<u8>, b: Seq<u8>)
    requires
        is_line(a),
        is_line(b),
    ensures
        is_line(a + b),
{
    assert forall|i: int| 0 <= i < (a + b).len() implies (a + b)[i] != LF by {
        if i < a.len() {
            assert((a + b)[i] == a[i]);
        } else {
            assert((a + b)[i] == b[i - a.len()]);
        }
    }
}

/// What follows the length in the line of a storing request: the token
/// behind a space, where there is one.
pub open spec fn token_words(cas: Option<u64>) -> Seq<u8> {
    match cas {
        Some(t) => lit(" ") + decimal(t as nat),
        None => Seq::<u8>::empty(),
    }
}

/// What follows the command word in the line of a storing request.
pub open spec fn store_words(key: Seq<u8>, expiration: u32, length: nat, cas: Option<u64>) -> Seq<
    u8,
> {
    key + lit(" 0 ") + decimal(expiration as nat) + lit(" ") + decimal(length) + token_words(cas)
}

/// The length and the token of a storing request are read as they were written.
proof fn lemma_store_tail_is_read(length: nat, cas: Option<u64>)
    requires
        length <= usize::MAX,
    ensures
        is_line(decimal(length) + token_words(cas)),
        first_word(decimal(length) + token_words(cas)).0 == decimal(length),
        match cas {
            Some(t) => first_word(decimal(length) + token_words(cas)).1 == Some(
                decimal(t as nat),
            ) && number(decimal(t as nat), u64::MAX as nat) == Some(t as nat),
            None => first_word(decimal(length) + token_words(cas)).1 is None,
        },
        number(decimal(length), usize::MAX as nat) == Some(length),
{
    word_space();
    let len = decimal(length);
    lemma_number_is_read(length, usize::MAX as nat);
    match cas {
        Some(t) => {
            let digits = decimal(t as nat);
            lemma_number_is_read(t as nat, u64::MAX as nat);
            assert(len + token_words(cas) =~= len + lit(" ") + digits);
            lemma_word_is_read(len, digits);
            assert(is_line(lit(" ")));
            lemma_line_join(len, lit(" "));
            lemma_line_join(len + lit(" "), digits);
        },
        None => {
            assert(len + token_words(cas) =~= len);
            lemma_last_word_is_read(len);
        },
    }
}

/// Key, flags and expiration of a storing request are read as they
/// were written, and leave the length and the token to be read.
proof fn lemma_store_head_is_read(key: Seq<u8>, expiration: u32, tail: Seq<u8>)
    requires
        is_word(key),
        is_line(tail),
    ensures
        ({
            let exp = decimal(expiration as nat);
            let rest = key + lit(" 0 ") + exp + lit(" ") + tail;
            let after_key = decimal(0) + lit(" ") + exp + lit(" ") + tail;
            let after_flags = exp + lit(" ") + tail;
            &&& is_line(rest)
            &&& first_word(rest) == (key, Some(after_key))
            &&& first_word(after_key) == (decimal(0), Some(after_flags))
            &&& first_word(after_flags) == (exp, Some(tail))
            &&& number(decimal(0), u32::MAX as nat) == Some(0nat)
            &&& number(exp, u32::MAX as nat) == Some(expiration as nat)
        }),
{
    word_space();
    word_zero_flags();
    let exp = decimal(expiration as nat);
    let zero = decimal(0);
    lemma_number_is_read(expiration as nat, u32::MAX as nat);
    lemma_number_is_read(0, u32::MAX as nat);
    assert(zero =~= seq![0x30u8]);
    let rest = key + lit(" 0 ") + exp + lit(" ") + tail;
    let after_flags = exp + lit(" ") + tail;
    let after_key = zero + lit(" ") + exp + lit(" ") + tail;
    assert(after_key =~= zero + lit(" ") + after_flags);
    assert(rest =~= key + lit(" ") + after_key);
    lemma_word_is_read(key, after_key);
    lemma_word_is_read(zero, after_flags);
    lemma_word_is_read(exp, tail);
    assert(is_line(lit(" ")));
    assert(is_line(key));
    lemma_line_join(exp, lit(" "));
    lemma_line_join(exp + lit(" "), tail);
    lemma_line_join(zero, lit(" "));
    lemma_line_join(zero + lit(" "), after_flags);
    lemma_line_join(key, lit(" "));
    lemma_line_join(key + lit(" "), after_key);
}

/// The server reads the line of a storing request word by word.
proof fn lemma_store_line_is_read(
    key: Seq<u8>,
    expiration: u32,
    length: nat,
    cas: Option<u64>,
    body: Seq<u8>,
    word: Seq<u8>,
)
    requires
        is_word(key),
        length <= usize::MAX,
        body.len() == length + 2,
        body[length as int] == CR,
        body[length as int + 1] == LF,
    ensures
        is_line(store_words(key, expiration, length, cas)),
        read_store(word, store_words(key, expiration, length, cas), body) == match store_mode(
            word,
            cas,
        ) {
            Some(mode) => Some(Command::Store { mode, key, value: body.take(length as int) }),
            None => None,
        },
{
    let exp = decimal(expiration as nat);
    let tail = decimal(length) + token_words(cas);
    lemma_store_tail_is_read(length, cas);
    lemma_store_head_is_read(key, expiration, tail);
    let rest = store_words(key, expiration, length, cas);
    assert(rest =~= key + lit(" 0 ") + exp + lit(" ") + tail);
    let after_key = decimal(0) + lit(" ") + exp + lit(" ") + tail;
    let after_flags = exp + lit(" ") + tail;
    assert(first_word(rest) == (key, Some(after_key)));
    assert(first_word(after_key) == (decimal(0), Some(after_flags)));
    assert(first_word(after_flags) == (exp, Some(tail)));
    assert(first_word(tail).0 == decimal(length));
    let token = match first_word(tail).1 {
        Some(digits) => number(digits, u64::MAX as nat),
        None => None,
    };
    assert(token == match cas {
        Some(t) => Some(t as nat),
        None => None::<nat>,
    });
    assert((match token {
        Some(t) => Some(t as u64),
        None => None,
    }) == cas);
}

/// The command words are five different words, and none of them is a
/// word of the commands without a value.
proof fn lemma_store_words_differ(command: StoreCommand, cas: Option<u64>)
    requires
        (command == StoreCommand::Cas) == (cas is Some),
    ensures
        is_word(command.spec_name()),
        command.spec_name() != lit("get"),
        command.spec_name() != lit("delete"),
        command.spec_name() != lit("touch"),
        command.spec_name() != lit("flush_all"),
        store_mode(command.spec_name(), cas) == Some(mode_of(command, cas)),
{
    word_flush_all();
    word_get();
    word_delete();
    word_touch();
    word_set();
    word_add();
    word_replace();
    word_cas();
    let word = command.spec_name();
    assert(word.len() != lit("get").len() || word[0] != lit("get")[0]);
    assert(word.len() != lit("delete").len());
    assert(word.len() != lit("touch").len());
    assert(word.len() != lit("flush_all").len());
    assert(lit("set")[0] != lit("add")[0]);
    assert(lit("set").len() != lit("replace").len());
    assert(lit("set")[0] != lit("cas")[0]);
    assert(lit("add").len() != lit("replace").len());
    assert(lit("add")[0] != lit("cas")[0]);
    assert(lit("replace").len() != lit("cas").len());
}

/// The server reads a storing request of this crate as the command to
/// store the value under the key, in the way that the request asks for.
pub proof fn lemma_store_is_read(
    command: StoreCommand,
    key: Seq<u8>,
    value: Seq<u8>,
    expiration: u32,
    cas: Option<u64>,
)
    requires
        is_word(key),
        value.len() <= usize::MAX,
        (command == StoreCommand::Cas) == (cas is Some),
    ensures
        read_request(store_request(command, key, value, expiration, cas)) == Some(
            Command::Store { mode: mode_of(command, cas), key, value },
        ),
{
    word_line_end();
    word_space();
    let word = command.spec_name();
    let rest = store_words(key, expiration, value.len(), cas);
    let body = value + lit("\r\n");
    lemma_store_words_differ(command, cas);
    lemma_store_line_is_read(key, expiration, value.len(), cas, body, word);
    let line = word + lit(" ") + rest;
    let b = store_request(command, key, value, expiration, cas);
    assert(is_line(word));
    assert(is_line(lit(" ")));
    lemma_line_join(word, lit(" "));
    lemma_line_join(word + lit(" "), rest);
    assert(b =~= line + lit("\r\n") + body);
    lemma_line_is_read(line, body);
    lemma_word_is_read(word, rest);
    assert(body.take(value.len() as int) =~= value);
}

/// A line that opens with none of the letters that open a report of
/// failure reports none.
proof fn lemma_no_failure_by_first_byte(line: Seq<u8>)
    requires
        line.len() > 0,
        line[0] != 0x45 && line[0] != 0x43 && line[0] != 0x53 && line[0] != 0x4e,
    ensures
        line_error(line) is None,
{
    word_error();
    word_client_error();
    word_server_error();
    word_not_found();
    word_exists();
    word_not_stored();
    assert(lit("ERROR")[0] == 0x45);
    assert(lit("EXISTS")[0] == 0x45);
    assert(lit("NOT_FOUND")[0] == 0x4e);
    assert(lit("NOT_STORED")[0] == 0x4e);
    if lit("CLIENT_ERROR").is_prefix_of(line) {
        assert(line.subrange(0, lit("CLIENT_ERROR").len() as int)[0] == lit("CLIENT_ERROR")[0]);
    }
    if lit("SERVER_ERROR").is_prefix_of(line) {
        assert(line.subrange(0, lit("SERVER_ERROR").len() as int)[0] == lit("SERVER_ERROR")[0]);
    }
}

/// The lines that report success report no failure.
proof fn lemma_words_of_success()
    ensures
        line_error(lit("STORED")) is None,
        line_error(lit("DELETED")) is None,
        line_error(lit("TOUCHED")) is None,
        line_error(lit("OK")) is None,
        line_error(lit("END")) is None,
        is_line(lit("STORED")),
        is_line(lit("DELETED")),
        is_line(lit("TOUCHED")),
        is_line(lit("OK")),
        is_line(lit("END")),
        lit("STORED") != lit("END"),
        lit("OK") != lit("END"),
{
    word_stored();
    word_deleted();
    word_touched();
    word_ok();
    word_end();
    lemma_no_failure_by_first_byte(lit("DELETED"));
    lemma_no_failure_by_first_byte(lit("TOUCHED"));
    lemma_no_failure_by_first_byte(lit("OK"));
    word_error();
    word_client_error();
    word_server_error();
    word_not_found();
    word_exists();
    word_not_stored();
    assert(line_error(lit("STORED")) is None) by {
        let line = lit("STORED");
        assert(line.len() != lit("ERROR").len());
        assert(line.len() < lit("CLIENT_ERROR").len());
        assert(line.len() < lit("SERVER_ERROR").len());
        assert(line[0] != lit("NOT_FOUND")[0]);
        assert(line[0] != lit("EXISTS")[0]);
        assert(line[0] != lit("NOT_STORED")[0]);
    }
    assert(line_error(lit("END")) is None) by {
        let line = lit("END");
        assert(line.len() != lit("ERROR").len());
        assert(line.len() < lit("CLIENT_ERROR").len());
        assert(line.len() < lit("SERVER_ERROR").len());
        assert(line.len() != lit("NOT_FOUND").len());
        assert(line.len() != lit("EXISTS").len());
        assert(line.len() != lit("NOT_STORED").len());
    }
    assert(lit("STORED").len() != lit("END").len());
    assert(lit("OK").len() != lit("END").len());
}

/// The lines that report a failure of the command report that failure.
proof fn lemma_words_of_failure()
    ensures
        line_error(lit("NOT_FOUND")) == Some(
            MemcacheError::CommandError(CommandError::KeyNotFound),
        ),
        line_error(lit("EXISTS")) == Some(MemcacheError::CommandError(CommandError::KeyExists)),
        line_error(lit("NOT_STORED")) == Some(
            MemcacheError::CommandError(CommandError::ItemNotStored),
        ),
        is_line(lit("NOT_FOUND")),
        is_line(lit("EXISTS")),
        is_line(lit("NOT_STORED")),
{
    word_error();
    word_client_error();
    word_server_error();
    word_not_found();
    word_exists();
    word_not_stored();
    let words = seq![lit("NOT_FOUND"), lit("EXISTS"), lit("NOT_STORED")];
    assert forall|k: int| 0 <= k < 3 implies {
        &&& (#[trigger] words[k]) != lit("ERROR")
        &&& !lit("CLIENT_ERROR").is_prefix_of(words[k])
        &&& !lit("SERVER_ERROR").is_prefix_of(words[k])
    } by {
        let line = words[k];
        assert(line.len() != lit("ERROR").len());
        assert(line.len() < lit("CLIENT_ERROR").len());
        assert(line.len() < lit("SERVER_ERROR").len());
    }
    assert(words[0] == lit("NOT_FOUND") && words[1] == lit("EXISTS") && words[2] == lit(
        "NOT_STORED",
    ));
    assert(lit("EXISTS").len() != lit("NOT_FOUND").len());
    assert(lit("NOT_STORED").len() != lit("NOT_FOUND").len());
    assert(lit("NOT_STORED").len() != lit("EXISTS").len());
}

/// A line of the server, written alone or before other bytes, is read
/// as that line where it reports no failure, and as its failure where
/// it reports one.
proof fn lemma_answer_line_is_read(line: Seq<u8>, rest: Seq<u8>)
    requires
        is_line(line),
    ensures
        status_line(line + lit("\r\n") + rest) == match line_error(line) {
            Some(e) => Err::<(Seq<u8>, nat), MemcacheError>(e),
            None => Ok::<(Seq<u8>, nat), MemcacheError>((line, line.len() + 2)),
        },
        (line + lit("\r\n") + rest).skip(line.len() as int + 2) == rest,
{
    lemma_line_is_read(line, rest);
}

/// A line of the server that nothing follows is read in the same way.
proof fn lemma_answer_word_is_read(line: Seq<u8>)
    requires
        is_line(line),
    ensures
        status_line(line + lit("\r\n")) == match line_error(line) {
            Some(e) => Err::<(Seq<u8>, nat), MemcacheError>(e),
            None => Ok::<(Seq<u8>, nat), MemcacheError>((line, line.len() + 2)),
        },
{
    lemma_answer_line_is_read(line, Seq::empty());
    assert(line + lit("\r\n") + Seq::<u8>::empty() =~= line + lit("\r\n"));
}

/// The line that announces a value is read as written.
proof fn lemma_value_header_is_read(key: Seq<u8>, length: nat)
    requires
        is_word(key),
        length <= usize::MAX,
    ensures
        ({
            let line = lit("VALUE") + lit(" ") + key + lit(" ") + decimal(0) + lit(" ") + decimal(
                length,
            );
            &&& is_line(line)
            &&& line_error(line) is None
            &&& line != lit("END")
            &&& value_header(line) == Ok::<(Seq<u8>, u32, nat), MemcacheError>(
                (key, 0u32, length),
            )
        }),
{
    word_value();
    word_space();
    word_end();
    let zero = decimal(0);
    let len = decimal(length);
    assert(zero =~= seq![0x30u8]);
    lemma_number_is_read(0, u32::MAX as nat);
    lemma_number_is_read(length, usize::MAX as nat);
    let after_flags = len;
    let after_key = zero + lit(" ") + len;
    let after_word = key + lit(" ") + after_key;
    let line = lit("VALUE") + lit(" ") + key + lit(" ") + zero + lit(" ") + len;
    assert(line =~= lit("VALUE") + lit(" ") + after_word);
    assert(is_word(lit("VALUE")));
    lemma_word_is_read(lit("VALUE"), after_word);
    lemma_word_is_read(key, after_key);
    lemma_word_is_read(zero, len);
    lemma_last_word_is_read(len);
    assert(is_line(lit(" ")));
    assert(is_line(key));
    assert(is_line(lit("VALUE")));
    lemma_line_join(zero, lit(" "));
    lemma_line_join(zero + lit(" "), len);
    lemma_line_join(key, lit(" "));
    lemma_line_join(key + lit(" "), after_key);
    lemma_line_join(lit("VALUE"), lit(" "));
    lemma_line_join(lit("VALUE") + lit(" "), after_word);
    assert(line[0] == 0x56);
    lemma_no_failure_by_first_byte(line);
    assert(lit("END")[0] != line[0]);
}

/// This crate reads the bytes that carry a value as that value, byte for byte.
pub proof fn lemma_value_is_read(key: Seq<u8>, value: Seq<u8>)
    requires
        is_word(key),
        value.len() <= usize::MAX,
    ensures
        get_outcome(value_reply(key, value), key) == Ok::<Option<Seq<u8>>, MemcacheError>(
            Some(value),
        ),
{
    word_line_end();
    let line = lit("VALUE") + lit(" ") + key + lit(" ") + decimal(0) + lit(" ") + decimal(
        value.len(),
    );
    let end = lit("END") + lit("\r\n");
    let rest = value + lit("\r\n") + end;
    let b = value_reply(key, value);
    lemma_value_header_is_read(key, value.len());
    assert(b =~= line + lit("\r\n") + rest);
    lemma_answer_line_is_read(line, rest);
    lemma_words_of_success();
    lemma_answer_word_is_read(lit("END"));
    let n = value.len() as int;
    assert(rest.len() == n + 7) by {
        word_end();
    }
    assert(rest[n] == CR);
    assert(rest[n + 1] == LF);
    assert(rest.skip(n + 2) =~= end);
    assert(rest.take(n) =~= value);
    assert(word_outcome(end, lit("END")) == Ok::<(), MemcacheError>(()));
    assert(value_block(rest, value.len()) == Ok::<Seq<u8>, MemcacheError>(value));
}

/// What was stored comes back: after a `set` of `value` under `key`, a
/// `get` of `key` gives `value`, byte for byte.
pub proof fn lemma_set_then_get(cache: Cache, key: Seq<u8>, value: Seq<u8>, expiration: u32)
    requires
        is_word(key),
        value.len() <= usize::MAX,
    ensures
        ({
            let (stored, answer) = serve(
                cache,
                store_request(StoreCommand::SetValue, key, value, expiration, None),
            );
            let (_, got) = serve(stored, get_request(key));
            &&& word_outcome(answer, lit("STORED")) == Ok::<(), MemcacheError>(())
            &&& get_outcome(got, key) == Ok::<Option<Seq<u8>>, MemcacheError>(Some(value))
        }),
{
    lemma_store_is_read(StoreCommand::SetValue, key, value, expiration, None);
    lemma_words_of_success();
    lemma_answer_word_is_read(lit("STORED"));
    lemma_get_is_read(key);
    lemma_value_is_read(key, value);
}

/// An `add` stores under a key that is absent, and is refused as not
/// stored for one that is present; a `replace` does the reverse.
pub proof fn lemma_add_and_replace(cache: Cache, key: Seq<u8>, value: Seq<u8>, expiration: u32)
    requires
        is_word(key),
        value.len() <= usize::MAX,
    ensures
        ({
            let (added, add) = serve(
                cache,
                store_request(StoreCommand::Add, key, value, expiration, None),
            );
            let (replaced, replace) = serve(
                cache,
                store_request(StoreCommand::Replace, key, value, expiration, None),
            );
            let not_stored = Err::<(), MemcacheError>(
                MemcacheError::CommandError(CommandError::ItemNotStored),
            );
            if cache.items.contains_key(key) {
                &&& word_outcome(add, lit("STORED")) == not_stored
                &&& added == cache
                &&& word_outcome(replace, lit("STORED")) == Ok::<(), MemcacheError>(())
                &&& get_outcome(serve(replaced, get_request(key)).1, key) == Ok::<
                    Option<Seq<u8>>,
                    MemcacheError,
                >(Some(value))
            } else {
                &&& word_outcome(add, lit("STORED")) == Ok::<(), MemcacheError>(())
                &&& get_outcome(serve(added, get_request(key)).1, key) == Ok::<
                    Option<Seq<u8>>,
                    MemcacheError,
                >(Some(value))
                &&& word_outcome(replace, lit("STORED")) == not_stored
                &&& replaced == cache
            }
        }),
{
    lemma_store_is_read(StoreCommand::Add, key, value, expiration, None);
    lemma_store_is_read(StoreCommand::Replace, key, value, expiration, None);
    lemma_words_of_success();
    lemma_words_of_failure();
    lemma_answer_word_is_read(lit("STORED"));
    lemma_answer_word_is_read(lit("NOT_STORED"));
    lemma_get_is_read(key);
    lemma_value_is_read(key, value);
}

/// A `delete` of a key that is absent gives `false`. A `delete` of a
/// key that is present gives `true`, and a `get` after it gives nothing.
pub proof fn lemma_delete(cache: Cache, key: Seq<u8>)
    requires
        is_word(key),
    ensures
        ({
            let (after, answer) = serve(cache, delete_request(key));
            let (_, got) = serve(after, get_request(key));
            &&& found_outcome(answer, lit("DELETED")) == Ok::<bool, MemcacheError>(
                cache.items.contains_key(key),
            )
            &&& get_outcome(got, key) == Ok::<Option<Seq<u8>>, MemcacheError>(None)
        }),
{
    lemma_delete_is_read(key);
    lemma_get_is_read(key);
    lemma_words_of_success();
    lemma_words_of_failure();
    lemma_answer_word_is_read(lit("DELETED"));
    lemma_answer_word_is_read(lit("NOT_FOUND"));
    lemma_answer_word_is_read(lit("END"));
}

/// A `touch` of a key that is absent gives `false`. A `touch` of a key
/// that is present gives `true` and leaves the cache as it was, so that a
/// `get` after it gives the value that was there.
pub proof fn lemma_touch(cache: Cache, key: Seq<u8>, expiration: u32)
    requires
        is_word(key),
        cache.items.contains_key(key) ==> cache.items[key].value.len() <= usize::MAX,
    ensures
        ({
            let (after, answer) = serve(cache, touch_request(key, expiration));
            let (_, got) = serve(after, get_request(key));
            &&& found_outcome(answer, lit("TOUCHED")) == Ok::<bool, MemcacheError>(
                cache.items.contains_key(key),
            )
            &&& after == cache
            &&& cache.items.contains_key(key) ==> get_outcome(got, key) == Ok::<
                Option<Seq<u8>>,
                MemcacheError,
            >(Some(cache.items[key].value))
        }),
{
    lemma_touch_is_read(key, expiration);
    lemma_get_is_read(key);
    lemma_words_of_success();
    lemma_words_of_failure();
    lemma_answer_word_is_read(lit("TOUCHED"));
    lemma_answer_word_is_read(lit("NOT_FOUND"));
    if cache.items.contains_key(key) {
        lemma_value_is_read(key, cache.items[key].value);
    }
}

/// A compare-and-swap with a token that is not the one of the stored
/// value, or for a key that is absent, gives `false` and changes nothing.
pub proof fn lemma_cas_with_stale_token(
    cache: Cache,
    key: Seq<u8>,
    value: Seq<u8>,
    expiration: u32,
    token: u64,
)
    requires
        is_word(key),
        value.len() <= usize::MAX,
        !cache.items.contains_key(key) || cache.items[key].cas != token,
    ensures
        ({
            let (after, answer) = serve(
                cache,
                store_request(StoreCommand::Cas, key, value, expiration, Some(token)),
            );
            &&& cas_outcome(answer) == Ok::<bool, MemcacheError>(false)
            &&& after == cache
        }),
{
    lemma_store_is_read(StoreCommand::Cas, key, value, expiration, Some(token));
    lemma_words_of_failure();
    lemma_answer_word_is_read(lit("EXISTS"));
    lemma_answer_word_is_read(lit("NOT_FOUND"));
}

/// A compare-and-swap with the token of the stored value gives `true`,
/// and the new value is what a `get` gives after it. The same token is
/// stale from then on: a second compare-and-swap with it gives `false`.
pub proof fn lemma_cas_with_valid_token(
    cache: Cache,
    key: Seq<u8>,
    value: Seq<u8>,
    expiration: u32,
    again: Seq<u8>,
)
    requires
        is_word(key),
        value.len() <= usize::MAX,
        again.len() <= usize::MAX,
        cache.items.contains_key(key),
    ensures
        ({
            let token = cache.items[key].cas;
            let (swapped, first) = serve(
                cache,
                store_request(StoreCommand::Cas, key, value, expiration, Some(token)),
            );
            let (_, got) = serve(swapped, get_request(key));
            let (last, second) = serve(
                swapped,
                store_request(StoreCommand::Cas, key, again, expiration, Some(token)),
            );
            &&& cas_outcome(first) == Ok::<bool, MemcacheError>(true)
            &&& get_outcome(got, key) == Ok::<Option<Seq<u8>>, MemcacheError>(Some(value))
            &&& cas_outcome(second) == Ok::<bool, MemcacheError>(false)
            &&& last == swapped
        }),
{
    let token = cache.items[key].cas;
    lemma_store_is_read(StoreCommand::Cas, key, value, expiration, Some(token));
    lemma_words_of_success();
    lemma_answer_word_is_read(lit("STORED"));
    lemma_get_is_read(key);
    lemma_value_is_read(key, value);
    let swapped = serve(
        cache,
        store_request(StoreCommand::Cas, key, value, expiration, Some(token)),
    ).0;
    assert(swapped.items[key].cas != token);
    lemma_cas_with_stale_token(swapped, key, again, expiration, token);
}

/// A flush empties the cache: no key is found after it.
pub proof fn lemma_flush(cache: Cache, key: Seq<u8>)
    requires
        is_word(key),
    ensures
        ({
            let (after, answer) = serve(cache, flush_request());
            let (_, got) = serve(after, get_request(key));
            &&& word_outcome(answer, lit("OK")) == Ok::<(), MemcacheError>(())
            &&& get_outcome(got, key) == Ok::<Option<Seq<u8>>, MemcacheError>(None)
        }),
{
    lemma_flush_is_read();
    lemma_get_is_read(key);
    lemma_words_of_success();
    lemma_answer_word_is_read(lit("OK"));
    lemma_answer_word_is_read(lit("END"));
}

/// A flush with a delay of zero empties the cache as a plain flush
/// does. A flush with any other delay is accepted and leaves the cache
/// as it is for the time being: a `get` right after it gives the value
/// that was there.
pub proof fn lemma_flush_with_delay(cache: Cache, key: Seq<u8>, delay: u32)
    requires
        is_word(key),
        cache.items.contains_key(key) ==> cache.items[key].value.len() <= usize::MAX,
    ensures
        ({
            let (after, answer) = serve(cache, flush_with_delay_request(delay));
            let (_, got) = serve(after, get_request(key));
            &&& word_outcome(answer, lit("OK")) == Ok::<(), MemcacheError>(())
            &&& after == if delay == 0 {
                Cache { items: Map::empty() }
            } else {
                cache
            }
            &&& delay != 0 && cache.items.contains_key(key) ==> get_outcome(got, key) == Ok::<
                Option<Seq<u8>>,
                MemcacheError,
            >(Some(cache.items[key].value))
        }),
{
    lemma_flush_with_delay_is_read(delay);
    lemma_get_is_read(key);
    lemma_words_of_success();
    lemma_answer_word_is_read(lit("OK"));
    if cache.items.contains_key(key) {
        lemma_value_is_read(key, cache.items[key].value);
    }
}

/// The lines that carry a table of statistics: one for each entry, in
/// their order, and the line that ends them.
pub open spec fn stats_lines(entries: Seq<(Seq<char>, Seq<char>)>) -> Seq<u8>
    decreases entries.len(),
{
    if entries.len() == 0 {
        lit("END") + lit("\r\n")
    } else {
        lit("STAT") + lit(" ") + encode_utf8(entries[0].0) + lit(" ") + encode_utf8(entries[0].1)
            + lit("\r\n") + stats_lines(entries.drop_first())
    }
}

/// Whether an entry can travel in one line: its name is one word, and
/// its value holds no line feed.
pub open spec fn stat_fits(entry: (Seq<char>, Seq<char>)) -> bool {
    is_word(encode_utf8(entry.0)) && is_line(encode_utf8(entry.1))
}

/// A line of statistics is read as the entry that was written.
proof fn lemma_stat_line_is_read(name: Seq<char>, value: Seq<char>)
    requires
        stat_fits((name, value)),
    ensures
        ({
            let line = lit("STAT") + lit(" ") + encode_utf8(name) + lit(" ") + encode_utf8(value);
            &&& is_line(line)
            &&& line_error(line) is None
            &&& line != lit("END")
            &&& stat_entry(line) == Ok::<(Seq<char>, Seq<char>), MemcacheError>((name, value))
        }),
{
    word_stat();
    word_space();
    word_end();
    let n = encode_utf8(name);
    let v = encode_utf8(value);
    let rest = n + lit(" ") + v;
    let line = lit("STAT") + lit(" ") + n + lit(" ") + v;
    assert(line =~= lit("STAT") + lit(" ") + rest);
    assert(is_word(lit("STAT")));
    lemma_word_is_read(lit("STAT"), rest);
    lemma_word_is_read(n, v);
    assert(is_line(lit(" ")));
    assert(is_line(n));
    assert(is_line(lit("STAT")));
    lemma_line_join(n, lit(" "));
    lemma_line_join(n + lit(" "), v);
    lemma_line_join(lit("STAT"), lit(" "));
    lemma_line_join(lit("STAT") + lit(" "), rest);
    encode_utf8_valid_utf8(name);
    encode_utf8_decode_utf8(name);
    encode_utf8_valid_utf8(value);
    encode_utf8_decode_utf8(value);
    assert(line.len() >= 5);
    assert(line[0] == 0x53 && line[1] == 0x54);
    assert(line_error(line) is None) by {
        word_error();
        word_client_error();
        word_server_error();
        word_not_found();
        word_exists();
        word_not_stored();
        assert(lit("ERROR")[0] != line[0]);
        assert(lit("NOT_FOUND")[0] != line[0]);
        assert(lit("EXISTS")[0] != line[0]);
        assert(lit("NOT_STORED")[0] != line[0]);
        if lit("CLIENT_ERROR").is_prefix_of(line) {
            assert(line.subrange(0, lit("CLIENT_ERROR").len() as int)[0] == lit(
                "CLIENT_ERROR",
            )[0]);
        }
        if lit("SERVER_ERROR").is_prefix_of(line) {
            assert(line.subrange(0, lit("SERVER_ERROR").len() as int)[1] == lit(
                "SERVER_ERROR",
            )[1]);
        }
    }
    assert(lit("END")[0] != line[0]);
}

/// Statistics are read in full, however many there are: the lines for
/// any number of entries, ended as they should be, are read as the table
/// of just those entries, and what follows the end is left alone.
pub proof fn lemma_stats_are_read(
    entries: Seq<(Seq<char>, Seq<char>)>,
    seen: Map<Seq<char>, Seq<char>>,
    rest: Seq<u8>,
)
    requires
        forall|i: int| 0 <= i < entries.len() ==> stat_fits(#[trigger] entries[i]),
    ensures
        stats_outcome(stats_lines(entries) + rest, seen) == Ok::<
            Map<Seq<char>, Seq<char>>,
            MemcacheError,
        >(table_of(entries, seen)),
    decreases entries.len(),
{
    let b = stats_lines(entries) + rest;
    if entries.len() == 0 {
        lemma_words_of_success();
        assert(b =~= lit("END") + lit("\r\n") + rest);
        lemma_answer_line_is_read(lit("END"), rest);
    } else {
        let name = entries[0].0;
        let value = entries[0].1;
        let line = lit("STAT") + lit(" ") + encode_utf8(name) + lit(" ") + encode_utf8(value);
        let later = stats_lines(entries.drop_first()) + rest;
        assert(stat_fits(entries[0]));
        lemma_stat_line_is_read(name, value);
        assert(b =~= line + lit("\r\n") + later);
        lemma_answer_line_is_read(line, later);
        assert forall|i: int| 0 <= i < entries.drop_first().len() implies stat_fits(
            #[trigger] entries.drop_first()[i],
        ) by {
            assert(entries.drop_first()[i] == entries[i + 1]);
        }
        lemma_stats_are_read(entries.drop_first(), seen.insert(name, value), rest);
    }
}

} // verus!
