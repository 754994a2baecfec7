use memcache::protocol::ascii::{
    check_line, parse_stat_entry, parse_value_header, read_status_line, StoreCommand,
};
use memcache::{
    AsciiProtocol, ClientError, CommandError, MemcacheError, ParseError, ServerError,
    TransportError,
};

const EOF_ERROR: MemcacheError = MemcacheError::IOError(TransportError::UnexpectedEof);
const BAD: MemcacheError = MemcacheError::ServerError(ServerError::BadResponse);

#[test]
fn plain_requests_are_one_line() {
    let protocol = AsciiProtocol {};
    assert_eq!(protocol.version(), b"version\r\n".to_vec());
    assert_eq!(protocol.flush(), b"flush_all\r\n".to_vec());
    assert_eq!(protocol.stats(), b"stats\r\n".to_vec());
    assert_eq!(protocol.flush_with_delay(0), b"flush_all 0\r\n".to_vec());
    assert_eq!(protocol.flush_with_delay(3), b"flush_all 3\r\n".to_vec());
    assert_eq!(protocol.flush_with_delay(u32::MAX), b"flush_all 4294967295\r\n".to_vec());
}

#[test]
fn keyed_requests_name_the_key() {
    let protocol = AsciiProtocol {};
    assert_eq!(protocol.get("ascii_foo"), Ok(b"get ascii_foo\r\n".to_vec()));
    assert_eq!(protocol.delete("ascii_pend"), Ok(b"delete ascii_pend\r\n".to_vec()));
    assert_eq!(protocol.touch("ascii_foo", 1000), Ok(b"touch ascii_foo 1000\r\n".to_vec()));
}

#[test]
fn storing_requests_announce_the_length_of_the_value() {
    let protocol = AsciiProtocol {};
    assert_eq!(protocol.set("ascii_foo", b"bar", 0), Ok(b"set ascii_foo 0 0 3\r\nbar\r\n".to_vec()));
    assert_eq!(protocol.add("foo", b"baz", 10), Ok(b"add foo 0 10 3\r\nbaz\r\n".to_vec()));
    assert_eq!(
        protocol.replace("foo", b"0123456789ab", 100000000),
        Ok(b"replace foo 0 100000000 12\r\n0123456789ab\r\n".to_vec())
    );
    assert_eq!(protocol.set("k", b"", 0), Ok(b"set k 0 0 0\r\n\r\n".to_vec()));
    // the value is sent as it is, line ends and all
    assert_eq!(protocol.set("k", b"a\r\nb", 0), Ok(b"set k 0 0 4\r\na\r\nb\r\n".to_vec()));
}

#[test]
fn cas_request_carries_the_token_last() {
    let protocol = AsciiProtocol {};
    assert_eq!(
        protocol.cas("foo", b"bar2", 10, 42),
        Ok(b"cas foo 0 10 4 42\r\nbar2\r\n".to_vec())
    );
    assert_eq!(
        protocol.cas("foo", b"x", 0, u64::MAX),
        Ok(b"cas foo 0 0 1 18446744073709551615\r\nx\r\n".to_vec())
    );
    assert_eq!(protocol.cas("foo", b"x", 0, 0), Ok(b"cas foo 0 0 1 0\r\nx\r\n".to_vec()));
}

#[test]
fn store_command_names() {
    assert_eq!(StoreCommand::Cas.name(), "cas");
    assert_eq!(StoreCommand::SetValue.name(), "set");
    assert_eq!(StoreCommand::Add.name(), "add");
    assert_eq!(StoreCommand::Replace.name(), "replace");
}

#[test]
fn auth_sets_the_credentials_under_the_key_auth() {
    let protocol = AsciiProtocol {};
    assert_eq!(protocol.auth("user", "secret"), b"set auth 0 0 11\r\nuser secret\r\n".to_vec());
    assert_eq!(protocol.auth("", ""), b"set auth 0 0 1\r\n \r\n".to_vec());
}

#[test]
fn long_keys_are_refused() {
    let protocol = AsciiProtocol {};
    let long = "k".repeat(251);
    let refused = Err(MemcacheError::ClientError(ClientError::KeyTooLong));
    assert_eq!(protocol.get(&long), refused);
    assert_eq!(protocol.delete(&long), refused);
    assert_eq!(protocol.touch(&long, 1), refused);
    assert_eq!(protocol.set(&long, b"v", 1), refused);
    assert_eq!(protocol.add(&long, b"v", 1), refused);
    assert_eq!(protocol.replace(&long, b"v", 1), refused);
    assert_eq!(protocol.cas(&long, b"v", 1, 9), refused);
    assert!(protocol.get(&"k".repeat(250)).is_ok());
}

#[test]
fn lines_that_report_a_failure() {
    assert_eq!(check_line(b"ERROR"), Some(MemcacheError::CommandError(CommandError::UnknownCommand)));
    assert_eq!(
        check_line(b"CLIENT_ERROR bad data chunk"),
        Some(MemcacheError::ClientError(ClientError::Error))
    );
    assert_eq!(
        check_line(b"SERVER_ERROR out of memory storing object"),
        Some(MemcacheError::ServerError(ServerError::Error))
    );
    assert_eq!(check_line(b"NOT_FOUND"), Some(MemcacheError::CommandError(CommandError::KeyNotFound)));
    assert_eq!(check_line(b"EXISTS"), Some(MemcacheError::CommandError(CommandError::KeyExists)));
    assert_eq!(
        check_line(b"NOT_STORED"),
        Some(MemcacheError::CommandError(CommandError::ItemNotStored))
    );
    for line in [&b"STORED"[..], b"OK", b"END", b"DELETED", b"TOUCHED", b"VALUE k 0 1", b"", b"ERRORS", b"NOT_FOUND "] {
        assert_eq!(check_line(line), None);
    }
    assert_eq!(
        read_status_line(b"NOT_FOUND\r\n").err(),
        Some(MemcacheError::CommandError(CommandError::KeyNotFound))
    );
    assert_eq!(read_status_line(b"STORED\r\nmore").unwrap(), (&b"STORED"[..], 8));
}

#[test]
fn store_answers() {
    let protocol = AsciiProtocol {};
    assert_eq!(protocol.parse_store_response(b"STORED\r\n"), Ok(()));
    assert_eq!(
        protocol.parse_store_response(b"NOT_STORED\r\n"),
        Err(MemcacheError::CommandError(CommandError::ItemNotStored))
    );
    assert_eq!(
        protocol.parse_store_response(b"EXISTS\r\n"),
        Err(MemcacheError::CommandError(CommandError::KeyExists))
    );
    assert_eq!(
        protocol.parse_store_response(b"SERVER_ERROR object too large for cache\r\n"),
        Err(MemcacheError::ServerError(ServerError::Error))
    );
    assert_eq!(protocol.parse_store_response(b"OK\r\n"), Err(BAD));
    assert_eq!(protocol.parse_store_response(b"STORED\n"), Err(BAD));
    assert_eq!(protocol.parse_store_response(b"STORED"), Err(EOF_ERROR));
    assert_eq!(protocol.parse_auth_response(b"STORED\r\n"), Ok(()));
    assert_eq!(
        protocol.parse_auth_response(b"CLIENT_ERROR authentication failure\r\n"),
        Err(MemcacheError::ClientError(ClientError::Error))
    );
}

#[test]
fn flush_answers() {
    let protocol = AsciiProtocol {};
    assert_eq!(protocol.parse_flush_response(b"OK\r\n"), Ok(()));
    assert_eq!(protocol.parse_flush_response(b"STORED\r\n"), Err(BAD));
    assert_eq!(
        protocol.parse_flush_response(b"ERROR\r\n"),
        Err(MemcacheError::CommandError(CommandError::UnknownCommand))
    );
}

#[test]
fn cas_answers() {
    let protocol = AsciiProtocol {};
    assert_eq!(protocol.parse_cas_response(b"STORED\r\n"), Ok(true));
    assert_eq!(protocol.parse_cas_response(b"EXISTS\r\n"), Ok(false));
    assert_eq!(protocol.parse_cas_response(b"NOT_FOUND\r\n"), Ok(false));
    assert_eq!(
        protocol.parse_cas_response(b"NOT_STORED\r\n"),
        Err(MemcacheError::CommandError(CommandError::ItemNotStored))
    );
    assert_eq!(protocol.parse_cas_response(b"TOUCHED\r\n"), Err(BAD));
}

#[test]
fn delete_and_touch_answers() {
    let protocol = AsciiProtocol {};
    assert_eq!(protocol.parse_delete_response(b"DELETED\r\n"), Ok(true));
    assert_eq!(protocol.parse_delete_response(b"NOT_FOUND\r\n"), Ok(false));
    assert_eq!(protocol.parse_delete_response(b"TOUCHED\r\n"), Err(BAD));
    assert_eq!(protocol.parse_touch_response(b"TOUCHED\r\n"), Ok(true));
    assert_eq!(protocol.parse_touch_response(b"NOT_FOUND\r\n"), Ok(false));
    assert_eq!(protocol.parse_touch_response(b"DELETED\r\n"), Err(BAD));
    assert_eq!(protocol.parse_touch_response(b"TOUCH"), Err(EOF_ERROR));
}

#[test]
fn version_answers() {
    let protocol = AsciiProtocol {};
    assert_eq!(protocol.parse_version_response(b"VERSION 1.6.21\r\n"), Ok(String::from("1.6.21")));
    assert_eq!(protocol.parse_version_response(b"VERSION \r\n"), Ok(String::new()));
    assert_eq!(protocol.parse_version_response(b"VERSION\r\n"), Err(BAD));
    assert_eq!(protocol.parse_version_response(b"1.6.21\r\n"), Err(BAD));
    assert_eq!(
        protocol.parse_version_response(b"VERSION \xff\r\n"),
        Err(MemcacheError::ParseError(ParseError::Utf8))
    );
    assert_eq!(protocol.parse_version_response(b"VERSION 1.6"), Err(EOF_ERROR));
}

#[test]
fn value_header_has_four_words() {
    assert_eq!(parse_value_header(b"VALUE foo 0 3"), Ok((&b"foo"[..], 0, 3)));
    assert_eq!(parse_value_header(b"VALUE foo 4294967295 0"), Ok((&b"foo"[..], u32::MAX, 0)));
    assert_eq!(parse_value_header(b"VALUE foo 0"), Err(BAD));
    assert_eq!(parse_value_header(b"VALUE foo"), Err(BAD));
    assert_eq!(parse_value_header(b"VALUE"), Err(BAD));
    assert_eq!(parse_value_header(b"VALUES foo 0 3"), Err(BAD));
    assert_eq!(parse_value_header(b"VALUE foo 0 3 17"), Err(BAD));
    assert_eq!(
        parse_value_header(b"VALUE foo x 3"),
        Err(MemcacheError::ParseError(ParseError::Number))
    );
    assert_eq!(
        parse_value_header(b"VALUE foo 0 -3"),
        Err(MemcacheError::ParseError(ParseError::Number))
    );
    assert_eq!(
        parse_value_header(b"VALUE foo 4294967296 3"),
        Err(MemcacheError::ParseError(ParseError::Number))
    );
    assert_eq!(
        parse_value_header(b"VALUE foo 0 99999999999999999999999"),
        Err(MemcacheError::ParseError(ParseError::Number))
    );
}

#[test]
fn get_answers() {
    let protocol = AsciiProtocol {};
    assert_eq!(protocol.parse_get_response(b"END\r\n", "foo"), Ok(None));
    assert_eq!(
        protocol.parse_get_response(b"VALUE foo 0 3\r\nbar\r\nEND\r\n", "foo"),
        Ok(Some(b"bar".to_vec()))
    );
    assert_eq!(
        protocol.parse_get_response(b"VALUE foo 5 0\r\n\r\nEND\r\n", "foo"),
        Ok(Some(Vec::new()))
    );
    // the value is cut by its length, not by line ends
    assert_eq!(
        protocol.parse_get_response(b"VALUE foo 0 10\r\nEND\r\nEND\r\n\r\nEND\r\n", "foo"),
        Ok(Some(b"END\r\nEND\r\n".to_vec()))
    );
}

#[test]
fn get_answers_that_are_refused() {
    let protocol = AsciiProtocol {};
    assert_eq!(protocol.parse_get_response(b"VALUE other 0 3\r\nbar\r\nEND\r\n", "foo"), Err(BAD));
    assert_eq!(protocol.parse_get_response(b"VALUE foo 0 3\r\nbarEND\r\n", "foo"), Err(BAD));
    assert_eq!(protocol.parse_get_response(b"VALUE foo 0 3\r\nbar\r\nSTORED\r\n", "foo"), Err(BAD));
    assert_eq!(
        protocol.parse_get_response(b"VALUE foo 0 3\r\nbar\r\nVALUE foo 0 1\r\nx\r\nEND\r\n", "foo"),
        Err(BAD)
    );
    assert_eq!(protocol.parse_get_response(b"STORED\r\n", "foo"), Err(BAD));
    assert_eq!(
        protocol.parse_get_response(b"SERVER_ERROR out of memory\r\n", "foo"),
        Err(MemcacheError::ServerError(ServerError::Error))
    );
}

#[test]
fn get_answer_is_an_early_end_until_the_last_byte() {
    let protocol = AsciiProtocol {};
    let whole = b"VALUE foo 0 3\r\nbar\r\nEND\r\n";
    for cut in 0..whole.len() {
        assert_eq!(protocol.parse_get_response(&whole[..cut], "foo"), Err(EOF_ERROR));
    }
    assert_eq!(protocol.parse_get_response(whole, "foo"), Ok(Some(b"bar".to_vec())));
}

#[test]
fn stat_entry_is_a_name_and_the_rest_of_the_line() {
    assert_eq!(parse_stat_entry(b"STAT pid 4242"), Ok((String::from("pid"), String::from("4242"))));
    assert_eq!(
        parse_stat_entry(b"STAT version 1.6.21 beta"),
        Ok((String::from("version"), String::from("1.6.21 beta")))
    );
    assert_eq!(parse_stat_entry(b"STAT empty "), Ok((String::from("empty"), String::new())));
    assert_eq!(parse_stat_entry(b"STAT pid"), Err(BAD));
    assert_eq!(parse_stat_entry(b"STAT"), Err(BAD));
    assert_eq!(parse_stat_entry(b"STATS pid 1"), Err(BAD));
    assert_eq!(
        parse_stat_entry(b"STAT pid \xff"),
        Err(MemcacheError::ParseError(ParseError::Utf8))
    );
    assert_eq!(
        parse_stat_entry(b"STAT \xc3 1"),
        Err(MemcacheError::ParseError(ParseError::Utf8))
    );
}

#[test]
fn stats_answers_for_any_number_of_entries() {
    let protocol = AsciiProtocol {};
    assert_eq!(protocol.parse_stats_response(b"END\r\n").unwrap().len(), 0);
    for count in [1usize, 2, 9, 64] {
        let mut bytes = Vec::new();
        for i in 0..count {
            bytes.extend_from_slice(format!("STAT name{} value {}\r\n", i, i * 2).as_bytes());
        }
        bytes.extend_from_slice(b"END\r\n");
        bytes.extend_from_slice(b"STAT late entry\r\n");
        let stats = protocol.parse_stats_response(&bytes).unwrap();
        assert_eq!(stats.len(), count);
        for i in 0..count {
            assert_eq!(stats.get(&format!("name{}", i)), Some(&format!("value {}", i * 2)));
        }
        assert_eq!(stats.get("late"), None);
    }
}

#[test]
fn stats_answers_that_fail() {
    let protocol = AsciiProtocol {};
    assert_eq!(protocol.parse_stats_response(b"STAT pid 1\r\n").err(), Some(EOF_ERROR));
    assert_eq!(protocol.parse_stats_response(b"STAT pid 1\r\nEND").err(), Some(EOF_ERROR));
    assert_eq!(protocol.parse_stats_response(b"STAT pid 1\r\nOK\r\n").err(), Some(BAD));
    assert_eq!(
        protocol.parse_stats_response(b"STAT pid 1\r\nERROR\r\n").err(),
        Some(MemcacheError::CommandError(CommandError::UnknownCommand))
    );
}
