use memcache::protocol::binary_packet::{
    parse_cas_response, parse_delete_response, parse_done_response, parse_get_response,
    parse_response, parse_start_auth_response, parse_stats_response, parse_touch_response,
    parse_version_response, Magic, Opcode, PacketHeader, Response, HEADER_LEN,
};
use memcache::{CommandError, MemcacheError, ParseError, ServerError, TransportError};

fn response(status: u16, extras: &[u8], key: &[u8], value: &[u8]) -> Vec<u8> {
    let header = PacketHeader {
        magic: 0x81,
        opcode: 0,
        key_length: key.len() as u16,
        extras_length: extras.len() as u8,
        data_type: 0,
        vbucket_id_or_status: status,
        total_body_length: (extras.len() + key.len() + value.len()) as u32,
        opaque: 0,
        cas: 0,
    };
    let mut bytes = Vec::new();
    header.write(&mut bytes);
    bytes.extend_from_slice(extras);
    bytes.extend_from_slice(key);
    bytes.extend_from_slice(value);
    bytes
}

#[test]
fn header_is_written_big_endian_in_wire_order() {
    let header = PacketHeader {
        magic: 0x80,
        opcode: 0x1c,
        key_length: 0x0102,
        extras_length: 0x04,
        data_type: 0x00,
        vbucket_id_or_status: 0x0506,
        total_body_length: 0x0708090a,
        opaque: 0x0b0c0d0e,
        cas: 0x1112131415161718,
    };
    let mut bytes = vec![0xee];
    header.write(&mut bytes);
    assert_eq!(
        bytes,
        vec![
            0xee, 0x80, 0x1c, 0x01, 0x02, 0x04, 0x00, 0x05, 0x06, 0x07, 0x08, 0x09, 0x0a, 0x0b,
            0x0c, 0x0d, 0x0e, 0x11, 0x12, 0x13, 0x14, 0x15, 0x16, 0x17, 0x18
        ]
    );
    assert_eq!(bytes.len() - 1, HEADER_LEN);
}

#[test]
fn header_is_read_back_as_written() {
    let header = PacketHeader {
        magic: 0x81,
        opcode: 0x0b,
        key_length: 0xfffe,
        extras_length: 0xfd,
        data_type: 0x01,
        vbucket_id_or_status: 0x8182,
        total_body_length: 0xfffffffe,
        opaque: 0x80000001,
        cas: 0xfedcba9876543210,
    };
    let mut bytes = Vec::new();
    header.write(&mut bytes);
    bytes.extend_from_slice(b"trailing");
    assert_eq!(PacketHeader::read(&bytes), Ok(header));
}

#[test]
fn header_read_decodes_each_field_from_its_offset() {
    let bytes = [
        0x81, 0x01, 0x00, 0x03, 0x08, 0x00, 0x00, 0x02, 0x00, 0x00, 0x01, 0x00, 0xde, 0xad, 0xbe,
        0xef, 0x00, 0x00, 0x00, 0x00, 0x00, 0x00, 0x01, 0x00,
    ];
    let header = PacketHeader::read(&bytes).unwrap();
    assert_eq!(header.magic, 0x81);
    assert_eq!(header.opcode, 1);
    assert_eq!(header.key_length, 3);
    assert_eq!(header.extras_length, 8);
    assert_eq!(header.data_type, 0);
    assert_eq!(header.vbucket_id_or_status, 2);
    assert_eq!(header.total_body_length, 256);
    assert_eq!(header.opaque, 0xdeadbeef);
    assert_eq!(header.cas, 256);
}

#[test]
fn default_header_is_all_zero() {
    let header = PacketHeader::default();
    let mut bytes = Vec::new();
    header.write(&mut bytes);
    assert_eq!(bytes, vec![0u8; 24]);
}

#[test]
fn bad_magic_is_a_server_error_even_on_one_byte() {
    assert_eq!(
        PacketHeader::read(&[0x80]),
        Err(MemcacheError::ServerError(ServerError::BadMagic(0x80)))
    );
    let mut bytes = response(0, &[], b"", b"value");
    bytes[0] = 0x42;
    assert_eq!(
        parse_response(&bytes).err(),
        Some(MemcacheError::ServerError(ServerError::BadMagic(0x42)))
    );
    assert_eq!(
        parse_get_response(&bytes),
        Err(MemcacheError::ServerError(ServerError::BadMagic(0x42)))
    );
    assert_eq!(
        parse_stats_response(&bytes).err(),
        Some(MemcacheError::ServerError(ServerError::BadMagic(0x42)))
    );
}

#[test]
fn short_header_is_an_early_end() {
    let eof = Err(MemcacheError::IOError(TransportError::UnexpectedEof));
    assert_eq!(PacketHeader::read(&[]), eof);
    assert_eq!(PacketHeader::read(&[0x81]), eof);
    assert_eq!(PacketHeader::read(&[0x81; 23]), eof);
    assert!(PacketHeader::read(&[0x81; 24]).is_ok());
}

#[test]
fn opcodes_and_magic_have_their_wire_values() {
    let table = [
        (Opcode::Get, 0x00),
        (Opcode::SetValue, 0x01),
        (Opcode::Add, 0x02),
        (Opcode::Replace, 0x03),
        (Opcode::Delete, 0x04),
        (Opcode::Increment, 0x05),
        (Opcode::Decrement, 0x06),
        (Opcode::Flush, 0x08),
        (Opcode::Noop, 0x0a),
        (Opcode::Version, 0x0b),
        (Opcode::GetKQ, 0x0d),
        (Opcode::Append, 0x0e),
        (Opcode::Prepend, 0x0f),
        (Opcode::Stat, 0x10),
        (Opcode::Touch, 0x1c),
        (Opcode::StartAuth, 0x21),
    ];
    for (opcode, byte) in table {
        assert_eq!(opcode.code(), byte);
    }
    assert_eq!(Magic::Request.code(), 0x80);
    assert_eq!(Magic::Response.code(), 0x81);
}

#[test]
fn response_is_cut_by_the_lengths_of_its_header() {
    let mut bytes = response(0, &[0, 0, 0, 7], b"key", b"value");
    bytes.extend_from_slice(b"more");
    let (parsed, used) = parse_response(&bytes).unwrap();
    assert_eq!(used, 24 + 4 + 3 + 5);
    assert_eq!(parsed.key, b"key".to_vec());
    assert_eq!(parsed.value, b"value".to_vec());
    assert_eq!(parsed.header.total_body_length, 12);
}

#[test]
fn response_with_empty_body() {
    let bytes = response(0, &[], b"", b"");
    let (parsed, used) = parse_response(&bytes).unwrap();
    assert_eq!(used, 24);
    assert!(parsed.key.is_empty());
    assert!(parsed.value.is_empty());
}

#[test]
fn truncated_body_is_an_early_end_and_gives_no_partial_result() {
    let bytes = response(0, &[1, 2, 3, 4], b"key", b"value");
    for cut in 24..bytes.len() {
        assert_eq!(
            parse_response(&bytes[..cut]).err(),
            Some(MemcacheError::IOError(TransportError::UnexpectedEof))
        );
    }
    assert!(parse_response(&bytes).is_ok());
}

#[test]
fn body_shorter_than_extras_and_key_is_refused() {
    let mut bytes = response(0, &[0, 0, 0, 0], b"key", b"");
    // declare a body of 6 bytes although extras and key take 7
    bytes[11] = 6;
    assert_eq!(
        parse_response(&bytes).err(),
        Some(MemcacheError::ServerError(ServerError::BadResponse))
    );
    assert_eq!(
        parse_delete_response(&bytes),
        Err(MemcacheError::ServerError(ServerError::BadResponse))
    );
}

#[test]
fn err_passes_success_through_and_maps_each_status() {
    let ok = Response {
        header: PacketHeader { magic: 0x81, ..PacketHeader::default() },
        key: b"k".to_vec(),
        value: b"v".to_vec(),
    };
    let passed = ok.err().unwrap();
    assert_eq!(passed.key, b"k".to_vec());
    assert_eq!(passed.value, b"v".to_vec());

    let table = [
        (0x01, CommandError::KeyNotFound),
        (0x02, CommandError::KeyExists),
        (0x03, CommandError::ValueTooLarge),
        (0x04, CommandError::InvalidArguments),
        (0x05, CommandError::ItemNotStored),
        (0x06, CommandError::IncrDecrOnNonNumericValue),
        (0x20, CommandError::AuthenticationRequired),
        (0x81, CommandError::UnknownCommand),
        (0x82, CommandError::OutOfMemory),
        (0x07, CommandError::Unknown(0x07)),
        (0xffff, CommandError::Unknown(0xffff)),
    ];
    for (status, error) in table {
        let failed = Response {
            header: PacketHeader {
                magic: 0x81,
                vbucket_id_or_status: status,
                ..PacketHeader::default()
            },
            key: Vec::new(),
            value: b"message".to_vec(),
        };
        assert_eq!(failed.err().err(), Some(MemcacheError::CommandError(error)));
    }
}

#[test]
fn get_response_gives_the_value_or_nothing() {
    let hit = response(0, &[0, 0, 0, 0], b"", b"bar");
    assert_eq!(parse_get_response(&hit), Ok(Some(b"bar".to_vec())));
    let empty = response(0, &[0, 0, 0, 0], b"", b"");
    assert_eq!(parse_get_response(&empty), Ok(Some(Vec::new())));
    let miss = response(0x01, &[], b"", b"Not found");
    assert_eq!(parse_get_response(&miss), Ok(None));
    let failed = response(0x82, &[], b"", b"Out of memory");
    assert_eq!(
        parse_get_response(&failed),
        Err(MemcacheError::CommandError(CommandError::OutOfMemory))
    );
}

#[test]
fn delete_and_touch_responses_tell_whether_the_key_was_there() {
    let ok = response(0, &[], b"", b"");
    let miss = response(0x01, &[], b"", b"Not found");
    let exists = response(0x02, &[], b"", b"");
    assert_eq!(parse_delete_response(&ok), Ok(true));
    assert_eq!(parse_delete_response(&miss), Ok(false));
    assert_eq!(
        parse_delete_response(&exists),
        Err(MemcacheError::CommandError(CommandError::KeyExists))
    );
    assert_eq!(parse_touch_response(&ok), Ok(true));
    assert_eq!(parse_touch_response(&miss), Ok(false));
    assert_eq!(
        parse_touch_response(&exists),
        Err(MemcacheError::CommandError(CommandError::KeyExists))
    );
}

#[test]
fn cas_response_is_false_for_a_stale_token_and_for_a_missing_key() {
    assert_eq!(parse_cas_response(&response(0, &[], b"", b"")), Ok(true));
    assert_eq!(parse_cas_response(&response(0x02, &[], b"", b"")), Ok(false));
    assert_eq!(parse_cas_response(&response(0x01, &[], b"", b"")), Ok(false));
    assert_eq!(
        parse_cas_response(&response(0x03, &[], b"", b"")),
        Err(MemcacheError::CommandError(CommandError::ValueTooLarge))
    );
    assert_eq!(
        parse_cas_response(&response(0x05, &[], b"", b"")),
        Err(MemcacheError::CommandError(CommandError::ItemNotStored))
    );
}

#[test]
fn version_response_is_read_as_text() {
    assert_eq!(
        parse_version_response(&response(0, &[], b"", b"1.6.21")),
        Ok(String::from("1.6.21"))
    );
    assert_eq!(
        parse_version_response(&response(0, &[], b"", "v\u{e9}rsion".as_bytes())),
        Ok(String::from("v\u{e9}rsion"))
    );
    assert_eq!(
        parse_version_response(&response(0, &[], b"", &[0x31, 0xff, 0x32])),
        Err(MemcacheError::ParseError(ParseError::Utf8))
    );
    assert_eq!(
        parse_version_response(&response(0x81, &[], b"", b"Unknown command")),
        Err(MemcacheError::CommandError(CommandError::UnknownCommand))
    );
}

#[test]
fn done_and_auth_responses() {
    assert_eq!(parse_done_response(&response(0, &[], b"", b"")), Ok(()));
    assert_eq!(
        parse_done_response(&response(0x02, &[], b"", b"")),
        Err(MemcacheError::CommandError(CommandError::KeyExists))
    );
    assert_eq!(parse_start_auth_response(&response(0, &[], b"", b"Authenticated")), Ok(true));
    assert_eq!(
        parse_start_auth_response(&response(0x20, &[], b"", b"Auth failure")),
        Err(MemcacheError::CommandError(CommandError::AuthenticationRequired))
    );
}

#[test]
fn stats_with_no_pairs() {
    let bytes = response(0, &[], b"", b"");
    let stats = parse_stats_response(&bytes).unwrap();
    assert_eq!(stats.len(), 0);
}

#[test]
fn stats_returns_every_pair_before_the_sentinel() {
    for count in [1usize, 2, 7, 40] {
        let mut bytes = Vec::new();
        for i in 0..count {
            let name = format!("stat{}", i);
            let value = format!("value {}", i * 3);
            bytes.extend_from_slice(&response(0, &[], name.as_bytes(), value.as_bytes()));
        }
        bytes.extend_from_slice(&response(0, &[], b"", b""));
        // what follows the sentinel is not read
        bytes.extend_from_slice(&response(0, &[], b"late", b"entry"));
        let stats = parse_stats_response(&bytes).unwrap();
        assert_eq!(stats.len(), count);
        for i in 0..count {
            let name = format!("stat{}", i);
            assert_eq!(stats.get(&name), Some(&format!("value {}", i * 3)));
        }
        assert_eq!(stats.get("late"), None);
    }
}

#[test]
fn stats_keeps_the_last_value_of_a_repeated_name() {
    let mut bytes = Vec::new();
    bytes.extend_from_slice(&response(0, &[], b"pid", b"1"));
    bytes.extend_from_slice(&response(0, &[], b"uptime", b"5"));
    bytes.extend_from_slice(&response(0, &[], b"pid", b"2"));
    bytes.extend_from_slice(&response(0, &[], b"", b""));
    let stats = parse_stats_response(&bytes).unwrap();
    assert_eq!(stats.len(), 2);
    assert_eq!(stats.get("pid"), Some(&String::from("2")));
    assert_eq!(stats.get("uptime"), Some(&String::from("5")));
}

#[test]
fn stats_entry_with_empty_key_but_a_value_is_an_entry() {
    let mut bytes = Vec::new();
    bytes.extend_from_slice(&response(0, &[], b"", b"lonely"));
    bytes.extend_from_slice(&response(0, &[], b"", b""));
    let stats = parse_stats_response(&bytes).unwrap();
    assert_eq!(stats.len(), 1);
    assert_eq!(stats.get(""), Some(&String::from("lonely")));
}

#[test]
fn stats_without_sentinel_is_an_early_end() {
    let mut bytes = Vec::new();
    bytes.extend_from_slice(&response(0, &[], b"pid", b"1"));
    assert_eq!(
        parse_stats_response(&bytes).err(),
        Some(MemcacheError::IOError(TransportError::UnexpectedEof))
    );
}

#[test]
fn stats_fails_on_error_status_and_on_bad_text() {
    let mut bytes = Vec::new();
    bytes.extend_from_slice(&response(0, &[], b"pid", b"1"));
    bytes.extend_from_slice(&response(0x82, &[], b"", b""));
    assert_eq!(
        parse_stats_response(&bytes).err(),
        Some(MemcacheError::CommandError(CommandError::OutOfMemory))
    );
    let mut bytes = Vec::new();
    bytes.extend_from_slice(&response(0, &[], &[0xc0], b"1"));
    bytes.extend_from_slice(&response(0, &[], b"", b""));
    assert_eq!(
        parse_stats_response(&bytes).err(),
        Some(MemcacheError::ParseError(ParseError::Utf8))
    );
    let mut bytes = Vec::new();
    bytes.extend_from_slice(&response(0, &[], b"pid", &[0xff]));
    bytes.extend_from_slice(&response(0, &[], b"", b""));
    assert_eq!(
        parse_stats_response(&bytes).err(),
        Some(MemcacheError::ParseError(ParseError::Utf8))
    );
}
