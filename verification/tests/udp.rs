use memcache::stream::udp_stream::{
    split_message, FrameHeader, Reassembly, FRAME_HEADER_LEN, MAX_DATAGRAM_LEN, MAX_PAYLOAD_LEN,
};
use memcache::{MemcacheError, TransportError, UdpStream};

fn datagram(request_id: u16, sequence_number: u16, total: u16, payload: &[u8]) -> Vec<u8> {
    let mut bytes = Vec::new();
    FrameHeader { request_id, sequence_number, total_datagrams: total, reserved: 0 }
        .write(&mut bytes);
    bytes.extend_from_slice(payload);
    bytes
}

fn message(len: usize) -> Vec<u8> {
    (0..len).map(|i| (i * 7 + i / 256) as u8).collect()
}

#[test]
fn frame_header_is_eight_bytes_big_endian() {
    let mut bytes = Vec::new();
    FrameHeader { request_id: 0x1234, sequence_number: 0x0002, total_datagrams: 0x0103, reserved: 0 }
        .write(&mut bytes);
    assert_eq!(bytes, vec![0x12, 0x34, 0x00, 0x02, 0x01, 0x03, 0x00, 0x00]);
    assert_eq!(bytes.len(), FRAME_HEADER_LEN);
    assert_eq!(MAX_PAYLOAD_LEN + FRAME_HEADER_LEN, MAX_DATAGRAM_LEN);
}

#[test]
fn frame_header_is_read_back() {
    let header =
        FrameHeader { request_id: 0xfffe, sequence_number: 0x8001, total_datagrams: 0x8002, reserved: 0x0a0b };
    let mut bytes = Vec::new();
    header.write(&mut bytes);
    bytes.extend_from_slice(b"payload");
    assert_eq!(FrameHeader::read(&bytes), Ok(header));
}

#[test]
fn datagram_shorter_than_a_header_is_refused() {
    let bad = Err(MemcacheError::IOError(TransportError::InvalidDatagram));
    assert_eq!(FrameHeader::read(&[]), bad);
    assert_eq!(FrameHeader::read(&[0; 7]), bad);
    assert!(FrameHeader::read(&[0; 8]).is_ok());
    let mut reassembly = Reassembly::new();
    assert_eq!(reassembly.accept(&[1, 2, 3]), Err(MemcacheError::IOError(TransportError::InvalidDatagram)));
}

#[test]
fn short_message_is_one_datagram() {
    let datagrams = split_message(b"version\r\n", 0x0a0b).unwrap();
    assert_eq!(datagrams.len(), 1);
    assert_eq!(datagrams[0], datagram(0x0a0b, 0, 1, b"version\r\n"));
}

#[test]
fn empty_message_is_one_empty_datagram() {
    let datagrams = split_message(b"", 7).unwrap();
    assert_eq!(datagrams, vec![datagram(7, 0, 1, b"")]);
}

#[test]
fn message_of_exactly_one_payload_is_one_datagram() {
    let bytes = message(MAX_PAYLOAD_LEN);
    let datagrams = split_message(&bytes, 1).unwrap();
    assert_eq!(datagrams.len(), 1);
    assert_eq!(datagrams[0].len(), MAX_DATAGRAM_LEN);
    let datagrams = split_message(&message(MAX_PAYLOAD_LEN + 1), 1).unwrap();
    assert_eq!(datagrams.len(), 2);
    assert_eq!(datagrams[1].len(), FRAME_HEADER_LEN + 1);
}

#[test]
fn long_message_is_split_and_numbered_from_zero() {
    let bytes = message(3000);
    let datagrams = split_message(&bytes, 0xbeef).unwrap();
    assert_eq!(datagrams.len(), 3);
    assert_eq!(datagrams[0], datagram(0xbeef, 0, 3, &bytes[..1392]));
    assert_eq!(datagrams[1], datagram(0xbeef, 1, 3, &bytes[1392..2784]));
    assert_eq!(datagrams[2], datagram(0xbeef, 2, 3, &bytes[2784..]));
    for d in &datagrams {
        assert!(d.len() <= MAX_DATAGRAM_LEN);
    }
}

#[test]
fn fragments_two_zero_one_give_the_message_back() {
    let bytes = message(3000);
    let datagrams = split_message(&bytes, 0x4242).unwrap();
    let mut reassembly = Reassembly::new();
    assert_eq!(reassembly.accept(&datagrams[2]), Ok(false));
    assert_eq!(reassembly.message(), None);
    assert_eq!(reassembly.accept(&datagrams[0]), Ok(false));
    assert!(!reassembly.is_complete());
    assert_eq!(reassembly.accept(&datagrams[1]), Ok(true));
    assert!(reassembly.is_complete());
    assert_eq!(reassembly.message(), Some(bytes));
}

#[test]
fn fragment_with_another_request_id_is_discarded() {
    let bytes = message(3000);
    let datagrams = split_message(&bytes, 0x4242).unwrap();
    let strays = split_message(&message(2000), 0x4243).unwrap();
    let mut reassembly = Reassembly::new();
    assert_eq!(reassembly.accept(&datagrams[2]), Ok(false));
    assert_eq!(reassembly.accept(&strays[0]), Ok(false));
    assert_eq!(reassembly.accept(&datagrams[0]), Ok(false));
    assert_eq!(reassembly.accept(&strays[1]), Ok(false));
    assert_eq!(reassembly.accept(&datagram(0x0001, 1, 3, b"cross-talk")), Ok(false));
    assert_eq!(reassembly.accept(&datagrams[1]), Ok(true));
    assert_eq!(reassembly.message(), Some(bytes));
}

#[test]
fn every_order_of_three_fragments_gives_the_message_back() {
    let bytes = message(4000);
    let datagrams = split_message(&bytes, 5).unwrap();
    assert_eq!(datagrams.len(), 3);
    for order in [[0, 1, 2], [0, 2, 1], [1, 0, 2], [1, 2, 0], [2, 0, 1], [2, 1, 0]] {
        let mut reassembly = Reassembly::new();
        assert_eq!(reassembly.accept(&datagrams[order[0]]), Ok(false));
        assert_eq!(reassembly.accept(&datagrams[order[1]]), Ok(false));
        assert_eq!(reassembly.accept(&datagrams[order[2]]), Ok(true));
        assert_eq!(reassembly.message(), Some(bytes.clone()));
    }
}

#[test]
fn repeated_fragment_does_not_complete_the_message() {
    let datagrams = split_message(&message(3000), 5).unwrap();
    let mut reassembly = Reassembly::new();
    assert_eq!(reassembly.accept(&datagrams[0]), Ok(false));
    assert_eq!(reassembly.accept(&datagrams[0]), Ok(false));
    assert_eq!(reassembly.accept(&datagrams[1]), Ok(false));
    assert_eq!(reassembly.accept(&datagrams[1]), Ok(false));
    assert_eq!(reassembly.message(), None);
    assert_eq!(reassembly.accept(&datagrams[2]), Ok(true));
}

#[test]
fn the_count_is_the_one_that_datagram_zero_declares() {
    let mut reassembly = Reassembly::new();
    // datagram one claims a count of one, but only datagram zero is heard on that
    assert_eq!(reassembly.accept(&datagram(9, 1, 1, b"world")), Ok(false));
    assert_eq!(reassembly.accept(&datagram(9, 0, 2, b"hello ")), Ok(true));
    assert_eq!(reassembly.message(), Some(b"hello world".to_vec()));
}

#[test]
fn stream_buffers_writes_until_flush() {
    let mut stream = UdpStream::new();
    assert_eq!(stream.write(b"get "), 4);
    assert_eq!(stream.write(b"foo\r\n"), 5);
    let datagrams = stream.flush().unwrap();
    assert_eq!(datagrams.len(), 1);
    assert_eq!(datagrams[0], datagram(stream.request_id(), 0, 1, b"get foo\r\n"));
    // the buffer is empty again
    let datagrams = stream.flush().unwrap();
    assert_eq!(datagrams, vec![datagram(stream.request_id(), 0, 1, b"")]);
}

#[test]
fn stream_delivers_nothing_until_the_response_is_whole() {
    let response = message(5000);
    let parts = split_message(&response, 77).unwrap();
    assert_eq!(parts.len(), 4);
    let mut stream = UdpStream::new();
    stream.write(b"get foo\r\n");
    stream.flush().unwrap();
    let mut buf = [0u8; 64];
    for i in [3, 1, 0] {
        assert_eq!(stream.receive(&parts[i]), Ok(false));
        assert_eq!(stream.read(&mut buf), 0);
    }
    assert_eq!(stream.receive(&datagram(78, 2, 4, b"stray")), Ok(false));
    assert_eq!(stream.read(&mut buf), 0);
    assert_eq!(stream.receive(&parts[2]), Ok(true));
    let mut read = Vec::new();
    loop {
        let n = stream.read(&mut buf);
        if n == 0 {
            break;
        }
        read.extend_from_slice(&buf[..n]);
    }
    assert_eq!(read, response);
}

#[test]
fn stream_read_fills_the_front_of_the_buffer_and_leaves_the_rest() {
    let mut stream = UdpStream::new();
    stream.flush().unwrap();
    assert_eq!(stream.receive(&datagram(1, 0, 1, b"abcdef")), Ok(true));
    let mut buf = [b'.'; 4];
    assert_eq!(stream.read(&mut buf), 4);
    assert_eq!(&buf, b"abcd");
    let mut buf = [b'.'; 4];
    assert_eq!(stream.read(&mut buf), 2);
    assert_eq!(&buf, b"ef..");
    assert_eq!(stream.read(&mut buf), 0);
    assert_eq!(stream.read(&mut []), 0);
}

#[test]
fn flush_starts_a_new_exchange() {
    let mut stream = UdpStream::new();
    stream.flush().unwrap();
    assert_eq!(stream.receive(&datagram(1, 0, 1, b"first")), Ok(true));
    // datagrams after the whole response are passed over
    assert_eq!(stream.receive(&datagram(1, 0, 1, b"again")), Ok(true));
    stream.write(b"next");
    stream.flush().unwrap();
    let mut buf = [0u8; 16];
    assert_eq!(stream.read(&mut buf), 0);
    assert_eq!(stream.receive(&datagram(2, 0, 1, b"second")), Ok(true));
    assert_eq!(stream.read(&mut buf), 6);
    assert_eq!(&buf[..6], b"second");
}

#[test]
fn stream_refuses_a_short_datagram() {
    let mut stream = UdpStream::new();
    stream.flush().unwrap();
    assert_eq!(
        stream.receive(&[0, 1, 0, 0, 0, 1, 0]),
        Err(MemcacheError::IOError(TransportError::InvalidDatagram))
    );
    assert_eq!(stream.receive(&datagram(1, 0, 1, b"ok")), Ok(true));
}

#[test]
fn message_of_more_datagrams_than_can_be_numbered_is_refused() {
    let most = vec![0u8; 65535 * MAX_PAYLOAD_LEN];
    let datagrams = split_message(&most, 1).unwrap();
    assert_eq!(datagrams.len(), 65535);
    assert_eq!(&datagrams[65534][..8], &[0, 1, 0xff, 0xfe, 0xff, 0xff, 0, 0]);
    drop(datagrams);
    let mut too_long = most;
    too_long.push(0);
    assert_eq!(
        split_message(&too_long, 1),
        Err(MemcacheError::ClientError(memcache::ClientError::ValueTooLong))
    );
    let mut stream = UdpStream::new();
    assert_eq!(stream.write(&too_long), too_long.len());
    assert_eq!(
        stream.flush(),
        Err(MemcacheError::ClientError(memcache::ClientError::ValueTooLong))
    );
}
